//! The certificate of the proxy and its key.

use vstd::prelude::*;
use vstd::string::*;

use crate::config::TlsConfig;
use crate::text::string_views;

verus! {

/// The certificates in a PEM file, in their order, or `None` where one of its
/// sections is malformed.
pub uninterp spec fn pem_certificates(pem: Seq<u8>) -> Option<Seq<Seq<u8>>>;

/// The PKCS #8 keys in a PEM file, in their order, or `None` where one of its
/// sections is malformed.
pub uninterp spec fn pem_pkcs8_keys(pem: Seq<u8>) -> Option<Seq<Seq<u8>>>;

/// The views of a list of byte strings.
pub open spec fn block_views(blocks: Seq<Vec<u8>>) -> Seq<Seq<u8>> {
    blocks.map_values(|b: Vec<u8>| b@)
}

/// The view of what was found in a file.
pub open spec fn found_view(blocks: Option<Vec<Vec<u8>>>) -> Option<Seq<Seq<u8>>> {
    match blocks {
        Some(b) => Some(block_views(b@)),
        None => None,
    }
}

/// Calls `rustls_pemfile::certs` until it is through or fails: a function of the
/// bytes alone.
#[verifier::external_body]
fn read_certificates(pem: &[u8]) -> (r: Option<Vec<Vec<u8>>>)
    ensures
        found_view(r) == pem_certificates(pem@),
{
    let mut bytes = pem;
    rustls_pemfile::certs(&mut bytes)
        .map(|c| c.map(|der| der.as_ref().to_vec()))
        .collect::<Result<Vec<Vec<u8>>, std::io::Error>>()
        .ok()
}

/// Calls `rustls_pemfile::pkcs8_private_keys` until it is through or fails: a
/// function of the bytes alone.
#[verifier::external_body]
fn read_pkcs8_keys(pem: &[u8]) -> (r: Option<Vec<Vec<u8>>>)
    ensures
        found_view(r) == pem_pkcs8_keys(pem@),
{
    let mut bytes = pem;
    rustls_pemfile::pkcs8_private_keys(&mut bytes)
        .map(|k| k.map(|der| der.secret_pkcs8_der().to_vec()))
        .collect::<Result<Vec<Vec<u8>>, std::io::Error>>()
        .ok()
}

/// Why there is no certificate to serve with.
pub enum TlsError {
    /// The certificate's file cannot be opened.
    CertFile(String),
    /// The key's file cannot be opened.
    KeyFile(String),
    /// The certificate's file is malformed.
    BadCert,
    /// The key's file is malformed.
    BadKey,
    /// There is no key in the key's file.
    NoKey,
    /// The certificate and the key do not make a server.
    BadConfig,
}

impl TlsError {
    /// The error in words.
    pub open spec fn text(self) -> Seq<char> {
        match self {
            TlsError::CertFile(path) => "Cannot open cert file: "@ + path@,
            TlsError::KeyFile(path) => "Cannot open key file: "@ + path@,
            TlsError::BadCert => "Failed to parse TLS certificate"@,
            TlsError::BadKey => "Failed to parse private key"@,
            TlsError::NoKey => "No private key found in key file"@,
            TlsError::BadConfig => "Failed to build TLS config"@,
        }
    }

    /// Puts the error into words.
    pub fn message(&self) -> (r: String)
        ensures
            r@ == self.text(),
    {
        match self {
            TlsError::CertFile(path) => "Cannot open cert file: ".to_owned().concat(path.as_str()),
            TlsError::KeyFile(path) => "Cannot open key file: ".to_owned().concat(path.as_str()),
            TlsError::BadCert => "Failed to parse TLS certificate".to_owned(),
            TlsError::BadKey => "Failed to parse private key".to_owned(),
            TlsError::NoKey => "No private key found in key file".to_owned(),
            TlsError::BadConfig => "Failed to build TLS config".to_owned(),
        }
    }
}

/// A chain of certificates and the key of the first.
pub struct Identity {
    pub chain: Vec<Vec<u8>>,
    pub key: Vec<u8>,
}

/// The identity has this chain and this key.
pub open spec fn identity_is(identity: Identity, chain: Seq<Seq<u8>>, key: Seq<u8>) -> bool {
    block_views(identity.chain@) == chain && identity.key@ == key
}

/// What is wrong with the certificates and the keys that were found: a malformed
/// certificate counts before a malformed key, and that before a missing one.
pub open spec fn pem_error(
    chain: Option<Seq<Seq<u8>>>,
    keys: Option<Seq<Seq<u8>>>,
) -> Option<TlsError> {
    match (chain, keys) {
        (None, _) => Some(TlsError::BadCert),
        (Some(_), None) => Some(TlsError::BadKey),
        (Some(_), Some(k)) => if k.len() == 0 {
            Some(TlsError::NoKey)
        } else {
            None
        },
    }
}

/// What follows from the certificates and the keys that were found: where
/// nothing is wrong, the first key goes with all of the certificates.
pub open spec fn is_identity_of(
    chain: Option<Seq<Seq<u8>>>,
    keys: Option<Seq<Seq<u8>>>,
    r: Result<Identity, TlsError>,
) -> bool {
    match pem_error(chain, keys) {
        Some(e) => r == Err::<Identity, TlsError>(e),
        None => r matches Ok(identity) && identity_is(identity, chain->0, keys->0[0]),
    }
}

/// Settles on the certificates and the key to serve with.
pub fn choose_identity(chain: Option<Vec<Vec<u8>>>, keys: Option<Vec<Vec<u8>>>) -> (r: Result<
    Identity,
    TlsError,
>)
    ensures
        is_identity_of(found_view(chain), found_view(keys), r),
{
    let chain = match chain {
        Some(chain) => chain,
        None => return Err(TlsError::BadCert),
    };
    let mut keys = match keys {
        Some(keys) => keys,
        None => return Err(TlsError::BadKey),
    };
    if keys.len() == 0 {
        return Err(TlsError::NoKey);
    }
    let ghost all = block_views(keys@);
    let key = keys.remove(0);
    assert(key@ == all[0]);
    Ok(Identity { chain, key })
}

/// Reads the certificates and the key to serve with from the contents of their
/// files.
pub fn load_identity(cert_pem: &[u8], key_pem: &[u8]) -> (r: Result<Identity, TlsError>)
    ensures
        is_identity_of(pem_certificates(cert_pem@), pem_pkcs8_keys(key_pem@), r),
{
    choose_identity(read_certificates(cert_pem), read_pkcs8_keys(key_pem))
}

#[verifier::external_type_specification]
#[verifier::external_body]
pub struct ExTlsAcceptor(tokio_rustls::TlsAcceptor);

/// The certificates that an acceptor serves with.
pub uninterp spec fn served_chain(acceptor: tokio_rustls::TlsAcceptor) -> Seq<Seq<u8>>;

/// The key that an acceptor serves with.
pub uninterp spec fn served_key(acceptor: tokio_rustls::TlsAcceptor) -> Seq<u8>;

/// Calls `rustls::ServerConfig::builder`, `with_no_client_auth` and
/// `with_single_cert` in turn, then `tokio_rustls::TlsAcceptor::from`: the
/// acceptor that serves with these certificates and this key, or `None` where
/// the key is invalid or does not belong to the first certificate. Which of the
/// two it is, is for the cryptography of the process to say, which draws random
/// numbers, so nothing is promised of that. There always is such a cryptography, since `ring` is the
/// one that is compiled in.
#[verifier::external_body]
fn serve_with(identity: Identity) -> (r: Option<tokio_rustls::TlsAcceptor>)
    ensures
        r matches Some(a) ==> served_chain(a) == block_views(identity.chain@),
        r matches Some(a) ==> served_key(a) == identity.key@,
{
    let chain = identity.chain.into_iter().map(rustls::pki_types::CertificateDer::from).collect();
    let key = rustls::pki_types::PrivatePkcs8KeyDer::from(identity.key);
    rustls::ServerConfig::builder()
        .with_no_client_auth()
        .with_single_cert(chain, key.into())
        .ok()
        .map(|config| tokio_rustls::TlsAcceptor::from(std::sync::Arc::new(config)))
}

/// Makes the acceptor for the settings from the contents of their two files,
/// `None` where a file cannot be opened.
pub fn build_acceptor(
    cfg: &TlsConfig,
    cert_pem: Option<Vec<u8>>,
    key_pem: Option<Vec<u8>>,
) -> (r: Result<tokio_rustls::TlsAcceptor, TlsError>)
    ensures
        match (cert_pem, key_pem) {
            (None, _) => r matches Err(TlsError::CertFile(path)) && path@ == cfg.cert@,
            (Some(_), None) => r matches Err(TlsError::KeyFile(path)) && path@ == cfg.key@,
            (Some(cert), Some(key)) => match pem_error(
                pem_certificates(cert@),
                pem_pkcs8_keys(key@),
            ) {
                Some(e) => r matches Err(error) && error == e,
                None => match r {
                    Ok(acceptor) => {
                        &&& served_chain(acceptor) == pem_certificates(cert@)->0
                        &&& served_key(acceptor) == pem_pkcs8_keys(key@)->0[0]
                    },
                    Err(error) => error is BadConfig,
                },
            },
        },
{
    let cert_pem = match cert_pem {
        Some(bytes) => bytes,
        None => return Err(TlsError::CertFile(cfg.cert.clone())),
    };
    let key_pem = match key_pem {
        Some(bytes) => bytes,
        None => return Err(TlsError::KeyFile(cfg.key.clone())),
    };
    match load_identity(cert_pem.as_slice(), key_pem.as_slice()) {
        Ok(identity) => match serve_with(identity) {
            Some(acceptor) => Ok(acceptor),
            None => Err(TlsError::BadConfig),
        },
        Err(e) => Err(e),
    }
}

/// The arguments with which `openssl` makes a certificate that signs itself, for
/// development: good for a year, for `localhost`, its key not encrypted.
pub open spec fn self_signed_command(cert_path: Seq<char>, key_path: Seq<char>) -> Seq<Seq<char>> {
    seq![
        "req"@,
        "-x509"@,
        "-newkey"@,
        "rsa:4096"@,
        "-keyout"@,
        key_path,
        "-out"@,
        cert_path,
        "-days"@,
        "365"@,
        "-nodes"@,
        "-subj"@,
        "/CN=localhost"@,
    ]
}

/// The arguments with which `openssl` makes a certificate that signs itself.
pub fn self_signed_args(cert_path: &str, key_path: &str) -> (r: Vec<String>)
    ensures
        string_views(r@) == self_signed_command(cert_path@, key_path@),
{
    let mut r: Vec<String> = Vec::new();
    r.push("req".to_owned());
    r.push("-x509".to_owned());
    r.push("-newkey".to_owned());
    r.push("rsa:4096".to_owned());
    r.push("-keyout".to_owned());
    r.push(key_path.to_owned());
    r.push("-out".to_owned());
    r.push(cert_path.to_owned());
    r.push("-days".to_owned());
    r.push("365".to_owned());
    r.push("-nodes".to_owned());
    r.push("-subj".to_owned());
    r.push("/CN=localhost".to_owned());
    assert(string_views(r@) =~= self_signed_command(cert_path@, key_path@));
    r
}

/// There is an identity exactly if both files are well formed and there is a key:
/// it has all of the certificates, in their order, and the first key. Otherwise
/// the error says what is wrong, the certificates first.
pub proof fn law_identity(
    chain: Option<Seq<Seq<u8>>>,
    keys: Option<Seq<Seq<u8>>>,
    r: Result<Identity, TlsError>,
)
    requires
        is_identity_of(chain, keys, r),
    ensures
        r is Ok <==> chain is Some && keys is Some && keys->0.len() > 0,
        r matches Ok(identity) ==> {
            &&& identity.chain@.len() == chain->0.len()
            &&& forall|i: int|
                0 <= i < chain->0.len() ==> (#[trigger] identity.chain@[i])@ == chain->0[i]
            &&& identity.key@ == keys->0[0]
        },
        chain is None ==> r matches Err(TlsError::BadCert),
        chain is Some && keys is None ==> r matches Err(TlsError::BadKey),
        chain is Some && keys is Some && keys->0.len() == 0 ==> r matches Err(TlsError::NoKey),
        pem_error(chain, keys) is None <==> chain is Some && keys is Some && keys->0.len() > 0,
{
    if let Ok(identity) = r {
        assert forall|i: int| 0 <= i < chain->0.len() implies (#[trigger] identity.chain@[i])@
            == chain->0[i] by {
            assert(block_views(identity.chain@)[i] == identity.chain@[i]@);
        }
    }
}

/// An error is put into its own words, and one about a file names the file.
pub proof fn law_tls_errors_in_words(e: TlsError)
    ensures
        e matches TlsError::CertFile(path) ==> e.text() == "Cannot open cert file: "@ + path@,
        e matches TlsError::KeyFile(path) ==> e.text() == "Cannot open key file: "@ + path@,
        e is BadCert ==> e.text() == "Failed to parse TLS certificate"@,
        e is BadKey ==> e.text() == "Failed to parse private key"@,
        e is NoKey ==> e.text() == "No private key found in key file"@,
        e is BadConfig ==> e.text() == "Failed to build TLS config"@,
{
}

/// The command for a certificate that signs itself asks for the key and the
/// certificate at their own paths, for a year, unencrypted and for `localhost`.
pub proof fn law_self_signed_command(cert_path: Seq<char>, key_path: Seq<char>)
    ensures
        ({
            let args = self_signed_command(cert_path, key_path);
            &&& args.take(4) == seq!["req"@, "-x509"@, "-newkey"@, "rsa:4096"@]
            &&& args.subrange(4, 6) == seq!["-keyout"@, key_path]
            &&& args.subrange(6, 8) == seq!["-out"@, cert_path]
            &&& args.skip(8) == seq!["-days"@, "365"@, "-nodes"@, "-subj"@, "/CN=localhost"@]
        }),
{
}

/// What was found in a file is seen block by block, and as nothing where the file
/// is malformed.
pub proof fn law_blocks_are_seen_whole(found: Option<Vec<Vec<u8>>>, i: int)
    ensures
        found is None <==> found_view(found) is None,
        found matches Some(blocks) ==> {
            &&& found_view(found)->0.len() == blocks@.len()
            &&& 0 <= i < blocks@.len() ==> found_view(found)->0[i] == blocks@[i]@
        },
{
}

} // verus!
