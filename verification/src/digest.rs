//! The keyed digest that plugins see as `hmac.sha256`.

use vstd::prelude::*;

verus! {

/// The HMAC-SHA256 of a message under a key.
pub uninterp spec fn hmac_sha256(key: Seq<u8>, msg: Seq<u8>) -> Seq<u8>;

/// Bytes as text, where each byte is the character with its number.
pub open spec fn latin1(bytes: Seq<u8>) -> Seq<char> {
    bytes.map_values(|b: u8| b as char)
}

/// Calls `hmac::Hmac<sha2::Sha256>`: a fresh MAC keyed by `key`, which may have
/// any length, is fed `msg` and finished. The code is a function of the two
/// byte strings and has 32 bytes.
#[verifier::external_body]
fn hmac_sha256_code(key: &[u8], msg: &[u8]) -> (r: Vec<u8>)
    ensures
        r@ == hmac_sha256(key@, msg@),
        r@.len() == 32,
{
    let mut mac = <hmac::Hmac<sha2::Sha256> as hmac::Mac>::new_from_slice(key)
        .expect("HMAC can take key of any size");
    hmac::Mac::update(&mut mac, msg);
    hmac::Mac::finalize(mac).into_bytes().to_vec()
}

/// Writes each byte as the character with its number.
pub fn latin1_text(bytes: &[u8]) -> (r: String)
    ensures
        r@ == latin1(bytes@),
{
    let mut out = String::new();
    let mut i: usize = 0;
    while i < bytes.len()
        invariant
            i <= bytes.len(),
            out@ == latin1(bytes@).take(i as int),
        decreases bytes.len() - i,
    {
        out.push(bytes[i] as char);
        assert(latin1(bytes@).take(i + 1) =~= latin1(bytes@).take(i as int).push(
            bytes@[i as int] as char,
        ));
        i += 1;
    }
    assert(latin1(bytes@).take(i as int) =~= latin1(bytes@));
    out
}

/// The HMAC-SHA256 of `msg` under `secret`: its 32 bytes.
pub fn hmac_sha256_raw(msg: &[u8], secret: &[u8]) -> (r: Vec<u8>)
    ensures
        r@ == hmac_sha256(secret@, msg@),
        r@.len() == 32,
{
    hmac_sha256_code(secret, msg)
}

/// Text made of bytes keeps every one of them: two byte strings with the same
/// text are the same.
pub proof fn law_latin1_keeps_bytes(a: Seq<u8>, b: Seq<u8>)
    requires
        latin1(a) == latin1(b),
    ensures
        a == b,
{
    assert(latin1(a).len() == a.len());
    assert(latin1(b).len() == b.len());
    assert forall|i: int| 0 <= i < a.len() implies a[i] == b[i] by {
        assert(latin1(a)[i] == a[i] as char);
        assert(latin1(b)[i] == b[i] as char);
    }
    assert(a =~= b);
}

/// In text made of bytes each character has the number of its byte.
pub proof fn law_latin1_numbers(bytes: Seq<u8>, i: int)
    requires
        0 <= i < bytes.len(),
    ensures
        latin1(bytes).len() == bytes.len(),
        latin1(bytes)[i] as u32 == bytes[i] as u32,
{
}

} // verus!
