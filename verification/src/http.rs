//! Plain pictures of HTTP messages, and the rules on what may stand in them.

use vstd::prelude::*;
use vstd::string::*;
use vstd::utf8::*;

use crate::digest::{latin1, latin1_text};
use crate::strmap::{lemma_pairs_map_dom, lemma_pairs_map_get, StrMap};
use crate::text::{
    all_ascii, decimal, decimal_number, law_decimal_reads_back, lowercase, push_decimal, to_lowercase,
};

verus! {

/// Whether a string can be the name of a header.
pub uninterp spec fn valid_header_name(name: Seq<char>) -> bool;

/// Whether a string can be the method of a request.
pub uninterp spec fn valid_method(method: Seq<char>) -> bool;

/// Whether a string is a URI.
pub uninterp spec fn valid_uri(uri: Seq<char>) -> bool;

/// Whether a number can be the status of a response.
pub open spec fn valid_status(status: u16) -> bool {
    100 <= status <= 999
}

/// Whether a string can be the value of a header: no byte of it is a control
/// character other than the tab.
pub open spec fn valid_header_value(value: Seq<char>) -> bool {
    forall|i: int|
        0 <= i < encode_utf8(value).len() ==> (#[trigger] encode_utf8(value)[i] == 9 || (
        encode_utf8(value)[i] >= 32 && encode_utf8(value)[i] != 127))
}

/// Tests whether a number can be the status of a response.
pub fn status_ok(status: u16) -> (r: bool)
    ensures
        r == valid_status(status),
{
    100 <= status && status <= 999
}

/// Calls `hyper::header::HeaderName::from_bytes`: whether it takes the name is a
/// function of the name alone.
#[verifier::external_body]
fn header_name_ok(name: &str) -> (r: bool)
    ensures
        r == valid_header_name(name@),
{
    hyper::header::HeaderName::from_bytes(name.as_bytes()).is_ok()
}

/// Tests whether a string can be the value of a header.
fn header_value_ok(value: &str) -> (r: bool)
    ensures
        r == valid_header_value(value@),
{
    let bytes = value.as_bytes();
    let mut i: usize = 0;
    while i < bytes.len()
        invariant
            i <= bytes.len(),
            bytes@ == encode_utf8(value@),
            forall|j: int|
                0 <= j < i ==> (#[trigger] bytes@[j] == 9 || (bytes@[j] >= 32 && bytes@[j] != 127)),
        decreases bytes.len() - i,
    {
        let b = bytes[i];
        if !(b == 9 || (b >= 32 && b != 127)) {
            assert(encode_utf8(value@)[i as int] == b);
            return false;
        }
        i += 1;
    }
    true
}

/// Calls `hyper::Method::from_bytes`: whether it takes the method is a function
/// of the method alone.
#[verifier::external_body]
fn method_ok(method: &str) -> (r: bool)
    ensures
        r == valid_method(method@),
{
    hyper::Method::from_bytes(method.as_bytes()).is_ok()
}

/// Parses with `hyper::Uri`: whether a string is a URI is a function of the
/// string alone.
#[verifier::external_body]
pub(crate) fn uri_ok(uri: &str) -> (r: bool)
    ensures
        r == valid_uri(uri@),
{
    uri.parse::<hyper::Uri>().is_ok()
}

/// Whether every name and value of a set of headers can be sent.
pub open spec fn valid_headers(headers: Map<Seq<char>, Seq<char>>) -> bool {
    forall|k: Seq<char>|
        #[trigger] headers.contains_key(k) ==> valid_header_name(k) && valid_header_value(
            headers[k],
        )
}

/// Tests whether every name and value of a set of headers can be sent.
pub fn headers_ok(headers: &StrMap) -> (r: bool)
    ensures
        r == valid_headers(headers@),
{
    let n = headers.len();
    let mut i: usize = 0;
    while i < n
        invariant
            i <= n,
            n == headers.entries().len(),
            forall|j: int|
                0 <= j < i ==> valid_header_name((#[trigger] headers.entries()[j]).0)
                    && valid_header_value(headers.entries()[j].1),
        decreases n - i,
    {
        let (name, value) = headers.entry(i);
        if !header_name_ok(name) || !header_value_ok(value) {
            assert(headers@.contains_key(name@));
            return false;
        }
        i += 1;
    }
    proof {
        assert forall|k: Seq<char>| #[trigger] headers@.contains_key(k) implies valid_header_name(k)
            && valid_header_value(headers@[k]) by {
            lemma_pairs_map_dom(headers.entries(), k);
            let j = choose|j: int|
                0 <= j < headers.entries().len() && (#[trigger] headers.entries()[j]).0 == k;
            lemma_pairs_map_get(headers.entries(), j);
        }
    }
    true
}

/// Whether a request can be built from these parts.
pub fn request_ok(method: &str, uri: &str, headers: &StrMap) -> (r: bool)
    ensures
        r == (valid_method(method@) && valid_uri(uri@) && valid_headers(headers@)),
{
    method_ok(method) && uri_ok(uri) && headers_ok(headers)
}

/// Whether a header value is all visible ASCII, spaces and tabs, and so can be
/// read as text.
pub open spec fn readable(value: Seq<u8>) -> bool {
    forall|i: int| 0 <= i < value.len() ==> (#[trigger] value[i] == 9 || 32 <= value[i] < 127)
}

/// The text of a header value, if it can be read as text.
pub fn header_text(value: &[u8]) -> (r: Option<String>)
    ensures
        r is Some <==> readable(value@),
        r matches Some(s) ==> s@ == latin1(value@),
{
    let mut i: usize = 0;
    while i < value.len()
        invariant
            i <= value.len(),
            forall|j: int| 0 <= j < i ==> (#[trigger] value@[j] == 9 || 32 <= value@[j] < 127),
        decreases value.len() - i,
    {
        let b = value[i];
        if !(b == 9 || (32 <= b && b < 127)) {
            assert(value@[i as int] == b);
            return None;
        }
        i += 1;
    }
    Some(latin1_text(value))
}

/// A header as it came off the wire: its name, and its value as bytes.
pub struct RawHeader {
    pub name: String,
    pub value: Vec<u8>,
}

/// The headers of a message: names in lower case, values that cannot be read as
/// text left out, and of several values of one name the last that can.
pub open spec fn collected(raw: Seq<RawHeader>) -> Map<Seq<char>, Seq<char>>
    decreases raw.len(),
{
    if raw.len() == 0 {
        Map::empty()
    } else if readable(raw.last().value@) {
        collected(raw.drop_last()).insert(
            lowercase(raw.last().name@),
            latin1(raw.last().value@),
        )
    } else {
        collected(raw.drop_last())
    }
}

/// Collects the headers of a message.
pub fn collect_headers(raw: &Vec<RawHeader>) -> (r: StrMap)
    ensures
        r@ == collected(raw@),
{
    let mut out = StrMap::new();
    let mut i: usize = 0;
    while i < raw.len()
        invariant
            i <= raw.len(),
            out@ == collected(raw@.take(i as int)),
        decreases raw.len() - i,
    {
        assert(raw@.take(i + 1).drop_last() =~= raw@.take(i as int));
        match header_text(raw[i].value.as_slice()) {
            Some(value) => out.insert(to_lowercase(raw[i].name.as_str()), value),
            None => {},
        }
        i += 1;
    }
    assert(raw@.take(i as int) =~= raw@);
    out
}

/// A response, ready to be sent.
pub struct Reply {
    pub status: u16,
    pub headers: StrMap,
    pub body: Vec<u8>,
}

/// The headers of a response that has a content type and nothing else.
pub open spec fn content_type(value: Seq<char>) -> Map<Seq<char>, Seq<char>> {
    Map::empty().insert("content-type"@, value)
}

impl Reply {
    /// The response has this status, these headers and this text as its body.
    pub open spec fn is(
        self,
        status: u16,
        headers: Map<Seq<char>, Seq<char>>,
        body: Seq<char>,
    ) -> bool {
        &&& self.status == status
        &&& self.headers@ == headers
        &&& self.body@ == encode_utf8(body)
    }
}

/// A response with a body of the given content type.
pub fn typed_reply(status: u16, kind: &str, body: &str) -> (r: Reply)
    ensures
        r.is(status, content_type(kind@), body@),
{
    let mut headers = StrMap::new();
    headers.insert("content-type".to_owned(), kind.to_owned());
    Reply { status, headers, body: body.as_bytes_vec() }
}

/// A response with a JSON body.
pub fn json_reply(status: u16, body: &str) -> (r: Reply)
    ensures
        r.is(status, content_type("application/json"@), body@),
{
    typed_reply(status, "application/json", body)
}

/// The body of an error response.
pub open spec fn error_body(status: u16, msg: Seq<char>) -> Seq<char> {
    "{\"error\":\""@ + msg + "\",\"status\":"@ + decimal(status as nat) + "}"@
}

/// The response that tells of an error.
pub fn error_response(status: u16, msg: &str) -> (r: Reply)
    requires
        valid_status(status),
    ensures
        r.is(status, content_type("application/json"@), error_body(status, msg@)),
{
    let mut body = "{\"error\":\"".to_owned();
    body.append(msg);
    body.append("\",\"status\":");
    push_decimal(&mut body, status as u64);
    body.append("}");
    json_reply(status, body.as_str())
}

/// A header that is read last overrides what the same name had before.
pub proof fn law_last_header_wins(raw: Seq<RawHeader>, last: RawHeader)
    requires
        readable(last.value@),
    ensures
        collected(raw.push(last)) == collected(raw).insert(
            lowercase(last.name@),
            latin1(last.value@),
        ),
{
    assert(raw.push(last).drop_last() =~= raw);
}

/// A header that cannot be read as text leaves the headers as they were.
pub proof fn law_unreadable_header_skipped(raw: Seq<RawHeader>, last: RawHeader)
    requires
        !readable(last.value@),
    ensures
        collected(raw.push(last)) == collected(raw),
{
    assert(raw.push(last).drop_last() =~= raw);
}

/// Every name in the headers of a message is the lower case of a name that was
/// sent with it.
pub proof fn law_collected_names(raw: Seq<RawHeader>, name: Seq<char>)
    requires
        collected(raw).contains_key(name),
    ensures
        exists|i: int| 0 <= i < raw.len() && lowercase((#[trigger] raw[i]).name@) == name,
    decreases raw.len(),
{
    if raw.len() > 0 {
        let rest = raw.drop_last();
        if readable(raw.last().value@) && lowercase(raw.last().name@) == name {
            assert(lowercase(raw[raw.len() - 1].name@) == name);
        } else {
            law_collected_names(rest, name);
            let i = choose|i: int|
                0 <= i < rest.len() && lowercase((#[trigger] rest[i]).name@) == name;
            assert(lowercase(raw[i].name@) == name);
        }
    }
}

/// A status has three digits.
pub proof fn law_status_has_three_digits(status: u16)
    ensures
        valid_status(status) <==> 1 <= status / 100 <= 9,
{
}

/// A header value that is ASCII can be sent exactly if none of its characters is
/// a control character, other than the tab.
pub proof fn law_ascii_header_value(value: Seq<char>)
    requires
        all_ascii(value),
    ensures
        valid_header_value(value) <==> forall|i: int|
            0 <= i < value.len() ==> (#[trigger] value[i]) as u32 == 9 || (32 <= value[i] as u32
                && value[i] as u32 != 127),
{
    assert forall|i: int| 0 <= i < value.len() implies '\0' <= #[trigger] value[i] <= '\u{7f}' by {
        lemma_char_lowest(value[i]);
    }
    is_ascii_chars_encode_utf8(value);
    let bytes = encode_utf8(value);
    assert forall|i: int| 0 <= i < value.len() implies #[trigger] bytes[i] == value[i] as u8
        && value[i] as u8 == value[i] as u32 by {
        lemma_ascii_byte(value[i]);
    }
    if valid_header_value(value) {
        assert forall|i: int| 0 <= i < value.len() implies (#[trigger] value[i]) as u32 == 9 || (32
            <= value[i] as u32 && value[i] as u32 != 127) by {
            assert(bytes[i] == 9 || (bytes[i] >= 32 && bytes[i] != 127));
        }
    }
    if forall|i: int|
        0 <= i < value.len() ==> (#[trigger] value[i]) as u32 == 9 || (32 <= value[i] as u32
            && value[i] as u32 != 127) {
        assert forall|i: int| 0 <= i < bytes.len() implies (#[trigger] bytes[i] == 9 || (bytes[i]
            >= 32 && bytes[i] != 127)) by {
            assert(value[i] as u32 == 9 || (32 <= value[i] as u32 && value[i] as u32 != 127));
        }
    }
}

proof fn lemma_char_lowest(c: char)
    ensures
        '\0' <= c,
{
}

proof fn lemma_ascii_byte(c: char)
    requires
        c <= '\u{7f}',
    ensures
        c as u8 == c as u32,
{
}

/// Headers can be sent exactly if each of them can: none at all can, and one more
/// with a new name can if its name and its value can.
pub proof fn law_headers_one_by_one(
    headers: Map<Seq<char>, Seq<char>>,
    name: Seq<char>,
    value: Seq<char>,
)
    requires
        !headers.contains_key(name),
    ensures
        valid_headers(Map::empty()),
        valid_headers(headers.insert(name, value)) <==> valid_headers(headers)
            && valid_header_name(name) && valid_header_value(value),
{
    let next = headers.insert(name, value);
    if valid_headers(next) {
        assert(next.contains_key(name));
        assert forall|k: Seq<char>| #[trigger] headers.contains_key(k) implies valid_header_name(k)
            && valid_header_value(headers[k]) by {
            assert(next.contains_key(k));
        }
    }
    if valid_headers(headers) && valid_header_name(name) && valid_header_value(value) {
        assert forall|k: Seq<char>| #[trigger] next.contains_key(k) implies valid_header_name(k)
            && valid_header_value(next[k]) by {
            if k != name {
                assert(headers.contains_key(k));
            }
        }
    }
}

/// A header value can be read as text exactly if each of its bytes is a tab, a
/// space or visible ASCII.
pub proof fn law_readable_byte_by_byte(value: Seq<u8>, b: u8)
    ensures
        readable(seq![]),
        readable(value.push(b)) <==> readable(value) && (b == 9 || 32 <= b <= 126),
{
    let next = value.push(b);
    if readable(next) {
        assert(next[value.len() as int] == b);
        assert forall|i: int| 0 <= i < value.len() implies (#[trigger] value[i] == 9 || 32
            <= value[i] < 127) by {
            assert(next[i] == value[i]);
        }
    }
}

/// A message without headers has none, and every name it has is one that it holds
/// the value of: the text of the last value of that name that can be read.
pub proof fn law_headers_are_collected(raw: Seq<RawHeader>, i: int)
    requires
        0 <= i < raw.len(),
        readable(raw[i].value@),
        forall|j: int|
            i < j < raw.len() && readable((#[trigger] raw[j]).value@) ==> lowercase(raw[j].name@)
                != lowercase(raw[i].name@),
    ensures
        collected(raw).contains_key(lowercase(raw[i].name@)),
        collected(raw)[lowercase(raw[i].name@)] == latin1(raw[i].value@),
    decreases raw.len(),
{
    if i < raw.len() - 1 {
        let rest = raw.drop_last();
        assert forall|j: int|
            i < j < rest.len() && readable((#[trigger] rest[j]).value@) implies lowercase(
            rest[j].name@,
        ) != lowercase(rest[i].name@) by {
            assert(raw[j] == rest[j]);
        }
        law_headers_are_collected(rest, i);
        assert(raw[raw.len() - 1] == raw.last());
    }
}

/// A message without headers has none.
pub proof fn law_no_headers_collected(name: Seq<char>)
    ensures
        !collected(seq![]).contains_key(name),
{
}

/// A response has the status, the headers and the body that are said of it, and a
/// body of text is the UTF-8 of the text.
pub proof fn law_reply_is(
    r: Reply,
    status: u16,
    headers: Map<Seq<char>, Seq<char>>,
    body: Seq<char>,
)
    ensures
        r.is(status, headers, body) <==> r.status == status && r.headers@ == headers && r.body@
            == encode_utf8(body),
{
}

/// A content type is the one header of its response.
pub proof fn law_content_type(value: Seq<char>, name: Seq<char>)
    ensures
        content_type(value).contains_key(name) <==> name == "content-type"@,
        content_type(value)["content-type"@] == value,
{
}

/// The body of an error is JSON with two members: the message first, in quotation
/// marks, then the status in decimal.
pub proof fn law_error_body(status: u16, msg: Seq<char>)
    ensures
        ({
            let body = error_body(status, msg);
            let n = msg.len() as int;
            let digits = body.subrange(21 + n, body.len() - 1);
            &&& body.take(10) == "{\"error\":\""@
            &&& body.subrange(10, 10 + n) == msg
            &&& body.subrange(10 + n, 21 + n) == "\",\"status\":"@
            &&& decimal_number(digits) == status
            &&& body.last() == '}'
        }),
{
    reveal_strlit("{\"error\":\"");
    reveal_strlit("\",\"status\":");
    reveal_strlit("}");
    law_decimal_reads_back(status as nat);
    let body = error_body(status, msg);
    let n = msg.len() as int;
    let digits = decimal(status as nat);
    assert(body.take(10) =~= "{\"error\":\""@);
    assert(body.subrange(10, 10 + n) =~= msg);
    assert(body.subrange(10 + n, 21 + n) =~= "\",\"status\":"@);
    assert(body.subrange(21 + n, body.len() - 1) =~= digits);
}

} // verus!
