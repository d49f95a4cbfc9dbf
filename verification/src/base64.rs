//! The Base64 functions that plugins see as `base64.encode` and
//! `base64.decode`.

use vstd::prelude::*;
use vstd::string::*;
use vstd::utf8::*;

use crate::text::string_from_utf8;

verus! {

/// The character that stands for a group of six bits.
pub open spec fn sextet_char(v: nat) -> char {
    if v < 26 {
        ('A' as u8 + v) as char
    } else if v < 52 {
        ('a' as u8 + (v - 26)) as char
    } else if v < 62 {
        ('0' as u8 + (v - 52)) as char
    } else if v == 62 {
        '+'
    } else {
        '/'
    }
}

/// The group of six bits that a byte of Base64 text stands for, if it is in the
/// alphabet.
pub open spec fn sextet_value(c: u8) -> Option<nat> {
    if 'A' as u8 <= c <= 'Z' as u8 {
        Some((c - 'A' as u8) as nat)
    } else if 'a' as u8 <= c <= 'z' as u8 {
        Some((c - 'a' as u8 + 26) as nat)
    } else if '0' as u8 <= c <= '9' as u8 {
        Some((c - '0' as u8 + 52) as nat)
    } else if c == '+' as u8 {
        Some(62)
    } else if c == '/' as u8 {
        Some(63)
    } else {
        None
    }
}

/// Three bytes as one number of 24 bits.
pub open spec fn group_number(b0: u8, b1: u8, b2: u8) -> nat {
    (b0 * 65536 + b1 * 256 + b2) as nat
}

/// One group of text: four characters for up to three bytes, where a missing
/// byte counts as zero and `=` stands for the characters it leaves without bits.
pub open spec fn encode_group(group: Seq<u8>) -> Seq<char> {
    let n = group_number(
        group[0],
        if group.len() > 1 { group[1] } else { 0 },
        if group.len() > 2 { group[2] } else { 0 },
    );
    seq![
        sextet_char(n / 262144),
        sextet_char(n / 4096 % 64),
        if group.len() > 1 { sextet_char(n / 64 % 64) } else { '=' },
        if group.len() > 2 { sextet_char(n % 64) } else { '=' },
    ]
}

/// The Base64 text of a byte string, group by group.
pub open spec fn encoded(data: Seq<u8>) -> Seq<char>
    decreases data.len(),
{
    if data.len() == 0 {
        seq![]
    } else if data.len() <= 3 {
        encode_group(data)
    } else {
        encode_group(data.take(3)) + encoded(data.skip(3))
    }
}

/// Whether one of the four first bytes is the padding character.
pub open spec fn group_has_padding(text: Seq<u8>) -> bool {
    text[0] == '=' as u8 || text[1] == '=' as u8 || text[2] == '=' as u8 || text[3] == '=' as u8
}

/// Whether the four first bytes are all in the alphabet.
pub open spec fn group_in_alphabet(text: Seq<u8>) -> bool {
    sextet_value(text[0]) is Some && sextet_value(text[1]) is Some && sextet_value(text[2]) is Some
        && sextet_value(text[3]) is Some
}

/// The three bytes that four characters of the alphabet stand for.
pub open spec fn decode_group(text: Seq<u8>) -> Seq<u8> {
    let n = sextet_value(text[0])->0 * 262144 + sextet_value(text[1])->0 * 4096 + sextet_value(
        text[2],
    )->0 * 64 + sextet_value(text[3])->0;
    seq![(n / 65536) as u8, (n / 256 % 256) as u8, (n % 256) as u8]
}

/// The bytes that a last group with padding stands for: one byte for two
/// characters of the alphabet and `==`, two bytes for three and `=`. Where the
/// padding stands anywhere else, none.
pub open spec fn decode_padded(text: Seq<u8>) -> Seq<u8> {
    let v0 = sextet_value(text[0]);
    let v1 = sextet_value(text[1]);
    let v2 = sextet_value(text[2]);
    if v0 is None || v1 is None || text[3] != '=' as u8 {
        seq![]
    } else if text[2] == '=' as u8 {
        seq![(v0->0 * 4 + v1->0 / 16) as u8]
    } else if v2 is None {
        seq![]
    } else {
        seq![(v0->0 * 4 + v1->0 / 16) as u8, (v1->0 % 16 * 16 + v2->0 / 4) as u8]
    }
}

/// The bytes that a Base64 text stands for. Groups of four are read from the
/// front; the first group with padding ends the text, and so does what is too
/// short for a group, which adds nothing. A group without padding that has a
/// byte from outside the alphabet makes the text malformed.
pub open spec fn decoded(text: Seq<u8>) -> Option<Seq<u8>>
    decreases text.len(),
{
    if text.len() < 4 {
        Some(seq![])
    } else if group_has_padding(text) {
        Some(decode_padded(text))
    } else if !group_in_alphabet(text) {
        None
    } else {
        match decoded(text.skip(4)) {
            Some(rest) => Some(decode_group(text) + rest),
            None => None,
        }
    }
}

/// The string that a Base64 text stands for, if it is well-formed and its bytes
/// are UTF-8.
pub open spec fn decoded_text(text: Seq<char>) -> Option<Seq<char>> {
    match decoded(encode_utf8(text)) {
        Some(bytes) => if valid_utf8(bytes) {
            Some(decode_utf8(bytes))
        } else {
            None
        },
        None => None,
    }
}

fn sextet(v: u32) -> (r: char)
    requires
        v < 64,
    ensures
        r == sextet_char(v as nat),
{
    if v < 26 {
        ('A' as u8 + v as u8) as char
    } else if v < 52 {
        ('a' as u8 + (v as u8 - 26)) as char
    } else if v < 62 {
        ('0' as u8 + (v as u8 - 52)) as char
    } else if v == 62 {
        '+'
    } else {
        '/'
    }
}

fn value_of(c: u8) -> (r: Option<u32>)
    ensures
        r is Some <==> sextet_value(c) is Some,
        r matches Some(v) ==> v == sextet_value(c)->0 && v < 64,
{
    if 'A' as u8 <= c && c <= 'Z' as u8 {
        Some((c - 'A' as u8) as u32)
    } else if 'a' as u8 <= c && c <= 'z' as u8 {
        Some((c - 'a' as u8 + 26) as u32)
    } else if '0' as u8 <= c && c <= '9' as u8 {
        Some((c - '0' as u8 + 52) as u32)
    } else if c == '+' as u8 {
        Some(62)
    } else if c == '/' as u8 {
        Some(63)
    } else {
        None
    }
}

/// Writes bytes as Base64 text, with padding.
pub fn base64_encode(data: &[u8]) -> (r: String)
    ensures
        r@ == encoded(data@),
{
    let mut out = String::new();
    let len = data.len();
    let mut i: usize = 0;
    assert(data@.skip(0) =~= data@);
    while i < len
        invariant
            i <= len,
            len == data@.len(),
            out@ + encoded(data@.skip(i as int)) == encoded(data@),
        decreases len - i,
    {
        let left = len - i;
        let ghost rest = data@.skip(i as int);
        let ghost group = if left <= 3 { rest } else { rest.take(3) };
        let b0 = data[i];
        let b1 = if left > 1 { data[i + 1] } else { 0 };
        let b2 = if left > 2 { data[i + 2] } else { 0 };
        let n: u32 = b0 as u32 * 65536 + b1 as u32 * 256 + b2 as u32;
        let ghost before = out@;
        out.push(sextet(n / 262144));
        out.push(sextet(n / 4096 % 64));
        out.push(if left > 1 { sextet(n / 64 % 64) } else { '=' });
        out.push(if left > 2 { sextet(n % 64) } else { '=' });
        assert(out@ =~= before + encode_group(group));
        if left <= 3 {
            i = len;
            assert(data@.skip(len as int) =~= Seq::empty());
            assert(out@ + encoded(data@.skip(i as int)) =~= before + encoded(rest));
        } else {
            assert(rest.skip(3) =~= data@.skip(i + 3));
            i += 3;
            assert(out@ + encoded(data@.skip(i as int)) =~= before + encoded(rest));
        }
    }
    assert(data@.skip(len as int) =~= Seq::empty());
    assert(out@ =~= encoded(data@));
    out
}

/// Reads Base64 text back. `None` where a group is malformed, or where the bytes
/// are not UTF-8.
pub fn base64_decode(s: &str) -> (r: Option<String>)
    ensures
        r is Some <==> decoded_text(s@) is Some,
        r matches Some(t) ==> t@ == decoded_text(s@)->0,
{
    let text = s.as_bytes();
    let len = text.len();
    let mut out: Vec<u8> = Vec::new();
    let mut i: usize = 0;
    assert(text@.skip(0) =~= text@);
    assert(decoded(text@) is Some ==> out@ + decoded(text@)->0 =~= decoded(text@)->0);
    while len - i >= 4
        invariant_except_break
            decoded(text@.skip(i as int)) is Some <==> decoded(text@) is Some,
            decoded(text@) is Some ==> out@ + decoded(text@.skip(i as int))->0 == decoded(
                text@,
            )->0,
        invariant
            i <= len,
            len == text@.len(),
            text@ == encode_utf8(s@),
        ensures
            decoded(text@) == Some(out@),
        decreases len - i,
    {
        let ghost rest = text@.skip(i as int);
        let c0 = text[i];
        let c1 = text[i + 1];
        let c2 = text[i + 2];
        let c3 = text[i + 3];
        if c0 == '=' as u8 || c1 == '=' as u8 || c2 == '=' as u8 || c3 == '=' as u8 {
            let ghost before = out@;
            if let (Some(v0), Some(v1)) = (value_of(c0), value_of(c1)) {
                if c3 == '=' as u8 {
                    if c2 == '=' as u8 {
                        out.push((v0 * 4 + v1 / 16) as u8);
                    } else if let Some(v2) = value_of(c2) {
                        out.push((v0 * 4 + v1 / 16) as u8);
                        out.push((v1 % 16 * 16 + v2 / 4) as u8);
                    }
                }
            }
            assert(out@ =~= before + decode_padded(rest));
            break;
        }
        match (value_of(c0), value_of(c1), value_of(c2), value_of(c3)) {
            (Some(v0), Some(v1), Some(v2), Some(v3)) => {
                let n: u32 = v0 * 262144 + v1 * 4096 + v2 * 64 + v3;
                let ghost before = out@;
                out.push((n / 65536) as u8);
                out.push((n / 256 % 256) as u8);
                out.push((n % 256) as u8);
                assert(out@ =~= before + decode_group(rest));
                assert(rest.skip(4) =~= text@.skip(i + 4));
                i += 4;
                assert(decoded(text@) is Some ==> out@ + decoded(text@.skip(i as int))->0
                    =~= before + decoded(rest)->0);
            },
            _ => {
                return None;
            },
        }
    }
    string_from_utf8(out)
}

/// What plugins get from `base64.decode`: the decoded text, or an empty string
/// where there is none.
pub fn base64_decode_or_empty(s: &str) -> (r: String)
    ensures
        r@ == (match decoded_text(s@) {
            Some(t) => t,
            None => seq![],
        }),
{
    match base64_decode(s) {
        Some(t) => t,
        None => String::new(),
    }
}

/// The alphabet reads back as it was written.
proof fn lemma_sextet_round_trip(v: nat)
    requires
        v < 64,
    ensures
        sextet_value(sextet_char(v) as u8) == Some(v),
        sextet_char(v) <= '\u{7f}',
        sextet_char(v) != '=',
{
}

/// A number of 24 bits, taken apart into groups of six bits and of eight bits.
proof fn lemma_split_bytes(b0: u32, b1: u32, b2: u32, n: u32)
    requires
        b0 < 256,
        b1 < 256,
        b2 < 256,
        n == b0 * 65536 + b1 * 256 + b2,
    ensures
        n / 262144 < 64,
        n / 262144 * 262144 + n / 4096 % 64 * 4096 + n / 64 % 64 * 64 + n % 64 == n,
        n / 65536 == b0,
        n / 256 % 256 == b1,
        n % 256 == b2,
{
    assert(n / 262144 < 64 && n / 262144 * 262144 + n / 4096 % 64 * 4096 + n / 64 % 64 * 64 + n % 64
        == n && n / 65536 == b0 && n / 256 % 256 == b1 && n % 256 == b2) by (bit_vector)
        requires
            b0 < 256,
            b1 < 256,
            b2 < 256,
            n == b0 * 65536 + b1 * 256 + b2,
    ;
}

/// A number of 24 bits, put together from groups of six bits.
proof fn lemma_join_sextets(v0: u32, v1: u32, v2: u32, v3: u32, n: u32)
    requires
        v0 < 64,
        v1 < 64,
        v2 < 64,
        v3 < 64,
        n == v0 * 262144 + v1 * 4096 + v2 * 64 + v3,
    ensures
        n / 262144 == v0,
        n / 4096 % 64 == v1,
        n / 64 % 64 == v2,
        n % 64 == v3,
        n / 65536 < 256,
        n / 65536 * 65536 + n / 256 % 256 * 256 + n % 256 == n,
{
    assert(n / 262144 == v0 && n / 4096 % 64 == v1 && n / 64 % 64 == v2 && n % 64 == v3 && n / 65536
        < 256 && n / 65536 * 65536 + n / 256 % 256 * 256 + n % 256 == n) by (bit_vector)
        requires
            v0 < 64,
            v1 < 64,
            v2 < 64,
            v3 < 64,
            n == v0 * 262144 + v1 * 4096 + v2 * 64 + v3,
    ;
}

/// A group of text made of whole bytes reads back as those bytes.
proof fn lemma_group_round_trip(group: Seq<u8>, text: Seq<u8>)
    requires
        group.len() == 3,
        text.len() >= 4,
        text[0] == encode_group(group)[0] as u8,
        text[1] == encode_group(group)[1] as u8,
        text[2] == encode_group(group)[2] as u8,
        text[3] == encode_group(group)[3] as u8,
    ensures
        group_in_alphabet(text),
        !group_has_padding(text),
        decode_group(text) == group,
{
    let n = group_number(group[0], group[1], group[2]);
    let v0 = n / 262144;
    let v1 = n / 4096 % 64;
    let v2 = n / 64 % 64;
    let v3 = n % 64;
    lemma_split_bytes(group[0] as u32, group[1] as u32, group[2] as u32, n as u32);
    lemma_sextet_round_trip(v0);
    lemma_sextet_round_trip(v1);
    lemma_sextet_round_trip(v2);
    lemma_sextet_round_trip(v3);
    assert(sextet_value(text[0]) == Some(v0));
    assert(sextet_value(text[1]) == Some(v1));
    assert(sextet_value(text[2]) == Some(v2));
    assert(sextet_value(text[3]) == Some(v3));
    assert(decode_group(text) =~= group);
}

/// A character of Base64 text: one of the alphabet, or padding.
pub open spec fn text_char(c: char) -> bool {
    c == '=' || (c <= '\u{7f}' && sextet_value(c as u8) is Some)
}

/// The text of a byte string has four characters for every three bytes, the
/// last group counted as whole.
pub proof fn law_encoded_length(data: Seq<u8>)
    ensures
        encoded(data).len() == (data.len() + 2) / 3 * 4,
    decreases data.len(),
{
    if data.len() > 3 {
        law_encoded_length(data.skip(3));
    }
}

proof fn lemma_group_alphabet(group: Seq<u8>)
    requires
        1 <= group.len() <= 3,
    ensures
        forall|i: int| 0 <= i < 4 ==> text_char(#[trigger] encode_group(group)[i]),
{
    let b1 = if group.len() > 1 { group[1] } else { 0u8 };
    let b2 = if group.len() > 2 { group[2] } else { 0u8 };
    let n = group_number(group[0], b1, b2);
    lemma_split_bytes(group[0] as u32, b1 as u32, b2 as u32, n as u32);
    lemma_sextet_round_trip(n / 262144);
    lemma_sextet_round_trip(n / 4096 % 64);
    lemma_sextet_round_trip(n / 64 % 64);
    lemma_sextet_round_trip(n % 64);
    let first = encode_group(group);
    assert(text_char(first[0]));
    assert(text_char(first[1]));
    assert(text_char(first[2]));
    assert(text_char(first[3]));
}

/// The text of a byte string holds nothing but the alphabet and `=`.
pub proof fn law_encoded_alphabet(data: Seq<u8>)
    ensures
        forall|i: int| 0 <= i < encoded(data).len() ==> text_char(#[trigger] encoded(data)[i]),
    decreases data.len(),
{
    if data.len() == 0 {
    } else if data.len() <= 3 {
        lemma_group_alphabet(data);
    } else {
        let first = encode_group(data.take(3));
        let rest = encoded(data.skip(3));
        lemma_group_alphabet(data.take(3));
        law_encoded_alphabet(data.skip(3));
        assert forall|i: int| 0 <= i < encoded(data).len() implies text_char(
            #[trigger] encoded(data)[i],
        ) by {
            if i >= 4 {
                assert(encoded(data)[i] == rest[i - 4]);
            } else {
                assert(encoded(data)[i] == first[i]);
            }
        }
    }
}

proof fn lemma_char_lowest(c: char)
    ensures
        '\0' <= c,
{
}

/// Base64 text is its own UTF-8 encoding, character for byte.
proof fn lemma_text_bytes(text: Seq<char>)
    requires
        forall|i: int| 0 <= i < text.len() ==> text_char(#[trigger] text[i]),
    ensures
        encode_utf8(text).len() == text.len(),
        forall|i: int| 0 <= i < text.len() ==> #[trigger] encode_utf8(text)[i] == text[i] as u8,
{
    assert forall|i: int| 0 <= i < text.len() implies '\0' <= #[trigger] text[i] <= '\u{7f}' by {
        assert(text_char(text[i]));
        lemma_char_lowest(text[i]);
    }
    is_ascii_chars_encode_utf8(text);
}

/// `text` holds, byte for character, the Base64 text of `data`.
#[verifier::opaque]
spec fn is_text_of(text: Seq<u8>, data: Seq<u8>) -> bool {
    &&& text.len() == encoded(data).len()
    &&& forall|i: int| 0 <= i < text.len() ==> #[trigger] text[i] == encoded(data)[i] as u8
}

/// The first group of a text, and what follows it.
proof fn lemma_first_group(data: Seq<u8>, text: Seq<u8>)
    requires
        data.len() >= 3,
        is_text_of(text, data),
    ensures
        text.len() >= 4,
        group_in_alphabet(text),
        !group_has_padding(text),
        decode_group(text) == data.take(3),
        is_text_of(text.skip(4), data.skip(3)),
{
    reveal(is_text_of);
    let group = data.take(3);
    let rest = encoded(data.skip(3));
    let tail = text.skip(4);
    lemma_encoded_split(data);
    let all = encode_group(group) + rest;
    assert(encoded(data) == all);
    assert(text[0] == all[0] as u8);
    assert(text[1] == all[1] as u8);
    assert(text[2] == all[2] as u8);
    assert(text[3] == all[3] as u8);
    lemma_group_round_trip(group, text);
    assert forall|i: int| 0 <= i < tail.len() implies #[trigger] tail[i] == rest[i] as u8 by {
        assert(tail[i] == text[i + 4]);
        assert(all[i + 4] == rest[i]);
    }
}

/// The bits of one byte and of two bytes, as the last group has them.
proof fn lemma_last_bits(b0: u32, b1: u32, n: u32)
    requires
        b0 < 256,
        b1 < 256,
        n == b0 * 65536 + b1 * 256,
    ensures
        n / 262144 * 4 + n / 4096 % 64 / 16 == b0,
        n / 4096 % 64 % 16 * 16 + n / 64 % 64 / 4 == b1,
{
    assert(n / 262144 * 4 + n / 4096 % 64 / 16 == b0 && n / 4096 % 64 % 16 * 16 + n / 64 % 64 / 4
        == b1) by (bit_vector)
        requires
            b0 < 256,
            b1 < 256,
            n == b0 * 65536 + b1 * 256,
    ;
}

/// The text of fewer than three bytes reads back as those bytes.
proof fn lemma_last_group(data: Seq<u8>, text: Seq<u8>)
    requires
        data.len() < 3,
        is_text_of(text, data),
    ensures
        decoded(text) == Some(data),
{
    reveal(is_text_of);
    if data.len() == 0 {
        assert(decoded(text)->0 =~= data);
    } else {
        let b1 = if data.len() > 1 { data[1] } else { 0u8 };
        let n = group_number(data[0], b1, 0);
        assert(encoded(data) == encode_group(data));
        lemma_split_bytes(data[0] as u32, b1 as u32, 0, n as u32);
        lemma_last_bits(data[0] as u32, b1 as u32, n as u32);
        lemma_sextet_round_trip(n / 262144);
        lemma_sextet_round_trip(n / 4096 % 64);
        lemma_sextet_round_trip(n / 64 % 64);
        assert(text[0] == encode_group(data)[0] as u8);
        assert(text[1] == encode_group(data)[1] as u8);
        assert(text[2] == encode_group(data)[2] as u8);
        assert(text[3] == encode_group(data)[3] as u8);
        assert(sextet_value(text[0]) == Some(n / 262144));
        assert(sextet_value(text[1]) == Some(n / 4096 % 64));
        assert(data.len() == 2 ==> sextet_value(text[2]) == Some(n / 64 % 64));
        assert(decode_padded(text) =~= data);
    }
}

proof fn lemma_decode_encoded(data: Seq<u8>, text: Seq<u8>)
    requires
        is_text_of(text, data),
    ensures
        decoded(text) == Some(data),
    decreases data.len(),
{
    if data.len() < 3 {
        lemma_last_group(data, text);
    } else {
        let rest = data.skip(3);
        lemma_first_group(data, text);
        lemma_decode_encoded(rest, text.skip(4));
        assert(data.take(3) + rest =~= data);
    }
}

/// The text of three bytes and more is one group and the text of the rest.
proof fn lemma_encoded_split(data: Seq<u8>)
    requires
        data.len() >= 3,
    ensures
        encoded(data) == encode_group(data.take(3)) + encoded(data.skip(3)),
{
    if data.len() == 3 {
        assert(data.take(3) =~= data);
        assert(encoded(data.skip(3)) =~= Seq::<char>::empty());
        assert(encoded(data) =~= encode_group(data.take(3)) + encoded(data.skip(3)));
    }
}

/// Decoding what was encoded gives the bytes back.
pub proof fn law_decode_of_encode(data: Seq<u8>)
    ensures
        decoded(encode_utf8(encoded(data))) == Some(data),
{
    law_encoded_alphabet(data);
    lemma_text_bytes(encoded(data));
    reveal(is_text_of);
    lemma_decode_encoded(data, encode_utf8(encoded(data)));
}

/// Every string survives encoding and decoding unchanged.
pub proof fn law_text_round_trip(text: Seq<char>)
    ensures
        decoded_text(encoded(encode_utf8(text))) == Some(text),
{
    law_decode_of_encode(encode_utf8(text));
    encode_utf8_valid_utf8(text);
    encode_utf8_decode_utf8(text);
}

/// Four characters of the alphabet come back when their bytes are encoded.
proof fn lemma_group_back(text: Seq<u8>)
    requires
        text.len() >= 4,
        group_in_alphabet(text),
    ensures
        !group_has_padding(text),
        encode_group(decode_group(text)).map_values(|c: char| c as u8) == text.take(4),
{
    let v0 = sextet_value(text[0])->0;
    let v1 = sextet_value(text[1])->0;
    let v2 = sextet_value(text[2])->0;
    let v3 = sextet_value(text[3])->0;
    let n = v0 * 262144 + v1 * 4096 + v2 * 64 + v3;
    lemma_join_sextets(v0 as u32, v1 as u32, v2 as u32, v3 as u32, n as u32);
    let group = decode_group(text);
    assert(group_number(group[0], group[1], group[2]) == n);
    lemma_sextet_back(text[0]);
    lemma_sextet_back(text[1]);
    lemma_sextet_back(text[2]);
    lemma_sextet_back(text[3]);
    assert(encode_group(group).map_values(|c: char| c as u8) =~= text.take(4));
}

/// A byte of the alphabet is the character of its own value.
proof fn lemma_sextet_back(c: u8)
    requires
        sextet_value(c) is Some,
    ensures
        sextet_value(c)->0 < 64,
        sextet_char(sextet_value(c)->0) as u8 == c,
        c != '=' as u8,
{
}

/// Text of whole groups without padding decodes, and the bytes encode back to
/// the same text.
pub proof fn law_encode_of_decode(text: Seq<u8>)
    requires
        text.len() % 4 == 0,
        forall|i: int| 0 <= i < text.len() ==> sextet_value(#[trigger] text[i]) is Some,
    ensures
        decoded(text) is Some,
        encoded(decoded(text)->0).map_values(|c: char| c as u8) == text,
    decreases text.len(),
{
    let as_byte = |c: char| c as u8;
    if text.len() == 0 {
        assert(encoded(decoded(text)->0).map_values(as_byte) =~= text);
    } else {
        let tail = text.skip(4);
        assert forall|i: int| 0 <= i < tail.len() implies sextet_value(
            #[trigger] tail[i],
        ) is Some by {
            assert(sextet_value(text[i + 4]) is Some);
        }
        law_encode_of_decode(tail);
        lemma_group_back(text);
        let rest = decoded(tail)->0;
        let group = decode_group(text);
        let data = decoded(text)->0;
        assert(data == group + rest);
        assert(data.take(3) =~= group);
        assert(data.skip(3) =~= rest);
        lemma_encoded_split(data);
        assert(encoded(data).map_values(as_byte) =~= encode_group(group).map_values(as_byte)
            + encoded(rest).map_values(as_byte));
        assert(text.take(4) + tail =~= text);
    }
}

/// The alphabet: the capitals, the small letters, the digits, `+` and `/`, in that
/// order.
pub proof fn law_alphabet(v: nat)
    requires
        v < 64,
    ensures
        sextet_char(v)
            == "ABCDEFGHIJKLMNOPQRSTUVWXYZabcdefghijklmnopqrstuvwxyz0123456789+/"@[v as int],
{
    reveal_strlit("ABCDEFGHIJKLMNOPQRSTUVWXYZabcdefghijklmnopqrstuvwxyz0123456789+/");
}

/// A byte stands for a group of six bits exactly if it is in the alphabet, and
/// then for its place in it.
pub proof fn law_alphabet_values(c: u8)
    ensures
        sextet_value(c) matches Some(v) ==> v < 64 && sextet_char(v) as u8 == c,
        sextet_value(c) is Some <==> exists|v: nat| v < 64 && #[trigger] sextet_char(v) as u8 == c,
{
    if sextet_value(c) is Some {
        lemma_sextet_back(c);
    }
    if exists|v: nat| v < 64 && #[trigger] sextet_char(v) as u8 == c {
        let v = choose|v: nat| v < 64 && #[trigger] sextet_char(v) as u8 == c;
        lemma_sextet_round_trip(v);
    }
}

/// Three bytes are four characters, which hold the same 24 bits, the first bits
/// first. One byte is two characters and two bytes are three, filled up with `=`.
pub proof fn law_groups_hold_the_bits(b0: u8, b1: u8, b2: u8) -> (v: (nat, nat, nat, nat))
    ensures
        v.0 < 64 && v.1 < 64 && v.2 < 64 && v.3 < 64,
        v.0 * 262144 + v.1 * 4096 + v.2 * 64 + v.3 == b0 * 65536 + b1 * 256 + b2,
        encoded(seq![b0, b1, b2]) == seq![
            sextet_char(v.0),
            sextet_char(v.1),
            sextet_char(v.2),
            sextet_char(v.3),
        ],
        b2 == 0 ==> encoded(seq![b0, b1]) == seq![
            sextet_char(v.0),
            sextet_char(v.1),
            sextet_char(v.2),
            '=',
        ],
        b1 == 0 && b2 == 0 ==> encoded(seq![b0]) == seq![
            sextet_char(v.0),
            sextet_char(v.1),
            '=',
            '=',
        ],
{
    let n = group_number(b0, b1, b2);
    lemma_split_bytes(b0 as u32, b1 as u32, b2 as u32, n as u32);
    assert(encoded(seq![b0, b1, b2]) =~= encode_group(seq![b0, b1, b2]));
    (n / 262144, n / 4096 % 64, n / 64 % 64, n % 64)
}

/// Text is made group by group: the text of whole groups of three bytes and more
/// behind them is the text of the one and then of the other.
pub proof fn law_encoded_in_two_goes(first: Seq<u8>, next: Seq<u8>)
    requires
        first.len() % 3 == 0,
    ensures
        encoded(seq![]) == Seq::<char>::empty(),
        encoded(first + next) == encoded(first) + encoded(next),
    decreases first.len(),
{
    if first.len() == 0 {
        assert(first + next =~= next);
        assert(encoded(first) + encoded(next) =~= encoded(next));
    } else {
        lemma_encoded_split(first);
        lemma_encoded_split(first + next);
        assert((first + next).take(3) =~= first.take(3));
        assert((first + next).skip(3) =~= first.skip(3) + next);
        law_encoded_in_two_goes(first.skip(3), next);
        assert(encoded(first + next) =~= encoded(first) + encoded(next));
    }
}

/// Text is read group by group. Four characters of the alphabet give the three
/// bytes that encode to them, and then comes what the rest gives; a group with a
/// character from outside the alphabet and without padding makes the text
/// malformed, and what is too short for a group adds nothing.
pub proof fn law_decoded_group_by_group(group: Seq<u8>, rest: Seq<u8>)
    requires
        group.len() == 4,
    ensures
        rest.len() < 4 ==> decoded(rest) == Some(Seq::<u8>::empty()),
        group_in_alphabet(group) ==> {
            &&& decoded(group + rest) is Some <==> decoded(rest) is Some
            &&& decoded(rest) is Some ==> {
                let bytes = decoded(group + rest)->0;
                &&& bytes.len() == 3 + decoded(rest)->0.len()
                &&& bytes.skip(3) == decoded(rest)->0
                &&& encoded(bytes.take(3)).map_values(|c: char| c as u8) == group
            }
        },
        !group_in_alphabet(group) && !group.contains('=' as u8) ==> decoded(group + rest) is None,
        group.contains('=' as u8) ==> decoded(group + rest) == decoded(group),
{
    let text = group + rest;
    assert(text.skip(4) =~= rest);
    assert(text.take(4) =~= group);
    assert(text[0] == group[0] && text[1] == group[1] && text[2] == group[2] && text[3]
        == group[3]);
    assert(group.contains(group[0]) && group.contains(group[1]) && group.contains(group[2])
        && group.contains(group[3]));
    if group.contains('=' as u8) {
        let i = choose|i: int| 0 <= i < group.len() && group[i] == '=' as u8;
        assert(i == 0 || i == 1 || i == 2 || i == 3);
        assert(group_has_padding(text));
        assert(decode_padded(text) =~= decode_padded(group));
    }
    if group_in_alphabet(group) {
        lemma_group_back(text);
        if decoded(rest) is Some {
            let bytes = decoded(text)->0;
            assert(bytes.take(3) =~= decode_group(text));
            assert(bytes.skip(3) =~= decoded(rest)->0);
            assert(encoded(bytes.take(3)) == encode_group(bytes.take(3)));
        }
    }
}

/// Padding stands at the end of a group: two characters of the alphabet and `==`
/// give one byte, three and `=` give two, by the bits that stand first. Padding
/// anywhere else gives nothing.
pub proof fn law_padding(group: Seq<u8>)
    requires
        group.len() == 4,
        group.contains('=' as u8),
    ensures
        decoded(group) is Some,
        ({
            let v0 = sextet_value(group[0]);
            let v1 = sextet_value(group[1]);
            let v2 = sextet_value(group[2]);
            let bytes = decoded(group)->0;
            if v0 is Some && v1 is Some && group[2] == '=' as u8 && group[3] == '=' as u8 {
                bytes.len() == 1 && bytes[0] == (v0->0 * 64 + v1->0) / 16
            } else if v0 is Some && v1 is Some && v2 is Some && group[3] == '=' as u8 {
                bytes.len() == 2 && bytes[0] * 256 + bytes[1] == (v0->0 * 4096 + v1->0 * 64
                    + v2->0) / 4
            } else {
                bytes.len() == 0
            }
        }),
{
    let i = choose|i: int| 0 <= i < group.len() && group[i] == '=' as u8;
    assert(i == 0 || i == 1 || i == 2 || i == 3);
    assert(group_has_padding(group));
    law_alphabet_values(group[0]);
    law_alphabet_values(group[1]);
    law_alphabet_values(group[2]);
}

/// A text stands for a string exactly if it is well formed and its bytes are
/// UTF-8, and then for what they decode to.
pub proof fn law_decoded_text(text: Seq<char>)
    ensures
        decoded_text(text) is Some <==> (decoded(encode_utf8(text)) matches Some(bytes)
            && valid_utf8(bytes)),
        decoded_text(text) matches Some(s) ==> s == decode_utf8(decoded(encode_utf8(text))->0),
{
}

} // verus!
