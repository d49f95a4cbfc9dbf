use lua_proxy::base64::{base64_decode, base64_decode_or_empty, base64_encode};
use lua_proxy::digest::{hmac_sha256_raw, latin1_text};
use lua_proxy::json::{json_text, string_data, LuaData};
use lua_proxy::text::{signed_decimal_text, str_eq, trim_end_char};
use lua_proxy::uuid::{uuid_from_nanos, uuid_v4};

#[test]
fn bytes_become_base64() {
    assert_eq!(base64_encode(b""), "");
    assert_eq!(base64_encode(b"f"), "Zg==");
    assert_eq!(base64_encode(b"fo"), "Zm8=");
    assert_eq!(base64_encode(b"foo"), "Zm9v");
    assert_eq!(base64_encode(b"foob"), "Zm9vYg==");
    assert_eq!(base64_encode(b"fooba"), "Zm9vYmE=");
    assert_eq!(base64_encode(b"foobar"), "Zm9vYmFy");
    assert_eq!(base64_encode(&[0xff, 0xfe, 0xfb, 0xf0]), "//778A==");
}

#[test]
fn base64_is_read_back() {
    assert_eq!(base64_decode("Zm9v"), Some("foo".to_string()));
    assert_eq!(base64_decode("Zm9vYmFy"), Some("foobar".to_string()));
    assert_eq!(base64_decode("Zm9vYmE="), Some("fooba".to_string()));
    assert_eq!(base64_decode("Zm9vYg=="), Some("foob".to_string()));
    assert_eq!(base64_decode("Zg=="), Some("f".to_string()));
    assert_eq!(base64_decode(""), Some(String::new()));
    // A group with padding ends the text, and so does one that is too short.
    assert_eq!(base64_decode("Zm8=Zm9v"), Some("fo".to_string()));
    assert_eq!(base64_decode("Zm9vYm"), Some("foo".to_string()));
    assert_eq!(base64_decode("Zm9v====Zm9v"), Some("foo".to_string()));
    assert_eq!(base64_decode("Zm9vY==="), Some("foo".to_string()));
    assert_eq!(base64_decode("Zm9v=m9v"), Some("foo".to_string()));
}

#[test]
fn malformed_base64_is_turned_down() {
    assert_eq!(base64_decode("Zm9*"), None);
    assert_eq!(base64_decode("Zm-_"), None);
    assert_eq!(base64_decode("Zm9v Zm9v"), None);
    assert_eq!(base64_decode("\u{e9}\u{e9}"), None);
    // Well-formed, but not UTF-8.
    assert_eq!(base64_decode("//77"), None);
    assert_eq!(base64_decode_or_empty("//77"), "");
    assert_eq!(base64_decode_or_empty("Zm9*"), "");
    assert_eq!(base64_decode_or_empty("Zm9v"), "foo");
}

#[test]
fn base64_there_and_back() {
    for text in ["", "a", "ab", "abc", "abcd", "h\u{e9}llo!", "\u{d55c}\u{ad6d}", "\u{1f600}"] {
        assert_eq!(base64_decode(&base64_encode(text.as_bytes())), Some(text.to_string()));
    }
    let all: Vec<u8> = (0..=255).collect();
    assert_eq!(base64_encode(&all).len(), 344);
    assert_eq!(base64_encode(base64_decode("QUJDREVG").unwrap().as_bytes()), "QUJDREVG");
}

#[test]
fn a_message_is_authenticated() {
    let hex = |bytes: Vec<u8>| bytes.iter().map(|b| format!("{:02x}", b)).collect::<String>();
    assert_eq!(
        hex(hmac_sha256_raw(b"input message", b"my secret and secure key")),
        "97d2a569059bbcd8ead4444ff99071f4c01d005bcefe0d3567e1be628e5fdcd9"
    );
    assert_eq!(
        hex(hmac_sha256_raw(b"what do ya want for nothing?", b"Jefe")),
        "5bdcc146bf60754e6a042426089575c75a003f089d2739839dec58b964ec3843"
    );
    assert_ne!(
        hmac_sha256_raw(b"input message", b"my secret and secure key"),
        hmac_sha256_raw(b"my secret and secure key", b"input message")
    );
}

#[test]
fn bytes_become_characters() {
    assert_eq!(latin1_text(&[0x41, 0x00, 0xe9, 0xff]), "A\u{0}\u{e9}\u{ff}");
}

#[test]
fn an_identifier_is_made_from_the_clock() {
    assert_eq!(
        uuid_from_nanos(0),
        "00000000-0000-4000-8000-000000000000"
    );
    let ns: u32 = 123_456_789;
    assert_eq!(
        uuid_from_nanos(ns),
        format!(
            "{:08x}-{:04x}-4{:03x}-{:04x}-{:012x}",
            ns,
            (ns >> 16) & 0xFFFF,
            (ns >> 4) & 0x0FFF,
            0x8000 | ((ns >> 2) & 0x3FFF),
            (ns as u64).wrapping_mul(6364136223846793005) & 0xFFFF_FFFF_FFFF
        )
    );
    assert_eq!(uuid_from_nanos(1), "00000001-0000-4000-8000-f42d4c957f2d");
    assert_eq!(uuid_from_nanos(999_999_999).len(), 36);
}

#[test]
fn a_fresh_identifier_has_the_right_shape() {
    let id = uuid_v4();
    let groups: Vec<&str> = id.split('-').collect();
    assert_eq!(groups.len(), 5);
    assert_eq!(groups[0].len(), 8);
    assert_eq!(groups[1].len(), 4);
    assert_eq!(groups[2].len(), 4);
    assert!(groups[2].starts_with('4'));
    assert_eq!(groups[3].len(), 4);
    assert!(matches!(groups[3].as_bytes()[0], b'8' | b'9' | b'a' | b'b'));
    assert_eq!(groups[4].len(), 12);
    assert_eq!(id.len(), 36);
}

#[test]
fn values_become_json() {
    let text = |s: &str| LuaData::Text(s.to_string());
    assert_eq!(json_text(&text("plain")), "\"plain\"");
    assert_eq!(json_text(&text("say \"hi\"")), "\"say \\\"hi\\\"\"");
    assert_eq!(json_text(&text("a\\b")), "\"a\\\\b\"");
    assert_eq!(json_text(&text("\n\t\u{0}\u{1f} \u{7f}\u{e9}")), "\"\\u000a\\u0009\\u0000\\u001f \u{7f}\u{e9}\"");
    assert_eq!(json_text(&LuaData::Binary), "\"\"");
    assert_eq!(json_text(&LuaData::Integer(0)), "0");
    assert_eq!(json_text(&LuaData::Integer(-17)), "-17");
    assert_eq!(json_text(&LuaData::Integer(i64::MIN)), "-9223372036854775808");
    assert_eq!(json_text(&LuaData::Number("1.5".to_string())), "1.5");
    assert_eq!(json_text(&LuaData::Number("inf".to_string())), "null");
    assert_eq!(json_text(&LuaData::Number("-inf".to_string())), "null");
    assert_eq!(json_text(&LuaData::Number("NaN".to_string())), "null");
    assert_eq!(json_text(&LuaData::Boolean(true)), "true");
    assert_eq!(json_text(&LuaData::Boolean(false)), "false");
    assert_eq!(json_text(&LuaData::Nil), "null");
    assert_eq!(json_text(&LuaData::Other), "null");
    assert_eq!(json_text(&LuaData::Array(vec![])), "[]");
    assert_eq!(json_text(&LuaData::Table(vec![])), "{}");
    assert_eq!(
        json_text(&LuaData::Array(vec![
            LuaData::Integer(1),
            text("two"),
            LuaData::Table(vec![
                (text("k"), LuaData::Boolean(true)),
                (LuaData::Integer(3), LuaData::Array(vec![LuaData::Nil])),
                (LuaData::Boolean(false), LuaData::Nil),
                (LuaData::Array(vec![text("q")]), LuaData::Integer(0)),
            ]),
        ])),
        "[1,\"two\",{\"k\":true,\"3\":[null],\"false\":null,\"[\\\"q\\\"]\":0}]"
    );
}

#[test]
fn strings_are_seen_as_text_or_not() {
    assert!(matches!(string_data("h\u{e9}".as_bytes().to_vec()), LuaData::Text(s) if s == "h\u{e9}"));
    assert!(matches!(string_data(vec![]), LuaData::Text(s) if s.is_empty()));
    assert!(matches!(string_data(vec![0xff]), LuaData::Binary));
}

#[test]
fn text_helpers() {
    assert_eq!(trim_end_char("http://a//", '/'), "http://a");
    assert_eq!(trim_end_char("///", '/'), "");
    assert_eq!(trim_end_char("/a", '/'), "/a");
    assert_eq!(signed_decimal_text(1234567890), "1234567890");
    assert!(str_eq("h\u{e9}", "h\u{e9}"));
    assert!(!str_eq("he", "h\u{e9}"));
    assert!(!str_eq("a", "aa"));
}
