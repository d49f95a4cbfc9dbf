//! The JSON text that plugins get from `json.encode`, over a plain picture of a
//! Lua value.

use vstd::prelude::*;
use vstd::string::*;
use vstd::utf8::*;

use crate::text::{
    chars_of, hex_at_least, hex_digits, hex_number, hex_width, law_hex_reads_back, push_hex,
    signed_decimal, signed_decimal_text, str_eq, string_from_utf8,
};

verus! {

/// What `json.encode` sees of a Lua value.
pub enum LuaData {
    /// A string that is UTF-8.
    Text(String),
    /// A string that is not UTF-8.
    Binary,
    /// An integer.
    Integer(i64),
    /// A floating-point number, already written out.
    Number(String),
    /// A boolean.
    Boolean(bool),
    /// `nil`.
    Nil,
    /// A table with a border above zero: the values at `1`, `2` and so on.
    Array(Vec<LuaData>),
    /// Any other table: its keys and values, in the order of its traversal.
    Table(Vec<(LuaData, LuaData)>),
    /// A value of any other type.
    Other,
}

/// What is seen of a string: its text, or only that it is not UTF-8.
pub fn string_data(bytes: Vec<u8>) -> (r: LuaData)
    ensures
        valid_utf8(bytes@) ==> (r matches LuaData::Text(s) && s@ == decode_utf8(bytes@)),
        !valid_utf8(bytes@) ==> r is Binary,
{
    match string_from_utf8(bytes) {
        Some(s) => LuaData::Text(s),
        None => LuaData::Binary,
    }
}

/// The characters of `null`.
pub open spec fn null_text() -> Seq<char> {
    seq!['n', 'u', 'l', 'l']
}

/// The characters of a boolean.
pub open spec fn boolean_text(b: bool) -> Seq<char> {
    if b {
        seq!['t', 'r', 'u', 'e']
    } else {
        seq!['f', 'a', 'l', 's', 'e']
    }
}

/// A character as it stands in a JSON string: the quotation mark and the
/// backslash behind a backslash, the control characters by their numbers.
pub open spec fn escaped_char(c: char) -> Seq<char> {
    if c == '"' || c == '\\' {
        seq!['\\', c]
    } else if 32 > c as u32 {
        seq!['\\', 'u'] + hex_at_least((c as u32) as nat, 4)
    } else {
        seq![c]
    }
}

/// Text as it stands in a JSON string.
pub open spec fn escaped(s: Seq<char>) -> Seq<char>
    decreases s.len(),
{
    if s.len() == 0 {
        s
    } else {
        escaped(s.drop_last()) + escaped_char(s.last())
    }
}

/// The JSON string of a text.
pub open spec fn json_string(s: Seq<char>) -> Seq<char> {
    seq!['"'] + escaped(s) + seq!['"']
}

/// Whether a floating-point number that is written like this is none that JSON
/// can write.
pub open spec fn not_finite(s: Seq<char>) -> bool {
    s == "inf"@ || s == "-inf"@ || s == "NaN"@
}

/// What stands for a key: its own text if that is a string, and else a string of
/// its text.
pub open spec fn key_text(d: LuaData, text: Seq<char>) -> Seq<char> {
    if d is Text || d is Binary {
        text
    } else {
        json_string(text)
    }
}

/// The JSON text of a value.
pub open spec fn json(d: LuaData) -> Seq<char>
    decreases d,
{
    match d {
        LuaData::Text(s) => json_string(s@),
        LuaData::Binary => seq!['"', '"'],
        LuaData::Integer(i) => signed_decimal(i as int),
        LuaData::Number(s) => if not_finite(s@) {
            null_text()
        } else {
            s@
        },
        LuaData::Boolean(b) => boolean_text(b),
        LuaData::Nil => null_text(),
        LuaData::Array(items) => seq!['['] + json_items(items@) + seq![']'],
        LuaData::Table(pairs) => seq!['{'] + json_pairs(pairs@) + seq!['}'],
        LuaData::Other => null_text(),
    }
}

/// The JSON texts of values, with commas between them.
pub open spec fn json_items(items: Seq<LuaData>) -> Seq<char>
    decreases items,
{
    if items.len() == 0 {
        seq![]
    } else if items.len() == 1 {
        json(items[0])
    } else {
        json_items(items.drop_last()) + seq![','] + json(items.last())
    }
}

/// The JSON texts of keys and their values, with commas between the pairs.
pub open spec fn json_pairs(pairs: Seq<(LuaData, LuaData)>) -> Seq<char>
    decreases pairs,
{
    if pairs.len() == 0 {
        seq![]
    } else if pairs.len() == 1 {
        key_text(pairs[0].0, json(pairs[0].0)) + seq![':'] + json(pairs[0].1)
    } else {
        json_pairs(pairs.drop_last()) + seq![','] + key_text(
            pairs.last().0,
            json(pairs.last().0),
        ) + seq![':'] + json(pairs.last().1)
    }
}

fn quoted(s: &str) -> (r: String)
    ensures
        r@ == json_string(s@),
{
    let chars = chars_of(s);
    let mut out = String::new();
    out.push('"');
    let mut i: usize = 0;
    while i < chars.len()
        invariant
            i <= chars.len(),
            out@ == seq!['"'] + escaped(chars@.take(i as int)),
        decreases chars.len() - i,
    {
        assert(chars@.take(i + 1).drop_last() =~= chars@.take(i as int));
        let c = chars[i];
        let ghost before = out@;
        if c == '"' || c == '\\' {
            out.push('\\');
            out.push(c);
            assert(out@ =~= before + seq!['\\', c]);
        } else if 32 > c as u32 {
            out.push('\\');
            out.push('u');
            let code = c as u32;
            push_hex(&mut out, code as u64, 4);
            assert(out@ =~= before + (seq!['\\', 'u'] + hex_at_least((c as u32) as nat, 4)));
        } else {
            out.push(c);
            assert(out@ =~= before + seq![c]);
        }
        assert(out@ =~= before + escaped_char(c));
        assert(out@ =~= seq!['"'] + escaped(chars@.take(i + 1)));
        i += 1;
    }
    assert(chars@.take(i as int) =~= chars@);
    out.push('"');
    assert(out@ =~= json_string(s@));
    out
}

fn key_of(d: &LuaData, text: String) -> (r: String)
    ensures
        r@ == key_text(*d, text@),
{
    match d {
        LuaData::Text(_) => text,
        LuaData::Binary => text,
        _ => quoted(text.as_str()),
    }
}

/// Writes a value as JSON.
pub fn json_text(d: &LuaData) -> (r: String)
    ensures
        r@ == json(*d),
    decreases d,
{
    match d {
        LuaData::Text(s) => quoted(s.as_str()),
        LuaData::Binary => {
            let r = "\"\"".to_owned();
            proof {
                reveal_strlit("\"\"");
                assert(r@ =~= seq!['"', '"']);
            }
            r
        },
        LuaData::Integer(i) => signed_decimal_text(*i),
        LuaData::Number(s) => {
            let text = s.as_str();
            if str_eq(text, "inf") || str_eq(text, "-inf") || str_eq(text, "NaN") {
                null()
            } else {
                s.clone()
            }
        },
        LuaData::Boolean(b) => boolean(*b),
        LuaData::Nil => null(),
        LuaData::Array(items) => {
            let mut out = String::new();
            out.push('[');
            let mut i: usize = 0;
            while i < items.len()
                invariant
                    i <= items.len(),
                    d == LuaData::Array(*items),
                    out@ == seq!['['] + json_items(items@.take(i as int)),
                decreases items.len() - i,
            {
                assert(decreases_to!(d => d->Array_0));
                assert(decreases_to!(items => items@));
                assert(decreases_to!(items@ => items@[i as int]));
                let item = json_text(&items[i]);
                assert(items@.take(i + 1).drop_last() =~= items@.take(i as int));
                if i > 0 {
                    out.push(',');
                }
                out.append(item.as_str());
                assert(out@ =~= seq!['['] + json_items(items@.take(i + 1)));
                i += 1;
            }
            assert(items@.take(i as int) =~= items@);
            out.push(']');
            assert(out@ =~= json(*d));
            out
        },
        LuaData::Table(pairs) => {
            let mut out = String::new();
            out.push('{');
            let mut i: usize = 0;
            while i < pairs.len()
                invariant
                    i <= pairs.len(),
                    d == LuaData::Table(*pairs),
                    out@ == seq!['{'] + json_pairs(pairs@.take(i as int)),
                decreases pairs.len() - i,
            {
                assert(decreases_to!(d => d->Table_0));
                assert(decreases_to!(pairs => pairs@));
                assert(decreases_to!(pairs@ => pairs@[i as int]));
                assert(decreases_to!(pairs@[i as int] => pairs@[i as int].0));
                assert(decreases_to!(pairs@[i as int] => pairs@[i as int].1));
                let key = key_of(&pairs[i].0, json_text(&pairs[i].0));
                let value = json_text(&pairs[i].1);
                assert(pairs@.take(i + 1).drop_last() =~= pairs@.take(i as int));
                if i > 0 {
                    out.push(',');
                }
                out.append(key.as_str());
                out.push(':');
                out.append(value.as_str());
                assert(out@ =~= seq!['{'] + json_pairs(pairs@.take(i + 1)));
                i += 1;
            }
            assert(pairs@.take(i as int) =~= pairs@);
            out.push('}');
            assert(out@ =~= json(*d));
            out
        },
        LuaData::Other => null(),
    }
}

fn null() -> (r: String)
    ensures
        r@ == null_text(),
{
    let r = "null".to_owned();
    proof {
        reveal_strlit("null");
        assert(r@ =~= null_text());
    }
    r
}

fn boolean(b: bool) -> (r: String)
    ensures
        r@ == boolean_text(b),
{
    if b {
        let r = "true".to_owned();
        proof {
            reveal_strlit("true");
            assert(r@ =~= boolean_text(b));
        }
        r
    } else {
        let r = "false".to_owned();
        proof {
            reveal_strlit("false");
            assert(r@ =~= boolean_text(b));
        }
        r
    }
}

/// The number that a hexadecimal digit stands for.
pub open spec fn hex_value(c: char) -> int {
    if '0' <= c <= '9' {
        c as int - '0' as int
    } else {
        c as int - 'a' as int + 10
    }
}

/// What stands between the quotation marks of a JSON string, read as JSON has
/// it: `None` where it is no JSON.
pub open spec fn unescaped(t: Seq<char>) -> Option<Seq<char>>
    decreases t.len(),
{
    if t.len() == 0 {
        Some(seq![])
    } else if t[0] != '\\' {
        if t[0] == '"' || 32 > t[0] as u32 {
            None
        } else {
            with_first(t[0], unescaped(t.skip(1)))
        }
    } else if t.len() >= 2 && (t[1] == '"' || t[1] == '\\') {
        with_first(t[1], unescaped(t.skip(2)))
    } else if t.len() >= 6 && t[1] == 'u' {
        let code = hex_value(t[2]) * 4096 + hex_value(t[3]) * 256 + hex_value(t[4]) * 16
            + hex_value(t[5]);
        with_first(code as u32 as char, unescaped(t.skip(6)))
    } else {
        None
    }
}

/// A text with a character put before it, where there is one.
pub open spec fn with_first(c: char, rest: Option<Seq<char>>) -> Option<Seq<char>> {
    match rest {
        Some(s) => Some(seq![c] + s),
        None => None,
    }
}

proof fn lemma_escaped_front(s: Seq<char>)
    requires
        s.len() > 0,
    ensures
        escaped(s) == escaped_char(s[0]) + escaped(s.skip(1)),
    decreases s.len(),
{
    if s.len() == 1 {
        assert(s.drop_last() =~= seq![]);
        assert(s.skip(1) =~= seq![]);
        assert(escaped(s) =~= escaped_char(s[0]) + escaped(s.skip(1)));
    } else {
        lemma_escaped_front(s.drop_last());
        assert(s.drop_last().skip(1) =~= s.skip(1).drop_last());
        assert(escaped(s) =~= escaped_char(s[0]) + escaped(s.skip(1)));
    }
}

proof fn lemma_control_digits(n: nat)
    requires
        n < 32,
    ensures
        hex_at_least(n, 4).len() == 4,
        hex_value(hex_at_least(n, 4)[0]) == 0,
        hex_value(hex_at_least(n, 4)[1]) == 0,
        hex_value(hex_at_least(n, 4)[2]) * 16 + hex_value(hex_at_least(n, 4)[3]) == n,
{
    reveal_with_fuel(hex_width, 3);
    reveal_with_fuel(hex_digits, 5);
    assert(hex_width(n) <= 2);
    assert(n / 16 / 16 == 0);
}

proof fn lemma_char_number(c: char)
    ensures
        (c as u32) as int == c as int,
        ((c as u32) as int) as u32 as char == c,
{
}

/// A JSON string reads back as the text that it was made of.
pub proof fn law_json_string_reads_back(s: Seq<char>)
    ensures
        unescaped(escaped(s)) == Some(s),
    decreases s.len(),
{
    if s.len() == 0 {
        assert(unescaped(escaped(s))->0 =~= s);
    } else {
        let c = s[0];
        let first = escaped_char(c);
        let rest = escaped(s.skip(1));
        let t = escaped(s);
        lemma_escaped_front(s);
        law_json_string_reads_back(s.skip(1));
        assert(t.skip(first.len() as int) =~= rest);
        assert(seq![c] + s.skip(1) =~= s);
        if c == '"' || c == '\\' {
            assert(t[0] == first[0] && t[1] == first[1]);
        } else if 32 > c as u32 {
            let n = (c as u32) as nat;
            lemma_control_digits(n);
            lemma_char_number(c);
            let digits = hex_at_least(n, 4);
            assert(first =~= seq!['\\', 'u', digits[0], digits[1], digits[2], digits[3]]);
            assert(t[0] == first[0] && t[1] == first[1] && t[2] == first[2] && t[3] == first[3]
                && t[4] == first[4] && t[5] == first[5]);
        } else {
            assert(t[0] == c);
        }
    }
}

/// The words of JSON.
pub proof fn law_json_words()
    ensures
        null_text() == "null"@,
        boolean_text(true) == "true"@,
        boolean_text(false) == "false"@,
        seq!['"', '"'] == "\"\""@,
{
    reveal_strlit("null");
    reveal_strlit("true");
    reveal_strlit("false");
    reveal_strlit("\"\"");
    assert(null_text() =~= "null"@);
    assert(boolean_text(true) =~= "true"@);
    assert(boolean_text(false) =~= "false"@);
    assert(seq!['"', '"'] =~= "\"\""@);
}

/// Whatever is no table is written as JSON has it.
pub proof fn law_json_of_plain_values(text: String, i: i64, number: String, b: bool)
    ensures
        json(LuaData::Text(text)) == seq!['"'] + escaped(text@) + seq!['"'],
        json(LuaData::Binary) == "\"\""@,
        json(LuaData::Integer(i)) == signed_decimal(i as int),
        number@ == "inf"@ || number@ == "-inf"@ || number@ == "NaN"@ ==> json(
            LuaData::Number(number),
        ) == "null"@,
        number@ != "inf"@ && number@ != "-inf"@ && number@ != "NaN"@ ==> json(
            LuaData::Number(number),
        ) == number@,
        json(LuaData::Boolean(b)) == (if b {
            "true"@
        } else {
            "false"@
        }),
        json(LuaData::Nil) == "null"@,
        json(LuaData::Other) == "null"@,
{
    law_json_words();
}

/// An array holds the text of each of its items, in their order, in brackets and
/// with commas between them.
pub proof fn law_json_of_arrays(items: Vec<LuaData>, some: Seq<LuaData>, item: LuaData)
    ensures
        json(LuaData::Array(items)) == seq!['['] + json_items(items@) + seq![']'],
        json_items(seq![]) == Seq::<char>::empty(),
        json_items(seq![item]) == json(item),
        some.len() > 0 ==> json_items(some.push(item)) == json_items(some) + seq![','] + json(item),
{
    assert(some.push(item).drop_last() =~= some);
}

/// An object holds each key and the text of its value, in their order, in braces,
/// with a colon between the two and with commas between the pairs.
pub proof fn law_json_of_tables(
    pairs: Vec<(LuaData, LuaData)>,
    some: Seq<(LuaData, LuaData)>,
    key: LuaData,
    value: LuaData,
)
    ensures
        json(LuaData::Table(pairs)) == seq!['{'] + json_pairs(pairs@) + seq!['}'],
        json_pairs(seq![]) == Seq::<char>::empty(),
        json_pairs(seq![(key, value)]) == key_text(key, json(key)) + seq![':'] + json(value),
        some.len() > 0 ==> json_pairs(some.push((key, value))) == json_pairs(some) + seq![',']
            + key_text(key, json(key)) + seq![':'] + json(value),
{
    assert(some.push((key, value)).drop_last() =~= some);
}

/// A key is a JSON string: the text of a string, and else a string of the text
/// that the key would have as a value.
pub proof fn law_keys_are_strings(key: LuaData)
    ensures
        key is Text || key is Binary ==> key_text(key, json(key)) == json(key),
        !(key is Text) && !(key is Binary) ==> key_text(key, json(key)) == seq!['"'] + escaped(
            json(key),
        ) + seq!['"'],
        key_text(key, json(key)).len() >= 2,
        key_text(key, json(key))[0] == '"',
        key_text(key, json(key)).last() == '"',
{
}

/// A text is escaped character by character: a quotation mark and a backslash
/// behind a backslash, a control character by its number in four hexadecimal
/// digits, and every other character as it is.
pub proof fn law_escaped_by_character(s: Seq<char>, c: char)
    ensures
        escaped(seq![]) == Seq::<char>::empty(),
        c == '"' || c == '\\' ==> escaped(s.push(c)) == escaped(s) + seq!['\\', c],
        32 > c as u32 ==> {
            let k = escaped(s).len() as int + 2;
            let digits = escaped(s.push(c)).skip(k);
            &&& escaped(s.push(c)).take(k) == escaped(s) + seq!['\\', 'u']
            &&& digits.len() == 4
            &&& hex_number(digits) == c as u32
        },
        c != '"' && c != '\\' && !(32 > c as u32) ==> escaped(s.push(c)) == escaped(s).push(c),
{
    assert(s.push(c).drop_last() =~= s);
    if c == '"' || c == '\\' {
    } else if 32 > c as u32 {
        let n = (c as u32) as nat;
        lemma_control_digits(n);
        law_hex_reads_back(n, 4);
        let all = escaped(s.push(c));
        let k = escaped(s).len() + 2;
        assert(all.take(k as int) =~= escaped(s) + seq!['\\', 'u']);
        assert(all.skip(k as int) =~= hex_at_least(n, 4));
    } else {
        assert(escaped(s.push(c)) =~= escaped(s).push(c));
    }
}

/// Within a JSON string there is no control character.
pub proof fn law_escaped_has_no_controls(s: Seq<char>, i: int)
    requires
        0 <= i < escaped(s).len(),
    ensures
        escaped(s)[i] as u32 >= 32,
    decreases s.len(),
{
    if s.len() > 0 {
        let before = escaped(s.drop_last());
        let c = s.last();
        if i < before.len() {
            law_escaped_has_no_controls(s.drop_last(), i);
        } else {
            let own = escaped_char(c);
            assert(escaped(s)[i] == own[i - before.len()]);
            if c != '"' && c != '\\' && 32 > c as u32 {
                law_hex_reads_back((c as u32) as nat, 4);
                lemma_control_digits((c as u32) as nat);
                if i - before.len() >= 2 {
                    let d = hex_at_least((c as u32) as nat, 4)[i - before.len() - 2];
                    assert(own[i - before.len()] == d);
                    lemma_visible(d);
                }
            }
        }
    }
}

proof fn lemma_visible(c: char)
    requires
        '0' <= c <= '9' || 'a' <= c <= 'f',
    ensures
        c as u32 >= 32,
{
}

} // verus!
