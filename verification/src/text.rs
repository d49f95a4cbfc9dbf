//! Character-level helpers shared by the rest of the library, and the few
//! string functions of the standard library that it leans on.

use vstd::prelude::*;
use vstd::string::*;
use vstd::utf8::*;

verus! {

/// Every character is ASCII.
pub open spec fn all_ascii(s: Seq<char>) -> bool {
    forall|i: int| 0 <= i < s.len() ==> #[trigger] s[i] <= '\u{7f}'
}

/// An ASCII character in lower case.
pub open spec fn lower_char(c: char) -> char {
    if 'A' <= c <= 'Z' {
        (c as u32 + 32) as char
    } else {
        c
    }
}

/// What [`str::to_lowercase`] makes of a string that is not all ASCII.
pub uninterp spec fn unicode_lowercase(s: Seq<char>) -> Seq<char>;

/// A string in lower case.
pub open spec fn lowercase(s: Seq<char>) -> Seq<char> {
    if all_ascii(s) {
        s.map_values(|c: char| lower_char(c))
    } else {
        unicode_lowercase(s)
    }
}

/// What [`String::from_utf8_lossy`] makes of a byte string.
pub uninterp spec fn utf8_lossy(bytes: Seq<u8>) -> Seq<char>;

/// Calls [`str::to_lowercase`]: the Unicode lower-case mapping of the whole
/// string, a function of the string alone, which takes the ASCII capitals to
/// their small letters and leaves other ASCII as it is.
#[verifier::external_body]
pub(crate) fn to_lowercase(s: &str) -> (r: String)
    ensures
        all_ascii(s@) ==> r@ == lowercase(s@),
        !all_ascii(s@) ==> r@ == unicode_lowercase(s@),
{
    s.to_lowercase()
}

/// Calls [`String::from_utf8`]: the bytes become a string exactly when they
/// are well-formed UTF-8, and the string is then what they decode to.
#[verifier::external_body]
pub(crate) fn string_from_utf8(bytes: Vec<u8>) -> (r: Option<String>)
    ensures
        r is Some <==> valid_utf8(bytes@),
        r matches Some(s) ==> s@ == decode_utf8(bytes@),
{
    String::from_utf8(bytes).ok()
}

/// Calls [`String::from_utf8_lossy`]: a function of the bytes alone, which
/// leaves well-formed UTF-8 as it is and replaces what is not.
#[verifier::external_body]
pub(crate) fn string_from_utf8_lossy(bytes: &[u8]) -> (r: String)
    ensures
        r@ == utf8_lossy(bytes@),
        valid_utf8(bytes@) ==> r@ == decode_utf8(bytes@),
{
    String::from_utf8_lossy(bytes).into_owned()
}

/// [`String::push`] appends the given character to the end of the string.
pub assume_specification[ String::push ](s: &mut String, c: char)
    ensures
        final(s)@ == old(s)@.push(c),
;

/// Whether two strings hold the same characters.
pub fn str_eq(a: &str, b: &str) -> (r: bool)
    ensures
        r == (a@ == b@),
{
    let x = a.as_bytes();
    let y = b.as_bytes();
    proof {
        encode_utf8_decode_utf8(a@);
        encode_utf8_decode_utf8(b@);
    }
    if x.len() != y.len() {
        return false;
    }
    let mut i: usize = 0;
    while i < x.len()
        invariant
            i <= x.len(),
            x@.len() == y@.len(),
            x@ == encode_utf8(a@),
            y@ == encode_utf8(b@),
            forall|j: int| 0 <= j < i ==> x@[j] == y@[j],
        decreases x.len() - i,
    {
        if x[i] != y[i] {
            return false;
        }
        i += 1;
    }
    assert(x@ =~= y@);
    true
}

/// The characters of a string, one by one.
pub fn chars_of(s: &str) -> (r: Vec<char>)
    ensures
        r@ == s@,
{
    let mut out: Vec<char> = Vec::new();
    for c in it: s.chars()
        invariant
            out@ == it.seq().take(it.index() as int),
            it.seq() == s@,
    {
        out.push(c);
        assert(it.seq().take(it.index() + 1) =~= it.seq().take(it.index() as int).push(c));
    }
    assert(out@ =~= s@);
    out
}

/// A string made of the given characters.
pub fn string_of(chars: &Vec<char>) -> (r: String)
    ensures
        r@ == chars@,
{
    let mut out = String::new();
    let mut i: usize = 0;
    while i < chars.len()
        invariant
            i <= chars.len(),
            out@ == chars@.take(i as int),
        decreases chars.len() - i,
    {
        out.push(chars[i]);
        assert(chars@.take(i + 1) =~= chars@.take(i as int).push(chars@[i as int]));
        i += 1;
    }
    assert(chars@.take(i as int) =~= chars@);
    out
}

/// The part of `s` that is left once every trailing `c` is taken off.
pub open spec fn trim_end(s: Seq<char>, c: char) -> Seq<char>
    decreases s.len(),
{
    if s.len() > 0 && s.last() == c {
        trim_end(s.drop_last(), c)
    } else {
        s
    }
}

/// Takes every trailing `c` off `s`.
pub fn trim_end_char(s: &str, c: char) -> (r: String)
    ensures
        r@ == trim_end(s@, c),
{
    let mut chars = chars_of(s);
    while chars.len() > 0 && chars[chars.len() - 1] == c
        invariant
            trim_end(chars@, c) == trim_end(s@, c),
        decreases chars.len(),
    {
        let _ = chars.pop();
    }
    string_of(&chars)
}

/// The character of a decimal digit.
pub open spec fn digit_char(d: nat) -> char {
    ('0' as u8 + d) as char
}

/// A number in decimal, without leading zeros.
pub open spec fn decimal(n: nat) -> Seq<char>
    decreases n,
{
    if n < 10 {
        seq![digit_char(n)]
    } else {
        decimal(n / 10).push(digit_char(n % 10))
    }
}

/// A signed number in decimal.
pub open spec fn signed_decimal(n: int) -> Seq<char> {
    if n < 0 {
        seq!['-'] + decimal((-n) as nat)
    } else {
        decimal(n as nat)
    }
}

/// Appends `n` in decimal.
pub fn push_decimal(out: &mut String, n: u64)
    ensures
        final(out)@ == old(out)@ + decimal(n as nat),
    decreases n,
{
    if n < 10 {
        out.push(('0' as u8 + n as u8) as char);
        assert(old(out)@.push(digit_char(n as nat)) =~= old(out)@ + decimal(n as nat));
    } else {
        push_decimal(out, n / 10);
        out.push(('0' as u8 + (n % 10) as u8) as char);
        assert(old(out)@ + decimal((n / 10) as nat).push(digit_char((n % 10) as nat)) =~= (old(out)@
            + decimal((n / 10) as nat)).push(digit_char((n % 10) as nat)));
    }
}

/// `n` in decimal.
pub fn signed_decimal_text(n: i64) -> (r: String)
    ensures
        r@ == signed_decimal(n as int),
{
    let mut out = String::new();
    if n < 0 {
        out.push('-');
        push_decimal(&mut out, (0 - (n as i128)) as u64);
        assert(out@ =~= signed_decimal(n as int));
    } else {
        push_decimal(&mut out, n as u64);
        assert(out@ =~= signed_decimal(n as int));
    }
    out
}

/// The character of a lower-case hexadecimal digit.
pub open spec fn hex_char(d: nat) -> char {
    if d < 10 {
        ('0' as u8 + d) as char
    } else {
        ('a' as u8 + (d - 10)) as char
    }
}

/// The `width` lowest hexadecimal digits of `n`, leading zeros and all.
pub open spec fn hex_digits(n: nat, width: nat) -> Seq<char>
    decreases width,
{
    if width == 0 {
        seq![]
    } else {
        hex_digits(n / 16, (width - 1) as nat).push(hex_char(n % 16))
    }
}

/// How many hexadecimal digits it takes to write `n`.
pub open spec fn hex_width(n: nat) -> nat
    decreases n,
{
    if n < 16 {
        1
    } else {
        1 + hex_width(n / 16)
    }
}

/// A number in lower-case hexadecimal, filled with leading zeros up to `width`
/// digits, and longer where it takes more.
pub open spec fn hex_at_least(n: nat, width: nat) -> Seq<char> {
    hex_digits(n, if hex_width(n) > width { hex_width(n) } else { width })
}

fn hex_digit(d: u8) -> (r: char)
    requires
        d < 16,
    ensures
        r == hex_char(d as nat),
{
    if d < 10 {
        ('0' as u8 + d) as char
    } else {
        ('a' as u8 + (d - 10)) as char
    }
}

fn push_hex_digits(out: &mut String, n: u64, width: u64)
    ensures
        final(out)@ == old(out)@ + hex_digits(n as nat, width as nat),
    decreases width,
{
    if width == 0 {
        assert(old(out)@ + hex_digits(n as nat, 0) =~= old(out)@);
    } else {
        push_hex_digits(out, n / 16, width - 1);
        out.push(hex_digit((n % 16) as u8));
        let ghost high = hex_digits((n / 16) as nat, (width - 1) as nat);
        assert(old(out)@ + high.push(hex_char((n % 16) as nat)) =~= (old(out)@ + high).push(
            hex_char((n % 16) as nat),
        ));
    }
}

fn hex_width_of(n: u64) -> (r: u64)
    ensures
        r == hex_width(n as nat),
        1 <= r <= 1 + n / 16,
    decreases n,
{
    if n < 16 {
        1
    } else {
        let w = hex_width_of(n / 16);
        1 + w
    }
}

/// Appends `n` in hexadecimal with at least `width` digits.
pub fn push_hex(out: &mut String, n: u64, width: u64)
    ensures
        final(out)@ == old(out)@ + hex_at_least(n as nat, width as nat),
{
    let w = hex_width_of(n);
    push_hex_digits(out, n, if w > width { w } else { width });
}

/// The views of a list of strings.
pub open spec fn string_views(names: Seq<String>) -> Seq<Seq<char>> {
    names.map_values(|s: String| s@)
}

pub(crate) fn clone_strings(names: &Vec<String>) -> (r: Vec<String>)
    ensures
        r@ == names@,
{
    let mut out: Vec<String> = Vec::new();
    let mut i: usize = 0;
    while i < names.len()
        invariant
            i <= names.len(),
            out@ == names@.take(i as int),
        decreases names.len() - i,
    {
        out.push(names[i].clone());
        assert(names@.take(i + 1) =~= names@.take(i as int).push(names@[i as int]));
        i += 1;
    }
    assert(names@.take(i as int) =~= names@);
    out
}

/// An ASCII name has one lower case: lowering it again changes nothing, and it
/// is the same for every way of writing the name in capitals and small letters.
pub proof fn law_ascii_lowercase(s: Seq<char>, t: Seq<char>)
    requires
        all_ascii(s),
        all_ascii(t),
        s.len() == t.len(),
        forall|i: int| 0 <= i < s.len() ==> lower_char(#[trigger] s[i]) == lower_char(t[i]),
    ensures
        all_ascii(lowercase(s)),
        lowercase(lowercase(s)) == lowercase(s),
        lowercase(t) == lowercase(s),
{
    let low = lowercase(s);
    assert forall|i: int| 0 <= i < low.len() implies #[trigger] low[i] <= '\u{7f}' by {
        assert(low[i] == lower_char(s[i]));
    }
    assert(lowercase(low) =~= low);
    assert(lowercase(t) =~= low);
}

/// In the lower case of an ASCII text every capital letter is the small one, 32
/// numbers up, and every other character is as it was.
pub proof fn law_lowercase_letters(s: Seq<char>, i: int)
    requires
        all_ascii(s),
        0 <= i < s.len(),
    ensures
        lowercase(s).len() == s.len(),
        'A' <= s[i] <= 'Z' ==> lowercase(s)[i] as u32 == s[i] as u32 + 32,
        !('A' <= s[i] <= 'Z') ==> lowercase(s)[i] == s[i],
{
    lemma_lower_char(s[i]);
}

proof fn lemma_lower_char(c: char)
    ensures
        'A' <= c <= 'Z' ==> lower_char(c) as u32 == c as u32 + 32,
        !('A' <= c <= 'Z') ==> lower_char(c) == c,
{
}

/// A text of which every character is below 128 is ASCII, and no other is.
pub proof fn law_ascii_is_below_128(s: Seq<char>)
    ensures
        all_ascii(s) <==> forall|i: int| 0 <= i < s.len() ==> (#[trigger] s[i]) as u32 <= 127,
{
    if all_ascii(s) {
        assert forall|i: int| 0 <= i < s.len() implies (#[trigger] s[i]) as u32 <= 127 by {
            lemma_char_order(s[i]);
        }
    }
    if forall|i: int| 0 <= i < s.len() ==> (#[trigger] s[i]) as u32 <= 127 {
        assert forall|i: int| 0 <= i < s.len() implies #[trigger] s[i] <= '\u{7f}' by {
            lemma_char_order(s[i]);
        }
    }
}

proof fn lemma_char_order(c: char)
    ensures
        c <= '\u{7f}' <==> c as u32 <= 127,
{
}

/// What is left of a text once a character is taken off its end is the front of
/// it: what was taken off is nothing but the character, and what is left does not
/// end in it. Gives the length of what is left.
pub proof fn law_trim_end(s: Seq<char>, c: char) -> (k: int)
    ensures
        0 <= k <= s.len(),
        trim_end(s, c) == s.take(k),
        forall|i: int| k <= i < s.len() ==> #[trigger] s[i] == c,
        k > 0 ==> s[k - 1] != c,
    decreases s.len(),
{
    if s.len() > 0 && s.last() == c {
        let rest = s.drop_last();
        let k = law_trim_end(rest, c);
        assert(rest.take(k) =~= s.take(k));
        assert forall|i: int| k <= i < s.len() implies #[trigger] s[i] == c by {
            if i < rest.len() {
                assert(rest[i] == c);
            }
        }
        k
    } else {
        assert(s.take(s.len() as int) =~= s);
        s.len() as int
    }
}

/// The number that a text of decimal digits stands for.
pub open spec fn decimal_number(s: Seq<char>) -> int
    decreases s.len(),
{
    if s.len() == 0 {
        0
    } else {
        decimal_number(s.drop_last()) * 10 + (s.last() as int - 48)
    }
}

proof fn lemma_digit_char(d: nat)
    requires
        d < 10,
    ensures
        digit_char(d) as int == 48 + d,
        '0' <= digit_char(d) <= '9',
{
}

/// A number in decimal is made of digits that stand for it, and has no zero at
/// its front unless it is zero.
pub proof fn law_decimal_reads_back(n: nat)
    ensures
        decimal_number(decimal(n)) == n,
        decimal(n).len() > 0,
        forall|i: int| 0 <= i < decimal(n).len() ==> '0' <= #[trigger] decimal(n)[i] <= '9',
        decimal(n)[0] == '0' ==> n == 0 && decimal(n).len() == 1,
    decreases n,
{
    lemma_digit_char(n % 10);
    if n < 10 {
        lemma_digit_char(n);
        assert(decimal(n).drop_last() =~= seq![]);
        assert(decimal_number(decimal(n).drop_last()) == 0);
    } else {
        let high = decimal(n / 10);
        law_decimal_reads_back(n / 10);
        assert(decimal(n).drop_last() =~= high);
        assert forall|i: int| 0 <= i < decimal(n).len() implies '0' <= #[trigger] decimal(n)[i]
            <= '9' by {
            if i < high.len() {
                assert(decimal(n)[i] == high[i]);
            }
        }
        assert(decimal(n)[0] == high[0]);
    }
}

/// A signed number is written with a minus sign exactly if it is below zero, and
/// what follows that stands for its size.
pub proof fn law_signed_decimal_reads_back(n: int)
    ensures
        n >= 0 ==> decimal_number(signed_decimal(n)) == n,
        n >= 0 ==> '0' <= signed_decimal(n)[0] <= '9',
        n < 0 ==> signed_decimal(n)[0] == '-' && decimal_number(signed_decimal(n).skip(1)) == -n,
{
    if n < 0 {
        law_decimal_reads_back((-n) as nat);
        assert(signed_decimal(n).skip(1) =~= decimal((-n) as nat));
    } else {
        law_decimal_reads_back(n as nat);
    }
}

/// The number that a text of lower-case hexadecimal digits stands for.
pub open spec fn hex_number(s: Seq<char>) -> int
    decreases s.len(),
{
    if s.len() == 0 {
        0
    } else {
        hex_number(s.drop_last()) * 16 + (if s.last() <= '9' {
            s.last() as int - 48
        } else {
            s.last() as int - 87
        })
    }
}

proof fn lemma_hex_char(d: nat)
    requires
        d < 16,
    ensures
        '0' <= hex_char(d) <= '9' || 'a' <= hex_char(d) <= 'f',
        d < 10 ==> hex_char(d) <= '9' && hex_char(d) as int - 48 == d,
        d >= 10 ==> hex_char(d) > '9' && hex_char(d) as int - 87 == d,
{
}

proof fn lemma_hex_digits_value(n: nat, width: nat)
    requires
        hex_width(n) <= width,
    ensures
        hex_digits(n, width).len() == width,
        hex_number(hex_digits(n, width)) == n,
        forall|i: int|
            0 <= i < width ==> {
                let c = #[trigger] hex_digits(n, width)[i];
                '0' <= c <= '9' || 'a' <= c <= 'f'
            },
    decreases width,
{
    let high = hex_digits(n / 16, (width - 1) as nat);
    lemma_hex_char(n % 16);
    assert(hex_digits(n, width).drop_last() =~= high);
    if n < 16 {
        lemma_zero_digits((width - 1) as nat);
    } else {
        lemma_hex_digits_value(n / 16, (width - 1) as nat);
    }
    assert forall|i: int| 0 <= i < width implies {
        let c = #[trigger] hex_digits(n, width)[i];
        '0' <= c <= '9' || 'a' <= c <= 'f'
    } by {
        if i < width - 1 {
            assert(hex_digits(n, width)[i] == high[i]);
        }
    }
}

proof fn lemma_zero_digits(width: nat)
    ensures
        hex_digits(0, width).len() == width,
        hex_number(hex_digits(0, width)) == 0,
        forall|i: int| 0 <= i < width ==> #[trigger] hex_digits(0, width)[i] == '0',
    decreases width,
{
    if width > 0 {
        let high = hex_digits(0, (width - 1) as nat);
        lemma_zero_digits((width - 1) as nat);
        assert(hex_digits(0, width).drop_last() =~= high);
        assert forall|i: int| 0 <= i < width implies #[trigger] hex_digits(0, width)[i] == '0' by {
            if i < width - 1 {
                assert(hex_digits(0, width)[i] == high[i]);
            }
        }
    }
}

proof fn lemma_hex_leading(n: nat)
    ensures
        hex_width(n) >= 1,
        hex_width(n) > 1 ==> hex_digits(n, hex_width(n))[0] != '0',
    decreases n,
{
    if n >= 16 {
        let w = hex_width(n / 16);
        let high = hex_digits(n / 16, w);
        lemma_hex_leading(n / 16);
        lemma_hex_digits_value(n / 16, w);
        assert(hex_digits(n, hex_width(n))[0] == high[0]);
        if w == 1 {
            if n / 16 >= 16 {
                lemma_hex_leading(n / 16 / 16);
            }
            lemma_hex_char(n / 16);
            reveal_with_fuel(hex_digits, 2);
            assert(high[0] == hex_char(n / 16 % 16));
        }
    }
}

/// A number in hexadecimal is made of digits that stand for it. It has as many as
/// were asked for, or more where it takes more, and then no zero at its front.
pub proof fn law_hex_reads_back(n: nat, width: nat)
    ensures
        hex_number(hex_at_least(n, width)) == n,
        hex_at_least(n, width).len() >= width,
        hex_at_least(n, width).len() >= 1,
        hex_at_least(n, width).len() > width && hex_at_least(n, width).len() > 1 ==> hex_at_least(
            n,
            width,
        )[0] != '0',
        forall|i: int|
            0 <= i < hex_at_least(n, width).len() ==> {
                let c = #[trigger] hex_at_least(n, width)[i];
                '0' <= c <= '9' || 'a' <= c <= 'f'
            },
{
    lemma_hex_leading(n);
    lemma_hex_digits_value(n, if hex_width(n) > width { hex_width(n) } else { width });
}

} // verus!
