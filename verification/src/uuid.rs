//! The identifiers that plugins see as `uuid.v4`.

use vstd::prelude::*;
use vstd::string::*;

use crate::text::{
    hex_at_least, hex_char, hex_digits, hex_number, hex_width, law_hex_reads_back, push_hex,
};

verus! {

#[verifier::external_type_specification]
#[verifier::external_body]
pub struct ExSystemTime(std::time::SystemTime);

#[verifier::external_type_specification]
#[verifier::external_body]
pub struct ExSystemTimeError(std::time::SystemTimeError);

/// [`std::time::SystemTime::now`] reads the clock: nothing is promised of what
/// it shows.
pub assume_specification[ std::time::SystemTime::now ]() -> std::time::SystemTime;

/// [`std::time::Duration::subsec_nanos`] is the part of a span below a second,
/// always less than one billion nanoseconds.
pub assume_specification[ std::time::Duration::subsec_nanos ](d: &std::time::Duration) -> (r: u32)
    ensures
        r < 1_000_000_000,
;

/// Calls [`std::time::SystemTime::duration_since`] with the Unix epoch: how long
/// after the epoch `t` is, or an error where it is before. Nothing is promised
/// of either.
#[verifier::external_body]
fn since_epoch(t: std::time::SystemTime) -> (r: Result<
    std::time::Duration,
    std::time::SystemTimeError,
>) {
    t.duration_since(std::time::UNIX_EPOCH)
}

/// The multiplier that spreads the clock reading over the last group.
pub const SPREAD: u64 = 6364136223846793005;

/// The last group: the lowest 48 bits of the reading times the multiplier.
pub open spec fn spread(ns: u32) -> nat {
    (ns * SPREAD) as nat % 0x1_0000_0000_0000_0000 % 0x1_0000_0000_0000
}

/// The identifier made from a clock reading: five groups of hexadecimal digits,
/// of which the third starts with the version digit and the fourth has its top
/// bit set.
pub open spec fn uuid_text(ns: u32) -> Seq<char> {
    hex_at_least(ns as nat, 8) + seq!['-'] + hex_at_least((ns / 65536 % 65536) as nat, 4) + seq![
        '-',
        '4',
    ] + hex_at_least((ns / 16 % 4096) as nat, 3) + seq!['-'] + hex_at_least(
        (32768 + ns / 4 % 16384) as nat,
        4,
    ) + seq!['-'] + hex_at_least(spread(ns), 12)
}

/// Makes the identifier for a clock reading.
pub fn uuid_from_nanos(ns: u32) -> (r: String)
    ensures
        r@ == uuid_text(ns),
{
    let mut out = String::new();
    push_hex(&mut out, ns as u64, 8);
    out.push('-');
    push_hex(&mut out, (ns / 65536 % 65536) as u64, 4);
    out.push('-');
    out.push('4');
    push_hex(&mut out, (ns / 16 % 4096) as u64, 3);
    out.push('-');
    push_hex(&mut out, (32768 + ns / 4 % 16384) as u64, 4);
    out.push('-');
    let last = (ns as u64).wrapping_mul(SPREAD) % 0x1_0000_0000_0000;
    assert(last == spread(ns));
    push_hex(&mut out, last, 12);
    assert(out@ =~= uuid_text(ns));
    out
}

/// A fresh identifier, made from the clock.
pub fn uuid_v4() -> (r: String)
    ensures
        exists|ns: u32| ns < 1_000_000_000 && r@ == #[trigger] uuid_text(ns),
{
    let ns: u32 = match since_epoch(std::time::SystemTime::now()) {
        Ok(d) => d.subsec_nanos(),
        Err(_) => 0,
    };
    uuid_from_nanos(ns)
}

/// A lower-case hexadecimal digit.
pub open spec fn is_hex_digit(c: char) -> bool {
    '0' <= c <= '9' || 'a' <= c <= 'f'
}

proof fn lemma_hex_digits(n: nat, width: nat)
    ensures
        hex_digits(n, width).len() == width,
        forall|i: int| 0 <= i < width ==> is_hex_digit(#[trigger] hex_digits(n, width)[i]),
    decreases width,
{
    if width > 0 {
        lemma_hex_digits(n / 16, (width - 1) as nat);
        let high = hex_digits(n / 16, (width - 1) as nat);
        assert forall|i: int| 0 <= i < width implies is_hex_digit(
            #[trigger] hex_digits(n, width)[i],
        ) by {
            if i < width - 1 {
                assert(hex_digits(n, width)[i] == high[i]);
            }
        }
    }
}

/// Numbers that fit into the least number of digits get exactly that many.
proof fn lemma_group_widths(ns: u32)
    ensures
        hex_at_least(ns as nat, 8) == hex_digits(ns as nat, 8),
        hex_at_least((ns / 65536 % 65536) as nat, 4) == hex_digits(
            (ns / 65536 % 65536) as nat,
            4,
        ),
        hex_at_least((ns / 16 % 4096) as nat, 3) == hex_digits((ns / 16 % 4096) as nat, 3),
        hex_at_least((32768 + ns / 4 % 16384) as nat, 4) == hex_digits(
            (32768 + ns / 4 % 16384) as nat,
            4,
        ),
        hex_at_least(spread(ns), 12) == hex_digits(spread(ns), 12),
{
    reveal_with_fuel(hex_width, 13);
    assert(hex_width(ns as nat) <= 8);
    assert(hex_width((ns / 65536 % 65536) as nat) <= 4);
    assert(hex_width((ns / 16 % 4096) as nat) <= 3);
    assert(hex_width((32768 + ns / 4 % 16384) as nat) <= 4);
    assert(hex_width(spread(ns)) <= 12);
}

/// Every identifier has 36 characters: groups of 8, 4, 4, 4 and 12 hexadecimal
/// digits with hyphens between them, of which the third starts with the version
/// digit `4` and the fourth with one of `8`, `9`, `a` and `b`.
pub proof fn law_uuid_shape(ns: u32)
    ensures
        uuid_text(ns).len() == 36,
        forall|i: int|
            0 <= i < 36 ==> if i == 8 || i == 13 || i == 18 || i == 23 {
                #[trigger] uuid_text(ns)[i] == '-'
            } else {
                is_hex_digit(uuid_text(ns)[i])
            },
        uuid_text(ns)[14] == '4',
        uuid_text(ns)[19] == '8' || uuid_text(ns)[19] == '9' || uuid_text(ns)[19] == 'a'
            || uuid_text(ns)[19] == 'b',
{
    lemma_group_widths(ns);
    let b = (ns / 65536 % 65536) as nat;
    let c = (ns / 16 % 4096) as nat;
    let d = (32768 + ns / 4 % 16384) as nat;
    lemma_hex_digits(ns as nat, 8);
    lemma_hex_digits(b, 4);
    lemma_hex_digits(c, 3);
    lemma_hex_digits(d, 4);
    lemma_hex_digits(spread(ns), 12);
    let text = uuid_text(ns);
    assert forall|i: int| 0 <= i < 36 implies if i == 8 || i == 13 || i == 18 || i == 23 {
        #[trigger] text[i] == '-'
    } else {
        is_hex_digit(text[i])
    } by {
        if i < 8 {
            assert(text[i] == hex_digits(ns as nat, 8)[i]);
        } else if 8 < i < 13 {
            assert(text[i] == hex_digits(b, 4)[i - 9]);
        } else if 14 < i < 18 {
            assert(text[i] == hex_digits(c, 3)[i - 15]);
        } else if 18 < i < 23 {
            assert(text[i] == hex_digits(d, 4)[i - 19]);
        } else if 23 < i {
            assert(text[i] == hex_digits(spread(ns), 12)[i - 24]);
        }
    }
    assert(hex_digits(d, 4)[0] == hex_char(d / 16 / 16 / 16 % 16)) by {
        reveal_with_fuel(hex_digits, 5);
    }
    assert(8 <= d / 16 / 16 / 16 <= 11);
}

/// The groups of an identifier stand for the clock reading: the first for all of
/// it, the next three for bits of it behind the version and the variant, and the
/// last for the reading spread over 48 bits. Two readings never give the same
/// identifier.
pub proof fn law_uuid_tells_reading(ns: u32, other: u32)
    ensures
        hex_number(uuid_text(ns).take(8)) == ns,
        hex_number(uuid_text(ns).subrange(9, 13)) == ns / 65536,
        hex_number(uuid_text(ns).subrange(15, 18)) == ns / 16 % 4096,
        hex_number(uuid_text(ns).subrange(19, 23)) == 0x8000 + ns / 4 % 16384,
        hex_number(uuid_text(ns).skip(24)) == (ns * 6364136223846793005) % 0x1_0000_0000_0000,
        uuid_text(other) == uuid_text(ns) ==> other == ns,
{
    lemma_groups(ns);
    lemma_groups(other);
    lemma_spread(ns);
}

proof fn lemma_spread(ns: u32)
    ensures
        spread(ns) == (ns * 6364136223846793005) % 0x1_0000_0000_0000,
{
    vstd::arithmetic::div_mod::lemma_mod_mod(ns * SPREAD, 0x1_0000_0000_0000, 0x1_0000);
}

proof fn lemma_groups(ns: u32)
    ensures
        hex_number(uuid_text(ns).take(8)) == ns,
        hex_number(uuid_text(ns).subrange(9, 13)) == ns / 65536,
        hex_number(uuid_text(ns).subrange(15, 18)) == ns / 16 % 4096,
        hex_number(uuid_text(ns).subrange(19, 23)) == 0x8000 + ns / 4 % 16384,
        hex_number(uuid_text(ns).skip(24)) == spread(ns),
{
    let b = (ns / 65536 % 65536) as nat;
    let c = (ns / 16 % 4096) as nat;
    let d = (32768 + ns / 4 % 16384) as nat;
    lemma_group_widths(ns);
    lemma_hex_digits(ns as nat, 8);
    lemma_hex_digits(b, 4);
    lemma_hex_digits(c, 3);
    lemma_hex_digits(d, 4);
    lemma_hex_digits(spread(ns), 12);
    law_hex_reads_back(ns as nat, 8);
    law_hex_reads_back(b, 4);
    law_hex_reads_back(c, 3);
    law_hex_reads_back(d, 4);
    law_hex_reads_back(spread(ns), 12);
    let text = uuid_text(ns);
    assert(text.take(8) =~= hex_digits(ns as nat, 8));
    assert(text.subrange(9, 13) =~= hex_digits(b, 4));
    assert(text.subrange(15, 18) =~= hex_digits(c, 3));
    assert(text.subrange(19, 23) =~= hex_digits(d, 4));
    assert(text.skip(24) =~= hex_digits(spread(ns), 12));
}

} // verus!
