//! File names of committed snapshots and of the pointer to the latest one.

use crate::order::{
    differ_at, has_prefix, lemma_differ_at_orders, lemma_encode_concat, lemma_has_prefix,
    lemma_lex_le_after_common, name_le,
};
use vstd::prelude::*;
use vstd::string::*;
use vstd::utf8::{encode_utf8, is_ascii_chars, is_ascii_chars_encode_utf8};

verus! {

/// What follows the timestamp in the name of a committed snapshot.
pub const SNAPSHOT_SUFFIX: &'static str = ".zones.tar.zst";

/// What follows the prefix in the name of the pointer to the latest snapshot.
pub const LATEST_SUFFIX: &'static str = "_latest";

/// The texts of a vector of strings.
pub open spec fn texts(strings: Seq<String>) -> Seq<Seq<char>> {
    strings.map_values(|text: String| text@)
}

/// The character for a decimal digit `d`, `0 <= d < 10`.
pub open spec fn digit(d: int) -> char {
    (0x30 + d) as u8 as char
}

/// A natural number in decimal, without leading zeros.
pub open spec fn decimal_nat(n: nat) -> Seq<char>
    decreases n,
{
    if n < 10 {
        seq![digit(n as int)]
    } else {
        decimal_nat(n / 10).push(digit((n % 10) as int))
    }
}

/// An integer in decimal, with a minus sign before a negative one.
pub open spec fn decimal(n: int) -> Seq<char> {
    if n < 0 {
        seq!['-'] + decimal_nat((-n) as nat)
    } else {
        decimal_nat(n as nat)
    }
}

/// The name of the snapshot committed at `seconds` after the Unix epoch:
/// the prefix, an underscore, the seconds in decimal, and the suffix.
pub open spec fn snapshot_name(prefix: Seq<char>, seconds: int) -> Seq<char> {
    prefix + seq!['_'] + decimal(seconds) + SNAPSHOT_SUFFIX@
}

/// The name of the pointer to the latest snapshot.
pub open spec fn latest_name(prefix: Seq<char>) -> Seq<char> {
    prefix + LATEST_SUFFIX@
}

fn push_decimal(text: &mut String, n: u64)
    ensures
        final(text)@ == old(text)@ + decimal_nat(n as nat),
    decreases n,
{
    if n >= 10 {
        push_decimal(text, n / 10);
    }
    let d: u8 = (n % 10) as u8;
    text.push((0x30u8 + d) as char);
    proof {
        if n >= 10 {
            assert(final(text)@ == old(text)@ + decimal_nat((n / 10) as nat).push(
                digit((n % 10) as int),
            ));
        } else {
            assert(final(text)@ == old(text)@ + seq![digit(n as int)]);
        }
    }
}

/// Writes `n` in decimal.
pub fn decimal_string(n: i64) -> (text: String)
    ensures
        text@ == decimal(n as int),
{
    let mut text = String::new();
    if n < 0 {
        text.push('-');
        let magnitude: u64 = if n == i64::MIN {
            0x8000_0000_0000_0000u64
        } else {
            (-n) as u64
        };
        push_decimal(&mut text, magnitude);
        assert(text@ == seq!['-'] + decimal_nat((-n) as nat));
    } else {
        push_decimal(&mut text, n as u64);
        assert(text@ == decimal_nat(n as nat));
    }
    text
}

/// The file name under which a snapshot taken at `seconds` is committed.
pub fn snapshot_file_name(prefix: &str, seconds: i64) -> (name: String)
    ensures
        name@ == snapshot_name(prefix@, seconds as int),
{
    let mut name = String::from_str(prefix);
    name.push('_');
    let digits = decimal_string(seconds);
    name.append(digits.as_str());
    name.append(SNAPSHOT_SUFFIX);
    name
}

/// The file name of the pointer to the latest snapshot.
pub fn latest_file_name(prefix: &str) -> (name: String)
    ensures
        name@ == latest_name(prefix@),
{
    let mut name = String::from_str(prefix);
    name.append(LATEST_SUFFIX);
    name
}

/// A number in decimal has at least one character, and each is a digit.
pub proof fn lemma_decimal_nat_digits(n: nat)
    ensures
        decimal_nat(n).len() >= 1,
        forall|i: int| 0 <= i < decimal_nat(n).len() ==> '0' <= #[trigger] decimal_nat(n)[i] <= '9',
    decreases n,
{
    if n >= 10 {
        lemma_decimal_nat_digits(n / 10);
    }
}

/// A digit's character stands `d` places after `'0'`.
pub proof fn lemma_digit_value(d: int)
    requires
        0 <= d < 10,
    ensures
        digit(d) as u32 == 0x30 + d,
        '0' <= digit(d) <= '9',
{
}

/// Different natural numbers are written differently.
pub proof fn lemma_decimal_nat_injective(a: nat, b: nat)
    requires
        decimal_nat(a) == decimal_nat(b),
    ensures
        a == b,
    decreases a,
{
    lemma_decimal_nat_digits(a / 10);
    lemma_decimal_nat_digits(b / 10);
    lemma_digit_value((a % 10) as int);
    lemma_digit_value((b % 10) as int);
    if a >= 10 && b >= 10 {
        assert(decimal_nat(a / 10) == decimal_nat(a).drop_last());
        assert(decimal_nat(b / 10) == decimal_nat(b).drop_last());
        assert(digit((a % 10) as int) == decimal_nat(a).last());
        assert(digit((b % 10) as int) == decimal_nat(b).last());
        lemma_decimal_nat_injective(a / 10, b / 10);
        assert(a % 10 == b % 10);
        assert(a == 10 * (a / 10) + a % 10);
        assert(b == 10 * (b / 10) + b % 10);
    } else if a < 10 && b < 10 {
        assert(a % 10 == a && b % 10 == b);
        assert(digit(a as int) == decimal_nat(a)[0]);
        assert(digit(b as int) == decimal_nat(b)[0]);
    } else if a < 10 {
        assert(decimal_nat(a).len() == 1);
        assert(decimal_nat(b).len() == decimal_nat(b / 10).len() + 1);
    } else {
        assert(decimal_nat(b).len() == 1);
        assert(decimal_nat(a).len() == decimal_nat(a / 10).len() + 1);
    }
}

/// Different integers are written differently.
pub proof fn lemma_decimal_injective(a: int, b: int)
    requires
        decimal(a) == decimal(b),
    ensures
        a == b,
{
    let digits_a = decimal_nat(if a < 0 { -a } else { a } as nat);
    let digits_b = decimal_nat(if b < 0 { -b } else { b } as nat);
    lemma_decimal_nat_digits(if a < 0 { -a } else { a } as nat);
    lemma_decimal_nat_digits(if b < 0 { -b } else { b } as nat);
    assert('0' <= digits_a[0] <= '9');
    assert('0' <= digits_b[0] <= '9');
    if a < 0 && b < 0 {
        assert(digits_a =~= decimal(a).drop_first());
        assert(digits_b =~= decimal(b).drop_first());
        lemma_decimal_nat_injective((-a) as nat, (-b) as nat);
    } else if a >= 0 && b >= 0 {
        lemma_decimal_nat_injective(a as nat, b as nat);
    } else if a < 0 {
        assert(decimal(a)[0] == '-');
        assert(decimal(b)[0] == digits_b[0]);
    } else {
        assert(decimal(b)[0] == '-');
        assert(decimal(a)[0] == digits_a[0]);
    }
}

/// Under one prefix, snapshots of different times have different names.
pub proof fn lemma_snapshot_name_injective(prefix: Seq<char>, a: int, b: int)
    requires
        a != b,
    ensures
        snapshot_name(prefix, a) != snapshot_name(prefix, b),
{
    let head = prefix + seq!['_'];
    let tail = SNAPSHOT_SUFFIX@;
    if snapshot_name(prefix, a) == snapshot_name(prefix, b) {
        let name_a = head + decimal(a) + tail;
        let name_b = head + decimal(b) + tail;
        assert(name_a.len() == name_b.len());
        assert(decimal(a).len() == decimal(b).len());
        assert forall|i: int| 0 <= i < decimal(a).len() implies decimal(a)[i] == decimal(b)[i] by {
            assert(name_a[head.len() + i] == decimal(a)[i]);
            assert(name_b[head.len() + i] == decimal(b)[i]);
        }
        assert(decimal(a) =~= decimal(b));
        lemma_decimal_injective(a, b);
    }
}


/// A number is written with one digit exactly where it is below ten.
pub proof fn lemma_decimal_nat_width(n: nat)
    ensures
        decimal_nat(n).len() == 1 <==> n < 10,
{
    lemma_decimal_nat_digits(n / 10);
}

/// Of two numbers written with equally many digits, the lesser has the
/// lesser digit where the two first differ. The result is that place.
pub proof fn lemma_decimal_nat_order(a: nat, b: nat) -> (at: int)
    requires
        a < b,
        decimal_nat(a).len() == decimal_nat(b).len(),
    ensures
        0 <= at < decimal_nat(a).len(),
        decimal_nat(a).take(at) == decimal_nat(b).take(at),
        decimal_nat(a)[at] < decimal_nat(b)[at],
    decreases a,
{
    lemma_decimal_nat_width(a);
    lemma_decimal_nat_width(b);
    lemma_digit_value((a % 10) as int);
    lemma_digit_value((b % 10) as int);
    if a < 10 {
        assert(decimal_nat(a).take(0) =~= decimal_nat(b).take(0));
        0
    } else {
        let shorter_a = decimal_nat(a / 10);
        let shorter_b = decimal_nat(b / 10);
        if a / 10 < b / 10 {
            let at = lemma_decimal_nat_order(a / 10, b / 10);
            assert(decimal_nat(a).take(at) =~= shorter_a.take(at));
            assert(decimal_nat(b).take(at) =~= shorter_b.take(at));
            at
        } else {
            assert(a / 10 == b / 10);
            let at = shorter_a.len() as int;
            assert(decimal_nat(a).take(at) =~= shorter_a);
            assert(decimal_nat(b).take(at) =~= shorter_b);
            at
        }
    }
}

/// Names follow time as long as the width of the timestamp does not change.
/// Of two snapshots under one prefix, taken at times that are not negative
/// and are written with equally many digits, the earlier has the strictly
/// lesser name.
pub proof fn lemma_same_width_order(prefix: Seq<char>, earlier: int, later: int)
    requires
        0 <= earlier < later,
        decimal(earlier).len() == decimal(later).len(),
    ensures
        name_le(snapshot_name(prefix, earlier), snapshot_name(prefix, later)),
        !name_le(snapshot_name(prefix, later), snapshot_name(prefix, earlier)),
{
    let head = prefix + seq!['_'];
    let digits_a = decimal(earlier);
    let digits_b = decimal(later);
    let tail_a = digits_a + SNAPSHOT_SUFFIX@;
    let tail_b = digits_b + SNAPSHOT_SUFFIX@;
    let at = lemma_decimal_nat_order(earlier as nat, later as nat);
    lemma_decimal_nat_digits(earlier as nat);
    lemma_decimal_nat_digits(later as nat);
    assert(is_ascii_chars(digits_a));
    assert(is_ascii_chars(digits_b));
    is_ascii_chars_encode_utf8(digits_a);
    is_ascii_chars_encode_utf8(digits_b);
    lemma_encode_concat(digits_a, SNAPSHOT_SUFFIX@);
    lemma_encode_concat(digits_b, SNAPSHOT_SUFFIX@);
    let bytes_a = encode_utf8(tail_a);
    let bytes_b = encode_utf8(tail_b);
    assert(bytes_a[at] == digits_a[at] as u8);
    assert(bytes_b[at] == digits_b[at] as u8);
    assert forall|i: int| 0 <= i < at implies bytes_a[i] == bytes_b[i] by {
        assert(digits_a[i] == digits_a.take(at)[i]);
        assert(digits_b[i] == digits_b.take(at)[i]);
        assert(bytes_a[i] == digits_a[i] as u8);
        assert(bytes_b[i] == digits_b[i] as u8);
    }
    assert(bytes_a.take(at) =~= bytes_b.take(at));
    assert(differ_at(bytes_a, bytes_b, at));
    lemma_differ_at_orders(bytes_a, bytes_b, at);
    assert(snapshot_name(prefix, earlier) =~= head + tail_a);
    assert(snapshot_name(prefix, later) =~= head + tail_b);
    lemma_encode_concat(head, tail_a);
    lemma_encode_concat(head, tail_b);
    lemma_lex_le_after_common(encode_utf8(head), bytes_a, bytes_b);
    lemma_lex_le_after_common(encode_utf8(head), bytes_b, bytes_a);
}

/// The name of a snapshot starts with its prefix and is never the name of
/// the pointer to the latest snapshot.
pub proof fn lemma_snapshot_name_is_no_pointer(prefix: Seq<char>, seconds: int)
    ensures
        has_prefix(snapshot_name(prefix, seconds), prefix),
        snapshot_name(prefix, seconds) != latest_name(prefix),
{
    let rest = seq!['_'] + decimal(seconds) + SNAPSHOT_SUFFIX@;
    assert(snapshot_name(prefix, seconds) =~= prefix + rest);
    lemma_has_prefix(prefix, rest);
    reveal_strlit("_latest");
    if seconds < 0 {
        assert(decimal(seconds)[0] == '-');
    } else {
        lemma_decimal_nat_digits(seconds as nat);
        assert('0' <= decimal(seconds)[0] <= '9');
    }
    let at = prefix.len() as int + 1;
    assert(snapshot_name(prefix, seconds)[at] == decimal(seconds)[0]);
    assert(latest_name(prefix).len() > at ==> latest_name(prefix)[at] == 'l');
}

} // verus!
