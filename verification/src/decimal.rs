//! Decimal parsing as `str::parse` does it for integers.

use vstd::prelude::*;

use crate::bytes::is_digit_byte;
use crate::git_observer::porcelain_status::{digits_value, lemma_digits_prefix_bound, lemma_digits_value_push};

verus! {

/// Every byte is a decimal digit.
pub open spec fn all_digits(d: Seq<u8>) -> bool {
    forall|i: int| 0 <= i < d.len() ==> is_digit_byte(#[trigger] d[i])
}

/// The digits after an optional leading `+`.
pub open spec fn unsigned_digits(b: Seq<u8>) -> Seq<u8> {
    if b.len() >= 1 && b[0] == 43u8 {
        b.skip(1)
    } else {
        b
    }
}

/// `str::parse` into an unsigned type whose largest value is `max`: an optional `+`,
/// then at least one decimal digit, with a value of at most `max`.
pub open spec fn parse_unsigned_spec(b: Seq<u8>, max: nat) -> Option<nat> {
    let d = unsigned_digits(b);
    if d.len() == 0 || !all_digits(d) || digits_value(d) > max {
        None
    } else {
        Some(digits_value(d))
    }
}

/// The unsigned decimal `b` spells, if it fits under `max`.
pub fn parse_unsigned(b: &[u8], max: u64) -> (r: Option<u64>)
    ensures
        match r {
            Some(v) => parse_unsigned_spec(b@, max as nat) == Some(v as nat),
            None => parse_unsigned_spec(b@, max as nat) is None,
        },
{
    let start: usize = if b.len() >= 1 && b[0] == 43u8 { 1 } else { 0 };
    let ghost d = unsigned_digits(b@);
    assert(d =~= b@.skip(start as int));
    if start >= b.len() {
        return None;
    }
    let mut total: u64 = 0;
    let mut i: usize = start;
    assert(b@.subrange(start as int, start as int) =~= Seq::<u8>::empty());
    while i < b.len()
        invariant
            start <= i <= b.len(),
            start < b.len(),
            d == b@.skip(start as int),
            d == unsigned_digits(b@),
            forall|j: int| start <= j < i ==> is_digit_byte(#[trigger] b@[j]),
            total as nat == digits_value(b@.subrange(start as int, i as int)),
            total <= max,
        decreases b.len() - i,
    {
        let c = b[i];
        if !(48u8 <= c && c <= 57u8) {
            assert(!is_digit_byte(d[i - start]));
            return None;
        }
        proof {
            lemma_digits_value_push(b@.subrange(start as int, i as int), c);
            assert(b@.subrange(start as int, i + 1) =~= b@.subrange(start as int, i as int).push(c));
        }
        let digit: u64 = (c - 48u8) as u64;
        if total > max / 10 || (total == max / 10 && digit > max % 10) {
            proof {
                assert(total * 10 + digit > max) by (nonlinear_arith)
                    requires
                        total > max / 10 || (total == max / 10 && digit > max % 10),
                        digit <= 9,
                ;
                if all_digits(d) {
                    lemma_digits_prefix_bound(d, (i - start) as int);
                    assert(d.take(i - start + 1) =~= b@.subrange(start as int, i + 1));
                }
            }
            return None;
        }
        assert(total * 10 + digit <= max) by (nonlinear_arith)
            requires
                !(total > max / 10 || (total == max / 10 && digit > max % 10)),
                digit <= 9,
        ;
        total = total * 10 + digit;
        i += 1;
    }
    assert(b@.subrange(start as int, i as int) =~= d);
    Some(total)
}


/// `str::parse::<i64>` on bytes: an optional `-` or `+`, then at least one decimal
/// digit, with a value in the `i64` range.
pub open spec fn parse_i64_spec(b: Seq<u8>) -> Option<int> {
    if b.len() >= 1 && b[0] == 45u8 {
        let rest = b.skip(1);
        if rest.len() >= 1 && rest[0] == 43u8 {
            None
        } else {
            match parse_unsigned_spec(rest, 9223372036854775808nat) {
                Some(v) => Some(-v),
                None => None,
            }
        }
    } else {
        match parse_unsigned_spec(b, 9223372036854775807nat) {
            Some(v) => Some(v as int),
            None => None,
        }
    }
}

/// The `i64` that `b` spells.
pub fn parse_i64(b: &[u8]) -> (r: Option<i64>)
    ensures
        match r {
            Some(v) => parse_i64_spec(b@) == Some(v as int),
            None => parse_i64_spec(b@) is None,
        },
{
    if b.len() >= 1 && b[0] == 45u8 {
        let rest = crate::bytes::copy_range(b, 1, b.len());
        assert(rest@ =~= b@.skip(1));
        if rest.len() >= 1 && rest[0] == 43u8 {
            return None;
        }
        match parse_unsigned(rest.as_slice(), 9223372036854775808u64) {
            Some(v) => {
                if v == 9223372036854775808u64 {
                    Some(-9223372036854775807i64 - 1)
                } else {
                    let m: i64 = v as i64;
                    Some(-m)
                }
            },
            None => None,
        }
    } else {
        match parse_unsigned(b, 9223372036854775807u64) {
            Some(v) => Some(v as i64),
            None => None,
        }
    }
}

/// The bytes of a text whose characters are all ASCII.
pub open spec fn ascii_text_bytes(w: Seq<char>) -> Seq<u8> {
    Seq::new(w.len(), |i: int| (w[i] as u32) as u8)
}

/// `str::parse::<i64>` on a text: only ASCII characters can make up an integer.
pub open spec fn parse_i64_text(w: Seq<char>) -> Option<int> {
    if forall|i: int| 0 <= i < w.len() ==> (#[trigger] w[i] as u32) < 128 {
        parse_i64_spec(ascii_text_bytes(w))
    } else {
        None
    }
}

/// The `i64` that the characters `w` spell.
pub fn parse_i64_chars(w: &Vec<char>) -> (r: Option<i64>)
    ensures
        match r {
            Some(v) => parse_i64_text(w@) == Some(v as int),
            None => parse_i64_text(w@) is None,
        },
{
    let mut bytes: Vec<u8> = Vec::new();
    let mut i: usize = 0;
    while i < w.len()
        invariant
            i <= w.len(),
            bytes@.len() == i,
            forall|j: int| 0 <= j < i ==> (#[trigger] w@[j] as u32) < 128,
            forall|j: int| 0 <= j < i ==> #[trigger] bytes@[j] == (w@[j] as u32) as u8,
        decreases w.len() - i,
    {
        let c = w[i];
        let u = c as u32;
        if u >= 128 {
            return None;
        }
        bytes.push(u as u8);
        i += 1;
    }
    assert(bytes@ =~= ascii_text_bytes(w@));
    parse_i64(bytes.as_slice())
}

} // verus!
