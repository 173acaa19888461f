//! Decimal text as the score store holds numbers: writing integers as ASCII
//! digits and reading them back the way std's integer parsing does (an
//! optional sign, then one or more digits, within the type's range).

use vstd::prelude::*;

verus! {

pub open spec fn is_digit(b: u8) -> bool {
    48 <= b <= 57
}

pub open spec fn all_digits(s: Seq<u8>) -> bool {
    forall|i: int| 0 <= i < s.len() ==> is_digit(#[trigger] s[i])
}

/// Value of a run of ASCII digits, most significant first.
pub open spec fn digits_value(s: Seq<u8>) -> nat
    decreases s.len(),
{
    if s.len() == 0 {
        0
    } else {
        10 * digits_value(s.drop_last()) + (s.last() - 48) as nat
    }
}

/// Value of `s` when it is one or more digits and nothing else.
pub open spec fn digit_text_value(s: Seq<u8>) -> Option<nat> {
    if s.len() > 0 && all_digits(s) {
        Some(digits_value(s))
    } else {
        None
    }
}

/// `s` without one leading `+`, if it has one.
pub open spec fn without_plus(s: Seq<u8>) -> Seq<u8> {
    if s.len() > 0 && s[0] == 43 {
        s.drop_first()
    } else {
        s
    }
}

/// The `u32` that `s` spells, if any: an optional `+`, then digits.
pub open spec fn text_u32(s: Seq<u8>) -> Option<u32> {
    match digit_text_value(without_plus(s)) {
        Some(v) => if v <= u32::MAX {
            Some(v as u32)
        } else {
            None
        },
        None => None,
    }
}

/// The `u64` that `s` spells, if any: an optional `+`, then digits.
pub open spec fn text_u64(s: Seq<u8>) -> Option<u64> {
    match digit_text_value(without_plus(s)) {
        Some(v) => if v <= u64::MAX {
            Some(v as u64)
        } else {
            None
        },
        None => None,
    }
}

/// The `i64` that `s` spells, if any: an optional `+` or `-`, then digits.
pub open spec fn text_i64(s: Seq<u8>) -> Option<i64> {
    if s.len() > 0 && s[0] == 45 {
        match digit_text_value(s.drop_first()) {
            Some(v) => if v <= 0x8000_0000_0000_0000 {
                Some((-v) as i64)
            } else {
                None
            },
            None => None,
        }
    } else {
        match digit_text_value(without_plus(s)) {
            Some(v) => if v <= i64::MAX {
                Some(v as i64)
            } else {
                None
            },
            None => None,
        }
    }
}

/// Decimal digits of `n`, without leading zeros.
pub open spec fn decimal(n: nat) -> Seq<u8>
    decreases n,
{
    if n < 10 {
        seq![(48 + n) as u8]
    } else {
        decimal(n / 10).push((48 + n % 10) as u8)
    }
}

/// Decimal text of `v`, with a `-` in front when it is negative.
pub open spec fn signed_decimal(v: int) -> Seq<u8> {
    if v < 0 {
        seq![45u8] + decimal((-v) as nat)
    } else {
        decimal(v as nat)
    }
}

/// The decimal digits of `n` are a non-empty run of digits worth `n`.
pub proof fn lemma_decimal_digits(n: nat)
    ensures
        decimal(n).len() > 0,
        all_digits(decimal(n)),
        digits_value(decimal(n)) == n,
    decreases n,
{
    if n >= 10 {
        lemma_decimal_digits(n / 10);
        let d = decimal(n);
        assert(d.drop_last() =~= decimal(n / 10));
        assert forall|i: int| 0 <= i < d.len() implies is_digit(#[trigger] d[i]) by {
            if i < d.len() - 1 {
                assert(d[i] == decimal(n / 10)[i]);
            }
        }
        assert(d.last() == (48 + n % 10) as u8);
        assert(digits_value(d) == 10 * digits_value(decimal(n / 10)) + n % 10);
    } else {
        let d = decimal(n);
        assert(d.drop_last() =~= Seq::<u8>::empty());
        assert(digits_value(d) == 10 * digits_value(d.drop_last()) + (d.last() - 48) as nat);
    }
}

/// Reading back the decimal text of a `u32` gives the same number.
pub proof fn lemma_u32_text_round_trip(n: u32)
    ensures
        text_u32(decimal(n as nat)) == Some(n),
{
    lemma_decimal_digits(n as nat);
    assert(is_digit(decimal(n as nat)[0]));
}

/// Reading back the signed decimal text of an `i64` gives the same number.
pub proof fn lemma_i64_text_round_trip(v: i64)
    ensures
        text_i64(signed_decimal(v as int)) == Some(v),
{
    if v < 0 {
        let m = (-v) as nat;
        lemma_decimal_digits(m);
        let s = signed_decimal(v as int);
        assert(s.drop_first() =~= decimal(m));
    } else {
        lemma_decimal_digits(v as nat);
        assert(is_digit(decimal(v as nat)[0]));
    }
}

/// A prefix of a run of digits is worth no more than the whole run.
proof fn lemma_prefix_value_le(s: Seq<u8>, k: int)
    requires
        0 <= k <= s.len(),
        all_digits(s),
    ensures
        digits_value(s.subrange(0, k)) <= digits_value(s),
    decreases s.len(),
{
    if k == s.len() {
        assert(s.subrange(0, k) =~= s);
    } else {
        let rest = s.drop_last();
        assert(all_digits(rest));
        lemma_prefix_value_le(rest, k);
        assert(rest.subrange(0, k) =~= s.subrange(0, k));
    }
}

/// Reads `s[start..]` as one or more digits worth at most `limit`.
fn parse_digits(s: &[u8], start: usize, limit: u64) -> (r: Option<u64>)
    requires
        start <= s@.len(),
    ensures
        r == (match digit_text_value(s@.subrange(start as int, s@.len() as int)) {
            Some(v) => if v <= limit {
                Some(v as u64)
            } else {
                None::<u64>
            },
            None => None,
        }),
{
    let ghost tail = s@.subrange(start as int, s@.len() as int);
    if start == s.len() {
        return None;
    }
    let mut i: usize = start;
    let mut v: u64 = 0;
    while i < s.len()
        invariant
            start <= i <= s@.len(),
            tail == s@.subrange(start as int, s@.len() as int),
            all_digits(s@.subrange(start as int, i as int)),
            v == digits_value(s@.subrange(start as int, i as int)),
            v <= limit,
        decreases s@.len() - i,
    {
        let b: u8 = s[i];
        if b < 48 || b > 57 {
            assert(tail[i - start] == b);
            return None;
        }
        let next: u128 = v as u128 * 10 + (b - 48) as u128;
        let ghost seen = s@.subrange(start as int, i + 1);
        assert(seen.drop_last() =~= s@.subrange(start as int, i as int));
        assert(seen =~= tail.subrange(0, i + 1 - start));
        if next > limit as u128 {
            proof {
                if all_digits(tail) {
                    lemma_prefix_value_le(tail, i + 1 - start);
                }
            }
            return None;
        }
        v = next as u64;
        i = i + 1;
    }
    assert(s@.subrange(start as int, i as int) =~= tail);
    Some(v)
}

/// Reads `s` as a `u32` the way `str::parse::<u32>` does.
pub fn parse_u32(s: &[u8]) -> (r: Option<u32>)
    ensures
        r == text_u32(s@),
{
    let start: usize = if s.len() > 0 && s[0] == 43 { 1 } else { 0 };
    assert(s@.subrange(start as int, s@.len() as int) =~= without_plus(s@));
    match parse_digits(s, start, 0xffff_ffff) {
        Some(v) => Some(v as u32),
        None => None,
    }
}

/// Reads `s` as a `u64` the way `str::parse::<u64>` does.
pub fn parse_u64(s: &[u8]) -> (r: Option<u64>)
    ensures
        r == text_u64(s@),
{
    let start: usize = if s.len() > 0 && s[0] == 43 { 1 } else { 0 };
    assert(s@.subrange(start as int, s@.len() as int) =~= without_plus(s@));
    parse_digits(s, start, 0xffff_ffff_ffff_ffff)
}

/// Reads `s` as an `i64` the way `str::parse::<i64>` does.
pub fn parse_i64(s: &[u8]) -> (r: Option<i64>)
    ensures
        r == text_i64(s@),
{
    if s.len() > 0 && s[0] == 45 {
        assert(s@.subrange(1, s@.len() as int) =~= s@.drop_first());
        match parse_digits(s, 1, 0x8000_0000_0000_0000) {
            Some(v) => Some((-(v as i128)) as i64),
            None => None,
        }
    } else {
        let start: usize = if s.len() > 0 && s[0] == 43 { 1 } else { 0 };
        assert(s@.subrange(start as int, s@.len() as int) =~= without_plus(s@));
        match parse_digits(s, start, 0x7fff_ffff_ffff_ffff) {
            Some(v) => Some(v as i64),
            None => None,
        }
    }
}

/// Appends the decimal digits of `n` to `out`.
pub fn push_decimal(out: &mut Vec<u8>, n: u64)
    ensures
        final(out)@ == old(out)@ + decimal(n as nat),
    decreases n,
{
    if n >= 10 {
        push_decimal(out, n / 10);
    }
    let digit: u8 = (n % 10) as u8;
    out.push(48 + digit);
    proof {
        if n >= 10 {
            assert(old(out)@ + decimal(n as nat) =~= old(out)@ + decimal((n / 10) as nat) + seq![
                (48 + n % 10) as u8,
            ]);
        } else {
            assert(old(out)@ + decimal(n as nat) =~= old(out)@ + seq![(48 + n) as u8]);
        }
    }
}

/// Appends the decimal text of `v` to `out`, with a `-` when it is negative.
pub fn push_signed_decimal(out: &mut Vec<u8>, v: i64)
    ensures
        final(out)@ == old(out)@ + signed_decimal(v as int),
{
    if v < 0 {
        out.push(45);
        let magnitude: u64 = (-(v as i128)) as u64;
        push_decimal(out, magnitude);
        assert(out@ =~= old(out)@ + signed_decimal(v as int));
    } else {
        push_decimal(out, v as u64);
    }
}

} // verus!
