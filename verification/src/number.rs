//! Reading unsigned decimal integers the way `str::parse::<usize>` does.

use vstd::prelude::*;

use crate::text::is_ascii_digit;

verus! {

/// Value of a string of ASCII decimal digits.
pub open spec fn digits_value(d: Seq<char>) -> nat
    decreases d.len(),
{
    if d.len() == 0 {
        0
    } else {
        digits_value(d.drop_last()) * 10 + ((d.last() as int) - ('0' as int)) as nat
    }
}

pub open spec fn all_digits(d: Seq<char>) -> bool {
    forall|k: int| 0 <= k < d.len() ==> is_ascii_digit(#[trigger] d[k])
}

/// The digits that follow an optional leading `+`.
pub open spec fn unsigned_digits(s: Seq<char>) -> Seq<char> {
    if s.len() > 1 && s[0] == '+' {
        s.drop_first()
    } else {
        s
    }
}

/// `str::parse` for an unsigned integer type whose largest value is
/// `limit`: an optional `+`, then at least one ASCII digit, and a value of at
/// most `limit`.
pub open spec fn bounded_from_str(s: Seq<char>, limit: nat) -> Option<nat> {
    let d = unsigned_digits(s);
    if d.len() == 0 || !all_digits(d) || digits_value(d) > limit {
        None
    } else {
        Some(digits_value(d))
    }
}

/// `str::parse::<usize>`.
pub open spec fn usize_from_str(s: Seq<char>) -> Option<usize> {
    match bounded_from_str(s, usize::MAX as nat) {
        Some(v) => Some(v as usize),
        None => None,
    }
}

/// `str::parse::<u64>`.
pub open spec fn u64_from_str(s: Seq<char>) -> Option<u64> {
    match bounded_from_str(s, u64::MAX as nat) {
        Some(v) => Some(v as u64),
        None => None,
    }
}

proof fn lemma_digits_prefix_le(d: Seq<char>, k: int)
    requires
        all_digits(d),
        0 <= k <= d.len(),
    ensures
        digits_value(d.take(k)) <= digits_value(d),
    decreases d.len() - k,
{
    if k < d.len() {
        lemma_digits_prefix_le(d, k + 1);
        assert(d.take(k + 1).drop_last() == d.take(k));
        assert(is_ascii_digit(d[k]));
    } else {
        assert(d.take(k) == d);
    }
}

/// Reads an unsigned decimal integer of at most `limit`.
pub fn parse_bounded(s: &[char], limit: u64) -> (r: Option<u64>)
    ensures
        match r {
            Some(v) => bounded_from_str(s@, limit as nat) == Some(v as nat),
            None => bounded_from_str(s@, limit as nat) is None,
        },
{
    let start: usize = if s.len() > 1 && s[0] == '+' {
        1
    } else {
        0
    };
    let ghost d = unsigned_digits(s@);
    assert(d == s@.skip(start as int));
    if start >= s.len() {
        return None;
    }
    let mut acc: u64 = 0;
    let mut i: usize = start;
    while i < s.len()
        invariant
            start <= i <= s.len(),
            d == s@.skip(start as int),
            d == unsigned_digits(s@),
            all_digits(d.take(i - start)),
            acc == digits_value(d.take(i - start)),
            acc <= limit,
        decreases s.len() - i,
    {
        let c = s[i];
        if !('0' <= c && c <= '9') {
            assert(d[i - start] == c);
            assert(!is_ascii_digit(d[(i - start) as int]));
            assert(!all_digits(d));
            return None;
        }
        let digit = ((c as u32) - ('0' as u32)) as u64;
        assert(d.take(i + 1 - start).drop_last() == d.take(i - start));
        assert(d.take(i + 1 - start).last() == c);
        assert(digits_value(d.take(i + 1 - start)) == acc * 10 + digit);
        if digit > limit || acc > (limit - digit) / 10 {
            proof {
                assert(acc * 10 + digit > limit) by (nonlinear_arith)
                    requires
                        digit > limit || acc > (limit - digit) / 10,
                        digit <= 9,
                ;
                if all_digits(d) {
                    lemma_digits_prefix_le(d, i + 1 - start);
                }
            }
            return None;
        }
        assert(acc * 10 + digit <= limit) by (nonlinear_arith)
            requires
                digit <= limit,
                acc <= (limit - digit) / 10,
                digit <= 9,
        ;
        acc = acc * 10 + digit;
        i = i + 1;
        assert(all_digits(d.take(i - start))) by {
            assert forall|k: int| 0 <= k < d.take(i - start).len() implies is_ascii_digit(
                #[trigger] d.take(i - start)[k],
            ) by {
                if k < i - 1 - start {
                    assert(d.take(i - start)[k] == d.take(i - 1 - start)[k]);
                }
            }
        }
    }
    assert(d.take(s.len() - start) == d);
    Some(acc)
}

/// Reads an unsigned decimal integer (`str::parse::<usize>`).
pub fn parse_usize(s: &[char]) -> (r: Option<usize>)
    ensures
        r == usize_from_str(s@),
{
    match parse_bounded(s, usize::MAX as u64) {
        Some(v) => Some(v as usize),
        None => None,
    }
}

/// Reads an unsigned decimal integer (`str::parse::<u64>`).
pub fn parse_u64(s: &[char]) -> (r: Option<u64>)
    ensures
        r == u64_from_str(s@),
{
    parse_bounded(s, u64::MAX)
}


/// The decimal digits of `n` are ASCII digits whose value is `n`.
pub proof fn lemma_decimal_digits(n: nat)
    ensures
        crate::text::decimal(n).len() > 0,
        all_digits(crate::text::decimal(n)),
        digits_value(crate::text::decimal(n)) == n,
    decreases n,
{
    let d = crate::text::decimal(n);
    if n < 10 {
        assert(d == seq![crate::text::digit_char(n)]);
        assert(d.drop_last() =~= Seq::<char>::empty());
        assert(crate::text::digit_char(n) as int == 48 + n);
        assert(digits_value(d) == digits_value(d.drop_last()) * 10 + ((d.last() as int) - ('0' as int)) as nat);
    } else {
        lemma_decimal_digits(n / 10);
        let p = crate::text::decimal(n / 10);
        assert(d == p.push(crate::text::digit_char(n % 10)));
        assert(d.drop_last() == p);
        assert(crate::text::digit_char(n % 10) as int == 48 + n % 10);
        assert(d.last() == crate::text::digit_char(n % 10));
        assert(n == (n / 10) * 10 + n % 10);
        assert forall|k: int| 0 <= k < d.len() implies is_ascii_digit(#[trigger] d[k]) by {
            if k < p.len() {
                assert(d[k] == p[k]);
            }
        }
    }
}

/// Reading the decimal digits of a `u64` gives the number back.
pub proof fn lemma_u64_decimal_round_trip(n: u64)
    ensures
        u64_from_str(crate::text::decimal(n as nat)) == Some(n),
{
    lemma_decimal_digits(n as nat);
    let d = crate::text::decimal(n as nat);
    assert(is_ascii_digit(d[0]));
    assert(unsigned_digits(d) == d);
}

/// Reading the decimal digits of a `usize` gives the number back.
pub proof fn lemma_usize_decimal_round_trip(n: usize)
    ensures
        usize_from_str(crate::text::decimal(n as nat)) == Some(n),
{
    lemma_decimal_digits(n as nat);
    let d = crate::text::decimal(n as nat);
    assert(is_ascii_digit(d[0]));
    assert(unsigned_digits(d) == d);
}

} // verus!
