//! Decimal parsing for the optional page-size query parameter.
//!
//! The endpoint honours a page-size parameter only when it parses as a
//! `usize`; this module gives that parse an exact specification.

use vstd::prelude::*;

verus! {

/// A decimal digit.
pub open spec fn is_digit(c: char) -> bool {
    '0' <= c && c <= '9'
}

/// Numeric value of one decimal digit.
pub open spec fn digit_val(c: char) -> int {
    c as int - '0' as int
}

/// A non-empty string of decimal digits.
pub open spec fn is_digits(s: Seq<char>) -> bool {
    s.len() > 0 && forall|i: int| 0 <= i < s.len() ==> is_digit(#[trigger] s[i])
}

/// The number denoted by a digit string, most significant digit first.
pub open spec fn digits_val(s: Seq<char>) -> int
    decreases s.len(),
{
    if s.len() == 0 {
        0
    } else {
        digits_val(s.drop_last()) * 10 + digit_val(s.last())
    }
}

/// The input with an optional leading `'+'` sign removed.
pub open spec fn num_part(s: Seq<char>) -> Seq<char> {
    if s.len() > 0 && s[0] == '+' {
        s.drop_first()
    } else {
        s
    }
}

/// Exactly the inputs on which `str::parse::<usize>` succeeds: an optional
/// leading `'+'`, then one or more digits, denoting a value that fits.
pub open spec fn accepts_usize(s: Seq<char>) -> bool {
    is_digits(num_part(s)) && digits_val(num_part(s)) <= usize::MAX
}

proof fn lemma_digits_val_nonneg(s: Seq<char>)
    requires
        forall|i: int| 0 <= i < s.len() ==> is_digit(#[trigger] s[i]),
    ensures
        digits_val(s) >= 0,
    decreases s.len(),
{
    if s.len() > 0 {
        lemma_digits_val_nonneg(s.drop_last());
    }
}

/// Extending a digit string with further digits never lowers its value.
proof fn lemma_digits_val_take_le(s: Seq<char>, k: int)
    requires
        0 <= k <= s.len(),
        forall|i: int| 0 <= i < s.len() ==> is_digit(#[trigger] s[i]),
    ensures
        digits_val(s.take(k)) <= digits_val(s),
    decreases s.len() - k,
{
    if k < s.len() {
        assert(s.take(k + 1).drop_last() =~= s.take(k));
        assert(s.take(k + 1).last() == s[k]);
        lemma_digits_val_nonneg(s.take(k));
        lemma_digits_val_take_le(s, k + 1);
    } else {
        assert(s.take(k) =~= s);
    }
}

/// Parse a decimal `usize`, accepting exactly what `str::parse::<usize>`
/// accepts: an optional leading `'+'`, then one or more digits, with a value
/// that fits in `usize`.
pub fn parse_usize(s: &str) -> (r: Option<usize>)
    ensures
        accepts_usize(s@) ==> r == Some(digits_val(num_part(s@)) as usize),
        !accepts_usize(s@) ==> r.is_none(),
{
    let len = s.unicode_len();
    let mut i: usize = 0;
    if len > 0 && s.get_char(0) == '+' {
        i = 1;
    }
    let start = i;
    let ghost num: Seq<char> = num_part(s@);
    proof {
        assert(num =~= s@.skip(start as int));
    }
    if i >= len {
        return None;
    }
    let mut val: usize = 0;
    while i < len
        invariant
            start <= i <= len,
            start < len,
            len == s@.len(),
            num == num_part(s@),
            num =~= s@.skip(start as int),
            forall|j: int| start <= j < i ==> is_digit(#[trigger] s@[j]),
            val == digits_val(s@.subrange(start as int, i as int)),
        decreases len - i,
    {
        let c = s.get_char(i);
        if !(c >= '0' && c <= '9') {
            proof {
                assert(num[i - start] == s@[i as int]);
                assert(!is_digits(num));
            }
            return None;
        }
        let d: u32 = c as u32 - '0' as u32;
        let ghost prefix: Seq<char> = s@.subrange(start as int, i as int);
        let ghost extended: Seq<char> = s@.subrange(start as int, i as int + 1);
        proof {
            assert(extended.drop_last() =~= prefix);
            assert(extended.last() == s@[i as int]);
            assert(digit_val(s@[i as int]) == d as int);
            assert(extended =~= num.take(i - start + 1));
        }
        if val > usize::MAX / 10 {
            proof {
                assert(val * 10 + d as int > usize::MAX) by (nonlinear_arith)
                    requires
                        val > usize::MAX / 10,
                        usize::MAX / 10 * 10 + usize::MAX % 10 == usize::MAX,
                        usize::MAX % 10 < 10,
                        d as int >= 0,
                ;
                if is_digits(num) {
                    lemma_digits_val_take_le(num, i - start + 1);
                }
            }
            return None;
        }
        proof {
            assert(val * 10 <= usize::MAX / 10 * 10) by (nonlinear_arith)
                requires
                    0 <= val <= usize::MAX / 10,
            ;
        }
        let shifted = val * 10;
        if d as usize > usize::MAX - shifted {
            proof {
                if is_digits(num) {
                    lemma_digits_val_take_le(num, i - start + 1);
                }
            }
            return None;
        }
        val = shifted + d as usize;
        i += 1;
    }
    proof {
        assert(s@.subrange(start as int, i as int) =~= num);
        assert forall|k: int| 0 <= k < num.len() implies is_digit(#[trigger] num[k]) by {
            assert(num[k] == s@[start + k]);
        }
    }
    Some(val)
}

} // verus!
