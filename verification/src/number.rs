//! Numeric value syntax: the integers that Rust's `FromStr` accepts for the
//! integer types, and the texts that it accepts as floating-point numbers.

use vstd::prelude::*;
use crate::text::{ascii_lower, is_ascii_digit};

verus! {

pub open spec fn digit_val(c: char) -> nat {
    ((c as u32) - 48) as nat
}

pub open spec fn all_digits(s: Seq<char>) -> bool {
    forall|i: int| 0 <= i < s.len() ==> is_ascii_digit(#[trigger] s[i])
}

/// The number that a string of decimal digits denotes.
pub open spec fn digits_value(s: Seq<char>) -> nat
    decreases s.len(),
{
    if s.len() == 0 {
        0
    } else {
        digits_value(s.drop_last()) * 10 + digit_val(s.last())
    }
}

/// What `s.parse()` gives for an unsigned integer type whose largest value is
/// `max`: an optional `+`, then one or more ASCII digits, denoting at most
/// `max`.
pub open spec fn parse_unsigned(s: Seq<char>, max: nat) -> Option<nat> {
    let digits = if s.len() > 0 && s[0] == '+' {
        s.skip(1)
    } else {
        s
    };
    if digits.len() > 0 && all_digits(digits) && digits_value(digits) <= max {
        Some(digits_value(digits))
    } else {
        None
    }
}

/// What `s.parse()` gives for a signed integer type whose largest value is
/// `max` and whose smallest is `-(max + 1)`.
pub open spec fn parse_signed(s: Seq<char>, max: nat) -> Option<int> {
    if s.len() > 0 && s[0] == '-' {
        let digits = s.skip(1);
        if digits.len() > 0 && all_digits(digits) && digits_value(digits) <= max + 1 {
            Some(-(digits_value(digits) as int))
        } else {
            None
        }
    } else {
        match parse_unsigned(s, max) {
            Some(n) => Some(n as int),
            None => None,
        }
    }
}

/// End of the run of ASCII digits that starts at `i`.
pub open spec fn digit_run_end(s: Seq<char>, i: int) -> int
    decreases s.len() - i,
{
    if 0 <= i < s.len() && is_ascii_digit(s[i]) {
        digit_run_end(s, i + 1)
    } else {
        i
    }
}

/// The decimal form that `f32::from_str` accepts once the sign is gone:
/// digits, an optional `.` with digits, at least one digit in all, then an
/// optional exponent `e`/`E`, an optional sign and at least one digit.
pub open spec fn decimal_form(b: Seq<char>) -> bool {
    let i = digit_run_end(b, 0);
    let has_dot = i < b.len() && b[i] == '.';
    let j = if has_dot {
        digit_run_end(b, i + 1)
    } else {
        i
    };
    let n_digits = if has_dot {
        i + (j - (i + 1))
    } else {
        i
    };
    if n_digits == 0 {
        false
    } else if j == b.len() {
        true
    } else if b[j] == 'e' || b[j] == 'E' {
        let k = j + 1;
        let k2 = if k < b.len() && (b[k] == '+' || b[k] == '-') {
            k + 1
        } else {
            k
        };
        let m = digit_run_end(b, k2);
        m > k2 && m == b.len()
    } else {
        false
    }
}

/// `inf`, `infinity` or `nan`, in any ASCII letter case.
pub open spec fn inf_nan_form(b: Seq<char>) -> bool {
    let l = ascii_lower(b);
    l == "inf"@ || l == "infinity"@ || l == "nan"@
}

/// Whether `f32::from_str` accepts `s`: an optional sign, then a decimal form
/// or one of the words of `inf_nan_form`.
pub open spec fn float_syntax(s: Seq<char>) -> bool {
    s.len() > 0 && {
        let b = if s[0] == '+' || s[0] == '-' {
            s.skip(1)
        } else {
            s
        };
        b.len() > 0 && (decimal_form(b) || inf_nan_form(b))
    }
}

pub proof fn lemma_digits_value_prefix(s: Seq<char>, k: int)
    requires
        0 <= k <= s.len(),
        all_digits(s),
    ensures
        digits_value(s.take(k)) <= digits_value(s),
    decreases s.len() - k,
{
    if k < s.len() {
        lemma_digits_value_prefix(s, k + 1);
        assert(s.take(k + 1).drop_last() =~= s.take(k));
        assert(s.take(k + 1).last() == s[k]);
        assert(is_ascii_digit(s[k]));
    } else {
        assert(s.take(k) =~= s);
    }
}


/// The value of the digits `s[lo..hi]` when they are all ASCII digits and
/// denote at most `max`; `None` otherwise.
pub fn digits_upto(s: &Vec<char>, lo: usize, hi: usize, max: u64) -> (r: Option<u64>)
    requires
        lo <= hi <= s.len(),
        max <= 0x1_0000_0000,
    ensures
        match r {
            Some(v) => all_digits(s@.subrange(lo as int, hi as int)) && v == digits_value(
                s@.subrange(lo as int, hi as int),
            ) && v <= max,
            None => !(all_digits(s@.subrange(lo as int, hi as int)) && digits_value(
                s@.subrange(lo as int, hi as int),
            ) <= max),
        },
{
    let ghost d = s@.subrange(lo as int, hi as int);
    let mut v: u64 = 0;
    let mut i = lo;
    while i < hi
        invariant
            lo <= i <= hi <= s.len(),
            max <= 0x1_0000_0000,
            d == s@.subrange(lo as int, hi as int),
            all_digits(s@.subrange(lo as int, i as int)),
            v == digits_value(s@.subrange(lo as int, i as int)),
            v <= max,
        decreases hi - i,
    {
        let c = s[i];
        if !('0' <= c && c <= '9') {
            assert(d[i - lo] == c);
            return None;
        }
        let dv = ((c as u32) - 48) as u64;
        proof {
            let p = s@.subrange(lo as int, i + 1);
            assert(p.drop_last() =~= s@.subrange(lo as int, i as int));
            assert(p.last() == c);
            assert forall|k: int| 0 <= k < p.len() implies is_ascii_digit(#[trigger] p[k]) by {
                if k < p.len() - 1 {
                    assert(p[k] == s@.subrange(lo as int, i as int)[k]);
                }
            }
        }
        v = v * 10 + dv;
        i = i + 1;
        if v > max {
            proof {
                let p = s@.subrange(lo as int, i as int);
                if all_digits(d) {
                    lemma_digits_value_prefix(d, i - lo);
                    assert(d.take(i - lo) =~= p);
                }
            }
            return None;
        }
    }
    Some(v)
}

/// `parse_unsigned(s, max)`.
pub fn parse_unsigned_exec(s: &Vec<char>, max: u64) -> (r: Option<u64>)
    requires
        max <= 0x1_0000_0000,
    ensures
        match parse_unsigned(s@, max as nat) {
            Some(n) => r == Some(n as u64),
            None => r is None,
        },
{
    let lo: usize = if s.len() > 0 && s[0] == '+' {
        1
    } else {
        0
    };
    assert(s@.subrange(lo as int, s@.len() as int) =~= (if s@.len() > 0 && s@[0] == '+' {
        s@.skip(1)
    } else {
        s@
    }));
    if lo == s.len() {
        return None;
    }
    digits_upto(s, lo, s.len(), max)
}

/// `parse_signed(s, max)`.
pub fn parse_signed_exec(s: &Vec<char>, max: u64) -> (r: Option<i64>)
    requires
        max < 0x1_0000_0000,
    ensures
        match parse_signed(s@, max as nat) {
            Some(n) => r == Some(n as i64),
            None => r is None,
        },
{
    if s.len() > 0 && s[0] == '-' {
        assert(s@.subrange(1, s@.len() as int) =~= s@.skip(1));
        if s.len() == 1 {
            return None;
        }
        match digits_upto(s, 1, s.len(), max + 1) {
            Some(v) => Some(-(v as i64)),
            None => None,
        }
    } else {
        match parse_unsigned_exec(s, max) {
            Some(v) => Some(v as i64),
            None => None,
        }
    }
}

fn digit_end(s: &Vec<char>, i: usize) -> (r: usize)
    requires
        i <= s.len(),
    ensures
        r == digit_run_end(s@, i as int),
        i <= r <= s.len(),
{
    let mut j = i;
    while j < s.len() && '0' <= s[j] && s[j] <= '9'
        invariant
            i <= j <= s.len(),
            digit_run_end(s@, i as int) == digit_run_end(s@, j as int),
        decreases s.len() - j,
    {
        j = j + 1;
    }
    j
}

fn is_decimal_form(b: &Vec<char>) -> (r: bool)
    ensures
        r == decimal_form(b@),
{
    let i = digit_end(b, 0);
    let has_dot = i < b.len() && b[i] == '.';
    let j = if has_dot {
        digit_end(b, i + 1)
    } else {
        i
    };
    let n_digits = if has_dot {
        i + (j - (i + 1))
    } else {
        i
    };
    if n_digits == 0 {
        false
    } else if j == b.len() {
        true
    } else if b[j] == 'e' || b[j] == 'E' {
        let k = j + 1;
        let k2 = if k < b.len() && (b[k] == '+' || b[k] == '-') {
            k + 1
        } else {
            k
        };
        let m = digit_end(b, k2);
        m > k2 && m == b.len()
    } else {
        false
    }
}

fn is_inf_nan_form(b: &Vec<char>) -> (r: bool)
    ensures
        r == inf_nan_form(b@),
{
    let l = crate::ast::lowercase_ascii(b);
    crate::text::eq_chars(&l, &crate::text::chars_of("inf")) || crate::text::eq_chars(
        &l,
        &crate::text::chars_of("infinity"),
    ) || crate::text::eq_chars(&l, &crate::text::chars_of("nan"))
}

/// `float_syntax(s)`.
pub fn is_float_syntax(s: &Vec<char>) -> (r: bool)
    ensures
        r == float_syntax(s@),
{
    if s.len() == 0 {
        return false;
    }
    let b = if s[0] == '+' || s[0] == '-' {
        crate::text::slice_of(s, 1, s.len())
    } else {
        crate::text::slice_of(s, 0, s.len())
    };
    assert(s@.subrange(1, s@.len() as int) =~= s@.skip(1));
    assert(s@.subrange(0, s@.len() as int) =~= s@);
    b.len() > 0 && (is_decimal_form(&b) || is_inf_nan_form(&b))
}

} // verus!
