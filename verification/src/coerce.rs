//! Field coercion: untyped form-field text to typed optional values.
//!
//! Every conversion collapses absence and parse failure to "no value";
//! nothing at this layer is a fatal error.  The inferred-type coercion
//! classifies a raw field string in a fixed order — quoted string literal,
//! boolean, integer, float, RFC3339 datetime, fallback string — so that a
//! quoted `"true"` stays text while a bare `true` becomes a boolean.

use vstd::prelude::*;

verus! {

pub open spec fn is_digit(c: char) -> bool {
    '0' <= c && c <= '9'
}

/// The number denoted by a sequence of decimal digits.
pub open spec fn digits_value(s: Seq<char>) -> int
    decreases s.len(),
{
    if s.len() == 0 {
        0
    } else {
        digits_value(s.drop_last()) * 10 + (s.last() as int - '0' as int)
    }
}

/// An optional sign followed by at least one digit.
pub open spec fn is_int_lexeme(s: Seq<char>) -> bool {
    let digits = int_lexeme_digits(s);
    digits.len() >= 1 && (forall|i: int| 0 <= i < digits.len() ==> is_digit(#[trigger] digits[i]))
}

/// The digit part of an integer lexeme.
pub open spec fn int_lexeme_digits(s: Seq<char>) -> Seq<char> {
    if s.len() >= 1 && (s[0] == '-' || s[0] == '+') {
        s.drop_first()
    } else {
        s
    }
}

/// The signed value of an integer lexeme.
pub open spec fn int_lexeme_value(s: Seq<char>) -> int {
    if s.len() >= 1 && s[0] == '-' {
        -digits_value(int_lexeme_digits(s))
    } else {
        digits_value(int_lexeme_digits(s))
    }
}

/// What `str::parse::<i64>` accepts and yields.
pub open spec fn parse_i64_spec(s: Seq<char>) -> Option<i64> {
    if is_int_lexeme(s) && i64::MIN <= int_lexeme_value(s) <= i64::MAX {
        Some(int_lexeme_value(s) as i64)
    } else {
        None
    }
}

/// What `str::parse::<i32>` accepts and yields.
pub open spec fn parse_i32_spec(s: Seq<char>) -> Option<i32> {
    if is_int_lexeme(s) && i32::MIN <= int_lexeme_value(s) <= i32::MAX {
        Some(int_lexeme_value(s) as i32)
    } else {
        None
    }
}

proof fn lemma_digits_nonneg(s: Seq<char>)
    requires
        forall|i: int| 0 <= i < s.len() ==> is_digit(#[trigger] s[i]),
    ensures
        digits_value(s) >= 0,
    decreases s.len(),
{
    if s.len() > 0 {
        lemma_digits_nonneg(s.drop_last());
    }
}

proof fn lemma_digits_monotone(s: Seq<char>, k: int)
    requires
        0 <= k <= s.len(),
        forall|i: int| 0 <= i < s.len() ==> is_digit(#[trigger] s[i]),
    ensures
        digits_value(s) >= digits_value(s.take(k)),
    decreases s.len() - k,
{
    if k < s.len() {
        lemma_digits_monotone(s, k + 1);
        assert(s.take(k + 1).drop_last() =~= s.take(k));
        assert(s.take(k + 1).last() == s[k]);
        assert(forall|i: int| 0 <= i < k ==> is_digit(#[trigger] s.take(k)[i]));
        lemma_digits_nonneg(s.take(k));
    } else {
        assert(s.take(k) =~= s);
    }
}

/// Parse a decimal integer exactly as `str::parse::<i64>` does: an
/// optional sign, then one or more digits, rejected on overflow.
pub fn parse_i64(s: &str) -> (r: Option<i64>)
    ensures
        r == parse_i64_spec(s@),
{
    let n = s.unicode_len();
    if n == 0 {
        return None;
    }
    let first = s.get_char(0);
    let negative = first == '-';
    let start: usize = if first == '-' || first == '+' { 1 } else { 0 };
    let ghost digits = int_lexeme_digits(s@);
    proof {
        assert(digits =~= s@.subrange(start as int, n as int));
    }
    if start == n {
        return None;
    }
    // magnitude accumulates the digit value; 1 << 63 is the largest
    // magnitude any i64 can carry (for i64::MIN).
    let mut magnitude: u64 = 0;
    let mut i: usize = start;
    let bound: u64 = 9223372036854775808u64;
    while i < n
        invariant
            n == s@.len(),
            start <= i <= n,
            digits == s@.subrange(start as int, n as int),
            digits == int_lexeme_digits(s@),
            forall|j: int| start <= j < i ==> is_digit(#[trigger] s@[j]),
            magnitude == digits_value(digits.take(i - start)),
            magnitude <= bound,
            bound == 9223372036854775808u64,
        decreases n - i,
    {
        let c = s.get_char(i);
        if !(('0' <= c) && (c <= '9')) {
            proof {
                assert(0 <= i - start < digits.len());
                assert(digits[i - start] == c);
                assert(!is_digit(digits[i - start]));
                assert(!is_int_lexeme(s@));
            }
            return None;
        }
        let d: u64 = (c as u32 - '0' as u32) as u64;
        proof {
            assert(digits.take(i + 1 - start).drop_last() =~= digits.take(i - start));
            assert(digits.take(i + 1 - start).last() == s@[i as int]);
        }
        if magnitude > (bound - d) / 10 {
            proof {
                assert(digits_value(digits.take(i + 1 - start)) > bound);
                if is_int_lexeme(s@) {
                    lemma_digits_monotone(digits, i + 1 - start);
                    assert(int_lexeme_value(s@) > bound || int_lexeme_value(s@) < -(bound as int));
                }
            }
            return None;
        }
        magnitude = magnitude * 10 + d;
        i += 1;
    }
    proof {
        assert(digits.take(n - start) =~= digits);
        lemma_digits_nonneg(digits);
    }
    if negative {
        if magnitude == bound {
            Some(i64::MIN)
        } else {
            Some(-(magnitude as i64))
        }
    } else {
        if magnitude == bound {
            None
        } else {
            Some(magnitude as i64)
        }
    }
}

/// Parse a decimal integer exactly as `str::parse::<i32>` does.
pub fn parse_i32(s: &str) -> (r: Option<i32>)
    ensures
        r == parse_i32_spec(s@),
{
    match parse_i64(s) {
        Some(v) => {
            if -2147483648i64 <= v && v <= 2147483647i64 {
                Some(v as i32)
            } else {
                None
            }
        },
        None => None,
    }
}

/// The named conversions from optional untyped field values to typed
/// optional values.
pub struct NEParse;

impl NEParse {
    /// An optional string to an optional 32-bit integer; non-numeric text
    /// silently becomes "no value".
    pub fn opt_immut_str_to_opt_i32(s: Option<&str>) -> (r: Option<i32>)
        ensures
            r == match s {
                Some(t) => parse_i32_spec(t@),
                None => None::<i32>,
            },
    {
        match s {
            Some(t) => parse_i32(t),
            None => None,
        }
    }

    /// An optional borrowed string to an optional owned one.
    pub fn opt_immut_str_to_option_string(s: Option<&str>) -> (r: Option<String>)
        ensures
            r is Some <==> s is Some,
            r matches Some(o) ==> s matches Some(t) && o@ == t@,
    {
        match s {
            Some(t) => Some(t.to_owned()),
            None => None,
        }
    }

    /// The unquoted boolean words to their values; anything else is
    /// "no value".
    pub fn opt_immut_str_to_option_bool(s: Option<&str>) -> (r: Option<bool>)
        ensures
            r == match s {
                Some(t) => if t@ == "true"@ {
                    Some(true)
                } else if t@ == "false"@ {
                    Some(false)
                } else {
                    None::<bool>
                },
                None => None::<bool>,
            },
    {
        match s {
            Some(t) => {
                if crate::text::str_eq(t, "true") {
                    Some(true)
                } else if crate::text::str_eq(t, "false") {
                    Some(false)
                } else {
                    None
                }
            },
            None => None,
        }
    }
}

} // verus!
