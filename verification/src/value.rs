//! The typed value a raw multipart field string is coerced into.
//!
//! A field arrives as bare text; the classifier turns it into the
//! narrowest matching value, trying in order: quoted string literal,
//! boolean word, integer, decimal fraction, RFC3339 datetime, and fallback
//! string.  The order matters: a quoted `"true"` must stay text while a
//! bare `true` becomes a boolean.

use vstd::prelude::*;
use crate::coerce::{is_digit, int_lexeme_digits, parse_i64_spec, parse_i64};
use crate::timefmt::{Timestamp, rfc3339_secs_of, parse_rfc3339};

verus! {

/// The mathematical shape of a field value.
pub enum ValueModel {
    Bool(bool),
    Int(i64),
    /// A decimal-fraction lexeme, kept as its text.
    FloatText(Seq<char>),
    DateTime(i64),
    Str(Seq<char>),
    StrList(Seq<Seq<char>>),
}

/// A typed form-field value.
#[derive(Debug)]
pub enum FieldValue {
    Bool(bool),
    Int(i64),
    /// A decimal-fraction lexeme, kept as its text.
    FloatText(String),
    DateTime(Timestamp),
    Str(String),
    StrList(Vec<String>),
}

impl View for FieldValue {
    type V = ValueModel;

    open spec fn view(&self) -> ValueModel {
        match self {
            FieldValue::Bool(b) => ValueModel::Bool(*b),
            FieldValue::Int(n) => ValueModel::Int(*n),
            FieldValue::FloatText(t) => ValueModel::FloatText(t@),
            FieldValue::DateTime(t) => ValueModel::DateTime(t.secs),
            FieldValue::Str(s) => ValueModel::Str(s@),
            FieldValue::StrList(v) => ValueModel::StrList(crate::text::str_views(v@)),
        }
    }
}

impl FieldValue {
    /// The string carried by a `Str` value.
    pub fn as_str(&self) -> (r: Option<&str>)
        ensures
            r matches Some(s) ==> self@ matches ValueModel::Str(t) && s@ == t,
            r is None <==> !(self@ is Str),
    {
        match self {
            FieldValue::Str(s) => Some(s.as_str()),
            _ => None,
        }
    }
}

/// At least two characters, the first and last both double quotes.
pub open spec fn is_quoted(s: Seq<char>) -> bool {
    s.len() >= 2 && s[0] == '"' && s.last() == '"'
}

/// A decimal fraction: an optional sign, at least one digit, one dot,
/// and digits to the end.
pub open spec fn is_decimal_lexeme(s: Seq<char>) -> bool {
    let b = int_lexeme_digits(s);
    exists|k: int|
        {
            &&& 0 < k < b.len()
            &&& b[k] == '.'
            &&& (forall|i: int| 0 <= i < k ==> is_digit(#[trigger] b[i]))
            &&& (forall|i: int| k < i < b.len() ==> is_digit(#[trigger] b[i]))
        }
}

/// Decide whether `s` is a decimal-fraction lexeme.
pub fn check_decimal_lexeme(s: &str) -> (r: bool)
    ensures
        r == is_decimal_lexeme(s@),
{
    let n = s.unicode_len();
    let mut i: usize = 0;
    if n >= 1 {
        let first = s.get_char(0);
        if first == '-' || first == '+' {
            i = 1;
        }
    }
    let start = i;
    let ghost b = int_lexeme_digits(s@);
    proof {
        assert(b =~= s@.subrange(start as int, n as int));
    }
    let mut dot: usize = n;
    while i < n
        invariant
            n == s@.len(),
            start <= i <= n,
            b == s@.subrange(start as int, n as int),
            b == int_lexeme_digits(s@),
            dot == n || (start <= dot < i && s@[dot as int] == '.'),
            forall|j: int| start <= j < i && j != dot ==> is_digit(#[trigger] s@[j]),
        decreases n - i,
    {
        let c = s.get_char(i);
        if c == '.' {
            if dot != n {
                proof {
                    lemma_two_non_digits(s@, b, start as int, dot as int, i as int);
                }
                return false;
            }
            dot = i;
        } else if !(('0' <= c) && (c <= '9')) {
            proof {
                lemma_non_digit_non_dot(s@, b, start as int, i as int);
            }
            return false;
        }
        i += 1;
    }
    if dot == n {
        proof {
            assert forall|k: int| !(0 < k < b.len() && b[k] == '.') by {
                if 0 < k < b.len() {
                    assert(b[k] == s@[start + k]);
                    assert(is_digit(s@[start + k]));
                }
            }
        }
        return false;
    }
    if dot == start {
        proof {
            assert forall|k: int|
                0 < k < b.len() && b[k] == '.' implies !(forall|j: int|
                0 <= j < k ==> is_digit(#[trigger] b[j])) by {
                assert(b[0] == s@[start as int]);
                assert(!is_digit(b[0]));
            }
        }
        return false;
    }
    proof {
        let k = dot - start;
        assert(b[k as int] == s@[dot as int]);
        assert(forall|j: int| 0 <= j < k ==> #[trigger] b[j] == s@[start + j]);
        assert(forall|j: int| k < j < b.len() ==> #[trigger] b[j] == s@[start + j]);
        assert(is_decimal_lexeme(s@));
    }
    true
}

/// A position carrying a non-digit non-dot character rules the lexeme out.
proof fn lemma_non_digit_non_dot(s: Seq<char>, b: Seq<char>, start: int, bad: int)
    requires
        b == int_lexeme_digits(s),
        b == s.subrange(start, s.len() as int),
        0 <= start <= bad < s.len(),
        s[bad] != '.',
        !is_digit(s[bad]),
    ensures
        !is_decimal_lexeme(s),
{
    let j = bad - start;
    assert(s.subrange(start, s.len() as int)[j] == s[start + j]);
    assert(b[j] == s[bad]);
    assert forall|k: int|
        0 < k < b.len() && b[k] == '.' implies !((forall|i: int|
        0 <= i < k ==> is_digit(#[trigger] b[i])) && (forall|i: int|
        k < i < b.len() ==> is_digit(#[trigger] b[i]))) by {
        assert(b[j] == s[bad]);
        assert(k != j);
    }
}

/// Two dots rule the lexeme out: whichever one a candidate split keeps,
/// the other must be a digit and is not.
proof fn lemma_two_non_digits(s: Seq<char>, b: Seq<char>, start: int, d1: int, d2: int)
    requires
        b == int_lexeme_digits(s),
        b == s.subrange(start, s.len() as int),
        0 <= start <= d1 < d2 < s.len(),
        s[d1] == '.',
        s[d2] == '.',
    ensures
        !is_decimal_lexeme(s),
{
    let j1 = d1 - start;
    let j2 = d2 - start;
    assert(s.subrange(start, s.len() as int)[j1] == s[start + j1]);
    assert(s.subrange(start, s.len() as int)[j2] == s[start + j2]);
    assert forall|k: int|
        0 < k < b.len() && b[k] == '.' implies !((forall|i: int|
        0 <= i < k ==> is_digit(#[trigger] b[i])) && (forall|i: int|
        k < i < b.len() ==> is_digit(#[trigger] b[i]))) by {
        assert(b[j1] == s[d1]);
        assert(b[j2] == s[d2]);
        assert(!is_digit(b[j1]));
        assert(!is_digit(b[j2]));
        if k != j1 {
            assert(j1 < k || k < j1 < b.len());
        } else {
            assert(j2 != k);
        }
    }
}

/// The boolean a field value carries, if it is one.
pub open spec fn bool_opt_of(v: ValueModel) -> Option<bool> {
    match v {
        ValueModel::Bool(b) => Some(b),
        _ => None,
    }
}

/// The in-range 32-bit integer a field value carries, if it is one.
pub open spec fn i32_opt_of(v: ValueModel) -> Option<i32> {
    match v {
        ValueModel::Int(n) => if i32::MIN <= n <= i32::MAX {
            Some(n as i32)
        } else {
            None
        },
        _ => None,
    }
}

/// The string a field value carries, if it is one.
pub open spec fn str_opt_of(v: ValueModel) -> Option<Seq<char>> {
    match v {
        ValueModel::Str(s) => Some(s),
        _ => None,
    }
}

/// The timestamp seconds a field value carries, if it is one.
pub open spec fn dt_opt_of(v: ValueModel) -> Option<i64> {
    match v {
        ValueModel::DateTime(t) => Some(t),
        _ => None,
    }
}

/// Which value a raw field string denotes, in classification order.
pub open spec fn infer_spec(s: Seq<char>) -> ValueModel {
    if is_quoted(s) {
        ValueModel::Str(s.subrange(1, s.len() - 1))
    } else if s == "true"@ {
        ValueModel::Bool(true)
    } else if s == "false"@ {
        ValueModel::Bool(false)
    } else if parse_i64_spec(s) is Some {
        ValueModel::Int(parse_i64_spec(s).unwrap())
    } else if is_decimal_lexeme(s) {
        ValueModel::FloatText(s)
    } else if rfc3339_secs_of(s) is Some {
        ValueModel::DateTime(rfc3339_secs_of(s).unwrap())
    } else {
        ValueModel::Str(s)
    }
}

/// Coerce a raw field string into the narrowest matching value.
pub fn infer_value(s: &str) -> (r: FieldValue)
    ensures
        r@ == infer_spec(s@),
{
    let n = s.unicode_len();
    if n >= 2 && s.get_char(0) == '"' && s.get_char(n - 1) == '"' {
        return FieldValue::Str(s.substring_char(1, n - 1).to_owned());
    }
    assert(!is_quoted(s@));
    if crate::text::str_eq(s, "true") {
        return FieldValue::Bool(true);
    }
    if crate::text::str_eq(s, "false") {
        return FieldValue::Bool(false);
    }
    if let Some(v) = parse_i64(s) {
        return FieldValue::Int(v);
    }
    if check_decimal_lexeme(s) {
        return FieldValue::FloatText(s.to_owned());
    }
    if let Some(t) = parse_rfc3339(s) {
        return FieldValue::DateTime(t);
    }
    FieldValue::Str(s.to_owned())
}

} // verus!
