//! Cell values: what a stored value holds, and how a raw text field becomes one.

use vstd::prelude::*;
use vstd::string::*;

verus! {

/// A value as `yrs` stores it. It is carried through this crate unopened; [`any_view`]
/// says what it holds.
#[verifier::external_type_specification]
#[verifier::external_body]
pub struct ExAny(yrs::Any);

/// What a container of a document hands out: a plain value or a nested container. It is
/// carried through this crate unopened; [`out_view`] says what it holds.
#[verifier::external_type_specification]
#[verifier::external_body]
pub struct ExOut(yrs::Out);

/// What a stored value holds.
pub enum Value {
    /// A signed 64-bit integer.
    Integer(i64),
    /// A 64-bit floating point number, given by its IEEE 754 bits.
    Float(u64),
    /// A text.
    Text(Seq<char>),
    /// Anything else that the document can hold, a nested container among them.
    Other,
}

/// What `value` holds: `Integer(n)` for `Any::Number(Number::Int(n))`, `Float(bits)` for
/// `Any::Number(Number::Float(x))` with `bits == x.to_bits()`, `Text(s)` for
/// `Any::String(s)`, and `Other` for every other variant of `Any`.
pub uninterp spec fn any_view(value: &yrs::Any) -> Value;

/// What `out` holds: for `Out::Any(value)` what `value` holds ([`any_view`]), and `Other`
/// for every other variant of `Out`, each of which is a nested container.
pub uninterp spec fn out_view(out: &yrs::Out) -> Value;

/// The bits of the 64-bit floating point number that `str::parse` reads from `token`, or
/// `None` where it reads none.
pub uninterp spec fn float_reading(token: Seq<char>) -> Option<u64>;

/// The number that a decimal digit stands for; `None` for any other character.
pub open spec fn digit_value(c: char) -> Option<nat> {
    if c == '0' {
        Some(0)
    } else if c == '1' {
        Some(1)
    } else if c == '2' {
        Some(2)
    } else if c == '3' {
        Some(3)
    } else if c == '4' {
        Some(4)
    } else if c == '5' {
        Some(5)
    } else if c == '6' {
        Some(6)
    } else if c == '7' {
        Some(7)
    } else if c == '8' {
        Some(8)
    } else if c == '9' {
        Some(9)
    } else {
        None
    }
}

/// True where every character of `s` is a decimal digit.
pub open spec fn all_digits(s: Seq<char>) -> bool {
    forall|i: int| 0 <= i < s.len() ==> digit_value(#[trigger] s[i]) is Some
}

/// The number that a sequence of decimal digits denotes.
pub open spec fn decimal(digits: Seq<char>) -> nat
    decreases digits.len(),
{
    if digits.len() == 0 {
        0
    } else {
        let last = match digit_value(digits.last()) {
            Some(d) => d,
            None => 0,
        };
        decimal(digits.drop_last()) * 10 + last
    }
}

/// The signed 64-bit integer that `s` denotes in base 10, if it denotes one: an optional
/// `+` or `-`, then one or more decimal digits and nothing else, with a value that fits.
pub open spec fn integer_reading(s: Seq<char>) -> Option<i64> {
    if s.len() == 0 {
        None
    } else {
        let negative = s[0] == '-';
        let digits = if s[0] == '-' || s[0] == '+' {
            s.subrange(1, s.len() as int)
        } else {
            s
        };
        if digits.len() == 0 || !all_digits(digits) {
            None
        } else if negative {
            if decimal(digits) <= 0x8000_0000_0000_0000 {
                Some((-(decimal(digits) as int)) as i64)
            } else {
                None
            }
        } else {
            if decimal(digits) <= 0x7fff_ffff_ffff_ffff {
                Some(decimal(digits) as i64)
            } else {
                None
            }
        }
    }
}

/// The typed value of a raw field: an integer where the field reads as one, else a
/// floating point number where it reads as one, else the field itself as text.
pub open spec fn scalar_of(token: Seq<char>) -> Value {
    match integer_reading(token) {
        Some(n) => Value::Integer(n),
        None => match float_reading(token) {
            Some(bits) => Value::Float(bits),
            None => Value::Text(token),
        },
    }
}

/// A longer digit sequence denotes no smaller number than any of its prefixes.
proof fn lemma_decimal_prefix(digits: Seq<char>, k: int)
    requires
        0 <= k <= digits.len(),
    ensures
        decimal(digits.take(k)) <= decimal(digits),
    decreases digits.len(),
{
    if k == digits.len() {
        assert(digits.take(k) =~= digits);
    } else {
        lemma_decimal_prefix(digits.drop_last(), k);
        assert(digits.drop_last().take(k) =~= digits.take(k));
    }
}

fn digit_of(c: char) -> (d: Option<u64>)
    ensures
        match d {
            Some(v) => digit_value(c) == Some(v as nat),
            None => digit_value(c) is None,
        },
{
    if c == '0' {
        Some(0)
    } else if c == '1' {
        Some(1)
    } else if c == '2' {
        Some(2)
    } else if c == '3' {
        Some(3)
    } else if c == '4' {
        Some(4)
    } else if c == '5' {
        Some(5)
    } else if c == '6' {
        Some(6)
    } else if c == '7' {
        Some(7)
    } else if c == '8' {
        Some(8)
    } else if c == '9' {
        Some(9)
    } else {
        None
    }
}

/// Reads `token` as a signed 64-bit integer in base 10.
pub fn parse_integer(token: &str) -> (r: Option<i64>)
    ensures
        r == integer_reading(token@),
{
    let len = token.unicode_len();
    if len == 0 {
        return None;
    }
    let first = token.get_char(0);
    let negative = first == '-';
    let start: usize = if first == '-' || first == '+' {
        1
    } else {
        0
    };
    if start == len {
        return None;
    }
    let ghost digits = if start == 1 {
        token@.subrange(1, len as int)
    } else {
        token@
    };
    let limit: u64 = if negative {
        0x8000_0000_0000_0000
    } else {
        0x7fff_ffff_ffff_ffff
    };
    let mut acc: u64 = 0;
    let mut i: usize = start;
    while i < len
        invariant
            start <= i <= len,
            start < len,
            len == token@.len(),
            negative == (token@[0] == '-'),
            start == (if token@[0] == '-' || token@[0] == '+' {
                1int
            } else {
                0int
            }),
            limit == (if negative {
                0x8000_0000_0000_0000u64
            } else {
                0x7fff_ffff_ffff_ffffu64
            }),
            digits == (if start == 1 {
                token@.subrange(1, len as int)
            } else {
                token@
            }),
            all_digits(digits.take(i - start)),
            acc == decimal(digits.take(i - start)),
            acc <= limit,
        decreases len - i,
    {
        let c = token.get_char(i);
        let ghost next = digits.take(i - start + 1);
        proof {
            assert(next.drop_last() =~= digits.take(i - start));
            assert(next.last() == c);
        }
        match digit_of(c) {
            None => {
                proof {
                    assert(digits[i - start] == c);
                }
                return None;
            },
            Some(d) => {
                assert(d <= 9);
                assert(decimal(next) == acc * 10 + d);
                if acc > (limit - d) / 10 {
                    proof {
                        lemma_decimal_prefix(digits, i - start + 1);
                        assert(decimal(digits) > limit);
                    }
                    return None;
                }
                acc = acc * 10 + d;
            },
        }
        i = i + 1;
    }
    proof {
        assert(digits.take(len - start) =~= digits);
    }
    if negative {
        if acc == 0x8000_0000_0000_0000 {
            Some(i64::MIN)
        } else {
            Some(-(acc as i64))
        }
    } else {
        Some(acc as i64)
    }
}

/// Wraps an integer as a stored value (`Any::from` for `i64`).
#[verifier::external_body]
pub(crate) fn integer(n: i64) -> (value: yrs::Any)
    ensures
        any_view(&value) == Value::Integer(n),
{
    yrs::Any::from(n)
}

/// Wraps a text as a stored value (`Any::from` for `&str`).
#[verifier::external_body]
pub(crate) fn text(s: &str) -> (value: yrs::Any)
    ensures
        any_view(&value) == Value::Text(s@),
{
    yrs::Any::from(s)
}

/// Reads `token` as a 64-bit floating point number with `str::parse` and wraps the number
/// as a stored value (`Any::Number` of `Number::Float`). The contract names what `parse`
/// returns: whether it reads a number, and the bits of that number.
#[verifier::external_body]
pub(crate) fn float(token: &str) -> (r: Option<yrs::Any>)
    ensures
        match r {
            Some(value) => float_reading(token@) is Some && any_view(&value) == Value::Float(
                float_reading(token@).unwrap(),
            ),
            None => float_reading(token@) is None,
        },
{
    match token.parse() {
        Ok(number) => Some(yrs::Any::Number(yrs::Number::Float(number))),
        Err(_) => None,
    }
}

/// The integer that `out` holds, if it holds one (`Out::Any` of `Any::Number` of
/// `Number::Int`, and nothing else).
#[verifier::external_body]
pub(crate) fn as_integer(out: &yrs::Out) -> (r: Option<i64>)
    ensures
        r == (match out_view(out) {
            Value::Integer(n) => Some(n),
            _ => None,
        }),
{
    match out {
        yrs::Out::Any(yrs::Any::Number(yrs::Number::Int(n))) => Some(*n),
        _ => None,
    }
}

/// The text that `out` holds, if it holds one (`Out::Any` of `Any::String`).
#[verifier::external_body]
pub(crate) fn as_text(out: &yrs::Out) -> (r: Option<String>)
    ensures
        match r {
            Some(s) => out_view(out) == Value::Text(s@),
            None => !(out_view(out) is Text),
        },
{
    match out {
        yrs::Out::Any(yrs::Any::String(s)) => Some(s.to_string()),
        _ => None,
    }
}

/// The value of a field that reads as no integer, given what it reads as a floating
/// point number: that number where there is one, else the field itself as text.
pub fn float_or_text(token: &str, number: Option<yrs::Any>) -> (value: yrs::Any)
    ensures
        any_view(&value) == (match number {
            Some(number) => any_view(&number),
            None => Value::Text(token@),
        }),
{
    match number {
        Some(number) => number,
        None => text(token),
    }
}

/// Types a raw field: an integer where the whole field reads as a signed 64-bit integer
/// in base 10, else a 64-bit floating point number where it reads as one, else the field
/// itself, unchanged, as text.
pub fn parse(token: &str) -> (value: yrs::Any)
    ensures
        any_view(&value) == scalar_of(token@),
{
    match parse_integer(token) {
        Some(n) => integer(n),
        None => float_or_text(token, float(token)),
    }
}

} // verus!
