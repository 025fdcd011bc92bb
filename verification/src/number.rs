//! Numbers written as text: body identifiers in decimal, and the values of
//! the gravitational table in FORTRAN's exponent notation.

use vstd::prelude::*;
use crate::error::SpkError;

verus! {

/// A decimal digit.
pub open spec fn digit(b: u8) -> bool {
    48 <= b && b <= 57
}

/// A plus or minus sign.
pub open spec fn sign(b: u8) -> bool {
    b == 43 || b == 45
}

/// The number that a run of decimal digits spells.
pub open spec fn digits_value(s: Seq<u8>) -> nat
    decreases s.len(),
{
    if s.len() == 0 {
        0
    } else {
        10 * digits_value(s.drop_last()) + (s.last() - 48) as nat
    }
}

/// Whether `s` holds digits only.
pub open spec fn all_digits(s: Seq<u8>) -> bool {
    forall|i: int| 0 <= i < s.len() ==> digit(#[trigger] s[i])
}

/// The integer that `s` spells: an optional sign, then one digit or more.
pub open spec fn signed_decimal(s: Seq<u8>) -> Option<int> {
    let signed = s.len() > 0 && sign(s[0]);
    let digits = if signed {
        s.skip(1)
    } else {
        s
    };
    if digits.len() == 0 || !all_digits(digits) {
        None
    } else if signed && s[0] == 45 {
        Some(-(digits_value(digits) as int))
    } else {
        Some(digits_value(digits) as int)
    }
}

/// The 16-bit integer that `s` spells, if it spells one.
pub open spec fn i16_of(s: Seq<u8>) -> Option<i16> {
    match signed_decimal(s) {
        Some(v) => if -32768 <= v <= 32767 {
            Some(v as i16)
        } else {
            None
        },
        None => None,
    }
}

/// More digits never spell a smaller number.
proof fn digits_value_grows(s: Seq<u8>, k: int)
    requires
        0 <= k <= s.len(),
        all_digits(s),
    ensures
        digits_value(s.take(k)) <= digits_value(s),
    decreases s.len() - k,
{
    if k < s.len() {
        digits_value_grows(s, k + 1);
        assert(s.take(k + 1).drop_last() =~= s.take(k));
    } else {
        assert(s.take(k) =~= s);
    }
}

/// Reads a 16-bit integer in decimal: an optional sign, then digits.
#[verifier::loop_isolation(false)]
pub fn parse_i16(text: &[u8]) -> (r: Option<i16>)
    ensures
        r == i16_of(text@),
{
    let n = text.len();
    let signed = n > 0 && (text[0] == 43 || text[0] == 45);
    let negative = signed && text[0] == 45;
    let first: usize = if signed {
        1
    } else {
        0
    };
    if first == n {
        return None;
    }
    let ghost digits = text@.skip(first as int);
    assert(text@.skip(0) =~= text@);
    let mut value: i32 = 0;
    let mut at: usize = first;
    while at < n
        invariant
            first <= at <= n,
            n == text@.len(),
            digits == text@.skip(first as int),
            all_digits(digits.take(at - first)),
            value == digits_value(digits.take(at - first)),
            0 <= value <= 32768,
        decreases n - at,
    {
        let b = text[at];
        if b < 48 || b > 57 {
            assert(digits[at - first] == b);
            return None;
        }
        proof {
            let upto = digits.take(at - first + 1);
            assert(upto.drop_last() =~= digits.take(at - first));
            assert(upto.last() == b);
            assert forall|i: int| 0 <= i < upto.len() implies digit(#[trigger] upto[i]) by {
                if i < at - first {
                    assert(digits.take(at - first)[i] == upto[i]);
                }
            }
        }
        value = value * 10 + (b - 48) as i32;
        if value > 32768 {
            let mut rest: usize = at + 1;
            while rest < n
                invariant
                    first <= at < rest <= n,
                    n == text@.len(),
                    digits == text@.skip(first as int),
                    all_digits(digits.take(rest - first)),
                decreases n - rest,
            {
                let c = text[rest];
                if c < 48 || c > 57 {
                    assert(digits[rest - first] == c);
                    return None;
                }
                proof {
                    let upto = digits.take(rest - first + 1);
                    assert forall|i: int| 0 <= i < upto.len() implies digit(
                        #[trigger] upto[i],
                    ) by {
                        if i < rest - first {
                            assert(digits.take(rest - first)[i] == upto[i]);
                        }
                    }
                }
                rest += 1;
            }
            proof {
                assert(digits.take(n - first) =~= digits);
                digits_value_grows(digits, at - first + 1);
            }
            return None;
        }
        at += 1;
    }
    assert(digits.take(n - first) =~= digits);
    if negative {
        Some((-value) as i16)
    } else if value > 32767 {
        None
    } else {
        Some(value as i16)
    }
}

/// The index of the first byte at or after `from` that is no digit, or the
/// length of `s` if there is none.
pub open spec fn digits_end(s: Seq<u8>, from: int) -> int
    decreases s.len() - from,
{
    if from >= s.len() {
        s.len() as int
    } else if !digit(s[from]) {
        from
    } else {
        digits_end(s, from + 1)
    }
}

/// Whether an exponent stands at `at` and ends the text: `e` or `E`, an
/// optional sign, then one digit or more.
pub open spec fn exponent_at(s: Seq<u8>, at: int) -> bool {
    let first = if at + 1 < s.len() && sign(s[at + 1]) {
        at + 2
    } else {
        at + 1
    };
    &&& (s[at] == 69 || s[at] == 101)
    &&& first < s.len()
    &&& digits_end(s, first) == s.len()
}

/// Whether `s` is a decimal number: an optional sign; digits with at most
/// one point among them, at least one digit in all; then nothing or an
/// exponent.
pub open spec fn numeric(s: Seq<u8>) -> bool {
    let start: int = if s.len() > 0 && sign(s[0]) {
        1
    } else {
        0
    };
    let whole_end = digits_end(s, start);
    let pointed = whole_end < s.len() && s[whole_end] == 46;
    let mantissa_end = if pointed {
        digits_end(s, whole_end + 1)
    } else {
        whole_end
    };
    let mantissa_digits = if pointed {
        mantissa_end - start - 1
    } else {
        mantissa_end - start
    };
    mantissa_digits >= 1 && (mantissa_end == s.len() || exponent_at(s, mantissa_end))
}

/// `s` with every `D` replaced by `E`.
pub open spec fn with_e(s: Seq<u8>) -> Seq<u8> {
    Seq::new(s.len(), |i: int| if s[i] == 68 { 69u8 } else { s[i] })
}

/// What `decimal_text` owes for `token`.
pub open spec fn decimal_text_of(token: Seq<u8>) -> Result<Seq<u8>, SpkError> {
    if numeric(with_e(token)) {
        Ok(with_e(token))
    } else {
        Err(SpkError::UnparsableNumeric)
    }
}

/// Skips the digits that start at `from`.
fn skip_digits(s: &[u8], from: usize) -> (end: usize)
    requires
        from <= s@.len(),
    ensures
        end == digits_end(s@, from as int),
        from <= end <= s@.len(),
{
    let mut end: usize = from;
    while end < s.len() && 48 <= s[end] && s[end] <= 57
        invariant
            from <= end <= s@.len(),
            digits_end(s@, from as int) == digits_end(s@, end as int),
        decreases s@.len() - end,
    {
        end += 1;
    }
    end
}

/// Tells whether `s` is a decimal number.
pub fn is_numeric(s: &[u8]) -> (r: bool)
    ensures
        r == numeric(s@),
{
    let n = s.len();
    let start: usize = if n > 0 && (s[0] == 43 || s[0] == 45) {
        1
    } else {
        0
    };
    let whole_end = skip_digits(s, start);
    let pointed = whole_end < n && s[whole_end] == 46;
    let mantissa_end = if pointed {
        skip_digits(s, whole_end + 1)
    } else {
        whole_end
    };
    let mantissa_digits = if pointed {
        mantissa_end - start - 1
    } else {
        mantissa_end - start
    };
    if mantissa_digits < 1 {
        return false;
    }
    if mantissa_end == n {
        return true;
    }
    if s[mantissa_end] != 69 && s[mantissa_end] != 101 {
        return false;
    }
    let first: usize = if mantissa_end + 1 < n && (s[mantissa_end + 1] == 43 || s[mantissa_end + 1]
        == 45) {
        mantissa_end + 2
    } else {
        mantissa_end + 1
    };
    if first >= n {
        return false;
    }
    skip_digits(s, first) == n
}

/// Reads a value written in FORTRAN's notation, whose exponent marker is
/// `D`: gives the token with each `D` replaced by `E` if that is a decimal
/// number, and fails otherwise.
pub fn decimal_text(token: &[u8]) -> (r: Result<Vec<u8>, SpkError>)
    ensures
        match r {
            Ok(text) => decimal_text_of(token@) == Ok::<Seq<u8>, SpkError>(text@),
            Err(e) => decimal_text_of(token@) == Err::<Seq<u8>, SpkError>(e),
        },
{
    let mut text: Vec<u8> = Vec::new();
    let mut at: usize = 0;
    while at < token.len()
        invariant
            at <= token@.len(),
            text@ == with_e(token@).take(at as int),
        decreases token@.len() - at,
    {
        let b = token[at];
        text.push(if b == 68 { 69 } else { b });
        assert(text@ =~= with_e(token@).take(at + 1));
        at += 1;
    }
    assert(text@ =~= with_e(token@));
    if is_numeric(text.as_slice()) {
        Ok(text)
    } else {
        Err(SpkError::UnparsableNumeric)
    }
}

} // verus!
