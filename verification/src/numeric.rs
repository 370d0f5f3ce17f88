//! Numeric values as IEEE-754 double-precision bit patterns.
//!
//! The library stores every numeric value as the 64-bit pattern of a
//! double-precision float.  Parsing a literal and the four arithmetic
//! operations are carried out by the `rustc_apfloat` soft-float library,
//! which implements IEEE-754 binary64 arithmetic on bit patterns; their
//! results are named by uninterpreted spec functions.  Rendering a value
//! with exactly eight digits after the decimal point is done here in
//! verified code, from the value scaled by `10^8` and rounded to an integer.

use vstd::prelude::*;
use rustc_apfloat::Float;
use rustc_apfloat::Round;
use rustc_apfloat::ieee::Double;

verus! {

/// The bit pattern with the sign bit cleared.
pub open spec fn abs_bits(b: u64) -> u64 {
    b & 0x7fff_ffff_ffff_ffff
}

/// The pattern of a zero, subnormal or normal double: not an infinity, not a NaN.
pub open spec fn finite_bits(b: u64) -> bool {
    abs_bits(b) < 0x7ff0_0000_0000_0000
}

/// The pattern of a NaN.
pub open spec fn nan_bits(b: u64) -> bool {
    abs_bits(b) > 0x7ff0_0000_0000_0000
}

/// The sign bit is set.
pub open spec fn neg_bits(b: u64) -> bool {
    b >= 0x8000_0000_0000_0000
}

/// Whether `b` is the pattern of a finite double.
pub fn is_finite_val(b: u64) -> (r: bool)
    ensures
        r == finite_bits(b),
{
    (b & 0x7fff_ffff_ffff_ffff) < 0x7ff0_0000_0000_0000
}

/// Whether `b` is the pattern of a NaN.
pub fn is_nan_val(b: u64) -> (r: bool)
    ensures
        r == nan_bits(b),
{
    (b & 0x7fff_ffff_ffff_ffff) > 0x7ff0_0000_0000_0000
}

/// Whether the sign bit of `b` is set.
pub fn is_neg_val(b: u64) -> (r: bool)
    ensures
        r == neg_bits(b),
{
    b >= 0x8000_0000_0000_0000
}

/// The bit pattern of the double that the text `s` denotes, if it denotes
/// one under `rustc_apfloat`'s grammar (decimal or hexadecimal literals,
/// an optional sign, and the special spellings of infinities and NaNs).
pub uninterp spec fn parsed_bits(s: Seq<char>) -> Option<u64>;

/// Relies on `rustc_apfloat::ieee::Double`'s `FromStr` and `to_bits`:
/// whether and how a string parses as a double depends on its characters
/// alone, with round-to-nearest-ties-to-even.
#[verifier::external_body]
pub(crate) fn parse_double(s: &str) -> (r: Option<u64>)
    ensures
        r == parsed_bits(s@),
{
    match s.parse::<Double>() {
        Ok(v) => Some(v.to_bits() as u64),
        Err(_) => None,
    }
}

/// The bit pattern of the IEEE-754 sum of the doubles with patterns `a` and `b`.
pub uninterp spec fn add_bits_of(a: u64, b: u64) -> u64;

/// Relies on `rustc_apfloat::ieee::Double`'s `+` (with `from_bits` and
/// `to_bits`): IEEE-754 addition, round-to-nearest-ties-to-even.
#[verifier::external_body]
pub(crate) fn add_bits(a: u64, b: u64) -> (r: u64)
    ensures
        r == add_bits_of(a, b),
{
    (Double::from_bits(a as u128) + Double::from_bits(b as u128)).value.to_bits() as u64
}

/// The bit pattern of the IEEE-754 difference of the doubles `a` and `b`.
pub uninterp spec fn sub_bits_of(a: u64, b: u64) -> u64;

/// Relies on `rustc_apfloat::ieee::Double`'s `-` (with `from_bits` and
/// `to_bits`): IEEE-754 subtraction, round-to-nearest-ties-to-even.
#[verifier::external_body]
pub(crate) fn sub_bits(a: u64, b: u64) -> (r: u64)
    ensures
        r == sub_bits_of(a, b),
{
    (Double::from_bits(a as u128) - Double::from_bits(b as u128)).value.to_bits() as u64
}

/// The bit pattern of the IEEE-754 product of the doubles `a` and `b`.
pub uninterp spec fn mul_bits_of(a: u64, b: u64) -> u64;

/// Relies on `rustc_apfloat::ieee::Double`'s `*` (with `from_bits` and
/// `to_bits`): IEEE-754 multiplication, round-to-nearest-ties-to-even.
#[verifier::external_body]
pub(crate) fn mul_bits(a: u64, b: u64) -> (r: u64)
    ensures
        r == mul_bits_of(a, b),
{
    (Double::from_bits(a as u128) * Double::from_bits(b as u128)).value.to_bits() as u64
}

/// The bit pattern of the IEEE-754 quotient of the doubles `a` and `b`.
/// Division by zero yields an infinity or a NaN pattern, as IEEE-754 has it.
pub uninterp spec fn div_bits_of(a: u64, b: u64) -> u64;

/// Relies on `rustc_apfloat::ieee::Double`'s `/` (with `from_bits` and
/// `to_bits`): IEEE-754 division, round-to-nearest-ties-to-even.
#[verifier::external_body]
pub(crate) fn div_bits(a: u64, b: u64) -> (r: u64)
    ensures
        r == div_bits_of(a, b),
{
    (Double::from_bits(a as u128) / Double::from_bits(b as u128)).value.to_bits() as u64
}

/// The finite double with pattern `b`, multiplied by `10^8` and rounded to
/// the nearest integer (ties to even), saturating at the `i128` range.
pub uninterp spec fn scaled8_of(b: u64) -> i128;

/// Relies on `rustc_apfloat::ieee::Double`'s `*` and `to_i128_r` (with
/// `from_bits` and `from_u128`): the value scaled by `10^8` and rounded to
/// the nearest integer, ties to even, saturating at the `i128` range.
#[verifier::external_body]
fn scale8(b: u64) -> (r: i128)
    requires
        finite_bits(b),
    ensures
        r == scaled8_of(b),
{
    let v = Double::from_bits(b as u128);
    let scaled = (v * Double::from_u128(100_000_000).value).value;
    let mut exact = false;
    scaled.to_i128_r(128, Round::NearestTiesToEven, &mut exact).value
}

/// The decimal digit character for `d` in `0 ..= 9`.
pub open spec fn digit_char(d: int) -> char {
    if d == 0 {
        '0'
    } else if d == 1 {
        '1'
    } else if d == 2 {
        '2'
    } else if d == 3 {
        '3'
    } else if d == 4 {
        '4'
    } else if d == 5 {
        '5'
    } else if d == 6 {
        '6'
    } else if d == 7 {
        '7'
    } else if d == 8 {
        '8'
    } else {
        '9'
    }
}

/// The decimal digits of `v >= 0`, most significant first, without leading
/// zeros (a single `0` for zero itself).
pub open spec fn dec_chars(v: int) -> Seq<char>
    decreases v,
{
    if v < 10 {
        seq![digit_char(v)]
    } else {
        dec_chars(v / 10).push(digit_char(v % 10))
    }
}

/// The low `w` decimal digits of `v >= 0`, most significant first, padded
/// with leading zeros to exactly `w` characters.
pub open spec fn pad_chars(v: int, w: nat) -> Seq<char>
    decreases w,
{
    if w == 0 {
        Seq::empty()
    } else {
        pad_chars(v / 10, (w - 1) as nat).push(digit_char(v % 10))
    }
}

/// The fixed-point rendering of the non-negative scaled value `m`:
/// the integer part, a point, and exactly eight decimal digits.
pub open spec fn mag_chars(m: int) -> Seq<char> {
    dec_chars(m / 100_000_000) + seq!['.'] + pad_chars(m % 100_000_000, 8)
}

/// The rendering of the value with bit pattern `b`, with exactly eight
/// digits after the decimal point: `NaN` for a NaN, `inf` or `-inf` for an
/// infinity, and otherwise an optional minus sign followed by the
/// fixed-point digits of the scaled magnitude.
pub open spec fn fixed8_chars(b: u64) -> Seq<char> {
    if nan_bits(b) {
        "NaN"@
    } else if !finite_bits(b) {
        if neg_bits(b) {
            "-inf"@
        } else {
            "inf"@
        }
    } else {
        let n = scaled8_of(b) as int;
        let m = if n < 0 {
            -n
        } else {
            n
        };
        (if neg_bits(b) {
            seq!['-']
        } else {
            Seq::<char>::empty()
        }) + mag_chars(m)
    }
}

/// The one-character string for the digit `d`.
fn digit_str(d: u128) -> (r: &'static str)
    requires
        d < 10,
    ensures
        r@ == seq![digit_char(d as int)],
{
    proof {
        reveal_strlit("0");
        reveal_strlit("1");
        reveal_strlit("2");
        reveal_strlit("3");
        reveal_strlit("4");
        reveal_strlit("5");
        reveal_strlit("6");
        reveal_strlit("7");
        reveal_strlit("8");
        reveal_strlit("9");
    }
    let r = if d == 0 {
        "0"
    } else if d == 1 {
        "1"
    } else if d == 2 {
        "2"
    } else if d == 3 {
        "3"
    } else if d == 4 {
        "4"
    } else if d == 5 {
        "5"
    } else if d == 6 {
        "6"
    } else if d == 7 {
        "7"
    } else if d == 8 {
        "8"
    } else {
        "9"
    };
    proof {
        assert(r@ =~= seq![digit_char(d as int)]);
    }
    r
}

/// Append the decimal digits of `v` to `out`, most significant first.
fn push_digits(v: u128, out: &mut String)
    ensures
        final(out)@ == old(out)@ + dec_chars(v as int),
    decreases v,
{
    if v < 10 {
        out.append(digit_str(v));
    } else {
        proof {
            assert(v / 10 < v) by (nonlinear_arith)
                requires
                    v >= 10,
            ;
        }
        push_digits(v / 10, out);
        out.append(digit_str(v % 10));
        proof {
            assert(old(out)@ + dec_chars(v as int) =~= (old(out)@ + dec_chars(v as int / 10))
                + seq![digit_char(v as int % 10)]);
        }
    }
}

/// Append exactly `w` decimal digits of `v` to `out`, zero padded.
fn push_padded(v: u128, w: usize, out: &mut String)
    ensures
        final(out)@ == old(out)@ + pad_chars(v as int, w as nat),
    decreases w,
{
    if w > 0 {
        push_padded(v / 10, w - 1, out);
        out.append(digit_str(v % 10));
        proof {
            assert(old(out)@ + pad_chars(v as int, w as nat) =~= (old(out)@ + pad_chars(
                v as int / 10,
                (w - 1) as nat,
            )) + seq![digit_char(v as int % 10)]);
        }
    } else {
        proof {
            assert(old(out)@ + pad_chars(v as int, 0) =~= old(out)@);
        }
    }
}

/// Render the value with bit pattern `bits` with exactly eight digits after
/// the decimal point; a NaN renders as `NaN` and an infinity as `inf` or
/// `-inf`.
pub fn format_value(bits: u64) -> (r: String)
    ensures
        r@ == fixed8_chars(bits),
{
    if is_nan_val(bits) {
        return String::from_str("NaN");
    }
    if !is_finite_val(bits) {
        if is_neg_val(bits) {
            return String::from_str("-inf");
        } else {
            return String::from_str("inf");
        }
    }
    let n = scale8(bits);
    let mut out = String::new();
    if is_neg_val(bits) {
        proof {
            reveal_strlit("-");
            assert("-"@ =~= seq!['-']);
        }
        out.append("-");
    }
    let m: u128 = if n < 0 {
        ((-(n + 1)) as u128) + 1
    } else {
        n as u128
    };
    proof {
        let ns = scaled8_of(bits) as int;
        assert(m as int == if ns < 0 {
            -ns
        } else {
            ns
        });
    }
    push_digits(m / 100_000_000, &mut out);
    proof {
        reveal_strlit(".");
        assert("."@ =~= seq!['.']);
    }
    out.append(".");
    push_padded(m % 100_000_000, 8, &mut out);
    proof {
        let ns = scaled8_of(bits) as int;
        let mm = if ns < 0 {
            -ns
        } else {
            ns
        };
        assert(m as int / 100_000_000 == mm / 100_000_000);
        assert(m as int % 100_000_000 == mm % 100_000_000);
        assert(out@ =~= fixed8_chars(bits));
    }
    out
}

} // verus!
