//! Lox numbers are IEEE-754 double-precision values, carried as their 64-bit
//! encodings.  Comparisons, equality, and the classification predicates are
//! defined and verified directly over the bit patterns; rounding arithmetic
//! and decimal conversion are delegated to the `rustc_apfloat` soft-float
//! library behind named trusted results.

use vstd::prelude::*;

use rustc_apfloat::Float;
use rustc_apfloat::Round;
use rustc_apfloat::ieee::Double;

use vstd::arithmetic::power2::pow2;
use vstd::arithmetic::power2::lemma_pow2_unfold;
use vstd::bits::lemma_u64_shr_is_div;

use crate::source::spec_is_digit;
use crate::text::dec_u128;
use crate::text::spec_dec_nat;
use crate::text::digit_char;

verus! {

/// Mask of the 11 exponent bits, shifted down.
pub const EXP_MASK: u64 = 0x7FF;

/// Mask of the 52 fraction bits.
pub const FRAC_MASK: u64 = 0xF_FFFF_FFFF_FFFF;

/// Mask of everything but the sign bit.
pub const MAG_MASK: u64 = 0x7FFF_FFFF_FFFF_FFFF;

/// The encoding of the double 100.0, used to form hundredths for display.
pub const HUNDRED_BITS: u64 = 0x4059_0000_0000_0000;

/// The encoding of the double 1000.0, used to turn milliseconds into seconds.
pub const THOUSAND_BITS: u64 = 0x408F_4000_0000_0000;

pub open spec fn sign_bit(b: u64) -> bool {
    b >> 63 == 1
}

pub open spec fn exp_bits(b: u64) -> u64 {
    (b >> 52) & EXP_MASK
}

pub open spec fn frac_bits(b: u64) -> u64 {
    b & FRAC_MASK
}

/// The magnitude: all bits but the sign.
pub open spec fn mag_bits(b: u64) -> u64 {
    b & MAG_MASK
}

pub open spec fn is_nan_bits(b: u64) -> bool {
    exp_bits(b) == EXP_MASK && frac_bits(b) != 0
}

pub open spec fn is_inf_bits(b: u64) -> bool {
    exp_bits(b) == EXP_MASK && frac_bits(b) == 0
}

pub open spec fn is_zero_bits(b: u64) -> bool {
    mag_bits(b) == 0
}

/// IEEE equality of the two encoded doubles: never true of a NaN, the two
/// zeroes are equal, and otherwise values are equal exactly when their
/// encodings are.
pub open spec fn num_eq(a: u64, b: u64) -> bool {
    &&& !is_nan_bits(a)
    &&& !is_nan_bits(b)
    &&& (a == b || (is_zero_bits(a) && is_zero_bits(b)))
}

/// IEEE `<` of the two encoded doubles.  For same-sign finite or infinite
/// values the magnitude bits order exactly as the values do; the two zeroes
/// are equal; a NaN compares less than nothing.
pub open spec fn num_lt(a: u64, b: u64) -> bool {
    &&& !is_nan_bits(a)
    &&& !is_nan_bits(b)
    &&& if sign_bit(a) && sign_bit(b) {
        mag_bits(b) < mag_bits(a)
    } else if !sign_bit(a) && !sign_bit(b) {
        mag_bits(a) < mag_bits(b)
    } else if sign_bit(a) {
        // a <= 0 <= b; strict unless both are zeroes
        !(is_zero_bits(a) && is_zero_bits(b))
    } else {
        false
    }
}

pub open spec fn num_le(a: u64, b: u64) -> bool {
    num_lt(a, b) || num_eq(a, b)
}

/// Whether the encoded double is finite and has no fractional part.
pub open spec fn is_integral_bits(b: u64) -> bool {
    if exp_bits(b) == EXP_MASK {
        false
    } else if exp_bits(b) < 1023 {
        mag_bits(b) == 0
    } else if exp_bits(b) >= 1075 {
        true
    } else {
        frac_bits(b) & (low_frac_mask(exp_bits(b)) as u64) == 0
    }
}

/// The fraction bits that must vanish for an exponent in `1023..1075`:
/// those standing for powers of two below one.
pub open spec fn low_frac_mask(e: u64) -> int {
    (1u64 << ((1075 - e) as u64)) as int - 1
}

// ---------------------------------------------------------------------------
// Named results of the soft-float library.  Each stands for the value that
// IEEE-754 binary64 arithmetic assigns; stating them in full would take pages,
// so the trusted wrappers below pin each call to its name and nothing more.
// ---------------------------------------------------------------------------

pub uninterp spec fn add_bits(a: u64, b: u64) -> u64;

pub uninterp spec fn sub_bits(a: u64, b: u64) -> u64;

pub uninterp spec fn mul_bits(a: u64, b: u64) -> u64;

pub uninterp spec fn div_bits(a: u64, b: u64) -> u64;

/// The double that the decimal digits of a numeric literal denote, or `None`
/// where the text is not a number the library accepts.
pub uninterp spec fn decimal_bits(s: Seq<char>) -> Option<u64>;

/// The double nearest to the given unsigned integer.
pub uninterp spec fn double_of_u64(n: u64) -> u64;

/// The double rounded to the nearest integral double, ties to even.
pub uninterp spec fn round_even_bits(b: u64) -> u64;

/// The encoded double converted to a 128-bit integer, truncating toward zero
/// and saturating at the type's bounds; zero for a NaN.
pub uninterp spec fn int_of_bits(b: u64) -> i128;

/// Relies on `rustc_apfloat::ieee::Double`'s `Add`: IEEE-754 binary64
/// addition, rounding to nearest, ties to even.
#[verifier::external_body]
pub(crate) fn num_add(a: u64, b: u64) -> (r: u64)
    ensures
        r == add_bits(a, b),
{
    (Double::from_bits(a as u128) + Double::from_bits(b as u128)).value.to_bits() as u64
}

/// Relies on `rustc_apfloat::ieee::Double`'s `Sub`: IEEE-754 binary64
/// subtraction, rounding to nearest, ties to even.
#[verifier::external_body]
pub(crate) fn num_sub(a: u64, b: u64) -> (r: u64)
    ensures
        r == sub_bits(a, b),
{
    (Double::from_bits(a as u128) - Double::from_bits(b as u128)).value.to_bits() as u64
}

/// Relies on `rustc_apfloat::ieee::Double`'s `Mul`: IEEE-754 binary64
/// multiplication, rounding to nearest, ties to even.
#[verifier::external_body]
pub(crate) fn num_mul(a: u64, b: u64) -> (r: u64)
    ensures
        r == mul_bits(a, b),
{
    (Double::from_bits(a as u128) * Double::from_bits(b as u128)).value.to_bits() as u64
}

/// Relies on `rustc_apfloat::ieee::Double`'s `Div`: IEEE-754 binary64
/// division, rounding to nearest, ties to even; division by zero gives the
/// signed infinity or NaN that the standard assigns.
#[verifier::external_body]
pub(crate) fn num_div(a: u64, b: u64) -> (r: u64)
    ensures
        r == div_bits(a, b),
{
    (Double::from_bits(a as u128) / Double::from_bits(b as u128)).value.to_bits() as u64
}

/// Relies on `rustc_apfloat::ieee::Double::from_str`: correctly rounded
/// decimal-to-double conversion, `Err` on text it does not accept.  The
/// precondition admits only decimal digits and points — the shape of the
/// scanner's numeric lexemes — which keeps every call on the conversion's
/// plain decimal path; nothing is relied on outside it.
#[verifier::external_body]
pub(crate) fn num_parse(s: &str) -> (r: Option<u64>)
    requires
        forall|i: int| 0 <= i < s@.len() ==> spec_is_digit(#[trigger] s@[i]) || s@[i] == '.',
    ensures
        r == decimal_bits(s@),
{
    match s.parse::<Double>() {
        Ok(d) => Some(d.to_bits() as u64),
        Err(_) => None,
    }
}

/// Relies on `rustc_apfloat::ieee::Double::from_u128`: unsigned integer to
/// double, rounding to nearest, ties to even.
#[verifier::external_body]
pub(crate) fn num_of_u64(n: u64) -> (r: u64)
    ensures
        r == double_of_u64(n),
{
    Double::from_u128(n as u128).value.to_bits() as u64
}

/// Relies on `rustc_apfloat::ieee::Double::round_to_integral`: rounding to an
/// integral double, ties to even.
#[verifier::external_body]
pub(crate) fn num_round_even(b: u64) -> (r: u64)
    ensures
        r == round_even_bits(b),
{
    Double::from_bits(b as u128).round_to_integral(Round::NearestTiesToEven).value.to_bits()
        as u64
}

/// Relies on `rustc_apfloat::ieee::Double::to_i128`: conversion toward zero,
/// saturating at the bounds of `i128`, zero for a NaN.
#[verifier::external_body]
pub(crate) fn num_to_int(b: u64) -> (r: i128)
    ensures
        r == int_of_bits(b),
{
    Double::from_bits(b as u128).to_i128(128).value
}

// ---------------------------------------------------------------------------
// Verified comparisons and classification over the encodings.
// ---------------------------------------------------------------------------

pub fn exec_is_nan(b: u64) -> (r: bool)
    ensures
        r == is_nan_bits(b),
{
    (b >> 52) & EXP_MASK == EXP_MASK && b & FRAC_MASK != 0
}

pub fn exec_is_inf(b: u64) -> (r: bool)
    ensures
        r == is_inf_bits(b),
{
    (b >> 52) & EXP_MASK == EXP_MASK && b & FRAC_MASK == 0
}

pub fn exec_sign(b: u64) -> (r: bool)
    ensures
        r == sign_bit(b),
{
    b >> 63 == 1
}

pub fn exec_is_zero(b: u64) -> (r: bool)
    ensures
        r == is_zero_bits(b),
{
    b & MAG_MASK == 0
}

pub fn exec_num_eq(a: u64, b: u64) -> (r: bool)
    ensures
        r == num_eq(a, b),
{
    if exec_is_nan(a) || exec_is_nan(b) {
        false
    } else {
        a == b || (exec_is_zero(a) && exec_is_zero(b))
    }
}

pub fn exec_num_lt(a: u64, b: u64) -> (r: bool)
    ensures
        r == num_lt(a, b),
{
    if exec_is_nan(a) || exec_is_nan(b) {
        false
    } else {
        let sa = exec_sign(a);
        let sb = exec_sign(b);
        if sa && sb {
            b & MAG_MASK < a & MAG_MASK
        } else if !sa && !sb {
            a & MAG_MASK < b & MAG_MASK
        } else if sa {
            !(exec_is_zero(a) && exec_is_zero(b))
        } else {
            false
        }
    }
}

pub fn exec_num_le(a: u64, b: u64) -> (r: bool)
    ensures
        r == num_le(a, b),
{
    exec_num_lt(a, b) || exec_num_eq(a, b)
}

pub fn exec_is_integral(b: u64) -> (r: bool)
    ensures
        r == is_integral_bits(b),
{
    let e = (b >> 52) & EXP_MASK;
    if e == EXP_MASK {
        false
    } else if e < 1023 {
        b & MAG_MASK == 0
    } else if e >= 1075 {
        true
    } else {
        let shift = (1075 - e) as u64;
        assert(1u64 << shift >= 1) by (bit_vector)
            requires
                1 <= shift < 64,
        ;
        let mask: u64 = (1u64 << shift) - 1;
        assert(mask as int == low_frac_mask(e)) by (bit_vector)
            requires
                1023 <= e < 1075,
                shift == (1075 - e) as u64,
                mask == (1u64 << shift) - 1,
        ;
        b & FRAC_MASK & mask == 0
    }
}

// ---------------------------------------------------------------------------
// Decimal digits of an integral double.  The value is mantissa * 2^(e-1075)
// for a biased exponent e; below 1075 the shift is a division that the
// integrality makes exact, above it the digits are doubled once per power of
// two, so even the widest double prints its full number.
// ---------------------------------------------------------------------------

/// The number a little-endian digit sequence denotes, read from index `i`.
pub open spec fn lval(s: Seq<u8>, i: int) -> nat
    decreases s.len() - i,
    when 0 <= i <= s.len()
{
    if i >= s.len() {
        0
    } else {
        (s[i] as nat) + 10 * lval(s, i + 1)
    }
}

/// Digits below ten with no leading zero (the last entry, being the most
/// significant, is not zero).
pub open spec fn wf_digits(s: Seq<u8>) -> bool {
    &&& forall|i: int| 0 <= i < s.len() ==> (#[trigger] s[i]) < 10
    &&& s.len() > 0 ==> s.last() != 0
}

/// Prepending a digit multiplies the remainder's weight by ten.
proof fn lemma_lval_prepend(s: Seq<u8>, d: u8, i: int)
    requires
        0 <= i <= s.len(),
    ensures
        lval(s.insert(0, d), i + 1) == lval(s, i),
    decreases s.len() - i,
{
    assert(s.insert(0, d).len() == s.len() + 1);
    if i < s.len() {
        assert(s.insert(0, d)[i + 1] == s[i]);
        lemma_lval_prepend(s, d, i + 1);
    }
}

/// A digit sequence whose most significant digit is not zero denotes a
/// positive number from every position at or below it.
proof fn lemma_lval_pos(s: Seq<u8>, i: int)
    requires
        0 <= i < s.len(),
        s.last() != 0,
    ensures
        lval(s, i) >= 1,
    decreases s.len() - i,
{
    if i < s.len() - 1 {
        lemma_lval_pos(s, i + 1);
    }
}

/// The little-endian digits of a positive number.
fn digits_le_of(n: u64) -> (r: Vec<u8>)
    requires
        n > 0,
    ensures
        lval(r@, 0) == n,
        r@.len() > 0,
        wf_digits(r@),
    decreases n,
{
    if n < 10 {
        let mut r: Vec<u8> = Vec::new();
        r.push(n as u8);
        proof {
            assert(lval(r@, 1) == 0);
        }
        r
    } else {
        let mut r = digits_le_of(n / 10);
        let ghost pre = r@;
        r.insert(0, (n % 10) as u8);
        proof {
            lemma_lval_prepend(pre, (n % 10) as u8, 0);
            assert(r@.last() == pre.last());
        }
        r
    }
}

/// The digits of twice the number denoted from index `i`, plus the carry.
fn double_from(v: &Vec<u8>, i: usize, carry: u8) -> (r: Vec<u8>)
    requires
        i <= v@.len(),
        carry <= 1,
        wf_digits(v@),
        v@.len() > 0,
    ensures
        lval(r@, 0) == 2 * lval(v@, i as int) + carry,
        wf_digits(r@),
        r@.len() == 0 <==> (i == v@.len() && carry == 0),
    decreases v@.len() - i,
{
    if i >= v.len() {
        let mut r: Vec<u8> = Vec::new();
        if carry > 0 {
            r.push(carry);
            proof {
                assert(lval(r@, 1) == 0);
            }
        }
        r
    } else {
        let d = 2 * v[i] + carry;
        let mut r = double_from(v, i + 1, d / 10);
        let ghost pre = r@;
        r.insert(0, d % 10);
        proof {
            lemma_lval_prepend(pre, d % 10, 0);
            if pre.len() > 0 {
                assert(r@.last() == pre.last());
            } else {
                assert(i == v@.len() - 1 && d / 10 == 0);
                assert(v@[i as int] == v@.last());
                assert(d >= 2);
                assert(r@.last() == d % 10);
            }
        }
        r
    }
}

/// The decimal text of the digits from index `i` on, most significant first.
fn render_digits(v: &Vec<u8>, i: usize) -> (r: String)
    requires
        i < v@.len(),
        wf_digits(v@),
    ensures
        r@ == spec_dec_nat(lval(v@, i as int)),
    decreases v@.len() - i,
{
    if i == v.len() - 1 {
        let mut s = String::new();
        s.push((48 + v[i]) as char);
        proof {
            assert(lval(v@, i as int + 1) == 0);
            assert(lval(v@, i as int) == v@[i as int] as nat);
            assert(s@ =~= seq![digit_char(v@[i as int] as int)]);
        }
        s
    } else {
        let mut s = render_digits(v, i + 1);
        s.push((48 + v[i]) as char);
        proof {
            lemma_lval_pos(v@, i as int + 1);
            let n = lval(v@, i as int);
            assert(n == (v@[i as int] as nat) + 10 * lval(v@, i as int + 1));
            assert(n / 10 == lval(v@, i as int + 1)) by (nonlinear_arith)
                requires
                    n == (v@[i as int] as nat) + 10 * lval(v@, i as int + 1),
                    v@[i as int] < 10,
            ;
            assert(n % 10 == v@[i as int] as nat) by (nonlinear_arith)
                requires
                    n == (v@[i as int] as nat) + 10 * lval(v@, i as int + 1),
                    v@[i as int] < 10,
            ;
        }
        s
    }
}

/// The decimal text of `mant * 2^k` for a positive mantissa.
fn big_integral_digits(mant: u64, k: u64) -> (r: String)
    requires
        mant > 0,
    ensures
        r@ == spec_dec_nat((mant as nat) * pow2(k as nat)),
{
    let mut digits = digits_le_of(mant);
    let mut j: u64 = 0;
    proof {
        vstd::arithmetic::power2::lemma2_to64();
        assert((mant as nat) * pow2(0) == mant as nat) by (nonlinear_arith)
            requires
                pow2(0) == 1,
        ;
    }
    while j < k
        invariant
            j <= k,
            lval(digits@, 0) == (mant as nat) * pow2(j as nat),
            wf_digits(digits@),
            digits@.len() > 0,
        decreases k - j,
    {
        let next = double_from(&digits, 0, 0);
        proof {
            lemma_pow2_unfold((j + 1) as nat);
            assert((mant as nat) * pow2((j + 1) as nat) == 2 * ((mant as nat) * pow2(
                j as nat,
            ))) by (nonlinear_arith)
                requires
                    pow2((j + 1) as nat) == 2 * pow2(j as nat),
            ;
        }
        digits = next;
        j = j + 1;
    }
    render_digits(&digits, 0)
}

// ---------------------------------------------------------------------------
// Display form of a number: an integral value shows no fractional digits, any
// other finite value shows exactly two.
// ---------------------------------------------------------------------------

/// The mantissa of a normal double, the implicit bit included.
pub open spec fn int_mant(b: u64) -> nat {
    frac_bits(b) as nat + 0x10_0000_0000_0000
}

/// The whole number a nonzero integral double denotes, its sign set aside:
/// the mantissa shifted by the exponent, an exact division below `2^52`.
pub open spec fn int_val(b: u64) -> nat {
    if exp_bits(b) < 1075 {
        int_mant(b) / pow2((1075 - exp_bits(b)) as nat)
    } else {
        int_mant(b) * pow2((exp_bits(b) - 1075) as nat)
    }
}

/// The saturating conversion of the double to hundredths, rounded to the
/// nearest whole number of hundredths, ties to even.
pub open spec fn spec_hundredths(b: u64) -> i128 {
    int_of_bits(round_even_bits(mul_bits(b, HUNDRED_BITS)))
}

/// Sign, whole part, a point, and two fractional digits.
pub open spec fn spec_two_dec(n: i128) -> Seq<char> {
    let m = if n < 0 { -n as int } else { n as int };
    let sign = if n < 0 { seq!['-'] } else { Seq::<char>::empty() };
    sign + spec_dec_nat((m / 100) as nat) + seq!['.', digit_char(m / 10 % 10), digit_char(m % 10)]
}

/// The display form of an encoded double.  An integral value shows its full
/// digits, however wide.  The two decimal digits of any other finite value
/// come from rounding the value scaled by one hundred in double arithmetic,
/// which on the ties that scaling creates can differ in the last digit from
/// rounding the exact decimal expansion.
pub open spec fn spec_display_number(b: u64) -> Seq<char> {
    if is_nan_bits(b) {
        "NaN"@
    } else if is_inf_bits(b) {
        if sign_bit(b) {
            "-inf"@
        } else {
            "inf"@
        }
    } else if is_integral_bits(b) {
        if is_zero_bits(b) {
            if sign_bit(b) {
                "-0"@
            } else {
                "0"@
            }
        } else if sign_bit(b) {
            seq!['-'] + spec_dec_nat(int_val(b))
        } else {
            spec_dec_nat(int_val(b))
        }
    } else {
        spec_two_dec(spec_hundredths(b))
    }
}

pub fn display_number(b: u64) -> (r: String)
    ensures
        r@ == spec_display_number(b),
{
    if exec_is_nan(b) {
        String::from_str("NaN")
    } else if exec_is_inf(b) {
        if exec_sign(b) {
            String::from_str("-inf")
        } else {
            String::from_str("inf")
        }
    } else if exec_is_integral(b) {
        if exec_is_zero(b) {
            if exec_sign(b) {
                String::from_str("-0")
            } else {
                String::from_str("0")
            }
        } else {
            let e = (b >> 52) & EXP_MASK;
            let mant = (b & FRAC_MASK) | 0x0010_0000_0000_0000u64;
            proof {
                assert(mant == (b & FRAC_MASK) + 0x0010_0000_0000_0000u64) by (bit_vector)
                    requires
                        mant == (b & FRAC_MASK) | 0x0010_0000_0000_0000u64,
                        FRAC_MASK == 0xF_FFFF_FFFF_FFFF,
                ;
                assert(mant as nat == int_mant(b));
                assert(exp_bits(b) >= 1023);
            }
            let digits = if e < 1075 {
                let shift = 1075 - e;
                proof {
                    lemma_u64_shr_is_div(mant, shift);
                }
                dec_u128((mant >> shift) as u128)
            } else {
                big_integral_digits(mant, e - 1075)
            };
            if exec_sign(b) {
                let mut s = String::from_str("-");
                s.append(digits.as_str());
                proof {
                    assert("-"@ =~= seq!['-']) by {
                        reveal_strlit("-");
                    }
                    assert(s@ =~= seq!['-'] + spec_dec_nat(int_val(b)));
                }
                s
            } else {
                digits
            }
        }
    } else {
        let n = num_to_int(num_round_even(num_mul(b, HUNDRED_BITS)));
        let m: u128 = if n >= 0 {
            n as u128
        } else {
            ((-1 - n) as u128) + 1
        };
        let mut s = String::new();
        if n < 0 {
            s.push('-');
        }
        let whole = dec_u128(m / 100);
        s.append(whole.as_str());
        s.push('.');
        s.push((48 + (m / 10 % 10) as u8) as char);
        s.push((48 + (m % 10) as u8) as char);
        assert(s@ =~= spec_two_dec(n));
        s
    }
}

} // verus!
