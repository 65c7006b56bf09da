//! The numeric tower: 32-bit signed integers and IEEE-754 single-precision
//! numbers, with promotion of an integer operand whenever the other operand
//! is a float.
//!
//! A float is carried as its 32-bit pattern. Classification and comparison
//! are decided on the pattern itself; the rounded arithmetic is done by the
//! software implementation in `rustc_apfloat`.
use rustc_apfloat::ieee::Single;
use rustc_apfloat::Float;
use vstd::prelude::*;

verus! {

/// A number of the language.
///
/// `==` on numbers compares how they are held, so it tells the two float
/// zeros apart and finds a NaN equal to itself; `equal_to` is the `=` of
/// the language.
#[derive(Debug, Clone, Copy, PartialEq)]
pub enum Number {
    /// A 32-bit signed integer.
    Integer(i32),
    /// An IEEE-754 single-precision number, held as its bit pattern.
    Float(u32),
}

/// The pattern without its sign bit.
pub open spec fn float_magnitude(bits: u32) -> int {
    if bits >= 0x8000_0000u32 {
        bits - 0x8000_0000
    } else {
        bits as int
    }
}

/// Whether the sign bit of the pattern is set.
pub open spec fn float_is_negative(bits: u32) -> bool {
    bits >= 0x8000_0000u32
}

/// Whether the pattern encodes a NaN: all exponent bits set and a non-zero
/// fraction.
pub open spec fn float_is_nan(bits: u32) -> bool {
    float_magnitude(bits) > 0x7f80_0000
}

/// Whether the pattern encodes positive or negative zero.
pub open spec fn float_is_zero(bits: u32) -> bool {
    float_magnitude(bits) == 0
}

/// The position of a non-NaN pattern in the numeric order: magnitudes grow
/// with the value they encode, and the sign bit mirrors them around zero.
pub open spec fn float_key(bits: u32) -> int {
    if float_is_negative(bits) {
        -float_magnitude(bits)
    } else {
        float_magnitude(bits)
    }
}

/// IEEE-754 `<` on two patterns: false whenever a NaN is involved.
pub open spec fn float_less(a: u32, b: u32) -> bool {
    !float_is_nan(a) && !float_is_nan(b) && float_key(a) < float_key(b)
}

/// IEEE-754 `==` on two patterns: false whenever a NaN is involved, and
/// true of the two zeros.
pub open spec fn float_equal(a: u32, b: u32) -> bool {
    !float_is_nan(a) && !float_is_nan(b) && float_key(a) == float_key(b)
}

/// The pattern of the single-precision sum of two patterns, rounded to
/// nearest, ties to even.
pub uninterp spec fn float_sum(a: u32, b: u32) -> u32;

/// The pattern of the single-precision difference `a - b`.
pub uninterp spec fn float_difference(a: u32, b: u32) -> u32;

/// The pattern of the single-precision product of two patterns.
pub uninterp spec fn float_product(a: u32, b: u32) -> u32;

/// The pattern of the single-precision quotient `a / b`.
pub uninterp spec fn float_quotient(a: u32, b: u32) -> u32;

/// The pattern of the remainder of `a` by `b` with the sign of `a`.
pub uninterp spec fn float_remainder(a: u32, b: u32) -> u32;

/// The pattern of the single-precision number nearest to an integer.
pub uninterp spec fn float_from_int(i: i32) -> u32;

/// Calls `rustc_apfloat`'s `Add` for `ieee::Single` (`add_r` with
/// `Round::NearestTiesToEven`) on the two patterns and hands back the
/// pattern of its value. The contract only names that pattern.
#[verifier::external_body]
fn float_add(a: u32, b: u32) -> (r: u32)
    ensures
        r == float_sum(a, b),
{
    (Single::from_bits(a as u128) + Single::from_bits(b as u128)).value.to_bits() as u32
}

/// Calls `rustc_apfloat`'s `Sub` for `ieee::Single` on the two patterns.
/// The contract only names the resulting pattern.
#[verifier::external_body]
fn float_sub(a: u32, b: u32) -> (r: u32)
    ensures
        r == float_difference(a, b),
{
    (Single::from_bits(a as u128) - Single::from_bits(b as u128)).value.to_bits() as u32
}

/// Calls `rustc_apfloat`'s `Mul` for `ieee::Single` on the two patterns.
/// The contract only names the resulting pattern.
#[verifier::external_body]
fn float_mul(a: u32, b: u32) -> (r: u32)
    ensures
        r == float_product(a, b),
{
    (Single::from_bits(a as u128) * Single::from_bits(b as u128)).value.to_bits() as u32
}

/// Calls `rustc_apfloat`'s `Div` for `ieee::Single` on the two patterns.
/// The contract only names the resulting pattern.
#[verifier::external_body]
fn float_div(a: u32, b: u32) -> (r: u32)
    ensures
        r == float_quotient(a, b),
{
    (Single::from_bits(a as u128) / Single::from_bits(b as u128)).value.to_bits() as u32
}

/// Calls `rustc_apfloat`'s `Rem` for `ieee::Single` (`c_fmod`) on the two
/// patterns. The contract only names the resulting pattern.
#[verifier::external_body]
fn float_rem(a: u32, b: u32) -> (r: u32)
    ensures
        r == float_remainder(a, b),
{
    (Single::from_bits(a as u128) % Single::from_bits(b as u128)).value.to_bits() as u32
}

/// Calls `rustc_apfloat`'s `Float::from_i128` for `ieee::Single`, which
/// rounds to nearest, ties to even. The contract only names the resulting
/// pattern.
#[verifier::external_body]
fn float_of_int(i: i32) -> (r: u32)
    ensures
        r == float_from_int(i),
{
    Single::from_i128(i as i128).value.to_bits() as u32
}

/// Reduces an integer to the 32-bit two's complement value it wraps to.
pub open spec fn wrap32(v: int) -> i32 {
    let m = v % 0x1_0000_0000;
    if m > 0x7fff_ffff {
        (m - 0x1_0000_0000) as i32
    } else {
        m as i32
    }
}

/// The quotient of `a` by a non-zero `b`, rounded toward zero.
pub open spec fn truncated_quotient(a: int, b: int) -> int
    recommends
        b != 0,
{
    if a >= 0 {
        if b > 0 {
            a / b
        } else {
            -(a / (-b))
        }
    } else {
        if b > 0 {
            -((-a) / b)
        } else {
            (-a) / (-b)
        }
    }
}

/// The remainder that goes with `truncated_quotient`; it has the sign of `a`.
pub open spec fn truncated_remainder(a: int, b: int) -> int
    recommends
        b != 0,
{
    a - b * truncated_quotient(a, b)
}

fn float_key_of(bits: u32) -> (k: i64)
    ensures
        k == float_key(bits),
{
    if bits >= 0x8000_0000u32 {
        let m: u32 = bits - 0x8000_0000u32;
        0i64 - (m as i64)
    } else {
        bits as i64
    }
}

fn float_nan(bits: u32) -> (r: bool)
    ensures
        r == float_is_nan(bits),
{
    if bits >= 0x8000_0000u32 {
        bits - 0x8000_0000u32 > 0x7f80_0000u32
    } else {
        bits > 0x7f80_0000u32
    }
}

impl Number {
    /// Whether the number is in the floating domain.
    pub open spec fn is_float(self) -> bool {
        self is Float
    }

    /// The pattern the number has in the floating domain: its own, or that
    /// of the float nearest to the integer.
    pub open spec fn promoted(self) -> u32 {
        match self {
            Number::Integer(i) => float_from_int(i),
            Number::Float(bits) => bits,
        }
    }

    /// Whether the number is zero: integer zero, or either float zero.
    pub open spec fn is_zero(self) -> bool {
        match self {
            Number::Integer(i) => i == 0,
            Number::Float(bits) => float_is_zero(bits),
        }
    }

    /// Whether dividing `self` by `divisor` is an arithmetic fault: the
    /// divisor is zero, or the integer quotient does not fit in 32 bits.
    pub open spec fn division_faults(self, divisor: Number) -> bool {
        divisor.is_zero() || (self == Number::Integer(i32::MIN) && divisor == Number::Integer(
            -1i32,
        ))
    }

    /// `self + other` in the tower; integer sums wrap.
    pub open spec fn plus(self, other: Number) -> Number {
        match (self, other) {
            (Number::Integer(a), Number::Integer(b)) => Number::Integer(wrap32(a + b)),
            _ => Number::Float(float_sum(self.promoted(), other.promoted())),
        }
    }

    /// `self - other` in the tower; integer differences wrap.
    pub open spec fn minus(self, other: Number) -> Number {
        match (self, other) {
            (Number::Integer(a), Number::Integer(b)) => Number::Integer(wrap32(a - b)),
            _ => Number::Float(float_difference(self.promoted(), other.promoted())),
        }
    }

    /// `self * other` in the tower; integer products wrap.
    pub open spec fn times(self, other: Number) -> Number {
        match (self, other) {
            (Number::Integer(a), Number::Integer(b)) => Number::Integer(wrap32(a * b)),
            _ => Number::Float(float_product(self.promoted(), other.promoted())),
        }
    }

    /// `self / other` in the tower, or `None` where the division faults.
    /// Integer division rounds toward zero.
    pub open spec fn quotient(self, other: Number) -> Option<Number> {
        if self.division_faults(other) {
            None
        } else {
            Some(
                match (self, other) {
                    (Number::Integer(a), Number::Integer(b)) => Number::Integer(
                        truncated_quotient(a as int, b as int) as i32,
                    ),
                    _ => Number::Float(float_quotient(self.promoted(), other.promoted())),
                },
            )
        }
    }

    /// The remainder of `self` by `other` in the tower, or `None` where the
    /// division faults. The integer remainder has the sign of `self`.
    pub open spec fn modulo(self, other: Number) -> Option<Number> {
        if self.division_faults(other) {
            None
        } else {
            Some(
                match (self, other) {
                    (Number::Integer(a), Number::Integer(b)) => Number::Integer(
                        truncated_remainder(a as int, b as int) as i32,
                    ),
                    _ => Number::Float(float_remainder(self.promoted(), other.promoted())),
                },
            )
        }
    }

    /// `self < other` in the tower.
    pub open spec fn below(self, other: Number) -> bool {
        match (self, other) {
            (Number::Integer(a), Number::Integer(b)) => a < b,
            _ => float_less(self.promoted(), other.promoted()),
        }
    }

    /// `self = other` in the tower.
    pub open spec fn same(self, other: Number) -> bool {
        match (self, other) {
            (Number::Integer(a), Number::Integer(b)) => a == b,
            _ => float_equal(self.promoted(), other.promoted()),
        }
    }

    /// The float pattern of the number, converting an integer.
    pub fn to_float_bits(self) -> (bits: u32)
        ensures
            bits == self.promoted(),
    {
        match self {
            Number::Integer(i) => float_of_int(i),
            Number::Float(bits) => bits,
        }
    }

    /// Tests for integer zero or a float zero of either sign.
    pub fn is_zero_value(self) -> (r: bool)
        ensures
            r == self.is_zero(),
    {
        match self {
            Number::Integer(i) => i == 0,
            Number::Float(bits) => bits == 0 || bits == 0x8000_0000u32,
        }
    }

    /// Adds two numbers.
    pub fn add(self, other: Number) -> (r: Number)
        ensures
            r == self.plus(other),
            r.is_float() == (self.is_float() || other.is_float()),
    {
        match (self, other) {
            (Number::Integer(a), Number::Integer(b)) => {
                proof {
                    lemma_wrapping_add_is_wrap32(a, b);
                }
                Number::Integer(a.wrapping_add(b))
            },
            _ => Number::Float(float_add(self.to_float_bits(), other.to_float_bits())),
        }
    }

    /// Subtracts `other` from `self`.
    pub fn sub(self, other: Number) -> (r: Number)
        ensures
            r == self.minus(other),
            r.is_float() == (self.is_float() || other.is_float()),
    {
        match (self, other) {
            (Number::Integer(a), Number::Integer(b)) => {
                proof {
                    lemma_wrapping_sub_is_wrap32(a, b);
                }
                Number::Integer(a.wrapping_sub(b))
            },
            _ => Number::Float(float_sub(self.to_float_bits(), other.to_float_bits())),
        }
    }

    /// Multiplies two numbers.
    pub fn mul(self, other: Number) -> (r: Number)
        ensures
            r == self.times(other),
            r.is_float() == (self.is_float() || other.is_float()),
    {
        match (self, other) {
            (Number::Integer(a), Number::Integer(b)) => Number::Integer(a.wrapping_mul(b)),
            _ => Number::Float(float_mul(self.to_float_bits(), other.to_float_bits())),
        }
    }

    /// Divides `self` by `other`; `None` where the division faults.
    pub fn div(self, other: Number) -> (r: Option<Number>)
        ensures
            r == self.quotient(other),
            r is None <==> self.division_faults(other),
            r matches Some(q) ==> q.is_float() == (self.is_float() || other.is_float()),
    {
        if other.is_zero_value() {
            return None;
        }
        match (self, other) {
            (Number::Integer(a), Number::Integer(b)) => {
                proof {
                    lemma_truncated_quotient_bounds(a as int, b as int);
                }
                match a.checked_div(b) {
                    Some(q) => Some(Number::Integer(q)),
                    None => None,
                }
            },
            _ => Some(Number::Float(float_div(self.to_float_bits(), other.to_float_bits()))),
        }
    }

    /// The remainder of `self` by `other`; `None` where the division faults.
    pub fn rem(self, other: Number) -> (r: Option<Number>)
        ensures
            r == self.modulo(other),
            r is None <==> self.division_faults(other),
            r matches Some(q) ==> q.is_float() == (self.is_float() || other.is_float()),
    {
        if other.is_zero_value() {
            return None;
        }
        match (self, other) {
            (Number::Integer(a), Number::Integer(b)) => {
                proof {
                    lemma_truncated_quotient_bounds(a as int, b as int);
                }
                match a.checked_rem(b) {
                    Some(q) => Some(Number::Integer(q)),
                    None => None,
                }
            },
            _ => Some(Number::Float(float_rem(self.to_float_bits(), other.to_float_bits()))),
        }
    }

    /// Tests `self < other`.
    pub fn less_than(&self, other: &Number) -> (r: bool)
        ensures
            r == self.below(*other),
    {
        match (*self, *other) {
            (Number::Integer(a), Number::Integer(b)) => a < b,
            _ => {
                let x = self.to_float_bits();
                let y = other.to_float_bits();
                !float_nan(x) && !float_nan(y) && float_key_of(x) < float_key_of(y)
            },
        }
    }

    /// Tests `self = other`.
    pub fn equal_to(&self, other: &Number) -> (r: bool)
        ensures
            r == self.same(*other),
    {
        match (*self, *other) {
            (Number::Integer(a), Number::Integer(b)) => a == b,
            _ => {
                let x = self.to_float_bits();
                let y = other.to_float_bits();
                !float_nan(x) && !float_nan(y) && float_key_of(x) == float_key_of(y)
            },
        }
    }
}

proof fn lemma_wrapping_add_is_wrap32(a: i32, b: i32)
    ensures
        vstd::wrapping::i32_specs::wrapping_add(a, b) == wrap32(a + b),
{
}

proof fn lemma_wrapping_sub_is_wrap32(a: i32, b: i32)
    ensures
        vstd::wrapping::i32_specs::wrapping_sub(a, b) == wrap32(a - b),
{
}

/// Division that rounds toward zero: the quotient and the remainder make
/// up the dividend, and the remainder is smaller in magnitude than the
/// divisor and has the sign of the dividend.
pub proof fn law_truncated_division(a: int, b: int)
    requires
        b != 0,
    ensures
        a == b * truncated_quotient(a, b) + truncated_remainder(a, b),
        a >= 0 ==> 0 <= truncated_remainder(a, b),
        a <= 0 ==> truncated_remainder(a, b) <= 0,
        b > 0 ==> -b < truncated_remainder(a, b) < b,
        b < 0 ==> b < truncated_remainder(a, b) < -b,
        truncated_remainder(a, b) == if a >= 0 {
            a % (if b >= 0 {
                b
            } else {
                -b
            })
        } else {
            -((-a) % (if b >= 0 {
                b
            } else {
                -b
            }))
        },
{
    let abs_a = if a >= 0 {
        a
    } else {
        -a
    };
    let abs_b = if b >= 0 {
        b
    } else {
        -b
    };
    assert(abs_a == abs_b * (abs_a / abs_b) + abs_a % abs_b && 0 <= abs_a % abs_b < abs_b)
        by (nonlinear_arith)
        requires
            abs_a >= 0,
            abs_b > 0,
    ;
    assert(b * truncated_quotient(a, b) == if a >= 0 {
        abs_b * (abs_a / abs_b)
    } else {
        -(abs_b * (abs_a / abs_b))
    }) by (nonlinear_arith)
        requires
            abs_b == if b >= 0 {
                b
            } else {
                -b
            },
            b != 0,
            truncated_quotient(a, b) == if (a >= 0) == (b > 0) {
                abs_a / abs_b
            } else {
                -(abs_a / abs_b)
            },
    ;
}

/// The truncated quotient of two 32-bit integers fits in 32 bits, but for
/// the least integer divided by -1.
proof fn lemma_truncated_quotient_bounds(a: int, b: int)
    requires
        b != 0,
        -0x8000_0000 <= a <= 0x7fff_ffff,
        -0x8000_0000 <= b <= 0x7fff_ffff,
    ensures
        -0x8000_0000 <= truncated_quotient(a, b) <= 0x8000_0000,
        truncated_quotient(a, b) == 0x8000_0000 <==> (a == -0x8000_0000 && b == -1),
        -0x8000_0000 < truncated_remainder(a, b) < 0x8000_0000,
        truncated_remainder(a, b) == if a >= 0 {
            a % (if b >= 0 {
                b
            } else {
                -b
            })
        } else {
            -((-a) % (if b >= 0 {
                b
            } else {
                -b
            }))
        },
{
    law_truncated_division(a, b);
    let abs_a = if a >= 0 {
        a
    } else {
        -a
    };
    let abs_b = if b >= 0 {
        b
    } else {
        -b
    };
    assert(0 <= abs_a / abs_b <= abs_a && (abs_a / abs_b == abs_a ==> abs_b == 1 || abs_a == 0))
        by (nonlinear_arith)
        requires
            abs_a >= 0,
            abs_b > 0,
    ;
}

/// Wrapping keeps a value that fits and moves any other by a multiple of
/// 2^32.
pub proof fn law_wrap32(v: int)
    ensures
        i32::MIN <= v <= i32::MAX ==> wrap32(v) == v,
        (v - wrap32(v)) % 0x1_0000_0000 == 0,
{
}

/// The order of floats: nothing is below itself, two patterns are never
/// below each other, `=` is symmetric and holds of the two zeros, a NaN is
/// neither below, above nor equal to anything, and of two patterns without
/// a NaN exactly one of `<`, `=`, `>` holds.
pub proof fn law_float_order(a: u32, b: u32)
    ensures
        !float_less(a, a),
        !(float_less(a, b) && float_less(b, a)),
        float_equal(a, b) == float_equal(b, a),
        float_is_zero(a) && float_is_zero(b) ==> float_equal(a, b),
        float_is_nan(a) || float_is_nan(b) ==> !float_less(a, b) && !float_less(b, a)
            && !float_equal(a, b),
        !float_is_nan(a) && !float_is_nan(b) ==> (float_less(a, b) || float_equal(a, b)
            || float_less(b, a)) && !(float_less(a, b) && float_equal(a, b)),
        !float_is_nan(a) && !float_is_nan(b) && !float_is_zero(a) && float_equal(a, b) ==> a == b,
{
}

/// The two-domain rule of the tower: `+`, `-`, `*` and `/` give a float as
/// soon as one operand is a float, and an integer when both are integers;
/// the integer quotient is the quotient rounded toward zero.
pub proof fn law_numeric_tower(a: Number, b: Number)
    ensures
        a.plus(b).is_float() == (a.is_float() || b.is_float()),
        a.minus(b).is_float() == (a.is_float() || b.is_float()),
        a.times(b).is_float() == (a.is_float() || b.is_float()),
        a.quotient(b) matches Some(q) ==> q.is_float() == (a.is_float() || b.is_float()),
        (a is Integer && b is Integer && !a.division_faults(b)) ==> {
            let q = truncated_quotient(a->Integer_0 as int, b->Integer_0 as int);
            i32::MIN <= q <= i32::MAX && a.quotient(b) == Some(Number::Integer(q as i32))
        },
{
    if let Number::Integer(x) = a {
        if let Number::Integer(y) = b {
            if !a.division_faults(b) {
                lemma_truncated_quotient_bounds(x as int, y as int);
            }
        }
    }
}

} // verus!
