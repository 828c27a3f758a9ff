//! Exact fixed-point numbers in micro-units (one millionth of a unit).
//!
//! A value is an `i64` count of micro-units, kept within `[-FX_MAX, FX_MAX]`.
//! Sums and products saturate at the range bounds; products and quotients
//! truncate toward zero; division by zero yields zero (the calculator's
//! explicit saturation policy rather than an error).

use vstd::math::abs;
use vstd::prelude::*;

verus! {

/// Micro-units per whole unit.
pub const FX_SCALE: i64 = 1_000_000;

/// Largest magnitude a value may take, in micro-units.
pub const FX_MAX: i64 = 100_000_000_000_000_000;

/// Clamp a mathematical value into the representable range.
pub open spec fn fx_sat(v: int) -> int {
    if v > FX_MAX as int {
        FX_MAX as int
    } else if v < -(FX_MAX as int) {
        -(FX_MAX as int)
    } else {
        v
    }
}

/// Division truncating toward zero (what machine division does),
/// meaningful for `b != 0`.
pub open spec fn tdiv(a: int, b: int) -> int {
    let q = abs(a) / abs(b);
    if (a < 0) <==> (b < 0) {
        q as int
    } else {
        -(q as int)
    }
}

/// Saturating sum of two values in micro-units.
pub open spec fn fx_add_val(a: int, b: int) -> int {
    fx_sat(a + b)
}

/// Saturating difference of two values in micro-units.
pub open spec fn fx_sub_val(a: int, b: int) -> int {
    fx_sat(a - b)
}

/// Saturating product of two values in micro-units.
pub open spec fn fx_mul_val(a: int, b: int) -> int {
    fx_sat(tdiv(a * b, FX_SCALE as int))
}

/// Saturating quotient of two values in micro-units; zero divisor gives zero.
pub open spec fn fx_div_val(a: int, b: int) -> int {
    if b == 0 {
        0
    } else {
        fx_sat(tdiv(a * (FX_SCALE as int), b))
    }
}

/// A fixed-point number: `m` micro-units.
#[derive(Clone, Copy, PartialEq, Eq, Structural, Debug)]
pub struct Fx {
    pub m: i64,
}

impl Fx {
    /// The value is within the representable range.
    pub open spec fn wf(self) -> bool {
        -(FX_MAX as int) <= self.m as int <= FX_MAX as int
    }

    /// The zero value.
    pub fn zero() -> (r: Fx)
        ensures
            r.m == 0,
            r.wf(),
    {
        Fx { m: 0 }
    }

    /// Build a value from a raw count of micro-units.
    pub fn from_micros(m: i64) -> (r: Fx)
        requires
            -(FX_MAX as int) <= m as int <= FX_MAX as int,
        ensures
            r.m == m,
            r.wf(),
    {
        Fx { m }
    }

    /// The raw count of micro-units.
    pub fn micros(self) -> (r: i64)
        ensures
            r == self.m,
    {
        self.m
    }

    /// Saturating addition.
    pub fn add(self, o: Fx) -> (r: Fx)
        requires
            self.wf(),
            o.wf(),
        ensures
            r.m as int == fx_add_val(self.m as int, o.m as int),
            r.wf(),
    {
        Fx { m: clamp_i64(self.m + o.m) }
    }

    /// Saturating subtraction.
    pub fn sub(self, o: Fx) -> (r: Fx)
        requires
            self.wf(),
            o.wf(),
        ensures
            r.m as int == fx_sub_val(self.m as int, o.m as int),
            r.wf(),
    {
        Fx { m: clamp_i64(self.m - o.m) }
    }

    /// Saturating multiplication, truncating toward zero.
    pub fn mul(self, o: Fx) -> (r: Fx)
        requires
            self.wf(),
            o.wf(),
        ensures
            r.m as int == fx_mul_val(self.m as int, o.m as int),
            r.wf(),
    {
        let neg = (self.m < 0) != (o.m < 0);
        let am = iabs(self.m);
        let bm = iabs(o.m);
        proof {
            lemma_abs_mul(self.m as int, o.m as int);
            assert((am as u128) * (bm as u128) <= (FX_MAX as u128) * (FX_MAX as u128))
                by (nonlinear_arith)
                requires
                    am <= FX_MAX as u64,
                    bm <= FX_MAX as u64,
            ;
        }
        let p: u128 = (am as u128) * (bm as u128);
        let q: u128 = p / (FX_SCALE as u128);
        from_sign_mag(neg, q)
    }

    /// Saturating division, truncating toward zero; a zero divisor gives zero.
    pub fn div(self, o: Fx) -> (r: Fx)
        requires
            self.wf(),
            o.wf(),
        ensures
            r.m as int == fx_div_val(self.m as int, o.m as int),
            r.wf(),
    {
        if o.m == 0 {
            return Fx { m: 0 };
        }
        let neg = (self.m < 0) != (o.m < 0);
        let am = iabs(self.m);
        let bm = iabs(o.m);
        proof {
            lemma_abs_mul(self.m as int, FX_SCALE as int);
            assert((am as u128) * (FX_SCALE as u128) <= (FX_MAX as u128) * (FX_SCALE as u128))
                by (nonlinear_arith)
                requires
                    am <= FX_MAX as u64,
            ;
        }
        let p: u128 = (am as u128) * (FX_SCALE as u128);
        let q: u128 = p / (bm as u128);
        from_sign_mag(neg, q)
    }
}

/// Clamp an `i64` into the representable range.
fn clamp_i64(v: i64) -> (r: i64)
    ensures
        r as int == fx_sat(v as int),
{
    if v > FX_MAX {
        FX_MAX
    } else if v < -FX_MAX {
        -FX_MAX
    } else {
        v
    }
}

/// Magnitude of an `i64` that is not `i64::MIN`.
fn iabs(v: i64) -> (r: u64)
    requires
        v as int > i64::MIN as int,
    ensures
        r as int == abs(v as int),
{
    if v < 0 {
        (-v) as u64
    } else {
        v as u64
    }
}

/// Rebuild a signed value from a sign and an unclamped magnitude,
/// saturating at the range bound.
fn from_sign_mag(neg: bool, mag: u128) -> (r: Fx)
    ensures
        r.m as int == fx_sat(if neg { -(mag as int) } else { mag as int }),
        r.wf(),
{
    let m: i64 = if mag > (FX_MAX as u128) {
        FX_MAX
    } else {
        mag as i64
    };
    Fx { m: if neg { -m } else { m } }
}

/// The magnitude of a product is the product of the magnitudes, and the
/// product is negative exactly when the signs differ and neither factor
/// is zero.
proof fn lemma_abs_mul(a: int, b: int)
    ensures
        abs(a * b) == abs(a) * abs(b),
        a * b < 0 <==> ((a < 0) != (b < 0)) && a != 0 && b != 0,
{
    assert(abs(a * b) == abs(a) * abs(b) && (a * b < 0 <==> ((a < 0) != (b < 0)) && a != 0 && b
        != 0)) by (nonlinear_arith);
}

} // verus!
