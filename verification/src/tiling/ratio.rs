//! Split ratios as exact binary fractions.
//!
//! A ratio is a count of units of 2^-57, the spacing of double-precision numbers just below
//! one sixteenth, so every double between 1/32 and 1 is a whole number of units. Sums,
//! differences and products are computed exactly and then rounded to 53 significant bits,
//! ties to even, which is what double-precision arithmetic does with the same operands.

use vstd::arithmetic::power2::{lemma2_to64, lemma2_to64_rest, lemma_pow2_unfold, pow2};
use vstd::prelude::*;

verus! {

/// Number of units in the ratio 1.
pub const ONE_UNITS: u64 = 0x200_0000_0000_0000;

/// First integer that needs more than 53 bits.
pub const SIGNIFICAND_LIMIT: u64 = 0x20_0000_0000_0000;

/// One step of a master area ratio, 0.05, in units.
pub const RATIO_STEP: u64 = 7205759403792794;

/// Smallest master area ratio, 0.20, in units.
pub const RATIO_MIN: u64 = 28823037615171176;

/// Largest master area ratio, 0.80, in units.
pub const RATIO_MAX: u64 = 115292150460684704;

/// A ratio between 0 and 1, in units of 2^-57.
#[derive(Debug, Clone, Copy, PartialEq, Eq, Structural)]
pub struct Ratio {
    pub units: u64,
}

/// Weight of the lowest of the 53 significant bits kept of `p`.
pub open spec fn ulp(p: nat) -> nat
    decreases p,
{
    if p < SIGNIFICAND_LIMIT {
        1
    } else {
        2 * ulp(p / 2)
    }
}

/// `p` rounded to 53 significant bits, ties to even.
pub open spec fn nearest(p: nat) -> nat {
    let u = ulp(p);
    let q = p / u;
    let r = p % u;
    if 2 * r > u || (2 * r == u && q % 2 == 1) {
        (q + 1) * u
    } else {
        q * u
    }
}

/// `x` times the ratio of `units`, rounded like a double and cut off toward zero.
pub open spec fn scaled(x: int, units: nat) -> int {
    if x >= 0 {
        (nearest((x * units) as nat) / (ONE_UNITS as nat)) as int
    } else {
        -((nearest((-x * units) as nat) / (ONE_UNITS as nat)) as int)
    }
}

/// One step up from `units`, no further than the largest ratio.
pub open spec fn grown(units: nat) -> nat {
    let sum = nearest(units + RATIO_STEP as nat);
    if sum < RATIO_MAX {
        sum
    } else {
        RATIO_MAX as nat
    }
}

/// One step down from `units`, no further than the smallest ratio.
pub open spec fn shrunk(units: nat) -> nat {
    let difference = nearest((units - RATIO_STEP) as nat);
    if difference > RATIO_MIN {
        difference
    } else {
        RATIO_MIN as nat
    }
}

proof fn lemma_ulp_bounds(p: nat)
    ensures
        1 <= ulp(p),
        p < SIGNIFICAND_LIMIT ==> ulp(p) == 1,
        p >= SIGNIFICAND_LIMIT ==> ulp(p) * 0x10_0000_0000_0000 <= p,
    decreases p,
{
    if p >= SIGNIFICAND_LIMIT {
        lemma_ulp_bounds(p / 2);
    }
}

/// `ulp` of a number below 2^(53 + n) divides 2^n.
proof fn lemma_ulp_divides(p: nat, n: nat)
    requires
        p < SIGNIFICAND_LIMIT * pow2(n),
    ensures
        pow2(n) % ulp(p) == 0,
    decreases p,
{
    lemma_ulp_bounds(p);
    if p >= SIGNIFICAND_LIMIT {
        if n == 0 {
            lemma2_to64();
        } else {
            lemma_pow2_unfold(n);
            let m = (n - 1) as nat;
            lemma_ulp_divides(p / 2, m);
            lemma_ulp_bounds(p / 2);
            let u = ulp(p / 2);
            let k = pow2(m) / u;
            assert(pow2(m) == u * k) by {
                vstd::arithmetic::div_mod::lemma_fundamental_div_mod(pow2(m) as int, u as int);
            }
            assert(pow2(n) == (2 * u) * k) by (nonlinear_arith)
                requires
                    pow2(n) == 2 * pow2(m),
                    pow2(m) == u * k,
            ;
            vstd::arithmetic::div_mod::lemma_mod_multiples_basic(k as int, (2 * u) as int);
            assert((2 * u) * k == k * (2 * u)) by (nonlinear_arith);
        }
    } else {
        assert(pow2(n) % 1 == 0);
    }
}

/// Rounding moves a number by at most half of its `ulp`, to a multiple of it.
proof fn lemma_nearest(p: nat)
    ensures
        nearest(p) % ulp(p) == 0,
        2 * nearest(p) <= 2 * p + ulp(p),
        2 * p <= 2 * nearest(p) + ulp(p),
        p < SIGNIFICAND_LIMIT ==> nearest(p) == p,
{
    lemma_ulp_bounds(p);
    let u = ulp(p) as int;
    let q = p as int / u;
    let r = p as int % u;
    vstd::arithmetic::div_mod::lemma_fundamental_div_mod(p as int, u);
    assert(u * q == q * u) by (nonlinear_arith);
    assert((q + 1) * u == q * u + u) by (nonlinear_arith);
    vstd::arithmetic::div_mod::lemma_mod_multiples_basic(q, u);
    vstd::arithmetic::div_mod::lemma_mod_multiples_basic(q + 1, u);
}

/// A multiple of 2^n bounds the rounded value of every smaller number below 2^(53 + n).
proof fn lemma_nearest_upper(p: nat, n: nat, x: nat)
    requires
        p < SIGNIFICAND_LIMIT * pow2(n),
        p <= x * pow2(n),
    ensures
        nearest(p) <= x * pow2(n),
{
    lemma_nearest(p);
    lemma_ulp_bounds(p);
    lemma_ulp_divides(p, n);
    let u = ulp(p) as int;
    let b = (x * pow2(n)) as int;
    vstd::arithmetic::div_mod::lemma_fundamental_div_mod(pow2(n) as int, u);
    let k = pow2(n) as int / u;
    assert(b == u * (x * k)) by (nonlinear_arith)
        requires
            b == x * pow2(n),
            pow2(n) == u * k,
    ;
    vstd::arithmetic::div_mod::lemma_fundamental_div_mod(nearest(p) as int, u);
    let j = nearest(p) as int / u;
    if nearest(p) > b {
        assert(u * j >= u * (x * k) + u) by (nonlinear_arith)
            requires
                u * j > u * (x * k),
                u > 0,
        ;
    }
}

/// A ratio of at most 1 gives a part that lies between nothing and the whole.
pub proof fn lemma_scaled_within(x: int, units: nat)
    requires
        -0x8000_0000 <= x <= 0x7fff_ffff,
        units <= ONE_UNITS,
    ensures
        x >= 0 ==> 0 <= scaled(x, units) <= x,
        x <= 0 ==> x <= scaled(x, units) <= 0,
{
    lemma2_to64();
    lemma2_to64_rest();
    let a: nat = if x >= 0 {
        x as nat
    } else {
        (-x) as nat
    };
    let p = a * units;
    assert(p <= a * ONE_UNITS) by (nonlinear_arith)
        requires
            p == a * units,
            units <= ONE_UNITS,
    ;
    lemma_nearest_upper(p, 57, a);
    assert(nearest(p) / (ONE_UNITS as nat) <= a) by (nonlinear_arith)
        requires
            nearest(p) <= a * ONE_UNITS,
    ;
}

/// A part is the ratio's share of the whole, cut off to whole pixels. Rounding like a double moves the
/// share by less than 2^-22 of a pixel before that.
pub proof fn lemma_scaled_is_the_share(x: int, units: nat)
    requires
        0 <= x <= 0x7fff_ffff,
        units <= 0x200_0000_0000_0000,
    ensures
        scaled(x, units) * 0x200_0000_0000_0000 <= x * units + 0x8_0000_0000,
        x * units < (scaled(x, units) + 1) * 0x200_0000_0000_0000 + 0x8_0000_0000,
{
    let p = (x * units) as nat;
    assert(0 <= x * units < 0x8000_0000 * 0x200_0000_0000_0000) by (nonlinear_arith)
        requires
            0 <= x <= 0x7fff_ffff,
            units <= 0x200_0000_0000_0000,
    ;
    lemma_nearest(p);
    lemma_ulp_bounds(p);
    assert(ulp(p) <= 0x10_0000_0000);
}

/// A step up adds a twentieth, and a step down takes one away, up to rounding and as far as the bounds
/// of one fifth and four fifths allow.
pub proof fn lemma_steps_are_twentieths(units: nat)
    requires
        units <= 0x200_0000_0000_0000,
    ensures
        units + 7205759403792794 < 115292150460684704 - 16 ==> -16 <= grown(units) - (units
            + 7205759403792794) <= 16,
        units + 7205759403792794 >= 115292150460684704 + 16 ==> grown(units) == 115292150460684704,
        grown(units) <= 115292150460684704,
        units >= 28823037615171176 ==> shrunk(units) >= 28823037615171176,
        units > 28823037615171176 + 7205759403792794 + 16 ==> -16 <= shrunk(units) - (units
            - 7205759403792794) <= 16,
        28823037615171176 <= units < 28823037615171176 + 7205759403792794 - 16 ==> shrunk(units)
            == 28823037615171176,
        units < 115292150460684704 ==> grown(units) > units,
        units > 28823037615171176 ==> shrunk(units) < units,
{
    let p = units + RATIO_STEP as nat;
    lemma_nearest(p);
    lemma_ulp_bounds(p);
    if units >= RATIO_STEP {
        let q = (units - RATIO_STEP) as nat;
        lemma_nearest(q);
        lemma_ulp_bounds(q);
    }
}

/// Growing never shrinks a ratio, and keeps it within its bounds.
pub proof fn lemma_grown_bounds(units: nat)
    requires
        units < RATIO_MAX,
    ensures
        units < grown(units) <= RATIO_MAX,
{
    let p = units + RATIO_STEP as nat;
    lemma_nearest(p);
    lemma_ulp_bounds(p);
}

/// Shrinking never grows a ratio, and keeps it within its bounds.
pub proof fn lemma_shrunk_bounds(units: nat)
    requires
        RATIO_MIN < units <= ONE_UNITS,
    ensures
        RATIO_MIN <= shrunk(units) < units,
{
    let p = (units - RATIO_STEP) as nat;
    lemma_nearest(p);
    lemma_ulp_bounds(p);
}

/// `p` rounded to 53 significant bits, ties to even.
fn round_to_nearest(p: u128) -> (r: u128)
    requires
        p < 0x1_0000_0000_0000_0000_0000_0000,
    ensures
        r == nearest(p as nat),
        r <= p + p,
{
    let mut u: u128 = 1;
    let mut t: u128 = p;
    while t >= SIGNIFICAND_LIMIT as u128
        invariant
            1 <= u,
            u * t <= p < 0x1_0000_0000_0000_0000_0000_0000,
            ulp(p as nat) == u * ulp(t as nat),
        decreases t,
    {
        assert(ulp(t as nat) == 2 * ulp((t / 2) as nat));
        assert(u * (2 * ulp((t / 2) as nat)) == (u * 2) * ulp((t / 2) as nat)) by (nonlinear_arith);
        assert((u * 2) * (t / 2) <= u * t) by (nonlinear_arith);
        assert(u * 2 < 0x1_0000_0000_0000_0000_0000_0000_0000) by (nonlinear_arith)
            requires
                u * t < 0x1_0000_0000_0000_0000_0000_0000,
                t >= 1,
        ;
        u = u * 2;
        t = t / 2;
    }
    assert(u * 1 == u);
    proof {
        lemma_nearest(p as nat);
        lemma_ulp_bounds(p as nat);
    }
    let q: u128 = p / u;
    let r: u128 = p % u;
    assert(q * u <= p && r < u) by {
        vstd::arithmetic::div_mod::lemma_fundamental_div_mod(p as int, u as int);
        assert(u * q == q * u) by (nonlinear_arith);
        vstd::arithmetic::div_mod::lemma_mod_bound(p as int, u as int);
    }
    assert((q + 1) * u == q * u + u) by (nonlinear_arith);
    if r > u - r || (r == u - r && q % 2 == 1) {
        (q + 1) * u
    } else {
        q * u
    }
}

impl Ratio {
    /// The ratio as a number of units.
    pub open spec fn view(&self) -> nat {
        self.units as nat
    }

    /// A ratio is at most 1.
    pub open spec fn wf(&self) -> bool {
        self.units <= ONE_UNITS
    }

    /// The part of `x` that the ratio stands for, cut off toward zero.
    pub fn scale(&self, x: i32) -> (r: i32)
        requires
            self.wf(),
        ensures
            r == scaled(x as int, self@),
            x >= 0 ==> 0 <= r <= x,
            x <= 0 ==> x <= r <= 0,
    {
        proof {
            lemma_scaled_within(x as int, self@);
        }
        let a: i64 = if x >= 0 {
            x as i64
        } else {
            -(x as i64)
        };
        assert(a * self.units < 0x1_0000_0000_0000_0000_0000_0000) by (nonlinear_arith)
            requires
                0 <= a <= 0x8000_0000,
                self.units <= ONE_UNITS,
        ;
        let p: u128 = a as u128 * self.units as u128;
        let whole: i64 = (round_to_nearest(p) / ONE_UNITS as u128) as i64;
        if x >= 0 {
            whole as i32
        } else {
            (-whole) as i32
        }
    }

    /// One step up, no further than the largest ratio.
    pub fn grow(&self) -> (r: Ratio)
        requires
            self.wf(),
        ensures
            r@ == grown(self@),
            r.wf(),
    {
        let sum: u128 = round_to_nearest(self.units as u128 + RATIO_STEP as u128);
        if sum < RATIO_MAX as u128 {
            Ratio { units: sum as u64 }
        } else {
            Ratio { units: RATIO_MAX }
        }
    }

    /// One step down, no further than the smallest ratio.
    pub fn shrink(&self) -> (r: Ratio)
        requires
            self.wf(),
            self.units > RATIO_MIN,
        ensures
            r@ == shrunk(self@),
            r.wf(),
    {
        let difference: u128 = round_to_nearest((self.units - RATIO_STEP) as u128);
        proof {
            lemma_shrunk_bounds(self@);
        }
        if difference > RATIO_MIN as u128 {
            Ratio { units: difference as u64 }
        } else {
            Ratio { units: RATIO_MIN }
        }
    }
}

} // verus!
