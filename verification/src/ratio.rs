//! Exact rational scalars.
//!
//! Every keyframe parameter, time stamp and period in this crate is a
//! rational number `num / den` with a positive denominator, stored in 64
//! bits.  All arithmetic is exact: operations compute in 128 bits, divide
//! out the greatest common divisor, and report `None` when the reduced
//! result does not fit back into 64 bits, rather than ever rounding.
//!
//! The specification layer works with `Qv`, an unbounded mathematical
//! numerator/denominator pair, so contracts can state results as exact
//! rational identities (`q_eq` is cross-multiplied equality of values).

use vstd::prelude::*;
use vstd::arithmetic::div_mod::*;
use vstd::arithmetic::mul::*;

verus! {

/// Mathematical value of a rational: an unbounded numerator/denominator
/// pair. Specification-only.
pub struct Qv {
    pub n: int,
    pub d: int,
}

pub open spec fn q_wf(q: Qv) -> bool {
    q.d > 0
}

pub open spec fn q_zero() -> Qv {
    Qv { n: 0, d: 1 }
}

pub open spec fn q_one() -> Qv {
    Qv { n: 1, d: 1 }
}

/// Value equality of two rationals, by cross multiplication.
pub open spec fn q_eq(a: Qv, b: Qv) -> bool {
    a.n * b.d == b.n * a.d
}

/// `a <= b` as rational values (meaningful when both are well formed).
pub open spec fn q_le(a: Qv, b: Qv) -> bool {
    a.n * b.d <= b.n * a.d
}

/// `a < b` as rational values (meaningful when both are well formed).
pub open spec fn q_lt(a: Qv, b: Qv) -> bool {
    a.n * b.d < b.n * a.d
}

pub open spec fn q_add(a: Qv, b: Qv) -> Qv {
    Qv { n: a.n * b.d + b.n * a.d, d: a.d * b.d }
}

pub open spec fn q_sub(a: Qv, b: Qv) -> Qv {
    Qv { n: a.n * b.d - b.n * a.d, d: a.d * b.d }
}

pub open spec fn q_mul(a: Qv, b: Qv) -> Qv {
    Qv { n: a.n * b.n, d: a.d * b.d }
}

/// `a / b` as rationals (meaningful when `b` is strictly positive).
pub open spec fn q_div(a: Qv, b: Qv) -> Qv {
    Qv { n: a.n * b.d, d: a.d * b.n }
}

pub open spec fn q_abs(n: int) -> nat {
    if n < 0 {
        (-n) as nat
    } else {
        n as nat
    }
}

/// Euclid's greatest common divisor.
pub open spec fn gcd(a: nat, b: nat) -> nat
    decreases a,
{
    if a == 0 {
        b
    } else {
        gcd(b % a, a)
    }
}

/// The rational `q` in lowest terms (for a well-formed `q`).
pub open spec fn q_norm(q: Qv) -> Qv {
    let g = gcd(q_abs(q.n), q_abs(q.d)) as int;
    Qv { n: q.n / g, d: q.d / g }
}

/// Whether a mathematical rational fits the 64-bit representation.
/// The numerator range is kept symmetric so negation never overflows.
pub open spec fn q_fits(q: Qv) -> bool {
    &&& -(i64::MAX as int) <= q.n <= i64::MAX as int
    &&& 0 < q.d <= i64::MAX as int
}

/// The reduced form of `q` if it fits in 64 bits, `None` otherwise.
/// This is exactly what the checked operations on `Ratio` return.
pub open spec fn q_checked(q: Qv) -> Option<Qv> {
    let m = q_norm(q);
    if q_fits(m) {
        Some(m)
    } else {
        None
    }
}

/// The greatest common divisor is positive when either argument is, and
/// divides both arguments.
pub proof fn lemma_gcd_divides(a: nat, b: nat)
    ensures
        a > 0 || b > 0 ==> gcd(a, b) > 0,
        gcd(a, b) > 0 ==> a as int % (gcd(a, b) as int) == 0,
        gcd(a, b) > 0 ==> b as int % (gcd(a, b) as int) == 0,
    decreases a,
{
    if a == 0 {
        if b > 0 {
            lemma_mod_self_0(b as int);
            lemma_small_mod(0, b);
        }
    } else {
        let r = b % a;
        lemma_gcd_divides(r, a);
        let g = gcd(r, a) as int;
        // a > 0, so the recursive gcd is positive.
        assert(g > 0);
        assert(a as int % g == 0);
        assert(r as int % g == 0);
        // b == a * (b / a) + b % a
        lemma_fundamental_div_mod(b as int, a as int);
        let k = b as int / a as int;
        // a is a multiple of g, hence so is a * k.
        let ag = a as int / g;
        assert(a as int == g * ag) by {
            lemma_fundamental_div_mod(a as int, g);
        }
        assert((a as int) * k == g * (ag * k)) by (nonlinear_arith)
            requires a as int == g * ag,
        {}
        lemma_mod_multiples_basic(ag * k, g);
        assert((g * (ag * k)) % g == 0) by {
            lemma_mul_is_commutative(ag * k, g);
        }
        // Sum of two multiples of g is a multiple of g.
        lemma_add_mod_noop((a as int) * k, r as int, g);
        lemma_small_mod(0, g as nat);
        assert(((a as int) * k + r as int) % g == 0);
        assert(b as int == (a as int) * k + r as int);
        assert((b as int) % g == 0);
    }
}

/// Dividing numerator and denominator by their gcd preserves the value,
/// keeps the denominator positive, and never grows either component.
pub proof fn lemma_norm_props(q: Qv)
    requires
        q_wf(q),
    ensures
        q_wf(q_norm(q)),
        q_eq(q_norm(q), q),
        q_abs(q_norm(q).n) <= q_abs(q.n),
        q_norm(q).d <= q.d,
{
    let a = q_abs(q.n);
    let b = q_abs(q.d);
    lemma_gcd_divides(a, b);
    let g = gcd(a, b) as int;
    assert(g > 0);
    // Exact quotients: q.n == g * (q.n / g) and q.d == g * (q.d / g).
    lemma_fundamental_div_mod(q.n, g);
    lemma_fundamental_div_mod(q.d, g);
    // a % g == 0 implies q.n % g == 0 (same magnitude, sign flips).
    assert(q.n % g == 0) by {
        if q.n < 0 {
            assert(a as int == -q.n);
            assert((-q.n) % g == 0);
            let k = (-q.n) / g;
            lemma_fundamental_div_mod(-q.n, g);
            assert(-q.n == g * k);
            assert(q.n == (-k) * g) by (nonlinear_arith)
                requires -q.n == g * k,
            {}
            lemma_mod_multiples_basic(-k, g);
        } else {
            assert(a as int == q.n);
        }
    }
    assert(q.d % g == 0);
    let n1 = q.n / g;
    let d1 = q.d / g;
    assert(q.n == g * n1);
    assert(q.d == g * d1);
    // Denominator stays positive.
    assert(d1 > 0) by (nonlinear_arith)
        requires q.d == g * d1, q.d > 0, g > 0,
    {}
    // Value preserved: n1 * q.d == q.n * d1.
    assert(n1 * (g * d1) == (g * n1) * d1) by (nonlinear_arith) {}
    // Components do not grow.
    assert(d1 <= q.d) by (nonlinear_arith)
        requires q.d == g * d1, d1 > 0, g > 0,
    {}
    assert(q_abs(n1) <= q_abs(q.n)) by (nonlinear_arith)
        requires q.n == g * n1, g > 0,
    {}
}

/// Exact 64-bit rational scalar with positive denominator.
///
/// `wf()` additionally excludes `i64::MIN` as a numerator so that
/// negation is always possible; every constructor and operation in this
/// crate produces well-formed, fully reduced values.
#[derive(Clone, Copy, Debug, PartialEq, Eq, Structural)]
pub struct Ratio {
    pub num: i64,
    pub den: i64,
}

impl Ratio {
    /// Mathematical value of this scalar.
    pub open spec fn q(self) -> Qv {
        Qv { n: self.num as int, d: self.den as int }
    }

    pub open spec fn wf(self) -> bool {
        0 < self.den && -i64::MAX <= self.num
    }
}

/// The 64-bit scalar denoting the mathematical rational `q`
/// (meaningful when `q_fits(q)` holds).
pub open spec fn ratio_of(q: Qv) -> Ratio {
    Ratio { num: q.n as i64, den: q.d as i64 }
}

/// Euclid's algorithm, iteratively.
fn gcd_u128(a0: u128, b0: u128) -> (g: u128)
    ensures
        g == gcd(a0 as nat, b0 as nat),
{
    let mut a: u128 = a0;
    let mut b: u128 = b0;
    while a != 0
        invariant
            gcd(a as nat, b as nat) == gcd(a0 as nat, b0 as nat),
        decreases a,
    {
        let t: u128 = b % a;
        b = a;
        a = t;
    }
    b
}

/// Reduce the 128-bit pair `sn / sd` to lowest terms and pack it into a
/// `Ratio` if it fits; the result is exactly `q_checked` of the pair.
pub(crate) fn norm_pair(sn: i128, sd: i128) -> (r: Option<Ratio>)
    requires
        sd > 0,
        -i128::MAX <= sn,
    ensures
        match r {
            Some(x) => x.wf() && q_checked(Qv { n: sn as int, d: sd as int }) == Some(x.q()),
            None => q_checked(Qv { n: sn as int, d: sd as int }) is None,
        },
{
    let ghost qraw = Qv { n: sn as int, d: sd as int };
    let neg: bool = sn < 0;
    let a: u128 = if neg { (-sn) as u128 } else { sn as u128 };
    let d: u128 = sd as u128;
    assert(a as nat == q_abs(qraw.n));
    assert(d as nat == q_abs(qraw.d));
    let g: u128 = gcd_u128(a, d);
    proof {
        lemma_gcd_divides(a as nat, d as nat);
    }
    assert(g > 0);
    let rn: u128 = a / g;
    let rd: u128 = d / g;
    proof {
        lemma_norm_props(qraw);
        // Connect the unsigned quotients with the signed ones in q_norm.
        lemma_fundamental_div_mod(a as int, g as int);
        lemma_fundamental_div_mod(d as int, g as int);
        if neg {
            // sn == -(a) and a == g * rn, so sn / g == -rn.
            assert(sn as int == (g as int) * (-(rn as int))) by (nonlinear_arith)
                requires a as int == (g as int) * (rn as int), sn as int == -(a as int),
            {}
            lemma_div_multiples_vanish(-(rn as int), g as int);
        } else {
            lemma_div_multiples_vanish(rn as int, g as int);
            assert(sn as int == (g as int) * (rn as int));
        }
        lemma_div_multiples_vanish(rd as int, g as int);
        assert(sd as int == (g as int) * (rd as int));
    }
    assert(q_norm(qraw).d == rd as int);
    assert(q_norm(qraw).n == if neg { -(rn as int) } else { rn as int });
    if rn <= i64::MAX as u128 && rd <= i64::MAX as u128 {
        assert(rd >= 1);
        let num: i64 = if neg { -(rn as i64) } else { rn as i64 };
        let den: i64 = rd as i64;
        Some(Ratio { num, den })
    } else {
        None
    }
}

/// `|x * y| <= bx * by` when `|x| <= bx` and `|y| <= by`.
pub(crate) proof fn lemma_abs_prod_bound(x: int, y: int, bx: int, by: int)
    requires
        -bx <= x <= bx,
        -by <= y <= by,
        0 <= bx,
        0 <= by,
    ensures
        -(bx * by) <= x * y <= bx * by,
{
    assert(-(bx * by) <= x * y <= bx * by) by (nonlinear_arith)
        requires -bx <= x <= bx, -by <= y <= by, 0 <= bx, 0 <= by,
    {}
}

/// Products of four factors may be regrouped pairwise.
proof fn lemma_regroup4(x: int, y: int, z: int, w: int)
    ensures
        (x * y) * (z * w) == (x * z) * (y * w),
        (x * y) * (z * w) == (x * w) * (y * z),
{
    assert((x * y) * (z * w) == (x * z) * (y * w)) by (nonlinear_arith) {}
    assert((x * y) * (z * w) == (x * w) * (y * z)) by (nonlinear_arith) {}
}

/// Equal values may be substituted on either side of a comparison.
pub proof fn lemma_q_eq_trans(a: Qv, b: Qv, c: Qv)
    requires
        q_wf(a),
        q_wf(b),
        q_wf(c),
        q_eq(a, b),
        q_eq(b, c),
    ensures
        q_eq(a, c),
{
    assert(a.n * c.d == c.n * a.d) by (nonlinear_arith)
        requires
            a.n * b.d == b.n * a.d,
            b.n * c.d == c.n * b.d,
            b.d > 0,
    {}
}


/// Sums of equal values are equal.
pub proof fn lemma_q_add_congr(a: Qv, b: Qv, a2: Qv, b2: Qv)
    requires
        q_wf(a),
        q_wf(b),
        q_wf(a2),
        q_wf(b2),
        q_eq(a, a2),
        q_eq(b, b2),
    ensures
        q_wf(q_add(a, b)),
        q_wf(q_add(a2, b2)),
        q_eq(q_add(a, b), q_add(a2, b2)),
{
    assert(a.d * b.d > 0 && a2.d * b2.d > 0) by (nonlinear_arith)
        requires a.d > 0, b.d > 0, a2.d > 0, b2.d > 0,
    {}
    lemma_mul_is_distributive_add_other_way(a2.d * b2.d, a.n * b.d, b.n * a.d);
    lemma_mul_is_distributive_add_other_way(a.d * b.d, a2.n * b2.d, b2.n * a2.d);
    lemma_regroup4(a.n, b.d, a2.d, b2.d);
    lemma_regroup4(b.n, a.d, a2.d, b2.d);
    lemma_regroup4(a2.n, b2.d, a.d, b.d);
    lemma_regroup4(b2.n, a2.d, a.d, b.d);
    lemma_mul_is_commutative(b.d, b2.d);
    lemma_mul_is_commutative(a.d, a2.d);
    assert((a.n * b.d + b.n * a.d) * (a2.d * b2.d)
        == (a.n * a2.d) * (b.d * b2.d) + (b.n * b2.d) * (a.d * a2.d));
    assert((a2.n * b2.d + b2.n * a2.d) * (a.d * b.d)
        == (a2.n * a.d) * (b2.d * b.d) + (b2.n * b.d) * (a2.d * a.d));
}

/// Differences of equal values are equal.
pub proof fn lemma_q_sub_congr(a: Qv, b: Qv, a2: Qv, b2: Qv)
    requires
        q_wf(a),
        q_wf(b),
        q_wf(a2),
        q_wf(b2),
        q_eq(a, a2),
        q_eq(b, b2),
    ensures
        q_wf(q_sub(a, b)),
        q_wf(q_sub(a2, b2)),
        q_eq(q_sub(a, b), q_sub(a2, b2)),
{
    assert(a.d * b.d > 0 && a2.d * b2.d > 0) by (nonlinear_arith)
        requires a.d > 0, b.d > 0, a2.d > 0, b2.d > 0,
    {}
    lemma_mul_is_distributive_sub_other_way(a2.d * b2.d, a.n * b.d, b.n * a.d);
    lemma_mul_is_distributive_sub_other_way(a.d * b.d, a2.n * b2.d, b2.n * a2.d);
    lemma_regroup4(a.n, b.d, a2.d, b2.d);
    lemma_regroup4(b.n, a.d, a2.d, b2.d);
    lemma_regroup4(a2.n, b2.d, a.d, b.d);
    lemma_regroup4(b2.n, a2.d, a.d, b.d);
    lemma_mul_is_commutative(b.d, b2.d);
    lemma_mul_is_commutative(a.d, a2.d);
    assert((a.n * b.d - b.n * a.d) * (a2.d * b2.d)
        == (a.n * a2.d) * (b.d * b2.d) - (b.n * b2.d) * (a.d * a2.d));
    assert((a2.n * b2.d - b2.n * a2.d) * (a.d * b.d)
        == (a2.n * a.d) * (b2.d * b.d) - (b2.n * b.d) * (a2.d * a.d));
}

/// Products of equal values are equal.
pub proof fn lemma_q_mul_congr(a: Qv, b: Qv, a2: Qv, b2: Qv)
    requires
        q_wf(a),
        q_wf(b),
        q_wf(a2),
        q_wf(b2),
        q_eq(a, a2),
        q_eq(b, b2),
    ensures
        q_wf(q_mul(a, b)),
        q_wf(q_mul(a2, b2)),
        q_eq(q_mul(a, b), q_mul(a2, b2)),
{
    assert(a.d * b.d > 0 && a2.d * b2.d > 0) by (nonlinear_arith)
        requires a.d > 0, b.d > 0, a2.d > 0, b2.d > 0,
    {}
    lemma_regroup4(a.n, b.n, a2.d, b2.d);
    lemma_regroup4(a2.n, b2.n, a.d, b.d);
    assert((a.n * b.n) * (a2.d * b2.d) == (a.n * a2.d) * (b.n * b2.d));
    assert((a2.n * b2.n) * (a.d * b.d) == (a2.n * a.d) * (b2.n * b.d));
}

/// Quotients of equal dividends by the same positive divisor are equal.
pub proof fn lemma_q_div_congr_left(a: Qv, a2: Qv, b: Qv)
    requires
        q_wf(a),
        q_wf(a2),
        q_wf(b),
        q_lt(q_zero(), b),
        q_eq(a, a2),
    ensures
        q_wf(q_div(a, b)),
        q_wf(q_div(a2, b)),
        q_eq(q_div(a, b), q_div(a2, b)),
{
    assert(b.n > 0) by (nonlinear_arith)
        requires 0 * b.d < b.n * 1,
    {}
    assert(a.d * b.n > 0 && a2.d * b.n > 0) by (nonlinear_arith)
        requires a.d > 0, a2.d > 0, b.n > 0,
    {}
    lemma_regroup4(a.n, b.d, a2.d, b.n);
    lemma_regroup4(a2.n, b.d, a.d, b.n);
    assert((a.n * b.d) * (a2.d * b.n) == (a.n * a2.d) * (b.d * b.n));
    assert((a2.n * b.d) * (a.d * b.n) == (a2.n * a.d) * (b.d * b.n));
}

/// `(t - c) / t` and `1 - c / t` are the same rational value.
pub proof fn lemma_q_one_minus_div(c: Qv, t: Qv)
    requires
        q_wf(c),
        q_wf(t),
        q_lt(q_zero(), t),
    ensures
        q_wf(q_div(q_sub(t, c), t)),
        q_wf(q_sub(q_one(), q_div(c, t))),
        q_eq(q_div(q_sub(t, c), t), q_sub(q_one(), q_div(c, t))),
{
    assert(t.n > 0) by (nonlinear_arith)
        requires 0 * t.d < t.n * 1,
    {}
    let lhs = q_div(q_sub(t, c), t);
    let rhs = q_sub(q_one(), q_div(c, t));
    assert(lhs.n == (t.n * c.d - c.n * t.d) * t.d);
    assert(lhs.d == (t.d * c.d) * t.n);
    assert(rhs.n == 1 * (c.d * t.n) - (c.n * t.d) * 1);
    assert(rhs.d == 1 * (c.d * t.n));
    assert(lhs.d > 0) by (nonlinear_arith)
        requires t.d > 0, c.d > 0, t.n > 0, lhs.d == (t.d * c.d) * t.n,
    {}
    assert(rhs.d > 0) by (nonlinear_arith)
        requires c.d > 0, t.n > 0, rhs.d == 1 * (c.d * t.n),
    {}
    assert(lhs.n * rhs.d == rhs.n * lhs.d) by (nonlinear_arith)
        requires
            lhs.n == (t.n * c.d - c.n * t.d) * t.d,
            lhs.d == (t.d * c.d) * t.n,
            rhs.n == 1 * (c.d * t.n) - (c.n * t.d) * 1,
            rhs.d == 1 * (c.d * t.n),
    {}
}

/// Positivity transfers across value equality.
pub proof fn lemma_q_pos_transfer(a: Qv, b: Qv)
    requires
        q_wf(a),
        q_wf(b),
        q_eq(a, b),
        q_lt(q_zero(), b),
    ensures
        q_lt(q_zero(), a),
{
    assert(0 * a.d < a.n * 1) by (nonlinear_arith)
        requires
            a.n * b.d == b.n * a.d,
            0 * b.d < b.n * 1,
            a.d > 0,
            b.d > 0,
    {}
}

impl Ratio {
    /// The rational zero.
    pub fn zero() -> (r: Ratio)
        ensures
            r.wf(),
            r.q() == q_zero(),
    {
        Ratio { num: 0, den: 1 }
    }

    /// The rational one.
    pub fn one() -> (r: Ratio)
        ensures
            r.wf(),
            r.q() == q_one(),
    {
        Ratio { num: 1, den: 1 }
    }

    /// The whole number `i` as a rational.
    pub fn from_int(i: i64) -> (r: Ratio)
        requires
            i > i64::MIN,
        ensures
            r.wf(),
            r.q() == (Qv { n: i as int, d: 1 }),
    {
        Ratio { num: i, den: 1 }
    }

    /// The rational `num / den`, reduced to lowest terms.
    pub fn new(num: i64, den: i64) -> (r: Ratio)
        requires
            den > 0,
            num > i64::MIN,
        ensures
            r.wf(),
            Some(r.q()) == q_checked(Qv { n: num as int, d: den as int }),
            q_eq(r.q(), Qv { n: num as int, d: den as int }),
    {
        let ghost qraw = Qv { n: num as int, d: den as int };
        proof {
            lemma_norm_props(qraw);
        }
        let r = norm_pair(num as i128, den as i128);
        r.unwrap()
    }

    /// `self <= other` as rational values.
    pub fn le(&self, other: &Ratio) -> (r: bool)
        requires
            self.wf(),
            other.wf(),
        ensures
            r == q_le(self.q(), other.q()),
    {
        proof {
            lemma_abs_prod_bound(self.num as int, other.den as int, i64::MAX as int, i64::MAX as int);
            lemma_abs_prod_bound(other.num as int, self.den as int, i64::MAX as int, i64::MAX as int);
        }
        (self.num as i128) * (other.den as i128) <= (other.num as i128) * (self.den as i128)
    }

    /// `self < other` as rational values.
    pub fn lt(&self, other: &Ratio) -> (r: bool)
        requires
            self.wf(),
            other.wf(),
        ensures
            r == q_lt(self.q(), other.q()),
    {
        proof {
            lemma_abs_prod_bound(self.num as int, other.den as int, i64::MAX as int, i64::MAX as int);
            lemma_abs_prod_bound(other.num as int, self.den as int, i64::MAX as int, i64::MAX as int);
        }
        (self.num as i128) * (other.den as i128) < (other.num as i128) * (self.den as i128)
    }

    /// Whether `self` and `other` denote the same rational value
    /// (regardless of representation).
    pub fn eq_value(&self, other: &Ratio) -> (r: bool)
        requires
            self.wf(),
            other.wf(),
        ensures
            r == q_eq(self.q(), other.q()),
    {
        proof {
            lemma_abs_prod_bound(self.num as int, other.den as int, i64::MAX as int, i64::MAX as int);
            lemma_abs_prod_bound(other.num as int, self.den as int, i64::MAX as int, i64::MAX as int);
        }
        (self.num as i128) * (other.den as i128) == (other.num as i128) * (self.den as i128)
    }

    /// Exact sum, or `None` when the reduced result exceeds 64 bits.
    pub fn checked_add(&self, other: &Ratio) -> (r: Option<Ratio>)
        requires
            self.wf(),
            other.wf(),
        ensures
            match r {
                Some(x) => {
                    &&& x.wf()
                    &&& Some(x.q()) == q_checked(q_add(self.q(), other.q()))
                    &&& q_eq(x.q(), q_add(self.q(), other.q()))
                },
                None => q_checked(q_add(self.q(), other.q())) is None,
            },
    {
        let ghost v = q_add(self.q(), other.q());
        proof {
            lemma_abs_prod_bound(self.num as int, other.den as int, i64::MAX as int, i64::MAX as int);
            lemma_abs_prod_bound(other.num as int, self.den as int, i64::MAX as int, i64::MAX as int);
            lemma_abs_prod_bound(self.den as int, other.den as int, i64::MAX as int, i64::MAX as int);
            assert(self.den as int * other.den as int > 0) by (nonlinear_arith)
                requires self.den > 0, other.den > 0,
            {}
        }
        let sn: i128 = (self.num as i128) * (other.den as i128)
            + (other.num as i128) * (self.den as i128);
        let sd: i128 = (self.den as i128) * (other.den as i128);
        let r = norm_pair(sn, sd);
        proof {
            if r is Some {
                lemma_norm_props(v);
            }
        }
        r
    }

    /// Exact difference, or `None` when the reduced result exceeds 64 bits.
    pub fn checked_sub(&self, other: &Ratio) -> (r: Option<Ratio>)
        requires
            self.wf(),
            other.wf(),
        ensures
            match r {
                Some(x) => {
                    &&& x.wf()
                    &&& Some(x.q()) == q_checked(q_sub(self.q(), other.q()))
                    &&& q_eq(x.q(), q_sub(self.q(), other.q()))
                },
                None => q_checked(q_sub(self.q(), other.q())) is None,
            },
    {
        let ghost v = q_sub(self.q(), other.q());
        proof {
            lemma_abs_prod_bound(self.num as int, other.den as int, i64::MAX as int, i64::MAX as int);
            lemma_abs_prod_bound(other.num as int, self.den as int, i64::MAX as int, i64::MAX as int);
            lemma_abs_prod_bound(self.den as int, other.den as int, i64::MAX as int, i64::MAX as int);
            assert(self.den as int * other.den as int > 0) by (nonlinear_arith)
                requires self.den > 0, other.den > 0,
            {}
        }
        let sn: i128 = (self.num as i128) * (other.den as i128)
            - (other.num as i128) * (self.den as i128);
        let sd: i128 = (self.den as i128) * (other.den as i128);
        let r = norm_pair(sn, sd);
        proof {
            if r is Some {
                lemma_norm_props(v);
            }
        }
        r
    }

    /// Exact product, or `None` when the reduced result exceeds 64 bits.
    pub fn checked_mul(&self, other: &Ratio) -> (r: Option<Ratio>)
        requires
            self.wf(),
            other.wf(),
        ensures
            match r {
                Some(x) => {
                    &&& x.wf()
                    &&& Some(x.q()) == q_checked(q_mul(self.q(), other.q()))
                    &&& q_eq(x.q(), q_mul(self.q(), other.q()))
                },
                None => q_checked(q_mul(self.q(), other.q())) is None,
            },
    {
        let ghost v = q_mul(self.q(), other.q());
        proof {
            lemma_abs_prod_bound(self.num as int, other.num as int, i64::MAX as int, i64::MAX as int);
            lemma_abs_prod_bound(self.den as int, other.den as int, i64::MAX as int, i64::MAX as int);
            assert(self.den as int * other.den as int > 0) by (nonlinear_arith)
                requires self.den > 0, other.den > 0,
            {}
        }
        let sn: i128 = (self.num as i128) * (other.num as i128);
        let sd: i128 = (self.den as i128) * (other.den as i128);
        let r = norm_pair(sn, sd);
        proof {
            if r is Some {
                lemma_norm_props(v);
            }
        }
        r
    }

    /// Exact division by a strictly positive rational, or `None` when
    /// the reduced result exceeds 64 bits.
    pub fn checked_div(&self, other: &Ratio) -> (r: Option<Ratio>)
        requires
            self.wf(),
            other.wf(),
            q_lt(q_zero(), other.q()),
        ensures
            match r {
                Some(x) => {
                    &&& x.wf()
                    &&& Some(x.q()) == q_checked(Qv { n: self.q().n * other.q().d, d: self.q().d * other.q().n })
                    &&& q_eq(x.q(), Qv { n: self.q().n * other.q().d, d: self.q().d * other.q().n })
                },
                None => q_checked(Qv { n: self.q().n * other.q().d, d: self.q().d * other.q().n }) is None,
            },
    {
        let ghost v = Qv { n: self.q().n * other.q().d, d: self.q().d * other.q().n };
        proof {
            lemma_abs_prod_bound(self.num as int, other.den as int, i64::MAX as int, i64::MAX as int);
            lemma_abs_prod_bound(self.den as int, other.num as int, i64::MAX as int, i64::MAX as int);
            assert(other.num > 0);
            assert(self.den as int * other.num as int > 0) by (nonlinear_arith)
                requires self.den > 0, other.num > 0,
            {}
        }
        let sn: i128 = (self.num as i128) * (other.den as i128);
        let sd: i128 = (self.den as i128) * (other.num as i128);
        let r = norm_pair(sn, sd);
        proof {
            if r is Some {
                lemma_norm_props(v);
            }
        }
        r
    }

    /// Exact division by a positive whole count, or `None` when the
    /// reduced result exceeds 64 bits.
    pub fn checked_div_count(&self, count: usize) -> (r: Option<Ratio>)
        requires
            self.wf(),
            count >= 1,
        ensures
            match r {
                Some(x) => {
                    &&& x.wf()
                    &&& Some(x.q()) == q_checked(Qv { n: self.q().n, d: self.q().d * count })
                    &&& q_eq(x.q(), Qv { n: self.q().n, d: self.q().d * count })
                },
                None => q_checked(Qv { n: self.q().n, d: self.q().d * count }) is None,
            },
    {
        let ghost v = Qv { n: self.q().n, d: self.q().d * count };
        proof {
            lemma_abs_prod_bound(self.den as int, count as int, i64::MAX as int, u64::MAX as int);
            assert(self.den as int * count as int > 0) by (nonlinear_arith)
                requires self.den > 0, count >= 1,
            {}
        }
        let sd: i128 = (self.den as i128) * (count as i128);
        let r = norm_pair(self.num as i128, sd);
        proof {
            if r is Some {
                lemma_norm_props(v);
            }
        }
        r
    }
}

} // verus!
