//! Keyframe interpolation and configuration validation.
//!
//! A keyframe array of length `n` holds `n` breakpoints spread evenly
//! over `[0, total]`.  Given `elapsed` and `total`, the sampled position
//! is `v = (n - 1) * elapsed / total`; the two neighbouring breakpoints
//! are blended linearly (`weight = ceil(v) - v` on the lower one).  A
//! position outside `[0, n - 1]` is clamped to the nearest end, so a
//! single-element array is a constant.

use vstd::prelude::*;
use vstd::arithmetic::div_mod::*;
use vstd::arithmetic::mul::*;

use crate::error::{Constraint, Error, Field};
use crate::geom::{Color, Vec3};
use crate::ratio::{
    lemma_abs_prod_bound, lemma_norm_props, lemma_q_add_congr, lemma_q_div_congr_left,
    lemma_q_eq_trans, lemma_q_mul_congr, lemma_q_one_minus_div, lemma_q_sub_congr, norm_pair,
    q_add, q_checked, q_div, q_eq, q_le, q_lt, q_mul, q_one, q_sub, q_wf, q_zero, Qv, Ratio,
};

verus! {

/// Mathematical values of a sequence of scalars.
pub open spec fn seq_q(vals: Seq<Ratio>) -> Seq<Qv> {
    vals.map_values(|r: Ratio| r.q())
}

/// Every scalar in the sequence is well formed.
pub open spec fn seq_wf(vals: Seq<Ratio>) -> bool {
    forall|i: int| 0 <= i < vals.len() ==> #[trigger] vals[i].wf()
}

/// Every well-formed sequence of values is well formed pointwise.
pub open spec fn seq_q_wf(vals: Seq<Qv>) -> bool {
    forall|i: int| 0 <= i < vals.len() ==> q_wf(#[trigger] vals[i])
}

/// The exact interpolated value of the keyframe array `vals` at
/// `elapsed / total` (meaningful when `vals` is non-empty and
/// `total > 0`).  This is the reference formula: clamp the sampled
/// position into `[0, n - 1]`, then blend the two neighbours.
pub open spec fn interp_q(vals: Seq<Qv>, e: Qv, t: Qv) -> Qv {
    let l = (vals.len() - 1) as int;
    if q_le(e, q_zero()) || l == 0 {
        vals[0]
    } else if q_le(t, e) {
        vals[l]
    } else {
        let a = e.n * t.d;
        let b = e.d * t.n;
        let la = l * a;
        let low = la / b;
        let rem = la % b;
        if rem == 0 {
            vals[low]
        } else {
            let w = Qv { n: b - rem, d: b };
            q_add(q_mul(vals[low], w), q_mul(vals[low + 1], q_sub(q_one(), w)))
        }
    }
}

/// What the executable interpolation returns: the exact value of
/// `interp_q`, reduced at each checked step, or `None` where a reduced
/// intermediate leaves the 64-bit range.
pub open spec fn interp_checked(vals: Seq<Qv>, e: Qv, t: Qv) -> Option<Qv> {
    let l = (vals.len() - 1) as int;
    if q_le(e, q_zero()) || l == 0 {
        Some(vals[0])
    } else if q_le(t, e) {
        Some(vals[l])
    } else {
        let a = e.n * t.d;
        let b = e.d * t.n;
        if a > u128::MAX as int / l {
            None
        } else {
            let la = l * a;
            let low = la / b;
            let rem = la % b;
            if rem == 0 {
                Some(vals[low])
            } else {
                match q_checked(Qv { n: b - rem, d: b }) {
                    None => None,
                    Some(w) => match q_checked(q_mul(vals[low], w)) {
                        None => None,
                        Some(t1) => match q_checked(q_sub(q_one(), w)) {
                            None => None,
                            Some(u) => match q_checked(q_mul(vals[low + 1], u)) {
                                None => None,
                                Some(t2) => q_checked(q_add(t1, t2)),
                            },
                        },
                    },
                }
            }
        }
    }
}

/// When the checked interpolation produces a value, that value is well
/// formed and denotes exactly `interp_q`.
pub proof fn lemma_interp_checked_sound(vals: Seq<Qv>, e: Qv, t: Qv)
    requires
        vals.len() >= 1,
        seq_q_wf(vals),
        q_wf(e),
        q_wf(t),
        q_lt(q_zero(), t),
    ensures
        q_wf(interp_q(vals, e, t)),
        match interp_checked(vals, e, t) {
            Some(x) => q_wf(x) && q_eq(x, interp_q(vals, e, t)),
            None => true,
        },
{
    let l = (vals.len() - 1) as int;
    if q_le(e, q_zero()) || l == 0 {
    } else if q_le(t, e) {
    } else {
        let a = e.n * t.d;
        let b = e.d * t.n;
        assert(e.n > 0);
        assert(t.n > 0);
        assert(a > 0) by (nonlinear_arith)
            requires a == e.n * t.d, e.n > 0, t.d > 0,
        {}
        assert(b > 0) by (nonlinear_arith)
            requires b == e.d * t.n, e.d > 0, t.n > 0,
        {}
        assert(a < b);
        let la = l * a;
        let low = la / b;
        let rem = la % b;
        lemma_mod_bound(la, b);
        lemma_fundamental_div_mod(la, b);
        assert(la > 0) by (nonlinear_arith)
            requires l >= 1, a > 0, la == l * a,
        {}
        lemma_div_pos_is_pos(la, b);
        // Indices stay in range: la < b * l, so low < l.
        assert(la < b * l) by (nonlinear_arith)
            requires a < b, la == l * a, l >= 1, b > 0,
        {}
        lemma_multiply_divide_lt(la, b, l);
        assert(0 <= low < l);
        if rem != 0 {
            // The mathematical blend is well formed whatever the
            // checked path does.
            let w0 = Qv { n: b - rem, d: b };
            let u0 = q_sub(q_one(), w0);
            let dd = (vals[low].d * w0.d) * (vals[low + 1].d * u0.d);
            assert(q_wf(vals[low]));
            assert(q_wf(vals[low + 1]));
            assert(dd > 0) by (nonlinear_arith)
                requires
                    vals[low].d > 0,
                    vals[low + 1].d > 0,
                    w0.d > 0,
                    u0.d == 1 * w0.d,
                    dd == (vals[low].d * w0.d) * (vals[low + 1].d * u0.d),
            {}
            assert(interp_q(vals, e, t).d == dd);
        }
        if a > u128::MAX as int / l {
        } else {
            if rem == 0 {
            } else {
                let w = Qv { n: b - rem, d: b };
                assert(q_wf(w));
                let vl = vals[low];
                let vh = vals[low + 1];
                assert(q_wf(vl));
                assert(q_wf(vh));
                match q_checked(w) {
                    None => {}
                    Some(wr) => {
                        lemma_norm_props(w);
                        assert(q_wf(wr) && q_eq(wr, w));
                        match q_checked(q_mul(vl, wr)) {
                            None => {}
                            Some(t1) => {
                                lemma_q_mul_congr(vl, wr, vl, w);
                                lemma_norm_props(q_mul(vl, wr));
                                lemma_q_eq_trans(t1, q_mul(vl, wr), q_mul(vl, w));
                                match q_checked(q_sub(q_one(), wr)) {
                                    None => {}
                                    Some(u) => {
                                        lemma_q_sub_congr(q_one(), wr, q_one(), w);
                                        lemma_norm_props(q_sub(q_one(), wr));
                                        lemma_q_eq_trans(
                                            u,
                                            q_sub(q_one(), wr),
                                            q_sub(q_one(), w),
                                        );
                                        match q_checked(q_mul(vh, u)) {
                                            None => {}
                                            Some(t2) => {
                                                lemma_q_mul_congr(
                                                    vh,
                                                    u,
                                                    vh,
                                                    q_sub(q_one(), w),
                                                );
                                                lemma_norm_props(q_mul(vh, u));
                                                lemma_q_eq_trans(
                                                    t2,
                                                    q_mul(vh, u),
                                                    q_mul(vh, q_sub(q_one(), w)),
                                                );
                                                match q_checked(q_add(t1, t2)) {
                                                    None => {}
                                                    Some(res) => {
                                                        lemma_q_add_congr(
                                                            t1,
                                                            t2,
                                                            q_mul(vl, w),
                                                            q_mul(vh, q_sub(q_one(), w)),
                                                        );
                                                        lemma_norm_props(q_add(t1, t2));
                                                        lemma_q_eq_trans(
                                                            res,
                                                            q_add(t1, t2),
                                                            q_add(
                                                                q_mul(vl, w),
                                                                q_mul(vh, q_sub(q_one(), w)),
                                                            ),
                                                        );
                                                    }
                                                }
                                            }
                                        }
                                    }
                                }
                            }
                        }
                    }
                }
            }
        }
    }
}

/// A keyframe array of length one is a constant: interpolation returns
/// the sole value exactly, whatever `elapsed` and `total` are.
pub proof fn lemma_interp_single(vals: Seq<Qv>, e: Qv, t: Qv)
    requires
        vals.len() == 1,
    ensures
        interp_q(vals, e, t) == vals[0],
        interp_checked(vals, e, t) == Some(vals[0]),
{
}

/// On a two-element array `[a, b]`, interpolation returns `a` exactly at
/// `elapsed == 0`, `b` exactly at `elapsed == total`, and the average
/// `(a + b) / 2` at `elapsed == total / 2`.
pub proof fn lemma_interp_two(a: Qv, b: Qv, e: Qv, t: Qv)
    requires
        q_wf(a),
        q_wf(b),
        q_wf(e),
        q_wf(t),
        q_lt(q_zero(), t),
    ensures
        q_eq(e, q_zero()) ==> interp_q(seq![a, b], e, t) == a,
        q_eq(e, t) ==> interp_q(seq![a, b], e, t) == b,
        q_eq(q_add(e, e), t) ==> q_eq(
            interp_q(seq![a, b], e, t),
            Qv { n: a.n * b.d + b.n * a.d, d: 2 * (a.d * b.d) },
        ),
{
    let vals = seq![a, b];
    assert(vals.len() == 2);
    assert(vals[0] == a);
    assert(vals[1] == b);
    assert(t.n > 0) by (nonlinear_arith)
        requires 0 * t.d < t.n * 1,
    {}
    if q_eq(e, q_zero()) {
        assert(q_le(e, q_zero()));
    }
    if q_eq(e, t) {
        assert(q_le(t, e));
        assert(e.n > 0) by (nonlinear_arith)
            requires e.n * t.d == t.n * e.d, t.n > 0, e.d > 0, t.d > 0,
        {}
        assert(!q_le(e, q_zero()));
    }
    if q_eq(q_add(e, e), t) {
        // 2e == t and t > 0, so 0 < e < t: the blend branch runs.
        let ap = e.n * t.d;
        let bp = e.d * t.n;
        assert((e.n * e.d + e.n * e.d) * t.d == t.n * (e.d * e.d));
        assert(e.n > 0) by (nonlinear_arith)
            requires
                (e.n * e.d + e.n * e.d) * t.d == t.n * (e.d * e.d),
                e.d > 0,
                t.d > 0,
                t.n > 0,
        {}
        // Cancel one factor of e.d: t.n * e.d == 2 * (e.n * t.d).
        assert(bp == 2 * ap) by (nonlinear_arith)
            requires
                (e.n * e.d + e.n * e.d) * t.d == t.n * (e.d * e.d),
                e.d > 0,
                ap == e.n * t.d,
                bp == e.d * t.n,
        {}
        assert(ap > 0) by (nonlinear_arith)
            requires ap == e.n * t.d, e.n > 0, t.d > 0,
        {}
        assert(!q_le(e, q_zero()));
        lemma_mul_is_commutative(t.n, e.d);
        assert(!q_le(t, e));
        let la = 1 * ap;
        assert(la == ap);
        // la / bp == 0 and la % bp == la since 0 <= la < bp.
        lemma_basic_div(la, bp);
        lemma_small_mod(la as nat, bp as nat);
        assert(la / bp == 0);
        assert(la % bp == la);
        let w = Qv { n: bp - la, d: bp };
        let u = q_sub(q_one(), w);
        assert(interp_q(vals, e, t) == q_add(q_mul(a, w), q_mul(b, u)));
        // Both blend weights denote exactly one half.
        let half = Qv { n: 1, d: 2 };
        assert(q_wf(half));
        assert(w.n == la && w.d == 2 * la);
        assert(q_wf(w));
        assert(u.n == 1 * w.d - w.n * 1 && u.d == 1 * w.d);
        assert(u.n == w.d - w.n && u.d == w.d) by (nonlinear_arith)
            requires u.n == 1 * w.d - w.n * 1, u.d == 1 * w.d,
        {}
        assert(q_wf(u));
        assert(q_eq(w, half)) by (nonlinear_arith)
            requires half == (Qv { n: 1, d: 2 }), w.d == 2 * w.n,
        {}
        assert(q_eq(u, half)) by (nonlinear_arith)
            requires half == (Qv { n: 1, d: 2 }), u.d == 2 * u.n,
        {}
        lemma_q_mul_congr(a, w, a, half);
        lemma_q_mul_congr(b, u, b, half);
        lemma_q_add_congr(q_mul(a, w), q_mul(b, u), q_mul(a, half), q_mul(b, half));
        let mid = q_add(q_mul(a, half), q_mul(b, half));
        let target = Qv { n: a.n * b.d + b.n * a.d, d: 2 * (a.d * b.d) };
        assert(q_wf(target)) by (nonlinear_arith)
            requires a.d > 0, b.d > 0, target == (Qv { n: a.n * b.d + b.n * a.d, d: 2 * (a.d * b.d) }),
        {}
        assert(q_eq(mid, target)) by (nonlinear_arith)
            requires
                mid.n == (a.n * 1) * (b.d * 2) + (b.n * 1) * (a.d * 2),
                mid.d == (a.d * 2) * (b.d * 2),
                target == (Qv { n: a.n * b.d + b.n * a.d, d: 2 * (a.d * b.d) }),
        {}
        lemma_q_eq_trans(
            q_add(q_mul(a, w), q_mul(b, u)),
            mid,
            target,
        );
    }
}

/// Find the linearly interpolated value from `values` given the ratio
/// `elapsed / total`.  The result is exact; `Err(Overflow)` is returned
/// precisely when a reduced intermediate leaves the 64-bit range.
pub fn map_float_value(values: &Vec<Ratio>, elapsed: &Ratio, total: &Ratio) -> (r: Result<
    Ratio,
    Error,
>)
    requires
        values@.len() >= 1,
        seq_wf(values@),
        elapsed.wf(),
        total.wf(),
        q_lt(q_zero(), total.q()),
    ensures
        match r {
            Ok(v) => {
                &&& v.wf()
                &&& Some(v.q()) == interp_checked(seq_q(values@), elapsed.q(), total.q())
                &&& q_eq(v.q(), interp_q(seq_q(values@), elapsed.q(), total.q()))
            },
            Err(er) => {
                &&& er == Error::Overflow
                &&& interp_checked(seq_q(values@), elapsed.q(), total.q()) is None
            },
        },
        values@.len() == 1 ==> r == Ok::<Ratio, Error>(values@[0]),
{
    let ghost vq = seq_q(values@);
    let ghost eq0 = elapsed.q();
    let ghost tq = total.q();
    proof {
        assert(vq.len() == values@.len());
        assert(forall|i: int| 0 <= i < values@.len() ==> vq[i] == #[trigger] values@[i].q());
        assert forall|i: int| 0 <= i < vq.len() implies q_wf(#[trigger] vq[i]) by {
            assert(values@[i].wf());
            assert(vq[i] == values@[i].q());
        }
        assert(seq_q_wf(vq));
        lemma_interp_checked_sound(vq, eq0, tq);
    }
    let n: usize = values.len();
    let l: usize = n - 1;
    let ghost li = l as int;
    if elapsed.num <= 0 || l == 0 {
        assert(q_le(eq0, q_zero()) || li == 0);
        return Ok(values[0]);
    }
    assert(!q_le(eq0, q_zero()));
    if total.le(elapsed) {
        return Ok(values[l]);
    }
    // 0 < elapsed < total: the sampled position sits strictly inside.
    proof {
        lemma_abs_prod_bound(elapsed.num as int, total.den as int, i64::MAX as int, i64::MAX as int);
        lemma_abs_prod_bound(elapsed.den as int, total.num as int, i64::MAX as int, i64::MAX as int);
        assert(total.num > 0);
    }
    let a: u128 = (elapsed.num as u128) * (total.den as u128);
    let b: u128 = (elapsed.den as u128) * (total.num as u128);
    assert(a as int == eq0.n * tq.d);
    assert(b as int == eq0.d * tq.n);
    assert(a < b);
    let lu: u128 = l as u128;
    if a > u128::MAX / lu {
        return Err(Error::Overflow);
    }
    proof {
        let m = u128::MAX as int / lu as int;
        lemma_fundamental_div_mod(u128::MAX as int, lu as int);
        lemma_mod_bound(u128::MAX as int, lu as int);
        assert(lu as int * a as int <= u128::MAX as int) by (nonlinear_arith)
            requires
                a as int <= m,
                u128::MAX as int == lu as int * m + (u128::MAX as int % lu as int),
                0 <= u128::MAX as int % lu as int,
                lu as int >= 1,
                a as int >= 0,
        {}
    }
    let la: u128 = lu * a;
    let low_u: u128 = la / b;
    let rem: u128 = la % b;
    proof {
        assert(la as int == li * (eq0.n * tq.d));
        assert(la < b * lu) by (nonlinear_arith)
            requires a < b, la == lu * a, lu >= 1, b > 0,
        {}
        lemma_multiply_divide_lt(la as int, b as int, lu as int);
        lemma_mod_bound(la as int, b as int);
    }
    let low: usize = low_u as usize;
    assert(low_u as int == (li * (eq0.n * tq.d)) / (eq0.d * tq.n));
    if rem == 0 {
        return Ok(values[low]);
    }
    let wn: i128 = (b - rem) as i128;
    let wd: i128 = b as i128;
    let wr = match norm_pair(wn, wd) {
        Some(x) => x,
        None => {
            return Err(Error::Overflow);
        },
    };
    let one = Ratio::one();
    let t1 = match values[low].checked_mul(&wr) {
        Some(x) => x,
        None => {
            return Err(Error::Overflow);
        },
    };
    let u = match one.checked_sub(&wr) {
        Some(x) => x,
        None => {
            return Err(Error::Overflow);
        },
    };
    let t2 = match values[low + 1].checked_mul(&u) {
        Some(x) => x,
        None => {
            return Err(Error::Overflow);
        },
    };
    let res = match t1.checked_add(&t2) {
        Some(x) => x,
        None => {
            return Err(Error::Overflow);
        },
    };
    Ok(res)
}

/// The red channel of every color, as its own keyframe array.
pub open spec fn colors_r(cols: Seq<Color>) -> Seq<Ratio> {
    cols.map_values(|c: Color| c.r)
}

pub open spec fn colors_g(cols: Seq<Color>) -> Seq<Ratio> {
    cols.map_values(|c: Color| c.g)
}

pub open spec fn colors_b(cols: Seq<Color>) -> Seq<Ratio> {
    cols.map_values(|c: Color| c.b)
}

pub open spec fn colors_a(cols: Seq<Color>) -> Seq<Ratio> {
    cols.map_values(|c: Color| c.a)
}

pub open spec fn colors_wf(cols: Seq<Color>) -> bool {
    forall|i: int| 0 <= i < cols.len() ==> (#[trigger] cols[i]).wf()
}

/// Find the linearly interpolated color from `colors` given the ratio
/// `elapsed / total`.  Each channel is interpolated independently as its
/// own scalar keyframe array.
pub fn map_color_value(colors: &Vec<Color>, elapsed: &Ratio, total: &Ratio) -> (r: Result<
    Color,
    Error,
>)
    requires
        colors@.len() >= 1,
        colors_wf(colors@),
        elapsed.wf(),
        total.wf(),
        q_lt(q_zero(), total.q()),
    ensures
        match r {
            Ok(c) => {
                &&& c.wf()
                &&& Some(c.r.q()) == interp_checked(seq_q(colors_r(colors@)), elapsed.q(), total.q())
                &&& Some(c.g.q()) == interp_checked(seq_q(colors_g(colors@)), elapsed.q(), total.q())
                &&& Some(c.b.q()) == interp_checked(seq_q(colors_b(colors@)), elapsed.q(), total.q())
                &&& Some(c.a.q()) == interp_checked(seq_q(colors_a(colors@)), elapsed.q(), total.q())
                &&& q_eq(c.r.q(), interp_q(seq_q(colors_r(colors@)), elapsed.q(), total.q()))
                &&& q_eq(c.g.q(), interp_q(seq_q(colors_g(colors@)), elapsed.q(), total.q()))
                &&& q_eq(c.b.q(), interp_q(seq_q(colors_b(colors@)), elapsed.q(), total.q()))
                &&& q_eq(c.a.q(), interp_q(seq_q(colors_a(colors@)), elapsed.q(), total.q()))
            },
            Err(er) => {
                &&& er == Error::Overflow
                &&& {
                    ||| interp_checked(seq_q(colors_r(colors@)), elapsed.q(), total.q()) is None
                    ||| interp_checked(seq_q(colors_g(colors@)), elapsed.q(), total.q()) is None
                    ||| interp_checked(seq_q(colors_b(colors@)), elapsed.q(), total.q()) is None
                    ||| interp_checked(seq_q(colors_a(colors@)), elapsed.q(), total.q()) is None
                }
            },
        },
{
    let n: usize = colors.len();
    let mut rs: Vec<Ratio> = Vec::new();
    let mut gs: Vec<Ratio> = Vec::new();
    let mut bs: Vec<Ratio> = Vec::new();
    let mut alphas: Vec<Ratio> = Vec::new();
    let mut i: usize = 0;
    while i < n
        invariant
            i <= n,
            n == colors@.len(),
            colors_wf(colors@),
            rs@.len() == i as int,
            gs@.len() == i as int,
            bs@.len() == i as int,
            alphas@.len() == i as int,
            forall|j: int| 0 <= j < i as int ==> rs@[j] == (#[trigger] colors@[j]).r,
            forall|j: int| 0 <= j < i as int ==> gs@[j] == (#[trigger] colors@[j]).g,
            forall|j: int| 0 <= j < i as int ==> bs@[j] == (#[trigger] colors@[j]).b,
            forall|j: int| 0 <= j < i as int ==> alphas@[j] == (#[trigger] colors@[j]).a,
        decreases n - i,
    {
        let c = colors[i];
        rs.push(c.r);
        gs.push(c.g);
        bs.push(c.b);
        alphas.push(c.a);
        i = i + 1;
    }
    proof {
        assert(rs@ =~= colors_r(colors@));
        assert(gs@ =~= colors_g(colors@));
        assert(bs@ =~= colors_b(colors@));
        assert(alphas@ =~= colors_a(colors@));
        assert forall|j: int| 0 <= j < rs@.len() implies (#[trigger] rs@[j]).wf() by {
            assert(colors@[j].wf());
        }
        assert forall|j: int| 0 <= j < gs@.len() implies (#[trigger] gs@[j]).wf() by {
            assert(colors@[j].wf());
        }
        assert forall|j: int| 0 <= j < bs@.len() implies (#[trigger] bs@[j]).wf() by {
            assert(colors@[j].wf());
        }
        assert forall|j: int| 0 <= j < alphas@.len() implies (#[trigger] alphas@[j]).wf() by {
            assert(colors@[j].wf());
        }
    }
    let cr = match map_float_value(&rs, elapsed, total) {
        Ok(v) => v,
        Err(er) => {
            return Err(er);
        },
    };
    let cg = match map_float_value(&gs, elapsed, total) {
        Ok(v) => v,
        Err(er) => {
            return Err(er);
        },
    };
    let cb = match map_float_value(&bs, elapsed, total) {
        Ok(v) => v,
        Err(er) => {
            return Err(er);
        },
    };
    let ca = match map_float_value(&alphas, elapsed, total) {
        Ok(v) => v,
        Err(er) => {
            return Err(er);
        },
    };
    Ok(Color { r: cr, g: cg, b: cb, a: ca })
}

/// What `map_color_value` computes: the four channels of the color
/// array interpolated independently, each by the checked interpolation.
pub open spec fn map_color_checked(cols: Seq<Color>, e: Qv, t: Qv) -> Option<(Qv, Qv, Qv, Qv)> {
    match interp_checked(seq_q(colors_r(cols)), e, t) {
        None => None,
        Some(r) => match interp_checked(seq_q(colors_g(cols)), e, t) {
            None => None,
            Some(g) => match interp_checked(seq_q(colors_b(cols)), e, t) {
                None => None,
                Some(b) => match interp_checked(seq_q(colors_a(cols)), e, t) {
                    None => None,
                    Some(a) => Some((r, g, b, a)),
                },
            },
        },
    }
}

/// The exact blended coordinate `sx * rho + ex * (1 - rho)`: at
/// `rho == 1` the start coordinate, at `rho == 0` the end coordinate.
pub open spec fn blend_q(sx: Qv, ex: Qv, rho: Qv) -> Qv {
    q_add(q_mul(sx, rho), q_mul(ex, q_sub(q_one(), rho)))
}

/// What the executable blend computes, step by checked step, given the
/// already-reduced weights `rho` and `u` (`u` denotes `1 - rho`).
pub open spec fn blend_checked(sx: Qv, ex: Qv, rho: Qv, u: Qv) -> Option<Qv> {
    match q_checked(q_mul(sx, rho)) {
        None => None,
        Some(t1) => match q_checked(q_mul(ex, u)) {
            None => None,
            Some(t2) => q_checked(q_add(t1, t2)),
        },
    }
}

/// A successful checked blend denotes exactly `blend_q` at the
/// mathematical weight `rho0`.
pub proof fn lemma_blend_checked_sound(sx: Qv, ex: Qv, rho: Qv, u: Qv, rho0: Qv)
    requires
        q_wf(sx),
        q_wf(ex),
        q_wf(rho),
        q_wf(u),
        q_wf(rho0),
        q_eq(rho, rho0),
        q_eq(u, q_sub(q_one(), rho0)),
    ensures
        match blend_checked(sx, ex, rho, u) {
            Some(x) => q_wf(x) && q_eq(x, blend_q(sx, ex, rho0)),
            None => true,
        },
{
    assert(q_wf(q_sub(q_one(), rho0))) by (nonlinear_arith)
        requires rho0.d > 0, q_sub(q_one(), rho0).d == 1 * rho0.d,
    {}
    match q_checked(q_mul(sx, rho)) {
        None => {}
        Some(t1) => {
            lemma_q_mul_congr(sx, rho, sx, rho0);
            lemma_norm_props(q_mul(sx, rho));
            lemma_q_eq_trans(t1, q_mul(sx, rho), q_mul(sx, rho0));
            match q_checked(q_mul(ex, u)) {
                None => {}
                Some(t2) => {
                    lemma_q_mul_congr(ex, u, ex, q_sub(q_one(), rho0));
                    lemma_norm_props(q_mul(ex, u));
                    lemma_q_eq_trans(t2, q_mul(ex, u), q_mul(ex, q_sub(q_one(), rho0)));
                    match q_checked(q_add(t1, t2)) {
                        None => {}
                        Some(res) => {
                            lemma_q_add_congr(
                                t1,
                                t2,
                                q_mul(sx, rho0),
                                q_mul(ex, q_sub(q_one(), rho0)),
                            );
                            lemma_norm_props(q_add(t1, t2));
                            lemma_q_eq_trans(
                                res,
                                q_add(t1, t2),
                                q_add(q_mul(sx, rho0), q_mul(ex, q_sub(q_one(), rho0))),
                            );
                        },
                    }
                },
            }
        },
    }
}

/// What `map_location` computes: the interpolated location ratio, the
/// complementary weight, then one checked blend per coordinate.
pub open spec fn map_location_checked(
    locs: Seq<Qv>,
    start: Vec3,
    end: Vec3,
    e: Qv,
    t: Qv,
) -> Option<(Qv, Qv, Qv)> {
    match interp_checked(locs, e, t) {
        None => None,
        Some(rho) => match q_checked(q_sub(q_one(), rho)) {
            None => None,
            Some(u) => match blend_checked(start.x.q(), end.x.q(), rho, u) {
                None => None,
                Some(x) => match blend_checked(start.y.q(), end.y.q(), rho, u) {
                    None => None,
                    Some(y) => match blend_checked(start.z.q(), end.z.q(), rho, u) {
                        None => None,
                        Some(z) => Some((x, y, z)),
                    },
                },
            },
        },
    }
}

/// Find the linearly interpolated location between `start_location` and
/// `end_location`, given the `locations` keyframe values and the ratio
/// `elapsed / period`.  The location ratio is interpolated first; a
/// ratio of one sits at the start location and a ratio of zero at the
/// end location (`position = start * rho + end * (1 - rho)`).
pub fn map_location(
    locations: &Vec<Ratio>,
    start_location: &Vec3,
    end_location: &Vec3,
    elapsed: &Ratio,
    period: &Ratio,
) -> (r: Result<Vec3, Error>)
    requires
        locations@.len() >= 1,
        seq_wf(locations@),
        start_location.wf(),
        end_location.wf(),
        elapsed.wf(),
        period.wf(),
        q_lt(q_zero(), period.q()),
    ensures
        match r {
            Ok(v) => ({
                let rho = interp_q(seq_q(locations@), elapsed.q(), period.q());
                &&& v.wf()
                &&& map_location_checked(
                    seq_q(locations@),
                    *start_location,
                    *end_location,
                    elapsed.q(),
                    period.q(),
                ) == Some((v.x.q(), v.y.q(), v.z.q()))
                &&& q_eq(v.x.q(), blend_q(start_location.x.q(), end_location.x.q(), rho))
                &&& q_eq(v.y.q(), blend_q(start_location.y.q(), end_location.y.q(), rho))
                &&& q_eq(v.z.q(), blend_q(start_location.z.q(), end_location.z.q(), rho))
            }),
            Err(er) => {
                &&& er == Error::Overflow
                &&& map_location_checked(
                    seq_q(locations@),
                    *start_location,
                    *end_location,
                    elapsed.q(),
                    period.q(),
                ) is None
            },
        },
{
    let ghost rho0 = interp_q(seq_q(locations@), elapsed.q(), period.q());
    proof {
        lemma_interp_checked_sound_vec(locations@, elapsed.q(), period.q());
    }
    let rho = match map_float_value(locations, elapsed, period) {
        Ok(v) => v,
        Err(er) => {
            return Err(er);
        },
    };
    let one = Ratio::one();
    let u = match one.checked_sub(&rho) {
        Some(x) => x,
        None => {
            return Err(Error::Overflow);
        },
    };
    proof {
        lemma_q_sub_congr(q_one(), rho.q(), q_one(), rho0);
        lemma_norm_props(q_sub(q_one(), rho.q()));
        lemma_q_eq_trans(u.q(), q_sub(q_one(), rho.q()), q_sub(q_one(), rho0));
        lemma_blend_checked_sound(
            start_location.x.q(),
            end_location.x.q(),
            rho.q(),
            u.q(),
            rho0,
        );
        lemma_blend_checked_sound(
            start_location.y.q(),
            end_location.y.q(),
            rho.q(),
            u.q(),
            rho0,
        );
        lemma_blend_checked_sound(
            start_location.z.q(),
            end_location.z.q(),
            rho.q(),
            u.q(),
            rho0,
        );
    }
    let x = match blend_coord(&start_location.x, &end_location.x, &rho, &u) {
        Some(v) => v,
        None => {
            return Err(Error::Overflow);
        },
    };
    let y = match blend_coord(&start_location.y, &end_location.y, &rho, &u) {
        Some(v) => v,
        None => {
            return Err(Error::Overflow);
        },
    };
    let z = match blend_coord(&start_location.z, &end_location.z, &rho, &u) {
        Some(v) => v,
        None => {
            return Err(Error::Overflow);
        },
    };
    Ok(Vec3 { x, y, z })
}

/// One checked blend step, shared by the three coordinates.
fn blend_coord(sx: &Ratio, ex: &Ratio, rho: &Ratio, u: &Ratio) -> (r: Option<Ratio>)
    requires
        sx.wf(),
        ex.wf(),
        rho.wf(),
        u.wf(),
    ensures
        match r {
            Some(x) => x.wf() && Some(x.q()) == blend_checked(sx.q(), ex.q(), rho.q(), u.q()),
            None => blend_checked(sx.q(), ex.q(), rho.q(), u.q()) is None,
        },
{
    let t1 = match sx.checked_mul(rho) {
        Some(v) => v,
        None => {
            return None;
        },
    };
    let t2 = match ex.checked_mul(u) {
        Some(v) => v,
        None => {
            return None;
        },
    };
    match t1.checked_add(&t2) {
        Some(v) => Some(v),
        None => None,
    }
}

/// What `map_color_decay` computes for the alpha channel: the remaining
/// lifetime fraction `(total - current) / total`, reduced step by step,
/// times the original alpha.
pub open spec fn fade_checked(alpha: Qv, current: Qv, total: Qv) -> Option<Qv> {
    match q_checked(q_sub(total, current)) {
        None => None,
        Some(d) => match q_checked(q_div(d, total)) {
            None => None,
            Some(f) => q_checked(q_mul(alpha, f)),
        },
    }
}

/// Scale the alpha channel of `orig` by `1 - current / total`, the
/// fraction of a fading particle's lifetime that is still left.  The
/// other channels are returned unchanged.
pub fn map_color_decay(orig: &Color, current: &Ratio, total: &Ratio) -> (r: Result<Color, Error>)
    requires
        orig.wf(),
        current.wf(),
        total.wf(),
        q_lt(q_zero(), total.q()),
    ensures
        match r {
            Ok(c) => {
                &&& c.wf()
                &&& c.r == orig.r
                &&& c.g == orig.g
                &&& c.b == orig.b
                &&& Some(c.a.q()) == fade_checked(orig.a.q(), current.q(), total.q())
                &&& q_eq(
                    c.a.q(),
                    q_mul(orig.a.q(), q_sub(q_one(), q_div(current.q(), total.q()))),
                )
            },
            Err(er) => {
                &&& er == Error::Overflow
                &&& fade_checked(orig.a.q(), current.q(), total.q()) is None
            },
        },
{
    let ghost cq = current.q();
    let ghost tq = total.q();
    let diff = match total.checked_sub(current) {
        Some(v) => v,
        None => {
            return Err(Error::Overflow);
        },
    };
    proof {
        assert(q_wf(q_sub(tq, cq))) by (nonlinear_arith)
            requires tq.d > 0, cq.d > 0, q_sub(tq, cq).d == tq.d * cq.d,
        {}
    }
    let frac = match diff.checked_div(total) {
        Some(v) => v,
        None => {
            return Err(Error::Overflow);
        },
    };
    proof {
        // frac denotes (total - current) / total, which equals
        // 1 - current / total as a rational value.
        lemma_q_div_congr_left(diff.q(), q_sub(tq, cq), tq);
        lemma_q_one_minus_div(cq, tq);
        lemma_q_eq_trans(
            q_div(diff.q(), tq),
            q_div(q_sub(tq, cq), tq),
            q_sub(q_one(), q_div(cq, tq)),
        );
        lemma_norm_props(q_div(diff.q(), tq));
        lemma_q_eq_trans(frac.q(), q_div(diff.q(), tq), q_sub(q_one(), q_div(cq, tq)));
    }
    let alpha = match orig.a.checked_mul(&frac) {
        Some(v) => v,
        None => {
            return Err(Error::Overflow);
        },
    };
    proof {
        assert(q_wf(q_sub(q_one(), q_div(cq, tq)))) by (nonlinear_arith)
            requires
                cq.d > 0,
                tq.n > 0,
                q_sub(q_one(), q_div(cq, tq)).d == 1 * (cq.d * tq.n),
        {}
        lemma_q_mul_congr(orig.a.q(), frac.q(), orig.a.q(), q_sub(q_one(), q_div(cq, tq)));
        lemma_norm_props(q_mul(orig.a.q(), frac.q()));
        lemma_q_eq_trans(
            alpha.q(),
            q_mul(orig.a.q(), frac.q()),
            q_mul(orig.a.q(), q_sub(q_one(), q_div(cq, tq))),
        );
    }
    Ok(Color { r: orig.r, g: orig.g, b: orig.b, a: alpha })
}

/// A scalar lies in the closed unit interval.
pub open spec fn in_unit(x: Ratio) -> bool {
    q_le(q_zero(), x.q()) && q_le(x.q(), q_one())
}

/// A scalar is at least zero.
pub open spec fn non_negative(x: Ratio) -> bool {
    q_le(q_zero(), x.q())
}

/// A keyframe array passes the unit-interval validation: non-empty,
/// every value in `[0, 1]`.
pub open spec fn unit_array_ok(v: Seq<Ratio>) -> bool {
    v.len() >= 1 && forall|i: int| 0 <= i < v.len() ==> in_unit(#[trigger] v[i])
}

/// The error the unit-interval validation reports for `v` under
/// `field`: empty, or the first out-of-range value.
pub open spec fn unit_array_err(v: Seq<Ratio>, field: Field, er: Error) -> bool {
    if v.len() == 0 {
        er == (Error::Validation {
            field,
            constraint: Constraint::NonEmpty,
            value: Ratio { num: 0, den: 1 },
        })
    } else {
        exists|i: int|
            {
                &&& 0 <= i < v.len()
                &&& !in_unit(#[trigger] v[i])
                &&& forall|j: int| 0 <= j < i ==> in_unit(#[trigger] v[j])
                &&& er == (Error::Validation {
                    field,
                    constraint: Constraint::UnitRange,
                    value: v[i],
                })
            }
    }
}

/// A size keyframe array passes validation: non-empty, every value at
/// least zero.
pub open spec fn sizes_ok(v: Seq<Ratio>) -> bool {
    v.len() >= 1 && forall|i: int| 0 <= i < v.len() ==> non_negative(#[trigger] v[i])
}

/// The error the size validation reports for `v`: empty, or the first
/// negative value.
pub open spec fn sizes_err(v: Seq<Ratio>, er: Error) -> bool {
    if v.len() == 0 {
        er == (Error::Validation {
            field: Field::Sizes,
            constraint: Constraint::NonEmpty,
            value: Ratio { num: 0, den: 1 },
        })
    } else {
        exists|i: int|
            {
                &&& 0 <= i < v.len()
                &&& !non_negative(#[trigger] v[i])
                &&& forall|j: int| 0 <= j < i ==> non_negative(#[trigger] v[j])
                &&& er == (Error::Validation {
                    field: Field::Sizes,
                    constraint: Constraint::NonNegative,
                    value: v[i],
                })
            }
    }
}

/// Check that a period is strictly positive.
pub fn check_period(period: &Ratio) -> (r: Result<(), Error>)
    requires
        period.wf(),
    ensures
        q_lt(q_zero(), period.q()) ==> r == Ok::<(), Error>(()),
        !q_lt(q_zero(), period.q()) ==> r == Err::<(), Error>(Error::Validation {
            field: Field::Period,
            constraint: Constraint::Positive,
            value: *period,
        }),
{
    let zero = Ratio::zero();
    if zero.lt(period) {
        Ok(())
    } else {
        Err(Error::Validation {
            field: Field::Period,
            constraint: Constraint::Positive,
            value: *period,
        })
    }
}

/// Check that a decay is at least zero.
pub fn check_decay(decay: &Ratio) -> (r: Result<(), Error>)
    requires
        decay.wf(),
    ensures
        q_le(q_zero(), decay.q()) ==> r == Ok::<(), Error>(()),
        !q_le(q_zero(), decay.q()) ==> r == Err::<(), Error>(Error::Validation {
            field: Field::Decay,
            constraint: Constraint::NonNegative,
            value: *decay,
        }),
{
    let zero = Ratio::zero();
    if zero.le(decay) {
        Ok(())
    } else {
        Err(Error::Validation {
            field: Field::Decay,
            constraint: Constraint::NonNegative,
            value: *decay,
        })
    }
}

/// Check that a keyframe array is non-empty and every value lies in
/// `[0, 1]`, reporting the first violation.
fn check_unit_array(values: &Vec<Ratio>, field: Field) -> (r: Result<(), Error>)
    requires
        seq_wf(values@),
    ensures
        match r {
            Ok(()) => unit_array_ok(values@),
            Err(er) => !unit_array_ok(values@) && unit_array_err(values@, field, er),
        },
{
    if values.len() == 0 {
        return Err(Error::Validation {
            field,
            constraint: Constraint::NonEmpty,
            value: Ratio::zero(),
        });
    }
    let zero = Ratio::zero();
    let one = Ratio::one();
    let n: usize = values.len();
    let mut i: usize = 0;
    while i < n
        invariant
            i <= n,
            n == values@.len(),
            seq_wf(values@),
            forall|j: int| 0 <= j < i as int ==> in_unit(#[trigger] values@[j]),
            zero == (Ratio { num: 0, den: 1 }),
            one == (Ratio { num: 1, den: 1 }),
        decreases n - i,
    {
        let x = values[i];
        if !(zero.le(&x) && x.le(&one)) {
            return Err(Error::Validation {
                field,
                constraint: Constraint::UnitRange,
                value: x,
            });
        }
        i = i + 1;
    }
    Ok(())
}

/// Check that the location keyframes are non-empty and within `[0, 1]`.
pub fn check_locations(locations: &Vec<Ratio>) -> (r: Result<(), Error>)
    requires
        seq_wf(locations@),
    ensures
        match r {
            Ok(()) => unit_array_ok(locations@),
            Err(er) => !unit_array_ok(locations@) && unit_array_err(
                locations@,
                Field::Locations,
                er,
            ),
        },
{
    check_unit_array(locations, Field::Locations)
}

/// Check that the density keyframes are non-empty and within `[0, 1]`.
pub fn check_densities(densities: &Vec<Ratio>) -> (r: Result<(), Error>)
    requires
        seq_wf(densities@),
    ensures
        match r {
            Ok(()) => unit_array_ok(densities@),
            Err(er) => !unit_array_ok(densities@) && unit_array_err(
                densities@,
                Field::Densities,
                er,
            ),
        },
{
    check_unit_array(densities, Field::Densities)
}

/// Check that the size keyframes are non-empty and each at least zero.
pub fn check_sizes(sizes: &Vec<Ratio>) -> (r: Result<(), Error>)
    requires
        seq_wf(sizes@),
    ensures
        match r {
            Ok(()) => sizes_ok(sizes@),
            Err(er) => !sizes_ok(sizes@) && sizes_err(sizes@, er),
        },
{
    if sizes.len() == 0 {
        return Err(Error::Validation {
            field: Field::Sizes,
            constraint: Constraint::NonEmpty,
            value: Ratio::zero(),
        });
    }
    let zero = Ratio::zero();
    let n: usize = sizes.len();
    let mut i: usize = 0;
    while i < n
        invariant
            i <= n,
            n == sizes@.len(),
            seq_wf(sizes@),
            forall|j: int| 0 <= j < i as int ==> non_negative(#[trigger] sizes@[j]),
            zero == (Ratio { num: 0, den: 1 }),
        decreases n - i,
    {
        let x = sizes[i];
        if !zero.le(&x) {
            return Err(Error::Validation {
                field: Field::Sizes,
                constraint: Constraint::NonNegative,
                value: x,
            });
        }
        i = i + 1;
    }
    Ok(())
}

/// Check that the color keyframe array is non-empty.
pub fn check_colors(colors: &Vec<Color>) -> (r: Result<(), Error>)
    ensures
        colors@.len() >= 1 ==> r == Ok::<(), Error>(()),
        colors@.len() == 0 ==> r == Err::<(), Error>(Error::Validation {
            field: Field::Colors,
            constraint: Constraint::NonEmpty,
            value: Ratio { num: 0, den: 1 },
        }),
{
    if colors.len() == 0 {
        Err(Error::Validation {
            field: Field::Colors,
            constraint: Constraint::NonEmpty,
            value: Ratio::zero(),
        })
    } else {
        Ok(())
    }
}

/// `lemma_interp_checked_sound`, lifted to a vector of scalars.
pub proof fn lemma_interp_checked_sound_vec(vals: Seq<Ratio>, e: Qv, t: Qv)
    requires
        vals.len() >= 1,
        seq_wf(vals),
        q_wf(e),
        q_wf(t),
        q_lt(q_zero(), t),
    ensures
        q_wf(interp_q(seq_q(vals), e, t)),
        match interp_checked(seq_q(vals), e, t) {
            Some(x) => q_wf(x) && q_eq(x, interp_q(seq_q(vals), e, t)),
            None => true,
        },
{
    assert forall|i: int| 0 <= i < seq_q(vals).len() implies q_wf(#[trigger] seq_q(vals)[i]) by {
        assert(vals[i].wf());
    }
    lemma_interp_checked_sound(seq_q(vals), e, t);
}

} // verus!
