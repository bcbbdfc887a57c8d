//! A single visual primitive.
//!
//! A particle is a short line segment with a color, a geometric size, a
//! spawn time and a lifetime (`decay`).  It is immutable once spawned,
//! except that its clock can be reset; it expires once more than
//! `decay` seconds have passed since its spawn time.  The expiry
//! instant `spawn_time + decay` is precomputed at construction so that
//! the per-frame expiry test is a plain comparison.
//!
//! Drawing is split from the renderer: `draw` computes the color to
//! paint (fading the alpha channel when `fades` is set) and whether the
//! particle has expired; pushing the segment to a screen is the
//! embedding application's business.

use vstd::prelude::*;

use crate::error::Error;
use crate::geom::{Color, Vec3};
use crate::ratio::{
    lemma_q_div_congr_left, lemma_q_eq_trans, lemma_q_mul_congr, lemma_q_sub_congr, q_add,
    q_checked, q_div, q_eq, q_lt, q_mul, q_one, q_sub, q_wf, q_zero, Qv, Ratio,
};
use crate::util::{fade_checked, map_color_decay};

verus! {

/// The checked computation behind `Particle::draw`'s faded alpha: the
/// reduced elapsed time since spawn, then the checked fade chain.
pub open spec fn draw_alpha_checked(p: Particle, now: Ratio) -> Option<Qv> {
    match q_checked(q_sub(now.q(), p.spawn_time.q())) {
        None => None,
        Some(el) => fade_checked(p.color.a.q(), el, p.decay.q()),
    }
}

/// A point-like line segment with a color, a size, and a lifetime.
#[derive(Clone, Copy, Debug, PartialEq, Eq, Structural)]
pub struct Particle {
    pub location: Vec3,
    pub end_location: Vec3,
    pub color: Color,
    pub size: Ratio,
    pub decay: Ratio,
    pub fades: bool,
    pub spawn_time: Ratio,
    pub expire_at: Ratio,
}

impl Particle {
    /// All scalars are well formed and the cached expiry instant is
    /// exactly `spawn_time + decay`.
    pub open spec fn wf(self) -> bool {
        &&& self.location.wf()
        &&& self.end_location.wf()
        &&& self.color.wf()
        &&& self.size.wf()
        &&& self.decay.wf()
        &&& self.spawn_time.wf()
        &&& self.expire_at.wf()
        &&& q_eq(self.expire_at.q(), q_add(self.spawn_time.q(), self.decay.q()))
    }

    /// Whether the particle's lifetime has passed at instant `now`.
    pub open spec fn expired_spec(self, now: Ratio) -> bool {
        q_lt(self.expire_at.q(), now.q())
    }

    /// Instantiate a new particle at `location`, spawned at `now`, with
    /// the given color, size and lifetime.  The end location is offset
    /// by `size` on every axis, so the particle reads as a small
    /// diagonal dash.
    pub fn new(
        location: Vec3,
        color: Color,
        size: Ratio,
        decay: Ratio,
        fades: bool,
        now: Ratio,
    ) -> (r: Result<Particle, Error>)
        requires
            location.wf(),
            color.wf(),
            size.wf(),
            decay.wf(),
            now.wf(),
        ensures
            match r {
                Ok(p) => {
                    &&& p.wf()
                    &&& p.location == location
                    &&& p.color == color
                    &&& p.size == size
                    &&& p.decay == decay
                    &&& p.fades == fades
                    &&& p.spawn_time == now
                    &&& Some(p.end_location.x.q()) == q_checked(q_add(location.x.q(), size.q()))
                    &&& Some(p.end_location.y.q()) == q_checked(q_add(location.y.q(), size.q()))
                    &&& Some(p.end_location.z.q()) == q_checked(q_add(location.z.q(), size.q()))
                    &&& Some(p.expire_at.q()) == q_checked(q_add(now.q(), decay.q()))
                },
                Err(er) => {
                    &&& er == Error::Overflow
                    &&& {
                        ||| q_checked(q_add(location.x.q(), size.q())) is None
                        ||| q_checked(q_add(location.y.q(), size.q())) is None
                        ||| q_checked(q_add(location.z.q(), size.q())) is None
                        ||| q_checked(q_add(now.q(), decay.q())) is None
                    }
                },
            },
    {
        let ex = match location.x.checked_add(&size) {
            Some(v) => v,
            None => {
                return Err(Error::Overflow);
            },
        };
        let ey = match location.y.checked_add(&size) {
            Some(v) => v,
            None => {
                return Err(Error::Overflow);
            },
        };
        let ez = match location.z.checked_add(&size) {
            Some(v) => v,
            None => {
                return Err(Error::Overflow);
            },
        };
        let end_location = Vec3 { x: ex, y: ey, z: ez };
        Particle::new_line(location, end_location, color, size, decay, fades, now)
    }

    /// Instantiate a new particle as the segment from `location` to
    /// `end_location`, spawned at `now`.
    pub fn new_line(
        location: Vec3,
        end_location: Vec3,
        color: Color,
        size: Ratio,
        decay: Ratio,
        fades: bool,
        now: Ratio,
    ) -> (r: Result<Particle, Error>)
        requires
            location.wf(),
            end_location.wf(),
            color.wf(),
            size.wf(),
            decay.wf(),
            now.wf(),
        ensures
            match r {
                Ok(p) => {
                    &&& p.wf()
                    &&& p == (Particle {
                        location,
                        end_location,
                        color,
                        size,
                        decay,
                        fades,
                        spawn_time: now,
                        expire_at: p.expire_at,
                    })
                    &&& Some(p.expire_at.q()) == q_checked(q_add(now.q(), decay.q()))
                },
                Err(er) => {
                    &&& er == Error::Overflow
                    &&& q_checked(q_add(now.q(), decay.q())) is None
                },
            },
    {
        let expire_at = match now.checked_add(&decay) {
            Some(v) => v,
            None => {
                return Err(Error::Overflow);
            },
        };
        Ok(Particle {
            location,
            end_location,
            color,
            size,
            decay,
            fades,
            spawn_time: now,
            expire_at,
        })
    }

    /// Return self (consuming it) with `x`, `y`, `z` added to its
    /// location.
    pub fn add_location(self, x: &Ratio, y: &Ratio, z: &Ratio) -> (r: Result<Particle, Error>)
        requires
            self.wf(),
            x.wf(),
            y.wf(),
            z.wf(),
        ensures
            match r {
                Ok(p) => {
                    &&& p.wf()
                    &&& p == (Particle { location: p.location, ..self })
                    &&& Some(p.location.x.q()) == q_checked(q_add(self.location.x.q(), x.q()))
                    &&& Some(p.location.y.q()) == q_checked(q_add(self.location.y.q(), y.q()))
                    &&& Some(p.location.z.q()) == q_checked(q_add(self.location.z.q(), z.q()))
                },
                Err(er) => {
                    &&& er == Error::Overflow
                    &&& {
                        ||| q_checked(q_add(self.location.x.q(), x.q())) is None
                        ||| q_checked(q_add(self.location.y.q(), y.q())) is None
                        ||| q_checked(q_add(self.location.z.q(), z.q())) is None
                    }
                },
            },
    {
        let nx = match self.location.x.checked_add(x) {
            Some(v) => v,
            None => {
                return Err(Error::Overflow);
            },
        };
        let ny = match self.location.y.checked_add(y) {
            Some(v) => v,
            None => {
                return Err(Error::Overflow);
            },
        };
        let nz = match self.location.z.checked_add(z) {
            Some(v) => v,
            None => {
                return Err(Error::Overflow);
            },
        };
        Ok(Particle { location: Vec3 { x: nx, y: ny, z: nz }, ..self })
    }

    /// Return self (consuming it) with `x`, `y`, `z` subtracted from
    /// its location.
    pub fn sub_location(self, x: &Ratio, y: &Ratio, z: &Ratio) -> (r: Result<Particle, Error>)
        requires
            self.wf(),
            x.wf(),
            y.wf(),
            z.wf(),
        ensures
            match r {
                Ok(p) => {
                    &&& p.wf()
                    &&& p == (Particle { location: p.location, ..self })
                    &&& Some(p.location.x.q()) == q_checked(q_sub(self.location.x.q(), x.q()))
                    &&& Some(p.location.y.q()) == q_checked(q_sub(self.location.y.q(), y.q()))
                    &&& Some(p.location.z.q()) == q_checked(q_sub(self.location.z.q(), z.q()))
                },
                Err(er) => {
                    &&& er == Error::Overflow
                    &&& {
                        ||| q_checked(q_sub(self.location.x.q(), x.q())) is None
                        ||| q_checked(q_sub(self.location.y.q(), y.q())) is None
                        ||| q_checked(q_sub(self.location.z.q(), z.q())) is None
                    }
                },
            },
    {
        let nx = match self.location.x.checked_sub(x) {
            Some(v) => v,
            None => {
                return Err(Error::Overflow);
            },
        };
        let ny = match self.location.y.checked_sub(y) {
            Some(v) => v,
            None => {
                return Err(Error::Overflow);
            },
        };
        let nz = match self.location.z.checked_sub(z) {
            Some(v) => v,
            None => {
                return Err(Error::Overflow);
            },
        };
        Ok(Particle { location: Vec3 { x: nx, y: ny, z: nz }, ..self })
    }

    /// Set the location of the particle.
    pub fn set_location(&mut self, location: Vec3)
        requires
            old(self).wf(),
            location.wf(),
        ensures
            *final(self) == (Particle { location, ..*old(self) }),
            final(self).wf(),
    {
        self.location = location;
    }

    /// Set the color of the particle.
    pub fn set_color(&mut self, color: Color)
        requires
            old(self).wf(),
            color.wf(),
        ensures
            *final(self) == (Particle { color, ..*old(self) }),
            final(self).wf(),
    {
        self.color = color;
    }

    /// Whether the particle's lifetime has passed at instant `now`.
    pub fn is_expired(&self, now: &Ratio) -> (r: bool)
        requires
            self.wf(),
            now.wf(),
        ensures
            r == self.expired_spec(*now),
    {
        self.expire_at.lt(now)
    }

    /// Compute the frame of this particle at instant `now`: the color
    /// it should be painted with, and whether it has expired.  For a
    /// fading particle with a positive lifetime the alpha channel is
    /// scaled by the fraction of the lifetime that is left,
    /// `1 - elapsed / decay`; a fading particle with a zero (or
    /// negative) lifetime is fully transparent.
    pub fn draw(&self, now: &Ratio) -> (r: Result<(Color, bool), Error>)
        requires
            self.wf(),
            now.wf(),
        ensures
            match r {
                Ok((c, expired)) => {
                    &&& c.wf()
                    &&& expired == self.expired_spec(*now)
                    &&& !self.fades ==> c == self.color
                    &&& self.fades && !q_lt(q_zero(), self.decay.q()) ==> c == (Color {
                        r: self.color.r,
                        g: self.color.g,
                        b: self.color.b,
                        a: Ratio { num: 0, den: 1 },
                    })
                    &&& self.fades && q_lt(q_zero(), self.decay.q()) ==> {
                        &&& c.r == self.color.r
                        &&& c.g == self.color.g
                        &&& c.b == self.color.b
                        &&& Some(c.a.q()) == draw_alpha_checked(*self, *now)
                        &&& q_eq(
                            c.a.q(),
                            q_mul(
                                self.color.a.q(),
                                q_sub(
                                    q_one(),
                                    q_div(
                                        q_sub(now.q(), self.spawn_time.q()),
                                        self.decay.q(),
                                    ),
                                ),
                            ),
                        )
                    }
                },
                Err(er) => {
                    &&& er == Error::Overflow
                    &&& self.fades && q_lt(q_zero(), self.decay.q())
                    &&& draw_alpha_checked(*self, *now) is None
                },
            },
    {
        let expired = self.is_expired(now);
        if !self.fades {
            return Ok((self.color, expired));
        }
        let zero = Ratio::zero();
        if !zero.lt(&self.decay) {
            return Ok((
                Color { r: self.color.r, g: self.color.g, b: self.color.b, a: zero },
                expired,
            ));
        }
        let elapsed = match now.checked_sub(&self.spawn_time) {
            Some(v) => v,
            None => {
                return Err(Error::Overflow);
            },
        };
        let faded = match map_color_decay(&self.color, &elapsed, &self.decay) {
            Ok(c) => c,
            Err(er) => {
                return Err(er);
            },
        };
        proof {
            // The reduced elapsed time denotes now - spawn_time, so the
            // faded alpha denotes the fraction formula at the exact
            // elapsed value too.
            let el0 = q_sub(now.q(), self.spawn_time.q());
            assert(q_wf(el0)) by (nonlinear_arith)
                requires
                    now.den > 0,
                    self.spawn_time.den > 0,
                    el0.d == now.q().d * self.spawn_time.q().d,
            {}
            lemma_q_div_congr_left(elapsed.q(), el0, self.decay.q());
            lemma_q_sub_congr(
                q_one(),
                q_div(elapsed.q(), self.decay.q()),
                q_one(),
                q_div(el0, self.decay.q()),
            );
            lemma_q_mul_congr(
                self.color.a.q(),
                q_sub(q_one(), q_div(elapsed.q(), self.decay.q())),
                self.color.a.q(),
                q_sub(q_one(), q_div(el0, self.decay.q())),
            );
            lemma_q_eq_trans(
                faded.a.q(),
                q_mul(self.color.a.q(), q_sub(q_one(), q_div(elapsed.q(), self.decay.q()))),
                q_mul(self.color.a.q(), q_sub(q_one(), q_div(el0, self.decay.q()))),
            );
        }
        Ok((faded, expired))
    }

    /// Reset the particle's clock: it counts as freshly spawned at
    /// `now`.
    pub fn reset(&mut self, now: Ratio) -> (r: Result<(), Error>)
        requires
            old(self).wf(),
            now.wf(),
        ensures
            match r {
                Ok(()) => {
                    &&& final(self).wf()
                    &&& *final(self) == (Particle {
                        spawn_time: now,
                        expire_at: final(self).expire_at,
                        ..*old(self)
                    })
                    &&& Some(final(self).expire_at.q()) == q_checked(q_add(now.q(), old(self).decay.q()))
                },
                Err(er) => {
                    &&& er == Error::Overflow
                    &&& *final(self) == *old(self)
                    &&& q_checked(q_add(now.q(), old(self).decay.q())) is None
                },
            },
    {
        let expire_at = match now.checked_add(&self.decay) {
            Some(v) => v,
            None => {
                return Err(Error::Overflow);
            },
        };
        self.spawn_time = now;
        self.expire_at = expire_at;
        Ok(())
    }

    /// Return self with lifetime `p` (keeping the spawn time).
    pub fn with_period(self, p: Ratio) -> (r: Result<Particle, Error>)
        requires
            self.wf(),
            p.wf(),
        ensures
            match r {
                Ok(q) => {
                    &&& q.wf()
                    &&& q == (Particle { decay: p, expire_at: q.expire_at, ..self })
                    &&& Some(q.expire_at.q()) == q_checked(q_add(self.spawn_time.q(), p.q()))
                },
                Err(er) => {
                    &&& er == Error::Overflow
                    &&& q_checked(q_add(self.spawn_time.q(), p.q())) is None
                },
            },
    {
        let expire_at = match self.spawn_time.checked_add(&p) {
            Some(v) => v,
            None => {
                return Err(Error::Overflow);
            },
        };
        Ok(Particle { decay: p, expire_at, ..self })
    }
}

} // verus!
