//! The leaf emitter: particles spawned along a straight line.
//!
//! A `LinearParticles` owns keyframe arrays for spawn density, position
//! along its line, color and size, all interpolated over its `period`.
//! Each frame it may spawn one short line segment (a Bernoulli trial of
//! the interpolated density against a uniform draw), retires the
//! particles whose lifetime has passed, and reports whether its period
//! is still running.
//!
//! `LinearGrp` is the specialised synchronous group that holds plain
//! `LinearParticles` children only; the general groups live in the
//! `groups` module.

use vstd::prelude::*;

use crate::error::{Constraint, Error, Field};
use crate::geom::{Color, Vec3};
use crate::particle::Particle;
use crate::particle_sys::Frame;
use crate::ratio::{
    lemma_abs_prod_bound, q_add, q_checked, q_eq, q_le, q_lt, q_sub, q_wf, q_zero, ratio_of, Qv,
    Ratio,
};
use crate::util::{
    check_colors, check_decay, check_densities, check_locations, check_period, check_sizes,
    colors_wf, in_unit, interp_checked, map_color_checked, map_color_value, map_float_value,
    map_location, map_location_checked, non_negative, seq_q, seq_wf, sizes_err, sizes_ok,
    unit_array_err, unit_array_ok,
};

verus! {

/// Particle system generated along a single straight line.
///
/// The keyframe arrays are interpolated over the `period`: `densities`
/// gives the per-frame spawn chance in `[0, 1]`, `locations` the
/// position ratio along the line (one maps to `start_location`, zero to
/// `end_location`), `colors` the spawn color and `sizes` the geometric
/// size.  `decay` is each spawned particle's lifetime.
#[derive(Debug)]
pub struct LinearParticles {
    pub particles: Vec<Particle>,
    pub start_location: Vec3,
    pub end_location: Vec3,
    pub locations: Vec<Ratio>,
    pub densities: Vec<Ratio>,
    pub colors: Vec<Color>,
    pub sizes: Vec<Ratio>,
    pub period: Ratio,
    pub decay: Ratio,
    pub initialized: bool,
    pub looping: bool,
    pub active: bool,
    pub start_time: Ratio,
}

impl LinearParticles {
    /// Every scalar of the configuration is well formed (positive
    /// denominators), with no claim yet about the documented ranges.
    /// This is all `setup` needs to run its validation.
    pub open spec fn scalars_wf(self) -> bool {
        &&& self.start_location.wf()
        &&& self.end_location.wf()
        &&& seq_wf(self.locations@)
        &&& seq_wf(self.densities@)
        &&& colors_wf(self.colors@)
        &&& seq_wf(self.sizes@)
        &&& self.period.wf()
        &&& self.decay.wf()
        &&& self.start_time.wf()
    }

    /// The documented configuration constraints, exactly what `setup`
    /// validates: non-empty keyframe arrays, densities and locations in
    /// `[0, 1]`, sizes at least zero, a positive period and a
    /// non-negative decay.
    pub open spec fn valid_config(self) -> bool {
        &&& unit_array_ok(self.densities@)
        &&& unit_array_ok(self.locations@)
        &&& self.colors@.len() >= 1
        &&& sizes_ok(self.sizes@)
        &&& q_lt(q_zero(), self.period.q())
        &&& q_le(q_zero(), self.decay.q())
    }

    /// The configuration invariant: constructors and builders preserve
    /// it, so on such values `setup`'s re-validation cannot fail.
    pub open spec fn config_wf(self) -> bool {
        self.scalars_wf() && self.valid_config()
    }

    pub open spec fn particles_wf(self) -> bool {
        forall|i: int| 0 <= i < self.particles@.len() ==> (#[trigger] self.particles@[i]).wf()
    }

    pub open spec fn wf(self) -> bool {
        self.config_wf() && self.particles_wf()
    }

    /// The two states agree on every configuration field (everything
    /// but the live particles, the flags and the clock).
    pub open spec fn same_config(pre: LinearParticles, post: LinearParticles) -> bool {
        &&& post.start_location == pre.start_location
        &&& post.end_location == pre.end_location
        &&& post.locations@ == pre.locations@
        &&& post.densities@ == pre.densities@
        &&& post.colors@ == pre.colors@
        &&& post.sizes@ == pre.sizes@
        &&& post.period == pre.period
        &&& post.decay == pre.decay
    }

    /// What a successful `setup` leaves behind.
    pub open spec fn setup_rel(
        pre: LinearParticles,
        post: LinearParticles,
        should_loop: bool,
        resolved: Ratio,
        now: Ratio,
    ) -> bool {
        &&& post.particles@ == Seq::<Particle>::empty()
        &&& post.start_location == pre.start_location
        &&& post.end_location == pre.end_location
        &&& post.locations@ == pre.locations@
        &&& post.densities@ == pre.densities@
        &&& post.colors@ == pre.colors@
        &&& post.sizes@ == pre.sizes@
        &&& post.period == resolved
        &&& post.decay == pre.decay
        &&& post.looping == should_loop
        &&& post.active
        &&& post.initialized
        &&& post.start_time == now
    }

    /// Create a new emitter spanning `start_loc` to `end_loc`, with the
    /// default configuration: a full sweep of the line (`locations`
    /// `[0, 1]`), certain spawning (`densities` `[1]`), opaque white
    /// color, a small size, a one-second period and a lifetime of
    /// `9/100` seconds.
    pub fn new(start_loc: Vec3, end_loc: Vec3) -> (r: LinearParticles)
        requires
            start_loc.wf(),
            end_loc.wf(),
        ensures
            r.wf(),
            !r.active,
            !r.initialized,
            !r.looping,
            r.particles@.len() == 0,
            r.start_location == start_loc,
            r.end_location == end_loc,
            r.locations@ =~= seq![Ratio { num: 0, den: 1 }, Ratio { num: 1, den: 1 }],
            r.densities@ =~= seq![Ratio { num: 1, den: 1 }],
            r.colors@ =~= seq![
                Color {
                    r: Ratio { num: 1, den: 1 },
                    g: Ratio { num: 1, den: 1 },
                    b: Ratio { num: 1, den: 1 },
                    a: Ratio { num: 1, den: 1 },
                },
            ],
            r.sizes@ =~= seq![Ratio { num: 1, den: 100 }],
            r.period == (Ratio { num: 1, den: 1 }),
            r.decay == (Ratio { num: 9, den: 100 }),
            r.start_time == (Ratio { num: 0, den: 1 }),
    {
        let mut locations: Vec<Ratio> = Vec::new();
        locations.push(Ratio { num: 0, den: 1 });
        locations.push(Ratio { num: 1, den: 1 });
        let mut densities: Vec<Ratio> = Vec::new();
        densities.push(Ratio { num: 1, den: 1 });
        let mut colors: Vec<Color> = Vec::new();
        colors.push(Color::white());
        let mut sizes: Vec<Ratio> = Vec::new();
        sizes.push(Ratio { num: 1, den: 100 });
        LinearParticles {
            particles: Vec::new(),
            start_location: start_loc,
            end_location: end_loc,
            locations,
            densities,
            colors,
            sizes,
            period: Ratio { num: 1, den: 1 },
            decay: Ratio { num: 9, den: 100 },
            initialized: false,
            looping: false,
            active: false,
            start_time: Ratio { num: 0, den: 1 },
        }
    }

    /// Return self (consuming it) with lifetime `d`.
    pub fn with_decay(self, d: Ratio) -> (r: Result<LinearParticles, Error>)
        requires
            self.wf(),
            d.wf(),
        ensures
            match r {
                Ok(p) => {
                    &&& q_le(q_zero(), d.q())
                    &&& p == (LinearParticles { decay: d, ..self })
                    &&& p.wf()
                },
                Err(er) => {
                    &&& !q_le(q_zero(), d.q())
                    &&& er == (Error::Validation {
                        field: Field::Decay,
                        constraint: Constraint::NonNegative,
                        value: d,
                    })
                },
            },
    {
        match check_decay(&d) {
            Ok(()) => Ok(LinearParticles { decay: d, ..self }),
            Err(er) => Err(er),
        }
    }

    /// Return self (consuming it) with location keyframes `l`.
    pub fn with_locations(self, l: &Vec<Ratio>) -> (r: Result<LinearParticles, Error>)
        requires
            self.wf(),
            seq_wf(l@),
        ensures
            match r {
                Ok(p) => {
                    &&& l@.len() >= 1
                    &&& forall|i: int| 0 <= i < l@.len() ==> in_unit(#[trigger] l@[i])
                    &&& p.locations@ == l@
                    &&& p == (LinearParticles { locations: p.locations, ..self })
                    &&& p.wf()
                },
                Err(er) => {
                    &&& !(l@.len() >= 1 && forall|i: int|
                        0 <= i < l@.len() ==> in_unit(#[trigger] l@[i]))
                    &&& er matches Error::Validation { field, .. } && field == Field::Locations
                },
            },
    {
        match check_locations(l) {
            Ok(()) => {
                let locations = copy_ratios(l);
                Ok(LinearParticles { locations, ..self })
            },
            Err(er) => Err(er),
        }
    }

    /// Return self (consuming it) with density keyframes `d`.
    pub fn with_densities(self, d: &Vec<Ratio>) -> (r: Result<LinearParticles, Error>)
        requires
            self.wf(),
            seq_wf(d@),
        ensures
            match r {
                Ok(p) => {
                    &&& d@.len() >= 1
                    &&& forall|i: int| 0 <= i < d@.len() ==> in_unit(#[trigger] d@[i])
                    &&& p.densities@ == d@
                    &&& p == (LinearParticles { densities: p.densities, ..self })
                    &&& p.wf()
                },
                Err(er) => {
                    &&& !(d@.len() >= 1 && forall|i: int|
                        0 <= i < d@.len() ==> in_unit(#[trigger] d@[i]))
                    &&& er matches Error::Validation { field, .. } && field == Field::Densities
                },
            },
    {
        match check_densities(d) {
            Ok(()) => {
                let densities = copy_ratios(d);
                Ok(LinearParticles { densities, ..self })
            },
            Err(er) => Err(er),
        }
    }

    /// Return self (consuming it) with color keyframes `c`.
    pub fn with_colors(self, c: &Vec<Color>) -> (r: Result<LinearParticles, Error>)
        requires
            self.wf(),
            colors_wf(c@),
        ensures
            match r {
                Ok(p) => {
                    &&& c@.len() >= 1
                    &&& p.colors@ == c@
                    &&& p == (LinearParticles { colors: p.colors, ..self })
                    &&& p.wf()
                },
                Err(er) => {
                    &&& c@.len() == 0
                    &&& er == (Error::Validation {
                        field: Field::Colors,
                        constraint: Constraint::NonEmpty,
                        value: Ratio { num: 0, den: 1 },
                    })
                },
            },
    {
        match check_colors(c) {
            Ok(()) => {
                let colors = copy_colors(c);
                Ok(LinearParticles { colors, ..self })
            },
            Err(er) => Err(er),
        }
    }

    /// Return self (consuming it) with size keyframes `s`.
    pub fn with_sizes(self, s: &Vec<Ratio>) -> (r: Result<LinearParticles, Error>)
        requires
            self.wf(),
            seq_wf(s@),
        ensures
            match r {
                Ok(p) => {
                    &&& s@.len() >= 1
                    &&& forall|i: int| 0 <= i < s@.len() ==> non_negative(#[trigger] s@[i])
                    &&& p.sizes@ == s@
                    &&& p == (LinearParticles { sizes: p.sizes, ..self })
                    &&& p.wf()
                },
                Err(er) => {
                    &&& !(s@.len() >= 1 && forall|i: int|
                        0 <= i < s@.len() ==> non_negative(#[trigger] s@[i]))
                    &&& er matches Error::Validation { field, .. } && field == Field::Sizes
                },
            },
    {
        match check_sizes(s) {
            Ok(()) => {
                let sizes = copy_ratios(s);
                Ok(LinearParticles { sizes, ..self })
            },
            Err(er) => Err(er),
        }
    }

    /// Return self (consuming it) with start location `sl` and end
    /// location `el`.
    pub fn with_start_end(self, sl: Vec3, el: Vec3) -> (r: Result<LinearParticles, Error>)
        requires
            self.wf(),
            sl.wf(),
            el.wf(),
        ensures
            r == Ok::<LinearParticles, Error>(LinearParticles {
                start_location: sl,
                end_location: el,
                ..self
            }),
            r matches Ok(p) && p.wf(),
    {
        Ok(LinearParticles { start_location: sl, end_location: el, ..self })
    }

    /// An exact copy of this emitter.
    pub fn duplicate(&self) -> (r: LinearParticles)
        requires
            self.wf(),
        ensures
            r.wf(),
            r.particles@ == self.particles@,
            LinearParticles::same_config(*self, r),
            r.initialized == self.initialized,
            r.looping == self.looping,
            r.active == self.active,
            r.start_time == self.start_time,
    {
        LinearParticles {
            particles: copy_particles(&self.particles),
            start_location: self.start_location,
            end_location: self.end_location,
            locations: copy_ratios(&self.locations),
            densities: copy_ratios(&self.densities),
            colors: copy_colors(&self.colors),
            sizes: copy_ratios(&self.sizes),
            period: self.period,
            decay: self.decay,
            initialized: self.initialized,
            looping: self.looping,
            active: self.active,
            start_time: self.start_time,
        }
    }

    /// Return a copy of self with lifetime `d`.
    pub fn clone_with_decay(&self, d: Ratio) -> (r: Result<LinearParticles, Error>)
        requires
            self.wf(),
            d.wf(),
        ensures
            match r {
                Ok(p) => {
                    &&& q_le(q_zero(), d.q())
                    &&& p.wf()
                    &&& p.decay == d
                    &&& p.particles@ == self.particles@
                    &&& p.start_location == self.start_location
                    &&& p.end_location == self.end_location
                    &&& p.locations@ == self.locations@
                    &&& p.densities@ == self.densities@
                    &&& p.colors@ == self.colors@
                    &&& p.sizes@ == self.sizes@
                    &&& p.period == self.period
                },
                Err(er) => {
                    &&& !q_le(q_zero(), d.q())
                    &&& er == (Error::Validation {
                        field: Field::Decay,
                        constraint: Constraint::NonNegative,
                        value: d,
                    })
                },
            },
    {
        self.duplicate().with_decay(d)
    }

    /// Return a copy of self with location keyframes `l`.
    pub fn clone_with_locations(&self, l: &Vec<Ratio>) -> (r: Result<LinearParticles, Error>)
        requires
            self.wf(),
            seq_wf(l@),
        ensures
            match r {
                Ok(p) => {
                    &&& p.wf()
                    &&& p.locations@ == l@
                    &&& p.particles@ == self.particles@
                    &&& p.start_location == self.start_location
                    &&& p.end_location == self.end_location
                    &&& p.densities@ == self.densities@
                    &&& p.colors@ == self.colors@
                    &&& p.sizes@ == self.sizes@
                    &&& p.period == self.period
                    &&& p.decay == self.decay
                },
                Err(er) => er matches Error::Validation { field, .. } && field == Field::Locations,
            },
    {
        self.duplicate().with_locations(l)
    }

    /// Return a copy of self with density keyframes `d`.
    pub fn clone_with_densities(&self, d: &Vec<Ratio>) -> (r: Result<LinearParticles, Error>)
        requires
            self.wf(),
            seq_wf(d@),
        ensures
            match r {
                Ok(p) => {
                    &&& p.wf()
                    &&& p.densities@ == d@
                    &&& p.particles@ == self.particles@
                    &&& p.start_location == self.start_location
                    &&& p.end_location == self.end_location
                    &&& p.locations@ == self.locations@
                    &&& p.colors@ == self.colors@
                    &&& p.sizes@ == self.sizes@
                    &&& p.period == self.period
                    &&& p.decay == self.decay
                },
                Err(er) => er matches Error::Validation { field, .. } && field == Field::Densities,
            },
    {
        self.duplicate().with_densities(d)
    }

    /// Return a copy of self with color keyframes `c`.
    pub fn clone_with_colors(&self, c: &Vec<Color>) -> (r: Result<LinearParticles, Error>)
        requires
            self.wf(),
            colors_wf(c@),
        ensures
            match r {
                Ok(p) => {
                    &&& p.wf()
                    &&& p.colors@ == c@
                    &&& p.particles@ == self.particles@
                    &&& p.start_location == self.start_location
                    &&& p.end_location == self.end_location
                    &&& p.locations@ == self.locations@
                    &&& p.densities@ == self.densities@
                    &&& p.sizes@ == self.sizes@
                    &&& p.period == self.period
                    &&& p.decay == self.decay
                },
                Err(er) => er matches Error::Validation { field, .. } && field == Field::Colors,
            },
    {
        self.duplicate().with_colors(c)
    }

    /// Return a copy of self with start location `sl` and end location
    /// `el`.
    pub fn clone_with_start_end(&self, sl: Vec3, el: Vec3) -> (r: Result<LinearParticles, Error>)
        requires
            self.wf(),
            sl.wf(),
            el.wf(),
        ensures
            match r {
                Ok(p) => {
                    &&& p.wf()
                    &&& p.start_location == sl
                    &&& p.end_location == el
                    &&& p.particles@ == self.particles@
                    &&& p.locations@ == self.locations@
                    &&& p.densities@ == self.densities@
                    &&& p.colors@ == self.colors@
                    &&& p.sizes@ == self.sizes@
                    &&& p.period == self.period
                    &&& p.decay == self.decay
                },
                Err(er) => false,
            },
    {
        self.duplicate().with_start_end(sl, el)
    }

    /// Reverse the keyframe arrays and swap the start and end
    /// locations, so that the configured presets play backwards.  The
    /// elapsed time of the emitter is not reset.
    pub fn reversed(&mut self)
        requires
            old(self).wf(),
        ensures
            final(self).wf(),
            reversed_rel(*old(self), *final(self)),
            final(self).start_location == old(self).end_location,
            final(self).end_location == old(self).start_location,
            final(self).locations@ == old(self).locations@.reverse(),
            final(self).densities@ == old(self).densities@.reverse(),
            final(self).colors@ == old(self).colors@.reverse(),
            final(self).sizes@ == old(self).sizes@.reverse(),
            final(self).particles@ == old(self).particles@,
            final(self).period == old(self).period,
            final(self).decay == old(self).decay,
            final(self).initialized == old(self).initialized,
            final(self).looping == old(self).looping,
            final(self).active == old(self).active,
            final(self).start_time == old(self).start_time,
    {
        let tmp = self.start_location;
        self.start_location = self.end_location;
        self.end_location = tmp;
        let locations = reverse_ratios(&self.locations);
        self.locations = locations;
        let densities = reverse_ratios(&self.densities);
        self.densities = densities;
        let colors = reverse_colors(&self.colors);
        self.colors = colors;
        let sizes = reverse_ratios(&self.sizes);
        self.sizes = sizes;
        proof {
            assert forall|i: int|
                0 <= i < self.locations@.len() implies (#[trigger] self.locations@[i]).wf()
                && in_unit(self.locations@[i]) by {
                assert(self.locations@[i] == old(self).locations@[old(
                    self,
                ).locations@.len() - 1 - i]);
            }
            assert forall|i: int|
                0 <= i < self.densities@.len() implies (#[trigger] self.densities@[i]).wf()
                && in_unit(self.densities@[i]) by {
                assert(self.densities@[i] == old(self).densities@[old(
                    self,
                ).densities@.len() - 1 - i]);
            }
            assert forall|i: int|
                0 <= i < self.colors@.len() implies (#[trigger] self.colors@[i]).wf() by {
                assert(self.colors@[i] == old(self).colors@[old(self).colors@.len() - 1 - i]);
            }
            assert forall|i: int|
                0 <= i < self.sizes@.len() implies (#[trigger] self.sizes@[i]).wf()
                && non_negative(self.sizes@[i]) by {
                assert(self.sizes@[i] == old(self).sizes@[old(self).sizes@.len() - 1 - i]);
            }
        }
    }

    /// Whether the emitter is in its active state.
    pub fn is_active(&self) -> (r: bool)
        ensures
            r == self.active,
    {
        self.active
    }

    /// Whether the emitter is in its active, looping state.
    pub fn is_looping(&self) -> (r: bool)
        ensures
            r == (self.active && self.looping),
    {
        self.active && self.looping
    }

    /// Whether the emitter has been set up and is ready to run.
    pub fn is_initialized(&self) -> (r: bool)
        ensures
            r == self.initialized,
    {
        self.initialized
    }

    /// Reset the emitter's clock: elapsed time is measured from `now`.
    pub fn reset_time(&mut self, now: Ratio)
        requires
            old(self).wf(),
            now.wf(),
        ensures
            final(self).wf(),
            *final(self) == (LinearParticles { start_time: now, ..*old(self) }),
    {
        self.start_time = now;
    }

    /// The elapsed seconds since the clock was last reset, or `None`
    /// when the exact difference leaves the 64-bit range.
    pub fn elapsed_time(&self, now: &Ratio) -> (r: Option<Ratio>)
        requires
            self.wf(),
            now.wf(),
        ensures
            match r {
                Some(e) => {
                    &&& e.wf()
                    &&& Some(e.q()) == q_checked(q_sub(now.q(), self.start_time.q()))
                    &&& q_eq(e.q(), q_sub(now.q(), self.start_time.q()))
                },
                None => q_checked(q_sub(now.q(), self.start_time.q())) is None,
            },
    {
        now.checked_sub(&self.start_time)
    }

    /// Set up the emitter so that it is ready to be displayed: validate
    /// the configuration (densities, locations, colors, sizes, the
    /// resolved period, decay, in that order, reporting the first
    /// violation), clear the live particles, arm the flags and reset
    /// the clock to `now`.
    ///
    /// Only scalar well-formedness is required, so an emitter whose
    /// public fields were set to an invalid configuration is rejected
    /// here with the matching validation error, never armed.  On any
    /// error the emitter is unchanged.
    pub fn setup(&mut self, should_loop: bool, p: Option<Ratio>, now: Ratio) -> (r: Result<
        (),
        Error,
    >)
        requires
            old(self).scalars_wf(),
            old(self).particles_wf(),
            now.wf(),
            p matches Some(pp) ==> pp.wf(),
        ensures
            ({
                let resolved = match p {
                    Some(pp) => pp,
                    None => old(self).period,
                };
                match r {
                    Ok(()) => {
                        &&& final(self).wf()
                        &&& unit_array_ok(old(self).densities@)
                        &&& unit_array_ok(old(self).locations@)
                        &&& old(self).colors@.len() >= 1
                        &&& sizes_ok(old(self).sizes@)
                        &&& q_lt(q_zero(), resolved.q())
                        &&& q_le(q_zero(), old(self).decay.q())
                        &&& LinearParticles::setup_rel(
                            *old(self),
                            *final(self),
                            should_loop,
                            resolved,
                            now,
                        )
                    },
                    Err(er) => {
                        &&& *final(self) == *old(self)
                        &&& if !unit_array_ok(old(self).densities@) {
                            unit_array_err(old(self).densities@, Field::Densities, er)
                        } else if !unit_array_ok(old(self).locations@) {
                            unit_array_err(old(self).locations@, Field::Locations, er)
                        } else if old(self).colors@.len() == 0 {
                            er == (Error::Validation {
                                field: Field::Colors,
                                constraint: Constraint::NonEmpty,
                                value: Ratio { num: 0, den: 1 },
                            })
                        } else if !sizes_ok(old(self).sizes@) {
                            sizes_err(old(self).sizes@, er)
                        } else if !q_lt(q_zero(), resolved.q()) {
                            er == (Error::Validation {
                                field: Field::Period,
                                constraint: Constraint::Positive,
                                value: resolved,
                            })
                        } else {
                            &&& !q_le(q_zero(), old(self).decay.q())
                            &&& er == (Error::Validation {
                                field: Field::Decay,
                                constraint: Constraint::NonNegative,
                                value: old(self).decay,
                            })
                        }
                    },
                }
            }),
    {
        match check_densities(&self.densities) {
            Ok(()) => {},
            Err(er) => {
                return Err(er);
            },
        }
        match check_locations(&self.locations) {
            Ok(()) => {},
            Err(er) => {
                return Err(er);
            },
        }
        match check_colors(&self.colors) {
            Ok(()) => {},
            Err(er) => {
                return Err(er);
            },
        }
        match check_sizes(&self.sizes) {
            Ok(()) => {},
            Err(er) => {
                return Err(er);
            },
        }
        let resolved = match p {
            Some(pp) => pp,
            None => self.period,
        };
        match check_period(&resolved) {
            Ok(()) => {},
            Err(er) => {
                return Err(er);
            },
        }
        match check_decay(&self.decay) {
            Ok(()) => {},
            Err(er) => {
                return Err(er);
            },
        }
        self.period = resolved;
        self.particles.clear();
        self.looping = should_loop;
        self.active = true;
        self.initialized = true;
        self.start_time = now;
        Ok(())
    }

    /// Tear the emitter down: it is no longer active nor initialized.
    /// Live particles are left to finish fading on their own; the next
    /// `setup` clears them.
    pub fn tear_down(&mut self)
        requires
            old(self).wf(),
        ensures
            final(self).wf(),
            *final(self) == (LinearParticles {
                active: false,
                initialized: false,
                ..*old(self)
            }),
    {
        self.active = false;
        self.initialized = false;
    }

    /// Return self (consuming it) with period `p`.
    pub fn with_period(self, p: Ratio) -> (r: Result<LinearParticles, Error>)
        requires
            self.wf(),
            p.wf(),
        ensures
            match r {
                Ok(q) => {
                    &&& q_lt(q_zero(), p.q())
                    &&& q == (LinearParticles { period: p, ..self })
                    &&& q.wf()
                },
                Err(er) => {
                    &&& !q_lt(q_zero(), p.q())
                    &&& er == (Error::Validation {
                        field: Field::Period,
                        constraint: Constraint::Positive,
                        value: p,
                    })
                },
            },
    {
        match check_period(&p) {
            Ok(()) => Ok(LinearParticles { period: p, ..self }),
            Err(er) => Err(er),
        }
    }
}

/// The time an emitter works with this tick: the explicit override if
/// one was passed, else the exact (reduced) elapsed time of its own
/// clock, or `None` when that difference leaves the 64-bit range.
pub open spec fn resolve_time(time: Option<Ratio>, now: Ratio, start: Ratio) -> Option<Ratio> {
    match time {
        Some(t) => Some(t),
        None => match q_checked(q_sub(now.q(), start.q())) {
            None => None,
            Some(m) => Some(ratio_of(m)),
        },
    }
}

/// The Bernoulli trial for spawning: the interpolated density `chance`
/// must exceed the uniform draw, read as the fraction `draw / 2^32`.
pub open spec fn density_passes(chance: Qv, draw: u32) -> bool {
    q_lt(Qv { n: draw as int, d: 0x1_0000_0000 }, chance)
}

/// The particle a spawning frame creates, computed step by checked
/// step: the segment runs from the interpolated location at `current`
/// to the interpolated location one host frame later, with the
/// interpolated color and size, the emitter's decay, and fading on.
pub open spec fn lp_spawn_checked(s: LinearParticles, current: Ratio, fr: Frame) -> Option<
    Particle,
> {
    match map_location_checked(
        seq_q(s.locations@),
        s.start_location,
        s.end_location,
        current.q(),
        s.period.q(),
    ) {
        None => None,
        Some(pa) => match q_checked(q_add(current.q(), fr.delta.q())) {
            None => None,
            Some(t2) => match map_location_checked(
                seq_q(s.locations@),
                s.start_location,
                s.end_location,
                t2,
                s.period.q(),
            ) {
                None => None,
                Some(pb) => match map_color_checked(s.colors@, current.q(), s.period.q()) {
                    None => None,
                    Some(col) => match interp_checked(
                        seq_q(s.sizes@),
                        current.q(),
                        s.period.q(),
                    ) {
                        None => None,
                        Some(sz) => match q_checked(q_add(fr.now.q(), s.decay.q())) {
                            None => None,
                            Some(exp) => Some(
                                Particle {
                                    location: Vec3 {
                                        x: ratio_of(pa.0),
                                        y: ratio_of(pa.1),
                                        z: ratio_of(pa.2),
                                    },
                                    end_location: Vec3 {
                                        x: ratio_of(pb.0),
                                        y: ratio_of(pb.1),
                                        z: ratio_of(pb.2),
                                    },
                                    color: Color {
                                        r: ratio_of(col.0),
                                        g: ratio_of(col.1),
                                        b: ratio_of(col.2),
                                        a: ratio_of(col.3),
                                    },
                                    size: ratio_of(sz),
                                    decay: s.decay,
                                    fades: true,
                                    spawn_time: fr.now,
                                    expire_at: ratio_of(exp),
                                },
                            ),
                        },
                    },
                },
            },
        },
    }
}

/// The particles still alive at instant `now`: those whose lifetime
/// has not passed, in their original order.
pub open spec fn retire(ps: Seq<Particle>, now: Ratio) -> Seq<Particle> {
    ps.filter(|p: Particle| !p.expired_spec(now))
}

/// One frame of an emitter, computed step by checked step: resolve the
/// working time, decide the Bernoulli spawn while the period is still
/// running, then retire expired particles.  The result is the new live
/// particle sequence and whether the period is still running; `None`
/// means the exact arithmetic left the 64-bit range (the emitter is
/// then unchanged and reports `Overflow`).
pub open spec fn lp_step(s: LinearParticles, time: Option<Ratio>, fr: Frame, draw: u32) -> Option<
    (Seq<Particle>, bool),
> {
    match resolve_time(time, fr.now, s.start_time) {
        None => None,
        Some(cur) => {
            let still = q_le(cur.q(), s.period.q());
            if still {
                match interp_checked(seq_q(s.densities@), cur.q(), s.period.q()) {
                    None => None,
                    Some(chance) => if density_passes(chance, draw) {
                        match lp_spawn_checked(s, cur, fr) {
                            None => None,
                            Some(p) => Some((retire(s.particles@.push(p), fr.now), still)),
                        }
                    } else {
                        Some((retire(s.particles@, fr.now), still))
                    },
                }
            } else {
                Some((retire(s.particles@, fr.now), still))
            }
        },
    }
}

impl LinearParticles {
    /// Advance the emitter one frame with an explicit Bernoulli draw:
    /// sample the density at the working time, spawn one particle when
    /// the draw passes, retire expired particles, and report whether
    /// the period is still running.  On `Overflow` the emitter is left
    /// unchanged.
    ///
    /// This is the fully deterministic frame step; `next_frame` feeds
    /// it one uniform draw.
    #[verifier::rlimit(50)]
    pub fn next_frame_with_draw(&mut self, time: Option<Ratio>, fr: &Frame, draw: u32) -> (r:
        Result<bool, Error>)
        requires
            old(self).wf(),
            fr.wf(),
            time matches Some(t) ==> t.wf(),
        ensures
            match r {
                Ok(b) => {
                    &&& final(self).wf()
                    &&& match lp_step(*old(self), time, *fr, draw) {
                        Some(pr) => final(self).particles@ == pr.0 && b == pr.1,
                        None => false,
                    }
                    &&& LinearParticles::same_config(*old(self), *final(self))
                    &&& final(self).active == old(self).active
                    &&& final(self).initialized == old(self).initialized
                    &&& final(self).looping == old(self).looping
                    &&& final(self).start_time == old(self).start_time
                    &&& match resolve_time(time, fr.now, old(self).start_time) {
                        Some(cur) => b == q_le(cur.q(), old(self).period.q()),
                        None => false,
                    }
                },
                Err(er) => {
                    &&& er == Error::Overflow
                    &&& *final(self) == *old(self)
                    &&& lp_step(*old(self), time, *fr, draw) is None
                },
            },
    {
        let current = match time {
            Some(t) => t,
            None => match self.elapsed_time(&fr.now) {
                Some(e) => e,
                None => {
                    return Err(Error::Overflow);
                },
            },
        };
        let still = current.le(&self.period);
        let mut spawned: Option<Particle> = None;
        if still {
            let chance = match map_float_value(&self.densities, &current, &self.period) {
                Ok(v) => v,
                Err(er) => {
                    return Err(er);
                },
            };
            if chance_passes(&chance, draw) {
                let loc_a = match map_location(
                    &self.locations,
                    &self.start_location,
                    &self.end_location,
                    &current,
                    &self.period,
                ) {
                    Ok(v) => v,
                    Err(er) => {
                        return Err(er);
                    },
                };
                let t2 = match current.checked_add(&fr.delta) {
                    Some(v) => v,
                    None => {
                        return Err(Error::Overflow);
                    },
                };
                let loc_b = match map_location(
                    &self.locations,
                    &self.start_location,
                    &self.end_location,
                    &t2,
                    &self.period,
                ) {
                    Ok(v) => v,
                    Err(er) => {
                        return Err(er);
                    },
                };
                let col = match map_color_value(&self.colors, &current, &self.period) {
                    Ok(v) => v,
                    Err(er) => {
                        return Err(er);
                    },
                };
                let size = match map_float_value(&self.sizes, &current, &self.period) {
                    Ok(v) => v,
                    Err(er) => {
                        return Err(er);
                    },
                };
                let p = match Particle::new_line(
                    loc_a,
                    loc_b,
                    col,
                    size,
                    self.decay,
                    true,
                    fr.now,
                ) {
                    Ok(v) => v,
                    Err(er) => {
                        return Err(er);
                    },
                };
                spawned = Some(p);
            }
        }
        match spawned {
            Some(p) => {
                self.particles.push(p);
            },
            None => {},
        }
        let kept = retire_particles(&self.particles, &fr.now);
        self.particles = kept;
        Ok(still)
    }

    /// Advance the emitter one frame: draw one uniform sample and take
    /// the deterministic step with it.  Whatever the draw, the returned
    /// flag says exactly whether the period was still running at the
    /// working time.
    pub fn next_frame(&mut self, time: Option<Ratio>, fr: &Frame) -> (r: Result<bool, Error>)
        requires
            old(self).wf(),
            fr.wf(),
            time matches Some(t) ==> t.wf(),
        ensures
            match r {
                Ok(b) => {
                    &&& final(self).wf()
                    &&& exists|d: u32|
                        match #[trigger] lp_step(*old(self), time, *fr, d) {
                            Some(pr) => final(self).particles@ == pr.0 && b == pr.1,
                            None => false,
                        }
                    &&& LinearParticles::same_config(*old(self), *final(self))
                    &&& final(self).active == old(self).active
                    &&& final(self).initialized == old(self).initialized
                    &&& final(self).looping == old(self).looping
                    &&& final(self).start_time == old(self).start_time
                    &&& match resolve_time(time, fr.now, old(self).start_time) {
                        Some(cur) => b == q_le(cur.q(), old(self).period.q()),
                        None => false,
                    }
                },
                Err(er) => {
                    &&& er == Error::Overflow
                    &&& *final(self) == *old(self)
                    &&& exists|d: u32| #[trigger] lp_step(*old(self), time, *fr, d) is None
                },
            },
    {
        let draw = random_unit();
        let r = self.next_frame_with_draw(time, fr, draw);
        proof {
            match r {
                Ok(b) => {
                    assert(match lp_step(*old(self), time, *fr, draw) {
                        Some(pr) => final(self).particles@ == pr.0 && b == pr.1,
                        None => false,
                    });
                },
                Err(_) => {
                    assert(lp_step(*old(self), time, *fr, draw) is None);
                },
            }
        }
        r
    }
}

/// Whether the interpolated density beats the uniform draw.
fn chance_passes(chance: &Ratio, draw: u32) -> (r: bool)
    requires
        chance.wf(),
    ensures
        r == density_passes(chance.q(), draw),
{
    proof {
        lemma_abs_prod_bound(draw as int, chance.den as int, 0x1_0000_0000, i64::MAX as int);
        lemma_abs_prod_bound(chance.num as int, 0x1_0000_0000, i64::MAX as int, 0x1_0000_0000);
    }
    (draw as i128) * (chance.den as i128) < (chance.num as i128) * 0x1_0000_0000i128
}

/// Relies on `rand::random`: one sample of a uniformly distributed
/// 32-bit value from the thread-local generator.  Nothing is promised
/// of the result; callers state what holds for every draw.
#[verifier::external_body]
fn random_unit() -> u32 {
    rand::random::<u32>()
}

/// Keep exactly the particles that have not expired at `now`, in
/// order.
fn retire_particles(v: &Vec<Particle>, now: &Ratio) -> (r: Vec<Particle>)
    requires
        now.wf(),
        forall|i: int| 0 <= i < v@.len() ==> (#[trigger] v@[i]).wf(),
    ensures
        r@ == retire(v@, *now),
        forall|i: int| 0 <= i < r@.len() ==> (#[trigger] r@[i]).wf(),
{
    let ghost pred = |p: Particle| !p.expired_spec(*now);
    let n: usize = v.len();
    let mut kept: Vec<Particle> = Vec::new();
    proof {
        reveal(Seq::filter);
        assert(v@.take(0).filter(pred) =~= Seq::<Particle>::empty());
    }
    let mut i: usize = 0;
    while i < n
        invariant
            i <= n,
            n == v@.len(),
            now.wf(),
            forall|k: int| 0 <= k < v@.len() ==> (#[trigger] v@[k]).wf(),
            kept@ == v@.take(i as int).filter(pred),
            pred == (|p: Particle| !p.expired_spec(*now)),
            forall|k: int| 0 <= k < kept@.len() ==> (#[trigger] kept@[k]).wf(),
        decreases n - i,
    {
        let p = v[i];
        let expired = p.is_expired(now);
        proof {
            reveal(Seq::filter);
            assert(v@.take(i as int + 1).drop_last() =~= v@.take(i as int));
            assert(v@.take(i as int + 1).last() == v@[i as int]);
        }
        if !expired {
            kept.push(p);
        }
        i = i + 1;
    }
    proof {
        assert(v@.take(n as int) =~= v@);
    }
    kept
}

/// What `reversed` does: start and end locations swapped, every
/// keyframe array reversed, everything else kept.
pub open spec fn reversed_rel(a: LinearParticles, b: LinearParticles) -> bool {
    &&& b.start_location == a.end_location
    &&& b.end_location == a.start_location
    &&& b.locations@ == a.locations@.reverse()
    &&& b.densities@ == a.densities@.reverse()
    &&& b.colors@ == a.colors@.reverse()
    &&& b.sizes@ == a.sizes@.reverse()
    &&& b.particles@ == a.particles@
    &&& b.period == a.period
    &&& b.decay == a.decay
    &&& b.initialized == a.initialized
    &&& b.looping == a.looping
    &&& b.active == a.active
    &&& b.start_time == a.start_time
}

/// Reversing a sequence twice restores it.
pub proof fn lemma_reverse_reverse<A>(s: Seq<A>)
    ensures
        s.reverse().reverse() == s,
{
    assert(s.reverse().reverse() =~= s);
}

/// Reversing an emitter twice restores its whole configuration: the
/// keyframe arrays, the geometry, and every other field.
pub proof fn lemma_reversed_round_trip(
    a: LinearParticles,
    b: LinearParticles,
    c: LinearParticles,
)
    requires
        reversed_rel(a, b),
        reversed_rel(b, c),
    ensures
        c.start_location == a.start_location,
        c.end_location == a.end_location,
        c.locations@ == a.locations@,
        c.densities@ == a.densities@,
        c.colors@ == a.colors@,
        c.sizes@ == a.sizes@,
        c.particles@ == a.particles@,
        c.period == a.period,
        c.decay == a.decay,
        c.initialized == a.initialized,
        c.looping == a.looping,
        c.active == a.active,
        c.start_time == a.start_time,
{
    lemma_reverse_reverse(a.locations@);
    lemma_reverse_reverse(a.densities@);
    lemma_reverse_reverse(a.colors@);
    lemma_reverse_reverse(a.sizes@);
}

impl Default for LinearParticles {
    /// A degenerate emitter whose line collapses to the origin, with
    /// the default configuration otherwise.
    fn default() -> (r: LinearParticles)
        ensures
            r.wf(),
            !r.active,
            !r.initialized,
            r.start_location == (Vec3 {
                x: Ratio { num: 0, den: 1 },
                y: Ratio { num: 0, den: 1 },
                z: Ratio { num: 0, den: 1 },
            }),
            r.end_location == r.start_location,
    {
        LinearParticles::new(Vec3::origin(), Vec3::origin())
    }
}

/// One emitter was advanced one frame (with some draw) at the given
/// working time.
pub open spec fn lp_advanced_rel(
    pre: LinearParticles,
    post: LinearParticles,
    time: Option<Ratio>,
    fr: Frame,
) -> bool {
    exists|d: u32|
        match #[trigger] lp_step(pre, time, fr, d) {
            Some(pr) => {
                &&& post.particles@ == pr.0
                &&& LinearParticles::same_config(pre, post)
                &&& post.active == pre.active
                &&& post.initialized == pre.initialized
                &&& post.looping == pre.looping
                &&& post.start_time == pre.start_time
            },
            None => false,
        }
}

/// Group of emitters replayed together under one shared period and
/// clock: every frame, each child is advanced with the same working
/// time, computed once for the whole group.
#[derive(Debug)]
pub struct LinearGrp {
    pub period: Ratio,
    pub linear_particles: Vec<LinearParticles>,
    pub active: bool,
    pub looping: bool,
    pub initialized: bool,
    pub start_time: Ratio,
}

impl LinearGrp {
    pub open spec fn wf(self) -> bool {
        &&& self.period.wf()
        &&& self.start_time.wf()
        &&& forall|i: int|
            0 <= i < self.linear_particles@.len() ==> (#[trigger] self.linear_particles@[i]).wf()
    }

    /// Two emitters agree on every observable field.
    pub open spec fn lp_like(a: LinearParticles, b: LinearParticles) -> bool {
        &&& LinearParticles::same_config(a, b)
        &&& a.particles@ == b.particles@
        &&& a.active == b.active
        &&& a.initialized == b.initialized
        &&& a.looping == b.looping
        &&& a.start_time == b.start_time
    }

    /// Create a new group of emitters with the shared period `period`.
    pub fn new(period: Ratio, linparts: &Vec<LinearParticles>) -> (r: LinearGrp)
        requires
            period.wf(),
            forall|i: int| 0 <= i < linparts@.len() ==> (#[trigger] linparts@[i]).wf(),
        ensures
            r.wf(),
            r.period == period,
            !r.active,
            !r.looping,
            !r.initialized,
            r.start_time == (Ratio { num: 0, den: 1 }),
            r.linear_particles@.len() == linparts@.len(),
            forall|i: int|
                0 <= i < linparts@.len() ==> LinearGrp::lp_like(
                    #[trigger] linparts@[i],
                    r.linear_particles@[i],
                ),
    {
        LinearGrp {
            period,
            linear_particles: copy_linear(linparts),
            active: false,
            looping: false,
            initialized: false,
            start_time: Ratio { num: 0, den: 1 },
        }
    }

    /// Returns self with the given emitters as its children.
    pub fn with_systems(self, linparts: &Vec<LinearParticles>) -> (r: LinearGrp)
        requires
            self.wf(),
            forall|i: int| 0 <= i < linparts@.len() ==> (#[trigger] linparts@[i]).wf(),
        ensures
            r.wf(),
            r.period == self.period,
            r.active == self.active,
            r.looping == self.looping,
            r.initialized == self.initialized,
            r.start_time == self.start_time,
            r.linear_particles@.len() == linparts@.len(),
            forall|i: int|
                0 <= i < linparts@.len() ==> LinearGrp::lp_like(
                    #[trigger] linparts@[i],
                    r.linear_particles@[i],
                ),
    {
        LinearGrp { linear_particles: copy_linear(linparts), ..self }
    }

    /// Whether the group is in its active state.
    pub fn is_active(&self) -> (r: bool)
        ensures
            r == self.active,
    {
        self.active
    }

    /// Whether the group is in its active, looping state.
    pub fn is_looping(&self) -> (r: bool)
        ensures
            r == (self.active && self.looping),
    {
        self.active && self.looping
    }

    /// Whether the group has been set up and is ready to run.
    pub fn is_initialized(&self) -> (r: bool)
        ensures
            r == self.initialized,
    {
        self.initialized
    }

    /// Reset the group's clock.
    pub fn reset_time(&mut self, now: Ratio)
        requires
            old(self).wf(),
            now.wf(),
        ensures
            final(self).wf(),
            *final(self) == (LinearGrp { start_time: now, ..*old(self) }),
    {
        self.start_time = now;
    }

    /// The elapsed seconds since the group's clock was last reset.
    pub fn elapsed_time(&self, now: &Ratio) -> (r: Option<Ratio>)
        requires
            self.wf(),
            now.wf(),
        ensures
            match r {
                Some(e) => {
                    &&& e.wf()
                    &&& Some(e.q()) == q_checked(q_sub(now.q(), self.start_time.q()))
                    &&& q_eq(e.q(), q_sub(now.q(), self.start_time.q()))
                },
                None => q_checked(q_sub(now.q(), self.start_time.q())) is None,
            },
    {
        now.checked_sub(&self.start_time)
    }

    /// Set the group up: validate the resolved period, set every child
    /// up with it (sharing loop flag and clock start), then arm the
    /// group itself.  With valid children the only possible failure is
    /// a non-positive resolved period, reported before any child is
    /// touched.
    pub fn setup(&mut self, should_loop: bool, p: Option<Ratio>, now: Ratio) -> (r: Result<
        (),
        Error,
    >)
        requires
            old(self).wf(),
            now.wf(),
            p matches Some(pp) ==> pp.wf(),
        ensures
            match r {
                Ok(()) => ({
                    let resolved = match p {
                        Some(pp) => pp,
                        None => old(self).period,
                    };
                    &&& final(self).wf()
                    &&& q_lt(q_zero(), resolved.q())
                    &&& final(self).period == resolved
                    &&& final(self).looping == should_loop
                    &&& final(self).active
                    &&& final(self).initialized
                    &&& final(self).start_time == now
                    &&& final(self).linear_particles@.len() == old(self).linear_particles@.len()
                    &&& forall|i: int|
                        0 <= i < old(self).linear_particles@.len()
                            ==> LinearParticles::setup_rel(
                            #[trigger] old(self).linear_particles@[i],
                            final(self).linear_particles@[i],
                            should_loop,
                            resolved,
                            now,
                        )
                }),
                Err(er) => ({
                    let resolved = match p {
                        Some(pp) => pp,
                        None => old(self).period,
                    };
                    &&& *final(self) == *old(self)
                    &&& !q_lt(q_zero(), resolved.q())
                    &&& er == (Error::Validation {
                        field: Field::Period,
                        constraint: Constraint::Positive,
                        value: resolved,
                    })
                }),
            },
    {
        let resolved = match p {
            Some(pp) => pp,
            None => self.period,
        };
        match check_period(&resolved) {
            Ok(()) => {},
            Err(er) => {
                return Err(er);
            },
        }
        let ghost olds = self.linear_particles@;
        let n: usize = self.linear_particles.len();
        let mut done: Vec<LinearParticles> = Vec::new();
        let mut i: usize = 0;
        while i < n
            invariant
                i <= n,
                n == olds.len(),
                now.wf(),
                resolved.wf(),
                q_lt(q_zero(), resolved.q()),
                forall|k: int| 0 <= k < olds.len() ==> (#[trigger] olds[k]).wf(),
                self.linear_particles@ == olds.skip(i as int),
                self.period == old(self).period,
                self.active == old(self).active,
                self.initialized == old(self).initialized,
                self.looping == old(self).looping,
                self.start_time == old(self).start_time,
                done@.len() == i as int,
                forall|k: int|
                    0 <= k < i as int ==> LinearParticles::setup_rel(
                        #[trigger] olds[k],
                        done@[k],
                        should_loop,
                        resolved,
                        now,
                    ),
                forall|k: int| 0 <= k < done@.len() ==> (#[trigger] done@[k]).wf(),
            decreases n - i,
        {
            proof {
                assert(self.linear_particles@[0] == olds[i as int]);
            }
            let mut child = self.linear_particles.remove(0);
            match child.setup(should_loop, Some(resolved), now) {
                Ok(()) => {},
                Err(er) => {
                    // Unreachable: the resolved period is positive and
                    // the child's configuration invariant holds.
                    return Err(er);
                },
            }
            done.push(child);
            proof {
                assert(self.linear_particles@ =~= olds.skip(i as int + 1));
            }
            i = i + 1;
        }
        self.linear_particles = done;
        self.period = resolved;
        self.looping = should_loop;
        self.active = true;
        self.initialized = true;
        self.start_time = now;
        Ok(())
    }

    /// Tear down every child unconditionally, then the group itself.
    pub fn tear_down(&mut self)
        requires
            old(self).wf(),
        ensures
            final(self).wf(),
            !final(self).active,
            !final(self).initialized,
            final(self).period == old(self).period,
            final(self).looping == old(self).looping,
            final(self).start_time == old(self).start_time,
            final(self).linear_particles@.len() == old(self).linear_particles@.len(),
            forall|i: int|
                0 <= i < old(self).linear_particles@.len()
                    ==> final(self).linear_particles@[i] == (LinearParticles {
                    active: false,
                    initialized: false,
                    ..(#[trigger] old(self).linear_particles@[i])
                }),
    {
        let ghost olds = self.linear_particles@;
        let n: usize = self.linear_particles.len();
        let mut done: Vec<LinearParticles> = Vec::new();
        let mut i: usize = 0;
        while i < n
            invariant
                i <= n,
                n == olds.len(),
                forall|k: int| 0 <= k < olds.len() ==> (#[trigger] olds[k]).wf(),
                self.linear_particles@ == olds.skip(i as int),
                self.period == old(self).period,
                self.active == old(self).active,
                self.initialized == old(self).initialized,
                self.looping == old(self).looping,
                self.start_time == old(self).start_time,
                done@.len() == i as int,
                forall|k: int|
                    0 <= k < i as int ==> done@[k] == (LinearParticles {
                        active: false,
                        initialized: false,
                        ..(#[trigger] olds[k])
                    }),
                forall|k: int| 0 <= k < done@.len() ==> (#[trigger] done@[k]).wf(),
            decreases n - i,
        {
            proof {
                assert(self.linear_particles@[0] == olds[i as int]);
            }
            let mut child = self.linear_particles.remove(0);
            child.tear_down();
            done.push(child);
            proof {
                assert(self.linear_particles@ =~= olds.skip(i as int + 1));
            }
            i = i + 1;
        }
        self.linear_particles = done;
        self.active = false;
        self.initialized = false;
    }

    /// Advance every child one frame with the same working time,
    /// computed once for the whole group, and report whether the
    /// group's own period is still running at that time.  A child
    /// failure propagates immediately: earlier children have advanced,
    /// the failing child and the rest are unchanged.
    #[verifier::rlimit(50)]
    pub fn next_frame(&mut self, time: Option<Ratio>, fr: &Frame) -> (r: Result<bool, Error>)
        requires
            old(self).wf(),
            fr.wf(),
            time matches Some(t) ==> t.wf(),
        ensures
            final(self).period == old(self).period,
            final(self).active == old(self).active,
            final(self).initialized == old(self).initialized,
            final(self).looping == old(self).looping,
            final(self).start_time == old(self).start_time,
            final(self).linear_particles@.len() == old(self).linear_particles@.len(),
            final(self).wf(),
            match r {
                Ok(b) => {
                    &&& resolve_time(time, fr.now, old(self).start_time) matches Some(cur)
                    &&& {
                        let cur = resolve_time(time, fr.now, old(self).start_time).unwrap();
                        &&& b == q_le(cur.q(), old(self).period.q())
                        &&& forall|i: int|
                            0 <= i < old(self).linear_particles@.len() ==> lp_advanced_rel(
                                #[trigger] old(self).linear_particles@[i],
                                final(self).linear_particles@[i],
                                Some(cur),
                                *fr,
                            )
                    }
                },
                Err(er) => {
                    &&& er == Error::Overflow
                    &&& match resolve_time(time, fr.now, old(self).start_time) {
                        None => *final(self) == *old(self),
                        Some(cur) => exists|k: int|
                            #![trigger old(self).linear_particles@[k]]
                            {
                                &&& 0 <= k < old(self).linear_particles@.len()
                                &&& forall|i: int|
                                    0 <= i < k ==> lp_advanced_rel(
                                        #[trigger] old(self).linear_particles@[i],
                                        final(self).linear_particles@[i],
                                        Some(cur),
                                        *fr,
                                    )
                                &&& forall|i: int|
                                    k <= i < old(self).linear_particles@.len()
                                        ==> final(self).linear_particles@[i] == #[trigger] old(
                                        self,
                                    ).linear_particles@[i]
                            },
                    }
                },
            },
    {
        let current = match time {
            Some(t) => t,
            None => match self.elapsed_time(&fr.now) {
                Some(e) => e,
                None => {
                    return Err(Error::Overflow);
                },
            },
        };
        let still = current.le(&self.period);
        let ghost olds = self.linear_particles@;
        let n: usize = self.linear_particles.len();
        let mut done: Vec<LinearParticles> = Vec::new();
        let mut i: usize = 0;
        while i < n
            invariant
                i <= n,
                n == olds.len(),
                fr.wf(),
                current.wf(),
                current == resolve_time(time, fr.now, old(self).start_time).unwrap(),
                resolve_time(time, fr.now, old(self).start_time) is Some,
                olds == old(self).linear_particles@,
                old(self).wf(),
                forall|k: int| 0 <= k < olds.len() ==> (#[trigger] olds[k]).wf(),
                self.linear_particles@ == olds.skip(i as int),
                self.period == old(self).period,
                self.active == old(self).active,
                self.initialized == old(self).initialized,
                self.looping == old(self).looping,
                self.start_time == old(self).start_time,
                done@.len() == i as int,
                forall|k: int|
                    0 <= k < i as int ==> lp_advanced_rel(
                        #[trigger] olds[k],
                        done@[k],
                        Some(current),
                        *fr,
                    ),
                forall|k: int| 0 <= k < done@.len() ==> (#[trigger] done@[k]).wf(),
            decreases n - i,
        {
            proof {
                assert(self.linear_particles@[0] == olds[i as int]);
            }
            let mut child = self.linear_particles.remove(0);
            match child.next_frame(Some(current), fr) {
                Ok(_) => {},
                Err(er) => {
                    // Reassemble: advanced prefix, untouched child,
                    // untouched suffix.
                    let ghost done_pre = done@;
                    let ghost rem = self.linear_particles@;
                    done.push(child);
                    done.append(&mut self.linear_particles);
                    self.linear_particles = done;
                    proof {
                        let k = i as int;
                        assert(child == olds[k]);
                        assert(rem =~= olds.skip(k + 1));
                        assert(self.linear_particles@ =~= done_pre.push(child) + rem);
                        assert(self.linear_particles@.len() == olds.len());
                        assert forall|j: int| k <= j < olds.len()
                            implies self.linear_particles@[j] == olds[j] by {
                            if j == k {
                            } else {
                                assert(self.linear_particles@[j] == rem[j - k - 1]);
                                assert(rem[j - k - 1] == olds[j]);
                            }
                        }
                        assert forall|j: int| 0 <= j < self.linear_particles@.len()
                            implies (#[trigger] self.linear_particles@[j]).wf() by {
                            if j < k {
                                assert(self.linear_particles@[j] == done_pre[j]);
                            } else {
                                assert(self.linear_particles@[j] == olds[j]);
                            }
                        }
                    }
                    return Err(er);
                },
            }
            done.push(child);
            proof {
                assert(self.linear_particles@ =~= olds.skip(i as int + 1));
            }
            i = i + 1;
        }
        self.linear_particles = done;
        Ok(still)
    }
}

impl LinearGrp {
    /// Set the group up into its looping active state, with its clock
    /// started at `now`.
    pub fn start_loop(&mut self, now: Ratio) -> (r: Result<(), Error>)
        requires
            old(self).wf(),
            now.wf(),
        ensures
            final(self).wf(),
            match r {
                Ok(()) => {
                    &&& q_lt(q_zero(), old(self).period.q())
                    &&& final(self).period == old(self).period
                    &&& final(self).looping
                    &&& final(self).active
                    &&& final(self).initialized
                    &&& final(self).start_time == now
                    &&& final(self).linear_particles@.len() == old(self).linear_particles@.len()
                    &&& forall|i: int|
                        0 <= i < old(self).linear_particles@.len()
                            ==> LinearParticles::setup_rel(
                            #[trigger] old(self).linear_particles@[i],
                            final(self).linear_particles@[i],
                            true,
                            old(self).period,
                            now,
                        )
                },
                Err(er) => {
                    &&& *final(self) == *old(self)
                    &&& !q_lt(q_zero(), old(self).period.q())
                    &&& er == (Error::Validation {
                        field: Field::Period,
                        constraint: Constraint::Positive,
                        value: old(self).period,
                    })
                },
            },
    {
        self.setup(true, None, now)
    }

    /// Set the group up into its (non-looping) active state, with its
    /// clock started at `now`.
    pub fn start(&mut self, now: Ratio) -> (r: Result<(), Error>)
        requires
            old(self).wf(),
            now.wf(),
        ensures
            final(self).wf(),
            match r {
                Ok(()) => {
                    &&& q_lt(q_zero(), old(self).period.q())
                    &&& final(self).period == old(self).period
                    &&& !final(self).looping
                    &&& final(self).active
                    &&& final(self).initialized
                    &&& final(self).start_time == now
                    &&& final(self).linear_particles@.len() == old(self).linear_particles@.len()
                    &&& forall|i: int|
                        0 <= i < old(self).linear_particles@.len()
                            ==> LinearParticles::setup_rel(
                            #[trigger] old(self).linear_particles@[i],
                            final(self).linear_particles@[i],
                            false,
                            old(self).period,
                            now,
                        )
                },
                Err(er) => {
                    &&& *final(self) == *old(self)
                    &&& !q_lt(q_zero(), old(self).period.q())
                    &&& er == (Error::Validation {
                        field: Field::Period,
                        constraint: Constraint::Positive,
                        value: old(self).period,
                    })
                },
            },
    {
        self.setup(false, None, now)
    }

    /// Tear down and deactivate the group.
    pub fn stop(&mut self)
        requires
            old(self).wf(),
        ensures
            final(self).wf(),
            !final(self).active,
            !final(self).initialized,
            final(self).period == old(self).period,
            final(self).looping == old(self).looping,
            final(self).start_time == old(self).start_time,
            final(self).linear_particles@.len() == old(self).linear_particles@.len(),
            forall|i: int|
                0 <= i < old(self).linear_particles@.len()
                    ==> final(self).linear_particles@[i] == (LinearParticles {
                    active: false,
                    initialized: false,
                    ..(#[trigger] old(self).linear_particles@[i])
                }),
    {
        self.tear_down();
    }
}

impl Default for LinearGrp {
    /// An empty group with a one-second period.
    fn default() -> (r: LinearGrp)
        ensures
            r.wf(),
            !r.active,
            r.period == (Ratio { num: 1, den: 1 }),
            r.linear_particles@.len() == 0,
    {
        LinearGrp::new(Ratio { num: 1, den: 1 }, &Vec::new())
    }
}

/// An element-for-element copy of a vector of emitters.
fn copy_linear(v: &Vec<LinearParticles>) -> (r: Vec<LinearParticles>)
    requires
        forall|i: int| 0 <= i < v@.len() ==> (#[trigger] v@[i]).wf(),
    ensures
        r@.len() == v@.len(),
        forall|i: int| 0 <= i < v@.len() ==> LinearGrp::lp_like(#[trigger] v@[i], r@[i]),
        forall|i: int| 0 <= i < r@.len() ==> (#[trigger] r@[i]).wf(),
{
    let mut r: Vec<LinearParticles> = Vec::new();
    let n: usize = v.len();
    let mut i: usize = 0;
    while i < n
        invariant
            i <= n,
            n == v@.len(),
            forall|k: int| 0 <= k < v@.len() ==> (#[trigger] v@[k]).wf(),
            r@.len() == i as int,
            forall|k: int| 0 <= k < i as int ==> LinearGrp::lp_like(#[trigger] v@[k], r@[k]),
            forall|k: int| 0 <= k < r@.len() ==> (#[trigger] r@[k]).wf(),
        decreases n - i,
    {
        let c = v[i].duplicate();
        r.push(c);
        i = i + 1;
    }
    r
}

/// An element-for-element copy of a scalar vector.
fn copy_ratios(v: &Vec<Ratio>) -> (r: Vec<Ratio>)
    ensures
        r@ == v@,
{
    let mut r: Vec<Ratio> = Vec::new();
    let n: usize = v.len();
    let mut i: usize = 0;
    while i < n
        invariant
            i <= n,
            n == v@.len(),
            r@ == v@.take(i as int),
        decreases n - i,
    {
        r.push(v[i]);
        proof {
            assert(r@ =~= v@.take(i as int + 1));
        }
        i = i + 1;
    }
    proof {
        assert(r@ =~= v@);
    }
    r
}

/// An element-for-element copy of a color vector.
fn copy_colors(v: &Vec<Color>) -> (r: Vec<Color>)
    ensures
        r@ == v@,
{
    let mut r: Vec<Color> = Vec::new();
    let n: usize = v.len();
    let mut i: usize = 0;
    while i < n
        invariant
            i <= n,
            n == v@.len(),
            r@ == v@.take(i as int),
        decreases n - i,
    {
        r.push(v[i]);
        proof {
            assert(r@ =~= v@.take(i as int + 1));
        }
        i = i + 1;
    }
    proof {
        assert(r@ =~= v@);
    }
    r
}

/// An element-for-element copy of a particle vector.
fn copy_particles(v: &Vec<Particle>) -> (r: Vec<Particle>)
    ensures
        r@ == v@,
{
    let mut r: Vec<Particle> = Vec::new();
    let n: usize = v.len();
    let mut i: usize = 0;
    while i < n
        invariant
            i <= n,
            n == v@.len(),
            r@ == v@.take(i as int),
        decreases n - i,
    {
        r.push(v[i]);
        proof {
            assert(r@ =~= v@.take(i as int + 1));
        }
        i = i + 1;
    }
    proof {
        assert(r@ =~= v@);
    }
    r
}

/// The reverse of a scalar vector.
fn reverse_ratios(v: &Vec<Ratio>) -> (r: Vec<Ratio>)
    ensures
        r@ == v@.reverse(),
{
    let n: usize = v.len();
    let mut r: Vec<Ratio> = Vec::new();
    let mut i: usize = 0;
    while i < n
        invariant
            i <= n,
            n == v@.len(),
            r@.len() == i as int,
            forall|j: int| 0 <= j < i as int ==> r@[j] == v@[n as int - 1 - j],
        decreases n - i,
    {
        r.push(v[n - 1 - i]);
        i = i + 1;
    }
    proof {
        assert(r@ =~= v@.reverse());
    }
    r
}

/// The reverse of a color vector.
fn reverse_colors(v: &Vec<Color>) -> (r: Vec<Color>)
    ensures
        r@ == v@.reverse(),
{
    let n: usize = v.len();
    let mut r: Vec<Color> = Vec::new();
    let mut i: usize = 0;
    while i < n
        invariant
            i <= n,
            n == v@.len(),
            r@.len() == i as int,
            forall|j: int| 0 <= j < i as int ==> r@[j] == v@[n as int - 1 - j],
        decreases n - i,
    {
        r.push(v[n - 1 - i]);
        i = i + 1;
    }
    proof {
        assert(r@ =~= v@.reverse());
    }
    r
}

} // verus!
