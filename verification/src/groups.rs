//! Composite particle systems.
//!
//! `SyncGrp` replays its children all together under one shared clock
//! and period; `SeqGrp` replays them one at a time in declaration
//! order, each allotted an equal share `part_period == period / n` of
//! the group's period.  Children are arbitrary [`ParticleSys`] values,
//! so groups nest.

use vstd::prelude::*;

use crate::error::{Constraint, Error, Field};
use crate::linear_particles::resolve_time;
use crate::particle_sys::{
    lemma_frame_rel_shape, lemma_same_shape_refl, lemma_same_shape_trans, lemma_seq_height_index,
    lemma_seq_sys_wf, lemma_setup_rel_shape, lemma_teardown_rel_shape, seq_child_cycled, seq_height, seq_step_rel,
    sys_advanced_ok,
    seq_sys_wf, sys_frame_rel, sys_height, sys_same_shape, sys_setup_ok, sys_setup_rel,
    sys_teardown_rel,
    sys_wf, Frame, ParticleSys,
};
use crate::ratio::{
    lemma_q_pos_transfer, q_add, q_checked, q_eq, q_le, q_lt, q_sub, q_wf, q_zero, ratio_of, Qv,
    Ratio,
};
use crate::util::check_period;

verus! {

/// Group of particle systems that are synchronously run together with
/// a shared period and clock.
#[derive(Debug)]
pub struct SyncGrp {
    pub period: Ratio,
    pub parts: Vec<ParticleSys>,
    pub start_time: Ratio,
    pub active: bool,
    pub looping: bool,
    pub initialized: bool,
}

impl SyncGrp {
    pub open spec fn wf(self) -> bool {
        sys_wf(ParticleSys::Sync(self))
    }

    /// Create a new synchronous group.
    pub fn new(period: Ratio, parts: Vec<ParticleSys>) -> (r: SyncGrp)
        requires
            period.wf(),
            seq_sys_wf(parts@),
        ensures
            r.wf(),
            r == (SyncGrp {
                period,
                parts: r.parts,
                start_time: Ratio { num: 0, den: 1 },
                active: false,
                looping: false,
                initialized: false,
            }),
            r.parts@ == parts@,
    {
        SyncGrp {
            period,
            parts,
            start_time: Ratio { num: 0, den: 1 },
            active: false,
            looping: false,
            initialized: false,
        }
    }

    /// Return self with `parts` as its group of synchronised systems.
    pub fn with_systems(self, parts: Vec<ParticleSys>) -> (r: SyncGrp)
        requires
            self.wf(),
            seq_sys_wf(parts@),
        ensures
            r.wf(),
            r == (SyncGrp { parts: r.parts, ..self }),
            r.parts@ == parts@,
    {
        SyncGrp { parts, ..self }
    }

    /// Whether the group is in its active state.
    pub fn is_active(&self) -> (r: bool)
        ensures
            r == self.active,
    {
        self.active
    }

    /// Whether the group is in its active, looping state.
    pub fn is_looping(&self) -> (r: bool)
        ensures
            r == (self.active && self.looping),
    {
        self.active && self.looping
    }

    /// Whether the group has been set up and is ready to run.
    pub fn is_initialized(&self) -> (r: bool)
        ensures
            r == self.initialized,
    {
        self.initialized
    }

    /// Reset the group's clock.
    pub fn reset_time(&mut self, now: Ratio)
        requires
            old(self).wf(),
            now.wf(),
        ensures
            final(self).wf(),
            *final(self) == (SyncGrp { start_time: now, ..*old(self) }),
    {
        self.start_time = now;
    }

    /// The elapsed seconds since the group's clock was last reset.
    pub fn elapsed_time(&self, now: &Ratio) -> (r: Option<Ratio>)
        requires
            self.wf(),
            now.wf(),
        ensures
            match r {
                Some(e) => {
                    &&& e.wf()
                    &&& Some(e.q()) == q_checked(q_sub(now.q(), self.start_time.q()))
                },
                None => q_checked(q_sub(now.q(), self.start_time.q())) is None,
            },
    {
        now.checked_sub(&self.start_time)
    }

    /// Return self (consuming it) with period `p`.
    pub fn with_period(self, p: Ratio) -> (r: Result<SyncGrp, Error>)
        requires
            self.wf(),
            p.wf(),
        ensures
            match r {
                Ok(g) => {
                    &&& q_lt(q_zero(), p.q())
                    &&& g == (SyncGrp { period: p, ..self })
                    &&& g.wf()
                },
                Err(er) => {
                    &&& !q_lt(q_zero(), p.q())
                    &&& er == (Error::Validation {
                        field: Field::Period,
                        constraint: Constraint::Positive,
                        value: p,
                    })
                },
            },
    {
        match check_period(&p) {
            Ok(()) => Ok(SyncGrp { period: p, ..self }),
            Err(er) => Err(er),
        }
    }

    /// Set the group up: validate the resolved period, set every child
    /// up with it (shared loop flag and clock start), then arm the
    /// group itself.  On a child failure the children before it stay
    /// set up (best effort, no rollback) and the group is not armed.
    pub fn setup(&mut self, should_loop: bool, p: Option<Ratio>, now: Ratio) -> (r: Result<
        (),
        Error,
    >)
        requires
            old(self).wf(),
            now.wf(),
            p matches Some(pp) ==> pp.wf(),
        ensures
            final(self).wf(),
            match r {
                Ok(()) => ({
                    let resolved = match p {
                        Some(pp) => pp,
                        None => old(self).period,
                    };
                    &&& q_lt(q_zero(), resolved.q())
                    &&& sys_setup_ok(ParticleSys::Sync(*old(self)), resolved)
                    &&& sys_setup_rel(
                        ParticleSys::Sync(*old(self)),
                        ParticleSys::Sync(*final(self)),
                        should_loop,
                        resolved,
                        now,
                    )
                }),
                Err(er) => ({
                    let resolved = match p {
                        Some(pp) => pp,
                        None => old(self).period,
                    };
                    if !q_lt(q_zero(), resolved.q()) {
                        &&& *final(self) == *old(self)
                        &&& er == (Error::Validation {
                            field: Field::Period,
                            constraint: Constraint::Positive,
                            value: resolved,
                        })
                    } else {
                        &&& er == Error::Overflow
                        &&& !sys_setup_ok(ParticleSys::Sync(*old(self)), resolved)
                        &&& final(self).period == old(self).period
                        &&& final(self).active == old(self).active
                        &&& final(self).initialized == old(self).initialized
                        &&& final(self).looping == old(self).looping
                        &&& final(self).start_time == old(self).start_time
                        &&& final(self).parts@.len() == old(self).parts@.len()
                        &&& exists|k: int|
                            #![trigger old(self).parts@[k]]
                            {
                                &&& 0 <= k < old(self).parts@.len()
                                &&& forall|i: int|
                                    0 <= i < k ==> sys_setup_rel(
                                        #[trigger] old(self).parts@[i],
                                        final(self).parts@[i],
                                        should_loop,
                                        resolved,
                                        now,
                                    )
                                &&& sys_same_shape(old(self).parts@[k], final(self).parts@[k])
                                &&& forall|i: int|
                                    k < i < old(self).parts@.len() ==> final(self).parts@[i]
                                        == #[trigger] old(self).parts@[i]
                            }
                    }
                }),
            },
        decreases seq_height(old(self).parts@) + 1, 0int,
    {
        let resolved = match p {
            Some(pp) => pp,
            None => self.period,
        };
        match check_period(&resolved) {
            Ok(()) => {},
            Err(er) => {
                return Err(er);
            },
        }
        let ghost olds = self.parts@;
        proof {
            lemma_seq_sys_wf(olds);
        }
        let n: usize = self.parts.len();
        let mut done: Vec<ParticleSys> = Vec::new();
        let mut i: usize = 0;
        while i < n
            invariant
                i <= n,
                n == olds.len(),
                old(self).wf(),
                olds == old(self).parts@,
                now.wf(),
                resolved.wf(),
                q_lt(q_zero(), resolved.q()),
                resolved == (match p {
                    Some(pp) => pp,
                    None => old(self).period,
                }),
                forall|k: int| 0 <= k < olds.len() ==> sys_wf(#[trigger] olds[k]),
                self.parts@ == olds.skip(i as int),
                self.period == old(self).period,
                self.active == old(self).active,
                self.initialized == old(self).initialized,
                self.looping == old(self).looping,
                self.start_time == old(self).start_time,
                done@.len() == i as int,
                forall|k: int|
                    0 <= k < i as int ==> sys_setup_rel(
                        #[trigger] olds[k],
                        done@[k],
                        should_loop,
                        resolved,
                        now,
                    ),
                forall|k: int| 0 <= k < i as int ==> sys_setup_ok(#[trigger] olds[k], resolved),
                forall|k: int| 0 <= k < done@.len() ==> sys_wf(#[trigger] done@[k]),
            decreases n - i,
        {
            proof {
                assert(self.parts@[0] == olds[i as int]);
                lemma_seq_height_index(olds, i as int);
            }
            let mut child = self.parts.remove(0);
            match child.setup(should_loop, Some(resolved), now) {
                Ok(()) => {},
                Err(er) => {
                    let ghost done_pre = done@;
                    let ghost rem = self.parts@;
                    let ghost child_post = child;
                    done.push(child);
                    done.append(&mut self.parts);
                    self.parts = done;
                    proof {
                        let k = i as int;
                        assert(rem =~= olds.skip(k + 1));
                        assert(self.parts@ =~= done_pre.push(child_post) + rem);
                        assert(self.parts@.len() == olds.len());
                        assert(self.parts@[k] == child_post);
                        assert forall|j: int| k < j < olds.len()
                            implies self.parts@[j] == olds[j] by {
                            assert(self.parts@[j] == rem[j - k - 1]);
                            assert(rem[j - k - 1] == olds[j]);
                        }
                        assert forall|j: int| 0 <= j < k
                            implies self.parts@[j] == done_pre[j] by {
                            assert(self.parts@[j] == (done_pre.push(child_post) + rem)[j]);
                            assert((done_pre.push(child_post) + rem)[j] == done_pre.push(
                                child_post,
                            )[j]);
                        }
                        assert forall|j: int| 0 <= j < self.parts@.len()
                            implies sys_wf(#[trigger] self.parts@[j]) by {
                            if j < k {
                                assert(self.parts@[j] == done_pre[j]);
                            } else if j == k {
                            } else {
                                assert(self.parts@[j] == olds[j]);
                            }
                        }
                        lemma_seq_sys_wf(self.parts@);
                        assert(sys_same_shape(olds[k], self.parts@[k]));
                        assert forall|j: int| 0 <= j < k implies sys_setup_rel(
                            #[trigger] olds[j],
                            self.parts@[j],
                            should_loop,
                            resolved,
                            now,
                        ) by {
                            assert(self.parts@[j] == done_pre[j]);
                        }
                        // The failing child witnesses that the tree
                        // cannot be set up with this period.
                        assert(!sys_setup_ok(olds[k], resolved));
                        assert(!sys_setup_ok(ParticleSys::Sync(*old(self)), resolved)) by {
                            if sys_setup_ok(ParticleSys::Sync(*old(self)), resolved) {
                                assert(sys_setup_ok(olds[k], resolved));
                            }
                        }
                    }
                    return Err(er);
                },
            }
            done.push(child);
            proof {
                assert(self.parts@ =~= olds.skip(i as int + 1));
            }
            i = i + 1;
        }
        self.parts = done;
        self.period = resolved;
        self.looping = should_loop;
        self.active = true;
        self.initialized = true;
        self.start_time = now;
        proof {
            lemma_seq_sys_wf(self.parts@);
            assert forall|k: int| 0 <= k < olds.len() implies sys_setup_ok(
                #[trigger] olds[k],
                resolved,
            ) by {}
            assert(sys_setup_ok(ParticleSys::Sync(*old(self)), resolved));
        }
        Ok(())
    }

    /// Tear down every child unconditionally, then the group itself.
    pub fn tear_down(&mut self)
        requires
            old(self).wf(),
        ensures
            final(self).wf(),
            sys_teardown_rel(ParticleSys::Sync(*old(self)), ParticleSys::Sync(*final(self))),
        decreases seq_height(old(self).parts@) + 1, 0int,
    {
        let ghost olds = self.parts@;
        proof {
            lemma_seq_sys_wf(olds);
        }
        let n: usize = self.parts.len();
        let mut done: Vec<ParticleSys> = Vec::new();
        let mut i: usize = 0;
        while i < n
            invariant
                i <= n,
                n == olds.len(),
                old(self).wf(),
                olds == old(self).parts@,
                forall|k: int| 0 <= k < olds.len() ==> sys_wf(#[trigger] olds[k]),
                self.parts@ == olds.skip(i as int),
                self.period == old(self).period,
                self.active == old(self).active,
                self.initialized == old(self).initialized,
                self.looping == old(self).looping,
                self.start_time == old(self).start_time,
                done@.len() == i as int,
                forall|k: int|
                    0 <= k < i as int ==> sys_teardown_rel(#[trigger] olds[k], done@[k]),
                forall|k: int| 0 <= k < done@.len() ==> sys_wf(#[trigger] done@[k]),
            decreases n - i,
        {
            proof {
                assert(self.parts@[0] == olds[i as int]);
                lemma_seq_height_index(olds, i as int);
            }
            let mut child = self.parts.remove(0);
            child.tear_down();
            done.push(child);
            proof {
                assert(self.parts@ =~= olds.skip(i as int + 1));
            }
            i = i + 1;
        }
        self.parts = done;
        self.active = false;
        self.initialized = false;
        proof {
            lemma_seq_sys_wf(self.parts@);
        }
    }

    /// Resolve the working time once, advance every child with that
    /// same snapshot, and report whether the group's own period is
    /// still running at it.  The group's verdict deliberately uses the
    /// same resolved snapshot as its children: an explicit override
    /// stands in for the group's own clock, and the two coincide on
    /// every tick that `run` drives.  A child error propagates
    /// immediately; the children after it are not advanced that frame.
    #[verifier::rlimit(50)]
    pub fn next_frame(&mut self, time: Option<Ratio>, fr: &Frame) -> (r: Result<bool, Error>)
        requires
            old(self).wf(),
            fr.wf(),
            time matches Some(t) ==> t.wf(),
        ensures
            final(self).wf(),
            sys_frame_rel(
                ParticleSys::Sync(*old(self)),
                ParticleSys::Sync(*final(self)),
                time,
                *fr,
                r,
            ),
        decreases seq_height(old(self).parts@) + 1, 0int,
    {
        let current = match time {
            Some(t) => t,
            None => match fr.now.checked_sub(&self.start_time) {
                Some(e) => e,
                None => {
                    proof {
                        lemma_same_shape_refl(ParticleSys::Sync(*old(self)));
                    }
                    return Err(Error::Overflow);
                },
            },
        };
        let still = current.le(&self.period);
        let ghost olds = self.parts@;
        proof {
            lemma_seq_sys_wf(olds);
        }
        let n: usize = self.parts.len();
        let mut done: Vec<ParticleSys> = Vec::new();
        let mut i: usize = 0;
        while i < n
            invariant
                i <= n,
                n == olds.len(),
                old(self).wf(),
                olds == old(self).parts@,
                fr.wf(),
                current.wf(),
                Some(current) == resolve_time(time, fr.now, old(self).start_time),
                forall|k: int| 0 <= k < olds.len() ==> sys_wf(#[trigger] olds[k]),
                self.parts@ == olds.skip(i as int),
                self.period == old(self).period,
                self.active == old(self).active,
                self.initialized == old(self).initialized,
                self.looping == old(self).looping,
                self.start_time == old(self).start_time,
                done@.len() == i as int,
                forall|k: int|
                    0 <= k < i as int ==> sys_advanced_ok(#[trigger] olds[k], done@[k], current, *fr),
                forall|k: int| 0 <= k < done@.len() ==> sys_wf(#[trigger] done@[k]),
            decreases n - i,
        {
            proof {
                assert(self.parts@[0] == olds[i as int]);
                lemma_seq_height_index(olds, i as int);
            }
            let mut child = self.parts.remove(0);
            match child.next_frame(Some(current), fr) {
                Ok(bi) => {
                    proof {
                        assert(sys_advanced_ok(olds[i as int], child, current, *fr)) by {
                            assert(sys_frame_rel(
                                olds[i as int],
                                child,
                                Some(current),
                                *fr,
                                Ok(bi),
                            ));
                        }
                    }
                },
                Err(er) => {
                    let ghost done_pre = done@;
                    let ghost rem = self.parts@;
                    let ghost child_post = child;
                    done.push(child);
                    done.append(&mut self.parts);
                    self.parts = done;
                    proof {
                        let k = i as int;
                        assert(rem =~= olds.skip(k + 1));
                        assert(self.parts@ =~= done_pre.push(child_post) + rem);
                        assert(self.parts@.len() == olds.len());
                        assert(self.parts@[k] == child_post);
                        assert forall|j: int| k < j < olds.len()
                            implies self.parts@[j] == olds[j] by {
                            assert(self.parts@[j] == rem[j - k - 1]);
                            assert(rem[j - k - 1] == olds[j]);
                        }
                        assert forall|j: int| 0 <= j < k
                            implies self.parts@[j] == done_pre[j] by {
                            assert(self.parts@[j] == (done_pre.push(child_post) + rem)[j]);
                            assert((done_pre.push(child_post) + rem)[j] == done_pre.push(
                                child_post,
                            )[j]);
                        }
                        assert forall|j: int| 0 <= j < self.parts@.len()
                            implies sys_wf(#[trigger] self.parts@[j]) by {
                            if j < k {
                                assert(self.parts@[j] == done_pre[j]);
                            } else if j == k {
                            } else {
                                assert(self.parts@[j] == olds[j]);
                            }
                        }
                        lemma_seq_sys_wf(self.parts@);
                        assert(sys_frame_rel(olds[k], self.parts@[k], Some(current), *fr, Err(er)));
                        assert forall|j: int| 0 <= j < k implies sys_advanced_ok(
                            #[trigger] olds[j],
                            self.parts@[j],
                            current,
                            *fr,
                        ) by {
                            assert(self.parts@[j] == done_pre[j]);
                        }
                    }
                    return Err(er);
                },
            }
            done.push(child);
            proof {
                assert(self.parts@ =~= olds.skip(i as int + 1));
            }
            i = i + 1;
        }
        self.parts = done;
        proof {
            lemma_seq_sys_wf(self.parts@);
        }
        Ok(still)
    }
}

impl Default for SyncGrp {
    /// An empty synchronous group with a one-second period.
    fn default() -> (r: SyncGrp)
        ensures
            r.wf(),
            !r.active,
            r.period == (Ratio { num: 1, den: 1 }),
            r.parts@.len() == 0,
    {
        SyncGrp::new(Ratio { num: 1, den: 1 }, Vec::new())
    }
}

/// Group of particle systems run sequentially in declaration order,
/// each with period `part_period == period / parts.len()`.
#[derive(Debug)]
pub struct SeqGrp {
    pub period: Ratio,
    pub parts: Vec<ParticleSys>,
    pub start_time: Ratio,
    pub active: bool,
    pub looping: bool,
    pub initialized: bool,
    pub part_period: Ratio,
    pub current_part: usize,
    pub time_offset: Ratio,
}

impl SeqGrp {
    pub open spec fn wf(self) -> bool {
        sys_wf(ParticleSys::Sequential(self))
    }

    /// Create a new sequential group: the period is divided evenly
    /// among the children, so an empty child collection is rejected.
    pub fn new(period: Ratio, parts: Vec<ParticleSys>) -> (r: Result<SeqGrp, Error>)
        requires
            period.wf(),
            seq_sys_wf(parts@),
        ensures
            match r {
                Ok(g) => {
                    &&& parts@.len() >= 1
                    &&& g.wf()
                    &&& g.period == period
                    &&& g.parts@ == parts@
                    &&& !g.active
                    &&& !g.looping
                    &&& !g.initialized
                    &&& g.current_part == 0
                    &&& g.time_offset == (Ratio { num: 0, den: 1 })
                    &&& g.start_time == (Ratio { num: 0, den: 1 })
                    &&& Some(g.part_period.q()) == q_checked(
                        Qv { n: period.q().n, d: period.q().d * parts@.len() },
                    )
                },
                Err(er) => {
                    ||| (parts@.len() == 0 && er == Error::Division)
                    ||| {
                        &&& parts@.len() >= 1
                        &&& er == Error::Overflow
                        &&& q_checked(
                            Qv { n: period.q().n, d: period.q().d * parts@.len() },
                        ) is None
                    }
                },
            },
    {
        if parts.len() == 0 {
            return Err(Error::Division);
        }
        let part_period = match period.checked_div_count(parts.len()) {
            Some(v) => v,
            None => {
                return Err(Error::Overflow);
            },
        };
        Ok(SeqGrp {
            period,
            parts,
            start_time: Ratio { num: 0, den: 1 },
            active: false,
            looping: false,
            initialized: false,
            part_period,
            current_part: 0,
            time_offset: Ratio { num: 0, den: 1 },
        })
    }

    /// Return self with `parts` as its sequence of systems, with the
    /// part period recomputed.
    pub fn with_systems(self, parts: Vec<ParticleSys>) -> (r: Result<SeqGrp, Error>)
        requires
            self.wf(),
            seq_sys_wf(parts@),
        ensures
            match r {
                Ok(g) => {
                    &&& parts@.len() >= 1
                    &&& g.wf()
                    &&& g.parts@ == parts@
                    &&& g == (SeqGrp { parts: g.parts, part_period: g.part_period, ..self })
                    &&& Some(g.part_period.q()) == q_checked(
                        Qv { n: self.period.q().n, d: self.period.q().d * parts@.len() },
                    )
                },
                Err(er) => {
                    ||| (parts@.len() == 0 && er == Error::Division)
                    ||| {
                        &&& parts@.len() >= 1
                        &&& er == Error::Overflow
                        &&& q_checked(
                            Qv { n: self.period.q().n, d: self.period.q().d * parts@.len() },
                        ) is None
                    }
                },
            },
    {
        if parts.len() == 0 {
            return Err(Error::Division);
        }
        let part_period = match self.period.checked_div_count(parts.len()) {
            Some(v) => v,
            None => {
                return Err(Error::Overflow);
            },
        };
        Ok(SeqGrp { parts, part_period, ..self })
    }

    /// Whether the group is in its active state.
    pub fn is_active(&self) -> (r: bool)
        ensures
            r == self.active,
    {
        self.active
    }

    /// Whether the group is in its active, looping state.
    pub fn is_looping(&self) -> (r: bool)
        ensures
            r == (self.active && self.looping),
    {
        self.active && self.looping
    }

    /// Whether the group has been set up and is ready to run.
    pub fn is_initialized(&self) -> (r: bool)
        ensures
            r == self.initialized,
    {
        self.initialized
    }

    /// Reset the group's clock.
    pub fn reset_time(&mut self, now: Ratio)
        requires
            old(self).wf(),
            now.wf(),
        ensures
            final(self).wf(),
            *final(self) == (SeqGrp { start_time: now, ..*old(self) }),
    {
        self.start_time = now;
    }

    /// The elapsed seconds since the group's clock was last reset.
    pub fn elapsed_time(&self, now: &Ratio) -> (r: Option<Ratio>)
        requires
            self.wf(),
            now.wf(),
        ensures
            match r {
                Some(e) => {
                    &&& e.wf()
                    &&& Some(e.q()) == q_checked(q_sub(now.q(), self.start_time.q()))
                },
                None => q_checked(q_sub(now.q(), self.start_time.q())) is None,
            },
    {
        now.checked_sub(&self.start_time)
    }

    /// Return self (consuming it) with period `p` and the part period
    /// recomputed.
    pub fn with_period(self, p: Ratio) -> (r: Result<SeqGrp, Error>)
        requires
            self.wf(),
            p.wf(),
        ensures
            match r {
                Ok(g) => {
                    &&& q_lt(q_zero(), p.q())
                    &&& g.wf()
                    &&& g == (SeqGrp { period: p, part_period: g.part_period, ..self })
                    &&& Some(g.part_period.q()) == q_checked(
                        Qv { n: p.q().n, d: p.q().d * self.parts@.len() },
                    )
                },
                Err(er) => {
                    ||| {
                        &&& !q_lt(q_zero(), p.q())
                        &&& er == (Error::Validation {
                            field: Field::Period,
                            constraint: Constraint::Positive,
                            value: p,
                        })
                    }
                    ||| {
                        &&& q_lt(q_zero(), p.q())
                        &&& er == Error::Overflow
                        &&& q_checked(Qv { n: p.q().n, d: p.q().d * self.parts@.len() }) is None
                    }
                },
            },
    {
        match check_period(&p) {
            Ok(()) => {},
            Err(er) => {
                return Err(er);
            },
        }
        let part_period = match p.checked_div_count(self.parts.len()) {
            Some(v) => v,
            None => {
                return Err(Error::Overflow);
            },
        };
        Ok(SeqGrp { period: p, part_period, ..self })
    }

    /// Set the group up: validate the resolved period, recompute the
    /// part period, set up only the first child with it, rewind the
    /// bookkeeping and arm the group.
    pub fn setup(&mut self, should_loop: bool, p: Option<Ratio>, now: Ratio) -> (r: Result<
        (),
        Error,
    >)
        requires
            old(self).wf(),
            now.wf(),
            p matches Some(pp) ==> pp.wf(),
        ensures
            final(self).wf(),
            match r {
                Ok(()) => ({
                    let resolved = match p {
                        Some(pp) => pp,
                        None => old(self).period,
                    };
                    &&& q_lt(q_zero(), resolved.q())
                    &&& sys_setup_ok(ParticleSys::Sequential(*old(self)), resolved)
                    &&& sys_setup_rel(
                        ParticleSys::Sequential(*old(self)),
                        ParticleSys::Sequential(*final(self)),
                        should_loop,
                        resolved,
                        now,
                    )
                }),
                Err(er) => ({
                    let resolved = match p {
                        Some(pp) => pp,
                        None => old(self).period,
                    };
                    if !q_lt(q_zero(), resolved.q()) {
                        &&& *final(self) == *old(self)
                        &&& er == (Error::Validation {
                            field: Field::Period,
                            constraint: Constraint::Positive,
                            value: resolved,
                        })
                    } else {
                        &&& er == Error::Overflow
                        &&& !sys_setup_ok(ParticleSys::Sequential(*old(self)), resolved)
                        &&& final(self).period == old(self).period
                        &&& final(self).active == old(self).active
                        &&& final(self).initialized == old(self).initialized
                        &&& final(self).looping == old(self).looping
                        &&& final(self).start_time == old(self).start_time
                        &&& final(self).parts@.len() == old(self).parts@.len()
                        &&& sys_same_shape(old(self).parts@[0], final(self).parts@[0])
                        &&& forall|i: int|
                            1 <= i < old(self).parts@.len() ==> final(self).parts@[i]
                                == #[trigger] old(self).parts@[i]
                    }
                }),
            },
        decreases seq_height(old(self).parts@) + 1, 0int,
    {
        let resolved = match p {
            Some(pp) => pp,
            None => self.period,
        };
        match check_period(&resolved) {
            Ok(()) => {},
            Err(er) => {
                return Err(er);
            },
        }
        let part_period = match resolved.checked_div_count(self.parts.len()) {
            Some(v) => v,
            None => {
                proof {
                    lemma_same_shape_refl(old(self).parts@[0]);
                    assert(!sys_setup_ok(ParticleSys::Sequential(*old(self)), resolved));
                }
                return Err(Error::Overflow);
            },
        };
        let ghost olds = self.parts@;
        proof {
            lemma_seq_sys_wf(olds);
            lemma_seq_height_index(olds, 0);
            let lenq = self.parts@.len() as int;
            let tgt = Qv { n: resolved.q().n, d: resolved.q().d * lenq };
            assert(resolved.num > 0) by (nonlinear_arith)
                requires 0 * (resolved.den as int) < (resolved.num as int) * 1,
            {}
            assert(q_wf(tgt) && q_lt(q_zero(), tgt)) by (nonlinear_arith)
                requires
                    resolved.num as int > 0,
                    resolved.den as int > 0,
                    lenq >= 1,
                    tgt == (Qv { n: resolved.num as int, d: (resolved.den as int) * lenq }),
            {}
            lemma_q_pos_transfer(part_period.q(), tgt);
            assert(part_period == ratio_of(q_checked(tgt).unwrap()));
        }
        let mut child = self.parts.remove(0);
        match child.setup(should_loop, Some(part_period), now) {
            Ok(()) => {},
            Err(er) => {
                self.parts.insert(0, child);
                proof {
                    assert(self.parts@ =~= olds.update(0, child));
                    assert forall|j: int| 0 <= j < self.parts@.len()
                        implies sys_wf(#[trigger] self.parts@[j]) by {
                        if j > 0 {
                            assert(self.parts@[j] == olds[j]);
                        }
                    }
                    lemma_seq_sys_wf(self.parts@);
                    assert(!sys_setup_ok(olds[0], part_period));
                    assert(!sys_setup_ok(ParticleSys::Sequential(*old(self)), resolved));
                }
                return Err(er);
            },
        }
        self.parts.insert(0, child);
        self.period = resolved;
        self.part_period = part_period;
        self.current_part = 0;
        self.time_offset = Ratio { num: 0, den: 1 };
        self.looping = should_loop;
        self.active = true;
        self.initialized = true;
        self.start_time = now;
        proof {
            assert(self.parts@ =~= olds.update(0, child));
            assert forall|j: int| 0 <= j < self.parts@.len()
                implies sys_wf(#[trigger] self.parts@[j]) by {
                if j > 0 {
                    assert(self.parts@[j] == olds[j]);
                }
            }
            lemma_seq_sys_wf(self.parts@);
            assert(sys_setup_ok(olds[0], part_period));
            assert(sys_setup_ok(ParticleSys::Sequential(*old(self)), resolved));
        }
        Ok(())
    }

    /// Tear down every child unconditionally, rewind the bookkeeping,
    /// then deactivate the group itself.
    pub fn tear_down(&mut self)
        requires
            old(self).wf(),
        ensures
            final(self).wf(),
            sys_teardown_rel(
                ParticleSys::Sequential(*old(self)),
                ParticleSys::Sequential(*final(self)),
            ),
        decreases seq_height(old(self).parts@) + 1, 0int,
    {
        let ghost olds = self.parts@;
        proof {
            lemma_seq_sys_wf(olds);
        }
        let n: usize = self.parts.len();
        let mut done: Vec<ParticleSys> = Vec::new();
        let mut i: usize = 0;
        while i < n
            invariant
                i <= n,
                n == olds.len(),
                old(self).wf(),
                olds == old(self).parts@,
                forall|k: int| 0 <= k < olds.len() ==> sys_wf(#[trigger] olds[k]),
                self.parts@ == olds.skip(i as int),
                self.period == old(self).period,
                self.active == old(self).active,
                self.initialized == old(self).initialized,
                self.looping == old(self).looping,
                self.start_time == old(self).start_time,
                self.part_period == old(self).part_period,
                self.current_part == old(self).current_part,
                self.time_offset == old(self).time_offset,
                done@.len() == i as int,
                forall|k: int|
                    0 <= k < i as int ==> sys_teardown_rel(#[trigger] olds[k], done@[k]),
                forall|k: int| 0 <= k < done@.len() ==> sys_wf(#[trigger] done@[k]),
            decreases n - i,
        {
            proof {
                assert(self.parts@[0] == olds[i as int]);
                lemma_seq_height_index(olds, i as int);
            }
            let mut child = self.parts.remove(0);
            child.tear_down();
            done.push(child);
            proof {
                assert(self.parts@ =~= olds.skip(i as int + 1));
            }
            i = i + 1;
        }
        self.parts = done;
        self.current_part = 0;
        self.time_offset = Ratio { num: 0, den: 1 };
        self.active = false;
        self.initialized = false;
        proof {
            lemma_seq_sys_wf(self.parts@);
        }
    }

    /// Advance the current child with the working time shifted by the
    /// accumulated offset.  When the child reports exhaustion it is
    /// torn down and the next child takes over with the part period;
    /// past the last child the group either rewinds (looping) or
    /// reports exhaustion itself.  A current index out of range is an
    /// internal invariant violation, surfaced as `Index`.
    #[verifier::rlimit(100)]
    pub fn next_frame(&mut self, time: Option<Ratio>, fr: &Frame) -> (r: Result<bool, Error>)
        requires
            old(self).wf(),
            fr.wf(),
            time matches Some(t) ==> t.wf(),
        ensures
            final(self).wf(),
            sys_frame_rel(
                ParticleSys::Sequential(*old(self)),
                ParticleSys::Sequential(*final(self)),
                time,
                *fr,
                r,
            ),
        decreases seq_height(old(self).parts@) + 1, 0int,
    {
        let ghost olds = self.parts@;
        proof {
            lemma_seq_sys_wf(olds);
        }
        let current = match time {
            Some(v) => match v.checked_sub(&self.time_offset) {
                Some(c) => c,
                None => {
                    return Err(Error::Overflow);
                },
            },
            None => match fr.now.checked_sub(&self.start_time) {
                Some(c) => c,
                None => {
                    return Err(Error::Overflow);
                },
            },
        };
        proof {
            // The working time matches the relation's resolved time.
            let a0 = *old(self);
            let rq = match time {
                Some(v) => q_checked(q_sub(v.q(), a0.time_offset.q())),
                None => q_checked(q_sub(fr.now.q(), a0.start_time.q())),
            };
            assert(rq == Some(current.q()));
            assert(current == ratio_of(rq.unwrap()));
        }
        let n: usize = self.parts.len();
        if self.current_part >= n {
            return Err(Error::Index);
        }
        let next_off = match self.time_offset.checked_add(&self.part_period) {
            Some(v) => v,
            None => {
                return Err(Error::Overflow);
            },
        };
        proof {
            let a0 = *old(self);
            let oq = q_checked(q_add(a0.time_offset.q(), a0.part_period.q()));
            assert(oq == Some(next_off.q()));
            assert(next_off == ratio_of(oq.unwrap()));
        }
        let k: usize = self.current_part;
        proof {
            lemma_seq_height_index(olds, k as int);
        }
        let mut child = self.parts.remove(k);
        let b = match child.next_frame(Some(current), fr) {
            Ok(b) => b,
            Err(er) => {
                self.parts.insert(k, child);
                proof {
                    assert(self.parts@ =~= olds.update(k as int, child));
                    assert forall|j: int| 0 <= j < self.parts@.len()
                        implies sys_wf(#[trigger] self.parts@[j]) by {
                        if j != k as int {
                            assert(self.parts@[j] == olds[j]);
                        }
                    }
                    lemma_seq_sys_wf(self.parts@);
                    assert(self.parts@[k as int] == child);
                    assert forall|j: int| 0 <= j < self.parts@.len() && j != k as int
                        implies self.parts@[j] == olds[j] by {}
                    assert(sys_frame_rel(olds[k as int], child, Some(current), *fr, Err(er)));
                    assert(seq_step_rel(*old(self), *self, current, next_off, *fr, Err(er)));
                }
                return Err(er);
            },
        };
        if b {
            self.parts.insert(k, child);
            proof {
                assert(self.parts@ =~= olds.update(k as int, child));
                assert forall|j: int| 0 <= j < self.parts@.len()
                    implies sys_wf(#[trigger] self.parts@[j]) by {
                    if j != k as int {
                        assert(self.parts@[j] == olds[j]);
                    }
                }
                lemma_seq_sys_wf(self.parts@);
                assert(self.parts@[k as int] == child);
                assert forall|j: int| 0 <= j < self.parts@.len() && j != k as int
                    implies self.parts@[j] == olds[j] by {}
                assert(sys_frame_rel(olds[k as int], child, Some(current), *fr, Ok(true)));
                assert(seq_step_rel(*old(self), *self, current, next_off, *fr, Ok(true)));
            }
            return Ok(true);
        }
        // The current child exhausted its share of the period.
        let ghost child_adv = child;
        child.tear_down();
        let ghost child_torn = child;
        let wrap: bool = k + 1 == n;
        if wrap && !self.looping {
            self.parts.insert(k, child);
            self.current_part = k + 1;
            self.time_offset = next_off;
            proof {
                assert(self.parts@ =~= olds.update(k as int, child_torn));
                assert forall|j: int| 0 <= j < self.parts@.len()
                    implies sys_wf(#[trigger] self.parts@[j]) by {
                    if j != k as int {
                        assert(self.parts@[j] == olds[j]);
                    }
                }
                lemma_seq_sys_wf(self.parts@);
                assert(self.parts@[k as int] == child_torn);
                assert forall|j: int| 0 <= j < self.parts@.len() && j != k as int
                    implies self.parts@[j] == olds[j] by {}
                assert(sys_frame_rel(olds[k as int], child_adv, Some(current), *fr, Ok(false)));
                assert(sys_teardown_rel(child_adv, child_torn));
                assert(sys_teardown_rel(child_adv, self.parts@[k as int]));
                assert(seq_step_rel(*old(self), *self, current, next_off, *fr, Ok(false)));
            }
            return Ok(false);
        }
        let nk: usize = if wrap {
            self.current_part = 0;
            self.time_offset = Ratio { num: 0, den: 1 };
            self.start_time = fr.now;
            0
        } else {
            self.current_part = k + 1;
            self.time_offset = next_off;
            k + 1
        };
        if nk == k {
            // A single looping child: set the torn-down child up again.
            match child.setup(self.looping, Some(self.part_period), fr.now) {
                Ok(()) => {},
                Err(er) => {
                    self.parts.insert(k, child);
                    proof {
                        assert(self.parts@ =~= olds.update(k as int, child));
                        assert forall|j: int| 0 <= j < self.parts@.len()
                            implies sys_wf(#[trigger] self.parts@[j]) by {
                            if j != k as int {
                                assert(self.parts@[j] == olds[j]);
                            }
                        }
                        lemma_seq_sys_wf(self.parts@);
                        lemma_frame_rel_shape(
                            olds[k as int],
                            child_adv,
                            Some(current),
                            *fr,
                            Ok(false),
                        );
                        lemma_teardown_rel_shape(child_adv, child_torn);
                        lemma_same_shape_trans(olds[k as int], child_adv, child_torn);
                        if child == child_torn {
                            lemma_same_shape_refl(child_torn);
                        }
                        lemma_same_shape_trans(olds[k as int], child_torn, child);
                        assert(self.parts@[k as int] == child);
                        assert forall|j: int| 0 <= j < self.parts@.len() && j != k as int
                            implies self.parts@[j] == olds[j] by {}
                        assert(sys_same_shape(olds[k as int], self.parts@[k as int]));
                        assert(seq_child_cycled(
                            *old(self),
                            *self,
                            current,
                            *fr,
                            k as int,
                            k as int,
                        ));
                        assert(seq_step_rel(*old(self), *self, current, next_off, *fr, Err(er)));
                    }
                    return Err(er);
                },
            }
            self.parts.insert(k, child);
            proof {
                assert(self.parts@ =~= olds.update(k as int, child));
                assert forall|j: int| 0 <= j < self.parts@.len()
                    implies sys_wf(#[trigger] self.parts@[j]) by {
                    if j != k as int {
                        assert(self.parts@[j] == olds[j]);
                    }
                }
                lemma_seq_sys_wf(self.parts@);
                assert(self.parts@[k as int] == child);
                assert forall|j: int| 0 <= j < self.parts@.len() && j != k as int
                    implies self.parts@[j] == olds[j] by {}
                assert(sys_frame_rel(olds[k as int], child_adv, Some(current), *fr, Ok(false)));
                assert(sys_teardown_rel(child_adv, child_torn));
                assert(sys_setup_rel(
                    child_torn,
                    self.parts@[k as int],
                    self.looping,
                    self.part_period,
                    fr.now,
                ));
                assert(seq_step_rel(*old(self), *self, current, next_off, *fr, Ok(true)));
            }
            return Ok(true);
        }
        self.parts.insert(k, child);
        let ghost mid_parts = self.parts@;
        proof {
            assert(mid_parts =~= olds.update(k as int, child_torn));
            lemma_seq_height_index(olds, nk as int);
            assert(mid_parts[nk as int] == olds[nk as int]);
        }
        let mut nc = self.parts.remove(nk);
        match nc.setup(self.looping, Some(self.part_period), fr.now) {
            Ok(()) => {},
            Err(er) => {
                self.parts.insert(nk, nc);
                proof {
                    assert(self.parts@ =~= mid_parts.update(nk as int, nc));
                    assert forall|j: int| 0 <= j < self.parts@.len()
                        implies sys_wf(#[trigger] self.parts@[j]) by {
                        if j != nk as int {
                            assert(self.parts@[j] == mid_parts[j]);
                            if j != k as int {
                                assert(self.parts@[j] == olds[j]);
                            }
                        }
                    }
                    lemma_seq_sys_wf(self.parts@);
                    assert(self.parts@[k as int] == child_torn);
                    assert(self.parts@[nk as int] == nc);
                    assert forall|j: int|
                        0 <= j < self.parts@.len() && j != k as int && j != nk as int
                        implies self.parts@[j] == olds[j] by {
                        assert(self.parts@[j] == mid_parts[j]);
                    }
                    assert(sys_frame_rel(olds[k as int], child_adv, Some(current), *fr, Ok(false)));
                    assert(sys_teardown_rel(child_adv, child_torn));
                    assert(sys_teardown_rel(child_adv, self.parts@[k as int]));
                    if nc == olds[nk as int] {
                        lemma_same_shape_refl(olds[nk as int]);
                    }
                    assert(sys_same_shape(olds[nk as int], self.parts@[nk as int]));
                    assert(seq_child_cycled(
                        *old(self),
                        *self,
                        current,
                        *fr,
                        k as int,
                        nk as int,
                    ));
                    assert(seq_step_rel(*old(self), *self, current, next_off, *fr, Err(er)));
                }
                return Err(er);
            },
        }
        self.parts.insert(nk, nc);
        proof {
            assert(self.parts@ =~= mid_parts.update(nk as int, nc));
            assert forall|j: int| 0 <= j < self.parts@.len()
                implies sys_wf(#[trigger] self.parts@[j]) by {
                if j != nk as int {
                    assert(self.parts@[j] == mid_parts[j]);
                    if j != k as int {
                        assert(self.parts@[j] == olds[j]);
                    }
                }
            }
            lemma_seq_sys_wf(self.parts@);
            assert(self.parts@[k as int] == child_torn);
            assert(self.parts@[nk as int] == nc);
            assert forall|j: int|
                0 <= j < self.parts@.len() && j != k as int && j != nk as int
                implies self.parts@[j] == olds[j] by {
                assert(self.parts@[j] == mid_parts[j]);
            }
            assert(sys_frame_rel(olds[k as int], child_adv, Some(current), *fr, Ok(false)));
            assert(sys_teardown_rel(child_adv, child_torn));
            assert(sys_teardown_rel(child_adv, self.parts@[k as int]));
            assert(sys_setup_rel(
                olds[nk as int],
                self.parts@[nk as int],
                old(self).looping,
                old(self).part_period,
                fr.now,
            ));
            assert(seq_step_rel(*old(self), *self, current, next_off, *fr, Ok(true)));
        }
        Ok(true)
    }
}

} // verus!
