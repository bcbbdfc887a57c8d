//! The capability contract unifying particle systems.
//!
//! A [`ParticleSys`] is either a leaf emitter or a composite group
//! (synchronous or sequential); groups own further `ParticleSys`
//! values, so systems nest arbitrarily.  Every variant shares one
//! lifecycle: `setup` validates and arms the system, `next_frame`
//! advances it one tick, `tear_down` disarms it, and `run` drives one
//! tick with the default looping/teardown policy.
//!
//! All clocks are injected: the embedding application passes the
//! current instant (and the host frame delta) in a [`Frame`], so every
//! operation here is deterministic apart from the spawn draws.

use vstd::prelude::*;

use crate::error::Error;
use crate::groups::{SeqGrp, SyncGrp};
use crate::linear_particles::{lp_advanced_rel, resolve_time, LinearParticles};
use crate::ratio::{q_checked, q_eq, q_le, q_lt, q_sub, q_zero, Qv, Ratio};

verus! {

/// One tick's worth of host time: the current instant `now` (seconds
/// since the host's epoch) and the host's frame delta `delta` (the
/// lookahead used by segment-building emitters).
#[derive(Clone, Copy, Debug, PartialEq, Eq, Structural)]
pub struct Frame {
    pub now: Ratio,
    pub delta: Ratio,
}

impl Frame {
    pub open spec fn wf(self) -> bool {
        self.now.wf() && self.delta.wf()
    }

    pub fn new(now: Ratio, delta: Ratio) -> (f: Frame)
        ensures
            f == (Frame { now, delta }),
    {
        Frame { now, delta }
    }
}

/// A particle system: a leaf emitter or a composite group.
#[derive(Debug)]
pub enum ParticleSys {
    Linear(LinearParticles),
    Sync(SyncGrp),
    Sequential(SeqGrp),
}

/// Well-formedness of a whole system tree.
pub open spec fn sys_wf(s: ParticleSys) -> bool
    decreases s,
{
    match s {
        ParticleSys::Linear(lp) => lp.wf(),
        ParticleSys::Sync(g) => {
            &&& g.period.wf()
            &&& g.start_time.wf()
            &&& seq_sys_wf(g.parts@)
        },
        ParticleSys::Sequential(g) => {
            &&& g.period.wf()
            &&& g.start_time.wf()
            &&& g.part_period.wf()
            &&& g.time_offset.wf()
            &&& g.parts@.len() >= 1
            &&& seq_sys_wf(g.parts@)
        },
    }
}

/// Well-formedness of a sequence of systems.
pub open spec fn seq_sys_wf(ss: Seq<ParticleSys>) -> bool
    decreases ss,
{
    if ss.len() == 0 {
        true
    } else {
        sys_wf(ss[0]) && seq_sys_wf(ss.drop_first())
    }
}

/// `seq_sys_wf` is pointwise well-formedness.
pub proof fn lemma_seq_sys_wf(ss: Seq<ParticleSys>)
    ensures
        seq_sys_wf(ss) <==> (forall|i: int| 0 <= i < ss.len() ==> sys_wf(#[trigger] ss[i])),
    decreases ss.len(),
{
    if ss.len() > 0 {
        lemma_seq_sys_wf(ss.drop_first());
        assert forall|i: int| 0 <= i < ss.len() && seq_sys_wf(ss) implies sys_wf(
            #[trigger] ss[i],
        ) by {
            if i > 0 {
                assert(ss.drop_first()[i - 1] == ss[i]);
            }
        }
        if forall|i: int| 0 <= i < ss.len() ==> sys_wf(#[trigger] ss[i]) {
            assert forall|i: int| 0 <= i < ss.drop_first().len() implies sys_wf(
                #[trigger] ss.drop_first()[i],
            ) by {
                assert(ss.drop_first()[i] == ss[i + 1]);
            }
        }
    }
}

/// Height of a system tree, the termination measure for the mutually
/// recursive operations: leaves are zero, a group is one more than its
/// tallest child.
pub open spec fn sys_height(s: ParticleSys) -> nat
    decreases s,
{
    match s {
        ParticleSys::Linear(_) => 0,
        ParticleSys::Sync(g) => 1 + seq_height(g.parts@),
        ParticleSys::Sequential(g) => 1 + seq_height(g.parts@),
    }
}

/// The tallest height among a sequence of systems.
pub open spec fn seq_height(ss: Seq<ParticleSys>) -> nat
    decreases ss,
{
    if ss.len() == 0 {
        0
    } else {
        let h = sys_height(ss[0]);
        let rest = seq_height(ss.drop_first());
        if h > rest {
            h
        } else {
            rest
        }
    }
}

/// Every element's height is bounded by the sequence height.
pub proof fn lemma_seq_height_index(ss: Seq<ParticleSys>, i: int)
    requires
        0 <= i < ss.len(),
    ensures
        sys_height(ss[i]) <= seq_height(ss),
    decreases ss.len(),
{
    if i > 0 {
        lemma_seq_height_index(ss.drop_first(), i - 1);
        assert(ss.drop_first()[i - 1] == ss[i]);
    }
}

/// Whether the system is in its active state.
pub open spec fn sys_active(s: ParticleSys) -> bool {
    match s {
        ParticleSys::Linear(lp) => lp.active,
        ParticleSys::Sync(g) => g.active,
        ParticleSys::Sequential(g) => g.active,
    }
}

/// Whether the system has been set up.
pub open spec fn sys_initialized(s: ParticleSys) -> bool {
    match s {
        ParticleSys::Linear(lp) => lp.initialized,
        ParticleSys::Sync(g) => g.initialized,
        ParticleSys::Sequential(g) => g.initialized,
    }
}

/// Whether the system is set to loop.
pub open spec fn sys_looping_flag(s: ParticleSys) -> bool {
    match s {
        ParticleSys::Linear(lp) => lp.looping,
        ParticleSys::Sync(g) => g.looping,
        ParticleSys::Sequential(g) => g.looping,
    }
}

/// The system's own clock start.
pub open spec fn sys_start_time(s: ParticleSys) -> Ratio {
    match s {
        ParticleSys::Linear(lp) => lp.start_time,
        ParticleSys::Sync(g) => g.start_time,
        ParticleSys::Sequential(g) => g.start_time,
    }
}

/// The system's own period.
pub open spec fn sys_period(s: ParticleSys) -> Ratio {
    match s {
        ParticleSys::Linear(lp) => lp.period,
        ParticleSys::Sync(g) => g.period,
        ParticleSys::Sequential(g) => g.period,
    }
}

/// What a successful `setup` with loop flag `should_loop`, resolved
/// period `resolved` and clock start `now` leaves behind, over the
/// whole tree.  A synchronous group propagates `resolved` to every
/// child; a sequential group recomputes its `part_period` and sets up
/// only its first child with it.
pub open spec fn sys_setup_rel(
    pre: ParticleSys,
    post: ParticleSys,
    should_loop: bool,
    resolved: Ratio,
    now: Ratio,
) -> bool
    decreases pre,
{
    match pre {
        ParticleSys::Linear(a) => match post {
            ParticleSys::Linear(b) => LinearParticles::setup_rel(a, b, should_loop, resolved, now),
            _ => false,
        },
        ParticleSys::Sync(a) => match post {
            ParticleSys::Sync(b) => {
                &&& b.period == resolved
                &&& b.looping == should_loop
                &&& b.active
                &&& b.initialized
                &&& b.start_time == now
                &&& b.parts@.len() == a.parts@.len()
                &&& forall|i: int|
                    0 <= i < a.parts@.len() ==> sys_setup_rel(
                        #[trigger] a.parts@[i],
                        b.parts@[i],
                        should_loop,
                        resolved,
                        now,
                    )
            },
            _ => false,
        },
        ParticleSys::Sequential(a) => match post {
            ParticleSys::Sequential(b) => {
                &&& b.period == resolved
                &&& b.looping == should_loop
                &&& b.active
                &&& b.initialized
                &&& b.start_time == now
                &&& b.current_part == 0
                &&& b.time_offset == (Ratio { num: 0, den: 1 })
                &&& a.parts@.len() >= 1
                &&& b.parts@.len() == a.parts@.len()
                &&& Some(b.part_period.q()) == q_checked(
                    Qv { n: resolved.q().n, d: resolved.q().d * a.parts@.len() },
                )
                &&& sys_setup_rel(a.parts@[0], b.parts@[0], should_loop, b.part_period, now)
                &&& forall|i: int| 1 <= i < a.parts@.len() ==> b.parts@[i] == #[trigger] a.parts@[i]
            },
            _ => false,
        },
    }
}

/// Whether setting a well-formed tree up with the positive resolved
/// period `resolved` succeeds.  Setup is deterministic: a leaf emitter
/// always accepts a positive period; a synchronous group needs every
/// child to accept `resolved`; a sequential group needs its part
/// period `resolved / n` to stay in the 64-bit exact range and its
/// first child to accept that part period.  `Overflow` is reported
/// exactly when this predicate fails.
pub open spec fn sys_setup_ok(pre: ParticleSys, resolved: Ratio) -> bool
    decreases pre,
{
    match pre {
        ParticleSys::Linear(_) => true,
        ParticleSys::Sync(g) => forall|i: int|
            0 <= i < g.parts@.len() ==> sys_setup_ok(#[trigger] g.parts@[i], resolved),
        ParticleSys::Sequential(g) => {
            if g.parts@.len() == 0 {
                false
            } else {
                match q_checked(Qv { n: resolved.q().n, d: resolved.q().d * g.parts@.len() }) {
                    None => false,
                    Some(pp) => sys_setup_ok(g.parts@[0], crate::ratio::ratio_of(pp)),
                }
            }
        },
    }
}

/// What `tear_down` leaves behind, over the whole tree: every system
/// inactive and uninitialized, sequential bookkeeping rewound, all
/// configuration kept.
pub open spec fn sys_teardown_rel(pre: ParticleSys, post: ParticleSys) -> bool
    decreases pre,
{
    match pre {
        ParticleSys::Linear(a) => match post {
            ParticleSys::Linear(b) => b == (LinearParticles {
                active: false,
                initialized: false,
                ..a
            }),
            _ => false,
        },
        ParticleSys::Sync(a) => match post {
            ParticleSys::Sync(b) => {
                &&& b.period == a.period
                &&& b.looping == a.looping
                &&& b.start_time == a.start_time
                &&& !b.active
                &&& !b.initialized
                &&& b.parts@.len() == a.parts@.len()
                &&& forall|i: int|
                    0 <= i < a.parts@.len() ==> sys_teardown_rel(
                        #[trigger] a.parts@[i],
                        b.parts@[i],
                    )
            },
            _ => false,
        },
        ParticleSys::Sequential(a) => match post {
            ParticleSys::Sequential(b) => {
                &&& b.period == a.period
                &&& b.looping == a.looping
                &&& b.start_time == a.start_time
                &&& b.part_period == a.part_period
                &&& !b.active
                &&& !b.initialized
                &&& b.current_part == 0
                &&& b.time_offset == (Ratio { num: 0, den: 1 })
                &&& b.parts@.len() == a.parts@.len()
                &&& forall|i: int|
                    0 <= i < a.parts@.len() ==> sys_teardown_rel(
                        #[trigger] a.parts@[i],
                        b.parts@[i],
                    )
            },
            _ => false,
        },
    }
}

/// The two trees have the same shape: matching variants and child
/// counts throughout.  This is all that is promised of a child in
/// which a best-effort operation failed partway.
pub open spec fn sys_same_shape(pre: ParticleSys, post: ParticleSys) -> bool
    decreases pre,
{
    match pre {
        ParticleSys::Linear(_) => post is Linear,
        ParticleSys::Sync(a) => match post {
            ParticleSys::Sync(b) => {
                &&& b.parts@.len() == a.parts@.len()
                &&& forall|i: int|
                    0 <= i < a.parts@.len() ==> sys_same_shape(
                        #[trigger] a.parts@[i],
                        b.parts@[i],
                    )
            },
            _ => false,
        },
        ParticleSys::Sequential(a) => match post {
            ParticleSys::Sequential(b) => {
                &&& b.parts@.len() == a.parts@.len()
                &&& forall|i: int|
                    0 <= i < a.parts@.len() ==> sys_same_shape(
                        #[trigger] a.parts@[i],
                        b.parts@[i],
                    )
            },
            _ => false,
        },
    }
}

/// A tree is shaped like itself.
pub proof fn lemma_same_shape_refl(s: ParticleSys)
    ensures
        sys_same_shape(s, s),
    decreases s,
{
    match s {
        ParticleSys::Linear(_) => {},
        ParticleSys::Sync(g) => {
            assert forall|i: int| 0 <= i < g.parts@.len() implies sys_same_shape(
                #[trigger] g.parts@[i],
                g.parts@[i],
            ) by {
                lemma_same_shape_refl(g.parts@[i]);
            }
        },
        ParticleSys::Sequential(g) => {
            assert forall|i: int| 0 <= i < g.parts@.len() implies sys_same_shape(
                #[trigger] g.parts@[i],
                g.parts@[i],
            ) by {
                lemma_same_shape_refl(g.parts@[i]);
            }
        },
    }
}

/// The frame relation of a leaf emitter, with the Bernoulli draw
/// folded away existentially.
pub open spec fn lp_frame_rel(
    a: LinearParticles,
    b: LinearParticles,
    time: Option<Ratio>,
    fr: Frame,
    r: Result<bool, Error>,
) -> bool {
    match r {
        Ok(bb) => {
            &&& lp_advanced_rel(a, b, time, fr)
            &&& match resolve_time(time, fr.now, a.start_time) {
                Some(cur) => bb == q_le(cur.q(), a.period.q()),
                None => false,
            }
        },
        Err(e) => e == Error::Overflow && b == a,
    }
}

/// The child advanced one frame at working time `cur` with some
/// outcome flag.
pub open spec fn sys_advanced_ok(
    pre: ParticleSys,
    post: ParticleSys,
    cur: Ratio,
    fr: Frame,
) -> bool
    decreases pre, 3int,
{
    ||| sys_frame_rel(pre, post, Some(cur), fr, Ok(true))
    ||| sys_frame_rel(pre, post, Some(cur), fr, Ok(false))
}

/// What one call of `next_frame` does, over the whole tree.
///
/// A synchronous group resolves its working time once and advances
/// every child with that same snapshot, returning whether its own
/// period is still running; on a child error the children before it
/// have advanced and the ones after it are untouched.  A sequential
/// group advances only its current child (with the time shifted by its
/// accumulated offset); when that child reports exhaustion it is torn
/// down and the next child (or, when looping, the first again, with
/// offset and clock rewound) is set up with the part period.
pub open spec fn sys_frame_rel(
    pre: ParticleSys,
    post: ParticleSys,
    time: Option<Ratio>,
    fr: Frame,
    r: Result<bool, Error>,
) -> bool
    decreases pre, 2int,
{
    match pre {
        ParticleSys::Linear(a) => match post {
            ParticleSys::Linear(b) => lp_frame_rel(a, b, time, fr, r),
            _ => false,
        },
        ParticleSys::Sync(a) => match post {
            ParticleSys::Sync(b) => {
                &&& b.period == a.period
                &&& b.active == a.active
                &&& b.initialized == a.initialized
                &&& b.looping == a.looping
                &&& b.start_time == a.start_time
                &&& b.parts@.len() == a.parts@.len()
                &&& match resolve_time(time, fr.now, a.start_time) {
                    None => r == Err::<bool, Error>(Error::Overflow) && post == pre,
                    Some(cur) => match r {
                        Ok(bb) => {
                            &&& bb == q_le(cur.q(), a.period.q())
                            &&& forall|i: int|
                                0 <= i < a.parts@.len() ==> sys_advanced_ok(
                                    #[trigger] a.parts@[i],
                                    b.parts@[i],
                                    cur,
                                    fr,
                                )
                        },
                        Err(e) => exists|k: int|
                            #![trigger a.parts@[k]]
                            {
                                &&& 0 <= k < a.parts@.len()
                                &&& forall|i: int|
                                    0 <= i < k ==> sys_advanced_ok(
                                        #[trigger] a.parts@[i],
                                        b.parts@[i],
                                        cur,
                                        fr,
                                    )
                                &&& sys_frame_rel(a.parts@[k], b.parts@[k], Some(cur), fr, Err(e))
                                &&& forall|i: int|
                                    k < i < a.parts@.len() ==> b.parts@[i] == #[trigger] a.parts@[i]
                            },
                    },
                }
            },
            _ => false,
        },
        ParticleSys::Sequential(a) => match post {
            ParticleSys::Sequential(b) => {
                &&& b.parts@.len() == a.parts@.len()
                &&& {
                    let resolved = match time {
                        Some(v) => q_checked(q_sub(v.q(), a.time_offset.q())),
                        None => q_checked(q_sub(fr.now.q(), a.start_time.q())),
                    };
                    match resolved {
                        None => r == Err::<bool, Error>(Error::Overflow) && post == pre,
                        Some(curq) => {
                            let cur = crate::ratio::ratio_of(curq);
                            if a.current_part >= a.parts@.len() {
                                r == Err::<bool, Error>(Error::Index) && post == pre
                            } else if q_checked(
                                crate::ratio::q_add(a.time_offset.q(), a.part_period.q()),
                            ) is None {
                                r == Err::<bool, Error>(Error::Overflow) && post == pre
                            } else {
                                let k = a.current_part as int;
                                let next_off = crate::ratio::ratio_of(
                                    q_checked(
                                        crate::ratio::q_add(
                                            a.time_offset.q(),
                                            a.part_period.q(),
                                        ),
                                    ).unwrap(),
                                );
                                seq_step_rel(a, b, cur, next_off, fr, r)
                            }
                        },
                    }
                }
            },
            _ => false,
        },
    }
}

/// The sequential group's bookkeeping after its current child has been
/// given the (offset-adjusted) working time `cur`.  `next_off` is the
/// accumulated offset with one more part period added.
pub open spec fn seq_step_rel(
    a: SeqGrp,
    b: SeqGrp,
    cur: Ratio,
    next_off: Ratio,
    fr: Frame,
    r: Result<bool, Error>,
) -> bool
    decreases a, 1int,
{
    let k = a.current_part as int;
    if !(0 <= k < a.parts@.len() && b.parts@.len() == a.parts@.len()) {
        false
    } else {
    match r {
        Err(e) => {
            &&& b.period == a.period
            &&& b.active == a.active
            &&& b.initialized == a.initialized
            &&& b.looping == a.looping
            &&& b.part_period == a.part_period
            &&& {
                // Either the current child itself failed, with nothing
                // else moved ...
                ||| {
                    &&& sys_frame_rel(a.parts@[k], b.parts@[k], Some(cur), fr, Err(e))
                    &&& forall|i: int|
                        0 <= i < a.parts@.len() && i != k ==> b.parts@[i] == #[trigger] a.parts@[i]
                    &&& b.start_time == a.start_time
                    &&& b.current_part == a.current_part
                    &&& b.time_offset == a.time_offset
                }
                // ... or it exhausted and was torn down, and setting up
                // the newly current child overflowed partway.
                ||| {
                    let wrap = k + 1 == a.parts@.len();
                    let nk = if wrap {
                        0int
                    } else {
                        k + 1
                    };
                    &&& (e == Error::Overflow || (e matches Error::Validation {
                        field,
                        ..
                    } && field == crate::error::Field::Period))
                    &&& (wrap ==> a.looping)
                    &&& b.current_part == nk
                    &&& b.time_offset == (if wrap {
                        Ratio { num: 0, den: 1 }
                    } else {
                        next_off
                    })
                    &&& b.start_time == (if wrap {
                        fr.now
                    } else {
                        a.start_time
                    })
                    &&& seq_child_cycled(a, b, cur, fr, k, nk)
                    &&& forall|i: int|
                        0 <= i < a.parts@.len() && i != k && i != nk ==> b.parts@[i]
                            == #[trigger] a.parts@[i]
                }
            }
        },
        Ok(bb) => {
            &&& b.period == a.period
            &&& b.active == a.active
            &&& b.initialized == a.initialized
            &&& b.looping == a.looping
            &&& b.part_period == a.part_period
            &&& {
                // The current child is still running: nothing else
                // moves and the group reports it is alive.
                ||| {
                    &&& bb == true
                    &&& sys_frame_rel(a.parts@[k], b.parts@[k], Some(cur), fr, Ok(true))
                    &&& forall|i: int|
                        0 <= i < a.parts@.len() && i != k ==> b.parts@[i] == #[trigger] a.parts@[i]
                    &&& b.start_time == a.start_time
                    &&& b.current_part == a.current_part
                    &&& b.time_offset == a.time_offset
                }
                // The current child exhausted its share, was torn
                // down, and the group itself is exhausted.
                ||| {
                    &&& k + 1 == a.parts@.len()
                    &&& !a.looping
                    &&& bb == false
                    &&& exists|mid: ParticleSys|
                        #![trigger sys_teardown_rel(mid, b.parts@[k])]
                        {
                            &&& sys_frame_rel(a.parts@[k], mid, Some(cur), fr, Ok(false))
                            &&& sys_teardown_rel(mid, b.parts@[k])
                        }
                    &&& b.current_part == a.current_part + 1
                    &&& b.time_offset == next_off
                    &&& b.start_time == a.start_time
                    &&& forall|i: int|
                        0 <= i < a.parts@.len() && i != k ==> b.parts@[i] == #[trigger] a.parts@[i]
                }
                // The current child exhausted its share; the next one
                // (wrapping and rewinding when looping) took over.
                ||| {
                    let wrap = k + 1 == a.parts@.len();
                    let nk = if wrap {
                        0int
                    } else {
                        k + 1
                    };
                    &&& bb == true
                    &&& (wrap ==> a.looping)
                    &&& b.current_part == nk
                    &&& b.time_offset == (if wrap {
                        Ratio { num: 0, den: 1 }
                    } else {
                        next_off
                    })
                    &&& b.start_time == (if wrap {
                        fr.now
                    } else {
                        a.start_time
                    })
                    &&& (if nk == k {
                        exists|mid: ParticleSys, mid2: ParticleSys|
                            #![trigger sys_teardown_rel(mid, mid2)]
                            {
                                &&& sys_frame_rel(a.parts@[k], mid, Some(cur), fr, Ok(false))
                                &&& sys_teardown_rel(mid, mid2)
                                &&& sys_setup_rel(
                                    mid2,
                                    b.parts@[k],
                                    a.looping,
                                    a.part_period,
                                    fr.now,
                                )
                            }
                    } else {
                        &&& exists|mid: ParticleSys|
                            #![trigger sys_teardown_rel(mid, b.parts@[k])]
                            {
                                &&& sys_frame_rel(a.parts@[k], mid, Some(cur), fr, Ok(false))
                                &&& sys_teardown_rel(mid, b.parts@[k])
                            }
                        &&& sys_setup_rel(
                            a.parts@[nk],
                            b.parts@[nk],
                            a.looping,
                            a.part_period,
                            fr.now,
                        )
                    })
                    &&& forall|i: int|
                        0 <= i < a.parts@.len() && i != k && i != nk ==> b.parts@[i]
                            == #[trigger] a.parts@[i]
                }
            }
        },
    }
    }
}

/// A synchronous group's frame advances every child with the same
/// working-time snapshot, resolved once for the whole group — whatever
/// internal periods the children carry — and the group's own verdict
/// is its own period checked against that same snapshot.
pub proof fn lemma_sync_shared_snapshot(
    a: SyncGrp,
    b: SyncGrp,
    time: Option<Ratio>,
    fr: Frame,
    bb: bool,
)
    requires
        sys_frame_rel(ParticleSys::Sync(a), ParticleSys::Sync(b), time, fr, Ok(bb)),
        resolve_time(time, fr.now, a.start_time) is Some,
    ensures
        ({
            let cur = resolve_time(time, fr.now, a.start_time).unwrap();
            &&& bb == crate::ratio::q_le(cur.q(), a.period.q())
            &&& forall|i: int|
                0 <= i < a.parts@.len() ==> sys_advanced_ok(
                    #[trigger] a.parts@[i],
                    b.parts@[i],
                    cur,
                    fr,
                )
        }),
{
}

/// Progression of a sequential group, read off one frame step: the
/// group reports exhaustion exactly when its last child exhausts
/// without looping; an ordinary hand-over moves to the next child and
/// grows the offset by one part period; a looping hand-over past the
/// last child re-activates child zero with the offset rewound to zero
/// and the group clock restarted.
pub proof fn lemma_seq_progression(
    a: SeqGrp,
    b: SeqGrp,
    cur: Ratio,
    next_off: Ratio,
    fr: Frame,
    bb: bool,
)
    requires
        0 <= a.current_part < a.parts@.len(),
        b.parts@.len() == a.parts@.len(),
        seq_step_rel(a, b, cur, next_off, fr, Ok(bb)),
    ensures
        !bb ==> {
            &&& a.current_part + 1 == a.parts@.len()
            &&& !a.looping
            &&& b.current_part == a.parts@.len()
        },
        bb && b.current_part != a.current_part && a.current_part + 1 < a.parts@.len() ==> {
            &&& b.current_part == a.current_part + 1
            &&& b.time_offset == next_off
            &&& b.start_time == a.start_time
        },
        bb && b.current_part != a.current_part && a.current_part + 1 == a.parts@.len() ==> {
            &&& a.looping
            &&& b.current_part == 0
            &&& b.time_offset == (Ratio { num: 0, den: 1 })
            &&& b.start_time == fr.now
        },
{
}

/// In an error partway through the hand-over, the old current child
/// `k` has been advanced and torn down, and the newly current child
/// `nk` is only known to keep its shape.
pub open spec fn seq_child_cycled(
    a: SeqGrp,
    b: SeqGrp,
    cur: Ratio,
    fr: Frame,
    k: int,
    nk: int,
) -> bool
    decreases a, 0int,
{
    if !(0 <= k < a.parts@.len() && 0 <= nk < a.parts@.len() && b.parts@.len()
        == a.parts@.len()) {
        false
    } else if nk == k {
        sys_same_shape(a.parts@[k], b.parts@[k])
    } else {
        &&& exists|mid: ParticleSys|
            #![trigger sys_teardown_rel(mid, b.parts@[k])]
            {
                &&& sys_frame_rel(a.parts@[k], mid, Some(cur), fr, Ok(false))
                &&& sys_teardown_rel(mid, b.parts@[k])
            }
        &&& sys_same_shape(a.parts@[nk], b.parts@[nk])
    }
}

/// Shape agreement is transitive.
pub proof fn lemma_same_shape_trans(a: ParticleSys, b: ParticleSys, c: ParticleSys)
    requires
        sys_same_shape(a, b),
        sys_same_shape(b, c),
    ensures
        sys_same_shape(a, c),
    decreases a,
{
    match a {
        ParticleSys::Linear(_) => {},
        ParticleSys::Sync(ga) => {
            match b {
                ParticleSys::Sync(gb) => match c {
                    ParticleSys::Sync(gc) => {
                        assert forall|i: int| 0 <= i < ga.parts@.len() implies sys_same_shape(
                            #[trigger] ga.parts@[i],
                            gc.parts@[i],
                        ) by {
                            lemma_same_shape_trans(ga.parts@[i], gb.parts@[i], gc.parts@[i]);
                        }
                    },
                    _ => {},
                },
                _ => {},
            }
        },
        ParticleSys::Sequential(ga) => {
            match b {
                ParticleSys::Sequential(gb) => match c {
                    ParticleSys::Sequential(gc) => {
                        assert forall|i: int| 0 <= i < ga.parts@.len() implies sys_same_shape(
                            #[trigger] ga.parts@[i],
                            gc.parts@[i],
                        ) by {
                            lemma_same_shape_trans(ga.parts@[i], gb.parts@[i], gc.parts@[i]);
                        }
                    },
                    _ => {},
                },
                _ => {},
            }
        },
    }
}

/// A torn-down tree keeps its shape.
pub proof fn lemma_teardown_rel_shape(pre: ParticleSys, post: ParticleSys)
    requires
        sys_teardown_rel(pre, post),
    ensures
        sys_same_shape(pre, post),
    decreases pre,
{
    match pre {
        ParticleSys::Linear(_) => {},
        ParticleSys::Sync(a) => {
            match post {
                ParticleSys::Sync(b) => {
                    assert forall|i: int| 0 <= i < a.parts@.len() implies sys_same_shape(
                        #[trigger] a.parts@[i],
                        b.parts@[i],
                    ) by {
                        lemma_teardown_rel_shape(a.parts@[i], b.parts@[i]);
                    }
                },
                _ => {},
            }
        },
        ParticleSys::Sequential(a) => {
            match post {
                ParticleSys::Sequential(b) => {
                    assert forall|i: int| 0 <= i < a.parts@.len() implies sys_same_shape(
                        #[trigger] a.parts@[i],
                        b.parts@[i],
                    ) by {
                        lemma_teardown_rel_shape(a.parts@[i], b.parts@[i]);
                    }
                },
                _ => {},
            }
        },
    }
}

/// An advanced tree keeps its shape.
#[verifier::rlimit(50)]
pub proof fn lemma_frame_rel_shape(
    pre: ParticleSys,
    post: ParticleSys,
    time: Option<Ratio>,
    fr: Frame,
    r: Result<bool, Error>,
)
    requires
        sys_frame_rel(pre, post, time, fr, r),
    ensures
        sys_same_shape(pre, post),
    decreases pre, 3int,
{
    match pre {
        ParticleSys::Linear(_) => {},
        ParticleSys::Sync(a) => {
            match post {
                ParticleSys::Sync(b) => {
                    match resolve_time(time, fr.now, a.start_time) {
                        None => {
                            lemma_same_shape_refl(pre);
                        },
                        Some(cur) => {
                            match r {
                                Ok(_) => {
                                    assert forall|i: int| 0 <= i < a.parts@.len()
                                        implies sys_same_shape(
                                        #[trigger] a.parts@[i],
                                        b.parts@[i],
                                    ) by {
                                        assert(sys_advanced_ok(a.parts@[i], b.parts@[i], cur, fr));
                                        if sys_frame_rel(
                                            a.parts@[i],
                                            b.parts@[i],
                                            Some(cur),
                                            fr,
                                            Ok(true),
                                        ) {
                                            lemma_frame_rel_shape(
                                                a.parts@[i],
                                                b.parts@[i],
                                                Some(cur),
                                                fr,
                                                Ok(true),
                                            );
                                        } else {
                                            lemma_frame_rel_shape(
                                                a.parts@[i],
                                                b.parts@[i],
                                                Some(cur),
                                                fr,
                                                Ok(false),
                                            );
                                        }
                                    }
                                },
                                Err(e) => {
                                    let k = choose|k: int|
                                        #![trigger a.parts@[k]]
                                        {
                                            &&& 0 <= k < a.parts@.len()
                                            &&& forall|i: int|
                                                0 <= i < k ==> sys_advanced_ok(
                                                    #[trigger] a.parts@[i],
                                                    b.parts@[i],
                                                    cur,
                                                    fr,
                                                )
                                            &&& sys_frame_rel(
                                                a.parts@[k],
                                                b.parts@[k],
                                                Some(cur),
                                                fr,
                                                Err(e),
                                            )
                                            &&& forall|i: int|
                                                k < i < a.parts@.len() ==> b.parts@[i]
                                                    == #[trigger] a.parts@[i]
                                        };
                                    assert forall|i: int| 0 <= i < a.parts@.len()
                                        implies sys_same_shape(
                                        #[trigger] a.parts@[i],
                                        b.parts@[i],
                                    ) by {
                                        if i < k {
                                            if sys_frame_rel(
                                                a.parts@[i],
                                                b.parts@[i],
                                                Some(cur),
                                                fr,
                                                Ok(true),
                                            ) {
                                                lemma_frame_rel_shape(
                                                    a.parts@[i],
                                                    b.parts@[i],
                                                    Some(cur),
                                                    fr,
                                                    Ok(true),
                                                );
                                            } else {
                                                lemma_frame_rel_shape(
                                                    a.parts@[i],
                                                    b.parts@[i],
                                                    Some(cur),
                                                    fr,
                                                    Ok(false),
                                                );
                                            }
                                        } else if i == k {
                                            lemma_frame_rel_shape(
                                                a.parts@[i],
                                                b.parts@[i],
                                                Some(cur),
                                                fr,
                                                Err(e),
                                            );
                                        } else {
                                            lemma_same_shape_refl(a.parts@[i]);
                                        }
                                    }
                                },
                            }
                        },
                    }
                },
                _ => {},
            }
        },
        ParticleSys::Sequential(a) => {
            match post {
                ParticleSys::Sequential(b) => {
                    let resolved = match time {
                        Some(v) => q_checked(q_sub(v.q(), a.time_offset.q())),
                        None => q_checked(q_sub(fr.now.q(), a.start_time.q())),
                    };
                    match resolved {
                        None => {
                            lemma_same_shape_refl(pre);
                        },
                        Some(curq) => {
                            let cur = crate::ratio::ratio_of(curq);
                            if a.current_part >= a.parts@.len() {
                                lemma_same_shape_refl(pre);
                            } else if q_checked(
                                crate::ratio::q_add(a.time_offset.q(), a.part_period.q()),
                            ) is None {
                                lemma_same_shape_refl(pre);
                            } else {
                                let next_off = crate::ratio::ratio_of(
                                    q_checked(
                                        crate::ratio::q_add(
                                            a.time_offset.q(),
                                            a.part_period.q(),
                                        ),
                                    ).unwrap(),
                                );
                                lemma_seq_step_rel_shape(a, b, cur, next_off, fr, r);
                            }
                        },
                    }
                },
                _ => {},
            }
        },
    }
}

/// The sequential bookkeeping step keeps every child's shape.
proof fn lemma_seq_step_rel_shape(
    a: SeqGrp,
    b: SeqGrp,
    cur: Ratio,
    next_off: Ratio,
    fr: Frame,
    r: Result<bool, Error>,
)
    requires
        seq_step_rel(a, b, cur, next_off, fr, r),
    ensures
        sys_same_shape(ParticleSys::Sequential(a), ParticleSys::Sequential(b)),
    decreases a, 2int,
{
    let k = a.current_part as int;
    assert forall|i: int| 0 <= i < a.parts@.len() implies sys_same_shape(
        #[trigger] a.parts@[i],
        b.parts@[i],
    ) by {
        if b.parts@[i] == a.parts@[i] {
            lemma_same_shape_refl(a.parts@[i]);
        } else {
            lemma_seq_step_child_shape(a, b, cur, next_off, fr, r, i);
        }
    }
}

/// Shape preservation for one touched child of a sequential step.
proof fn lemma_seq_step_child_shape(
    a: SeqGrp,
    b: SeqGrp,
    cur: Ratio,
    next_off: Ratio,
    fr: Frame,
    r: Result<bool, Error>,
    i: int,
)
    requires
        seq_step_rel(a, b, cur, next_off, fr, r),
        0 <= i < a.parts@.len(),
    ensures
        sys_same_shape(a.parts@[i], b.parts@[i]),
    decreases a, 1int,
{
    let k = a.current_part as int;
    let wrap = k + 1 == a.parts@.len();
    let nk = if wrap {
        0int
    } else {
        k + 1
    };
    if i != k && i != nk {
        lemma_same_shape_refl(a.parts@[i]);
    } else {
        match r {
            Err(e) => {
                if sys_frame_rel(a.parts@[k], b.parts@[k], Some(cur), fr, Err(e)) && (forall|
                    j: int,
                |
                    0 <= j < a.parts@.len() && j != k ==> b.parts@[j] == #[trigger] a.parts@[j]) {
                    if i == k {
                        lemma_frame_rel_shape(a.parts@[k], b.parts@[k], Some(cur), fr, Err(e));
                    } else {
                        lemma_same_shape_refl(a.parts@[i]);
                    }
                } else {
                    // Overflow partway through the hand-over.
                    if nk == k {
                        assert(sys_same_shape(a.parts@[k], b.parts@[k]));
                    } else if i == k {
                        let mid = choose|mid: ParticleSys|
                            #![trigger sys_teardown_rel(mid, b.parts@[k])]
                            {
                                &&& sys_frame_rel(a.parts@[k], mid, Some(cur), fr, Ok(false))
                                &&& sys_teardown_rel(mid, b.parts@[k])
                            };
                        lemma_frame_rel_shape(a.parts@[k], mid, Some(cur), fr, Ok(false));
                        lemma_teardown_rel_shape(mid, b.parts@[k]);
                        lemma_same_shape_trans(a.parts@[k], mid, b.parts@[k]);
                    } else {
                        assert(sys_same_shape(a.parts@[nk], b.parts@[nk]));
                    }
                }
            },
            Ok(bb) => {
                if sys_frame_rel(a.parts@[k], b.parts@[k], Some(cur), fr, Ok(true)) && (forall|
                    j: int,
                |
                    0 <= j < a.parts@.len() && j != k ==> b.parts@[j] == #[trigger] a.parts@[j]) {
                    if i == k {
                        lemma_frame_rel_shape(a.parts@[k], b.parts@[k], Some(cur), fr, Ok(true));
                    } else {
                        lemma_same_shape_refl(a.parts@[i]);
                    }
                } else if bb == false {
                    if i == k {
                        let mid = choose|mid: ParticleSys|
                            #![trigger sys_teardown_rel(mid, b.parts@[k])]
                            {
                                &&& sys_frame_rel(a.parts@[k], mid, Some(cur), fr, Ok(false))
                                &&& sys_teardown_rel(mid, b.parts@[k])
                            };
                        lemma_frame_rel_shape(a.parts@[k], mid, Some(cur), fr, Ok(false));
                        lemma_teardown_rel_shape(mid, b.parts@[k]);
                        lemma_same_shape_trans(a.parts@[k], mid, b.parts@[k]);
                    } else {
                        lemma_same_shape_refl(a.parts@[i]);
                    }
                } else {
                    // The hand-over succeeded.
                    if nk == k && i == k {
                        let (mid, mid2) = choose|mid: ParticleSys, mid2: ParticleSys|
                            #![trigger sys_teardown_rel(mid, mid2)]
                            {
                                &&& sys_frame_rel(a.parts@[k], mid, Some(cur), fr, Ok(false))
                                &&& sys_teardown_rel(mid, mid2)
                                &&& sys_setup_rel(
                                    mid2,
                                    b.parts@[k],
                                    a.looping,
                                    a.part_period,
                                    fr.now,
                                )
                            };
                        lemma_frame_rel_shape(a.parts@[k], mid, Some(cur), fr, Ok(false));
                        lemma_teardown_rel_shape(mid, mid2);
                        lemma_setup_rel_shape(mid2, b.parts@[k], a.looping, a.part_period, fr.now);
                        lemma_same_shape_trans(a.parts@[k], mid, mid2);
                        lemma_same_shape_trans(a.parts@[k], mid2, b.parts@[k]);
                    } else if i == k {
                        let mid = choose|mid: ParticleSys|
                            #![trigger sys_teardown_rel(mid, b.parts@[k])]
                            {
                                &&& sys_frame_rel(a.parts@[k], mid, Some(cur), fr, Ok(false))
                                &&& sys_teardown_rel(mid, b.parts@[k])
                            };
                        lemma_frame_rel_shape(a.parts@[k], mid, Some(cur), fr, Ok(false));
                        lemma_teardown_rel_shape(mid, b.parts@[k]);
                        lemma_same_shape_trans(a.parts@[k], mid, b.parts@[k]);
                    } else {
                        lemma_setup_rel_shape(
                            a.parts@[nk],
                            b.parts@[nk],
                            a.looping,
                            a.part_period,
                            fr.now,
                        );
                    }
                }
            },
        }
    }
}

/// `s` with its clock started at `now` and everything else unchanged.
pub open spec fn sys_with_start(s: ParticleSys, now: Ratio) -> ParticleSys {
    match s {
        ParticleSys::Linear(lp) => ParticleSys::Linear(LinearParticles { start_time: now, ..lp }),
        ParticleSys::Sync(g) => ParticleSys::Sync(SyncGrp { start_time: now, ..g }),
        ParticleSys::Sequential(g) => ParticleSys::Sequential(SeqGrp { start_time: now, ..g }),
    }
}

/// A set-up tree keeps its shape.
pub proof fn lemma_setup_rel_shape(
    pre: ParticleSys,
    post: ParticleSys,
    should_loop: bool,
    resolved: Ratio,
    now: Ratio,
)
    requires
        sys_setup_rel(pre, post, should_loop, resolved, now),
    ensures
        sys_same_shape(pre, post),
    decreases pre,
{
    match pre {
        ParticleSys::Linear(_) => {},
        ParticleSys::Sync(a) => {
            match post {
                ParticleSys::Sync(b) => {
                    assert forall|i: int| 0 <= i < a.parts@.len() implies sys_same_shape(
                        #[trigger] a.parts@[i],
                        b.parts@[i],
                    ) by {
                        lemma_setup_rel_shape(
                            a.parts@[i],
                            b.parts@[i],
                            should_loop,
                            resolved,
                            now,
                        );
                    }
                },
                _ => {},
            }
        },
        ParticleSys::Sequential(a) => {
            match post {
                ParticleSys::Sequential(b) => {
                    assert forall|i: int| 0 <= i < a.parts@.len() implies sys_same_shape(
                        #[trigger] a.parts@[i],
                        b.parts@[i],
                    ) by {
                        if i == 0 {
                            lemma_setup_rel_shape(
                                a.parts@[0],
                                b.parts@[0],
                                should_loop,
                                b.part_period,
                                now,
                            );
                        } else {
                            lemma_same_shape_refl(a.parts@[i]);
                        }
                    }
                },
                _ => {},
            }
        },
    }
}

/// What `run` does when the tick succeeds with flag `b`: some
/// intermediate state was reached by one frame at the system's own
/// elapsed time `el`; a live tick keeps it, an expired tick rewinds
/// the clock (looping) or tears the system down.
pub open spec fn sys_run_rel(
    pre: ParticleSys,
    post: ParticleSys,
    el: Option<Ratio>,
    fr: Frame,
    b: bool,
) -> bool {
    exists|mid: ParticleSys|
        #![trigger sys_frame_rel(pre, mid, el, fr, Ok(b))]
        {
            &&& sys_frame_rel(pre, mid, el, fr, Ok(b))
            &&& if b {
                post == mid
            } else if sys_active(mid) && sys_looping_flag(mid) {
                post == sys_with_start(mid, fr.now)
            } else {
                sys_teardown_rel(mid, post)
            }
        }
}

/// Tearing down is idempotent: a second tear-down observes no change.
/// (Stated over the observable fields; a torn-down state satisfies the
/// tear-down relation with itself.)
pub proof fn lemma_teardown_idempotent(a: ParticleSys, b: ParticleSys)
    requires
        sys_teardown_rel(a, b),
    ensures
        sys_teardown_rel(b, b),
    decreases a,
{
    match a {
        ParticleSys::Linear(la) => {
            match b {
                ParticleSys::Linear(lb) => {
                    assert(lb == (LinearParticles { active: false, initialized: false, ..lb }));
                },
                _ => {},
            }
        },
        ParticleSys::Sync(ga) => {
            match b {
                ParticleSys::Sync(gb) => {
                    assert forall|i: int| 0 <= i < gb.parts@.len() implies sys_teardown_rel(
                        #[trigger] gb.parts@[i],
                        gb.parts@[i],
                    ) by {
                        lemma_teardown_idempotent(ga.parts@[i], gb.parts@[i]);
                    }
                },
                _ => {},
            }
        },
        ParticleSys::Sequential(ga) => {
            match b {
                ParticleSys::Sequential(gb) => {
                    assert forall|i: int| 0 <= i < gb.parts@.len() implies sys_teardown_rel(
                        #[trigger] gb.parts@[i],
                        gb.parts@[i],
                    ) by {
                        lemma_teardown_idempotent(ga.parts@[i], gb.parts@[i]);
                    }
                },
                _ => {},
            }
        },
    }
}

impl ParticleSys {
    /// Check if the system is active.
    pub fn is_active(&self) -> (r: bool)
        ensures
            r == sys_active(*self),
    {
        match self {
            ParticleSys::Linear(lp) => lp.is_active(),
            ParticleSys::Sync(g) => g.is_active(),
            ParticleSys::Sequential(g) => g.is_active(),
        }
    }

    /// Check if the system is in its active looping state.
    pub fn is_looping(&self) -> (r: bool)
        ensures
            r == (sys_active(*self) && sys_looping_flag(*self)),
    {
        match self {
            ParticleSys::Linear(lp) => lp.is_looping(),
            ParticleSys::Sync(g) => g.is_looping(),
            ParticleSys::Sequential(g) => g.is_looping(),
        }
    }

    /// Check if the system has been set up and is ready to run.
    pub fn is_initialized(&self) -> (r: bool)
        ensures
            r == sys_initialized(*self),
    {
        match self {
            ParticleSys::Linear(lp) => lp.is_initialized(),
            ParticleSys::Sync(g) => g.is_initialized(),
            ParticleSys::Sequential(g) => g.is_initialized(),
        }
    }

    /// Reset the system's own clock to `now`.
    pub fn reset_time(&mut self, now: Ratio)
        requires
            sys_wf(*old(self)),
            now.wf(),
        ensures
            sys_wf(*final(self)),
            *final(self) == sys_with_start(*old(self), now),
    {
        match self {
            ParticleSys::Linear(lp) => lp.reset_time(now),
            ParticleSys::Sync(g) => g.reset_time(now),
            ParticleSys::Sequential(g) => g.reset_time(now),
        }
    }

    /// The elapsed seconds since the system's clock was last reset, or
    /// `None` when the exact difference leaves the 64-bit range.
    pub fn elapsed_time(&self, now: &Ratio) -> (r: Option<Ratio>)
        requires
            sys_wf(*self),
            now.wf(),
        ensures
            match r {
                Some(e) => {
                    &&& e.wf()
                    &&& Some(e.q()) == q_checked(q_sub(now.q(), sys_start_time(*self).q()))
                },
                None => q_checked(q_sub(now.q(), sys_start_time(*self).q())) is None,
            },
    {
        match self {
            ParticleSys::Linear(lp) => lp.elapsed_time(now),
            ParticleSys::Sync(g) => g.elapsed_time(now),
            ParticleSys::Sequential(g) => g.elapsed_time(now),
        }
    }

    /// Set the system up so that it is ready to be displayed.  The
    /// period override (or the stored period) is validated; a
    /// synchronous group passes the resolved period on to every child
    /// and a sequential group divides it among its children.
    pub fn setup(&mut self, should_loop: bool, p: Option<Ratio>, now: Ratio) -> (r: Result<
        (),
        Error,
    >)
        requires
            sys_wf(*old(self)),
            now.wf(),
            p matches Some(pp) ==> pp.wf(),
        ensures
            sys_wf(*final(self)),
            match r {
                Ok(()) => ({
                    let resolved = match p {
                        Some(pp) => pp,
                        None => sys_period(*old(self)),
                    };
                    &&& q_lt(q_zero(), resolved.q())
                    &&& sys_setup_ok(*old(self), resolved)
                    &&& sys_setup_rel(*old(self), *final(self), should_loop, resolved, now)
                }),
                Err(er) => ({
                    let resolved = match p {
                        Some(pp) => pp,
                        None => sys_period(*old(self)),
                    };
                    if !q_lt(q_zero(), resolved.q()) {
                        &&& *final(self) == *old(self)
                        &&& er == (Error::Validation {
                            field: crate::error::Field::Period,
                            constraint: crate::error::Constraint::Positive,
                            value: resolved,
                        })
                    } else {
                        &&& er == Error::Overflow
                        &&& !sys_setup_ok(*old(self), resolved)
                        &&& sys_same_shape(*old(self), *final(self))
                        &&& sys_active(*final(self)) == sys_active(*old(self))
                        &&& sys_initialized(*final(self)) == sys_initialized(*old(self))
                        &&& sys_looping_flag(*final(self)) == sys_looping_flag(*old(self))
                        &&& sys_start_time(*final(self)) == sys_start_time(*old(self))
                        &&& sys_period(*final(self)) == sys_period(*old(self))
                    }
                }),
            },
        decreases sys_height(*old(self)), 1int,
    {
        match self {
            ParticleSys::Linear(lp) => {
                let r = lp.setup(should_loop, p, now);
                proof {
                    if r is Err {
                        lemma_same_shape_refl(*old(self));
                    }
                }
                r
            },
            ParticleSys::Sync(g) => {
                let r = g.setup(should_loop, p, now);
                proof {
                    match r {
                        Ok(_) => {},
                        Err(_) => {
                            let resolved = match p {
                                Some(pp) => pp,
                                None => sys_period(*old(self)),
                            };
                            if q_lt(q_zero(), resolved.q()) {
                                let a = old(self)->Sync_0;
                                let b = self->Sync_0;
                                let k = choose|k: int|
                                    #![trigger a.parts@[k]]
                                    {
                                        &&& 0 <= k < a.parts@.len()
                                        &&& forall|i: int|
                                            0 <= i < k ==> sys_setup_rel(
                                                #[trigger] a.parts@[i],
                                                b.parts@[i],
                                                should_loop,
                                                resolved,
                                                now,
                                            )
                                        &&& sys_same_shape(a.parts@[k], b.parts@[k])
                                        &&& forall|i: int|
                                            k < i < a.parts@.len() ==> b.parts@[i]
                                                == #[trigger] a.parts@[i]
                                    };
                                assert forall|i: int| 0 <= i < a.parts@.len()
                                    implies sys_same_shape(
                                    #[trigger] a.parts@[i],
                                    b.parts@[i],
                                ) by {
                                    if i < k {
                                        lemma_setup_rel_shape(
                                            a.parts@[i],
                                            b.parts@[i],
                                            should_loop,
                                            resolved,
                                            now,
                                        );
                                    } else if i == k {
                                    } else {
                                        lemma_same_shape_refl(a.parts@[i]);
                                    }
                                }
                            }
                        },
                    }
                }
                r
            },
            ParticleSys::Sequential(g) => {
                let r = g.setup(should_loop, p, now);
                proof {
                    match r {
                        Ok(_) => {},
                        Err(_) => {
                            let resolved = match p {
                                Some(pp) => pp,
                                None => sys_period(*old(self)),
                            };
                            if q_lt(q_zero(), resolved.q()) {
                                let a = old(self)->Sequential_0;
                                let b = self->Sequential_0;
                                assert forall|i: int| 0 <= i < a.parts@.len()
                                    implies sys_same_shape(
                                    #[trigger] a.parts@[i],
                                    b.parts@[i],
                                ) by {
                                    if b.parts@[i] == a.parts@[i] {
                                        lemma_same_shape_refl(a.parts@[i]);
                                    }
                                }
                            }
                        },
                    }
                }
                r
            },
        }
    }

    /// Tear the system down: every part of the tree is left inactive
    /// and uninitialized, with its configuration kept.
    pub fn tear_down(&mut self)
        requires
            sys_wf(*old(self)),
        ensures
            sys_wf(*final(self)),
            sys_teardown_rel(*old(self), *final(self)),
        decreases sys_height(*old(self)), 1int,
    {
        match self {
            ParticleSys::Linear(lp) => {
                lp.tear_down();
            },
            ParticleSys::Sync(g) => {
                g.tear_down();
            },
            ParticleSys::Sequential(g) => {
                g.tear_down();
            },
        }
    }

    /// Advance the system one frame at the given working time (an
    /// explicit override, or the system's own elapsed time).
    pub fn next_frame(&mut self, time: Option<Ratio>, fr: &Frame) -> (r: Result<bool, Error>)
        requires
            sys_wf(*old(self)),
            fr.wf(),
            time matches Some(t) ==> t.wf(),
        ensures
            sys_wf(*final(self)),
            sys_frame_rel(*old(self), *final(self), time, *fr, r),
        decreases sys_height(*old(self)), 1int,
    {
        match self {
            ParticleSys::Linear(lp) => lp.next_frame(time, fr),
            ParticleSys::Sync(g) => g.next_frame(time, fr),
            ParticleSys::Sequential(g) => g.next_frame(time, fr),
        }
    }

    /// Set the system up into its looping active state, with its clock
    /// started at `now`.  This is `setup` with the stored period: it
    /// fails with the period validation error when that period is not
    /// positive (leaving the system unchanged), and with `Overflow`
    /// exactly when the tree cannot be set up within the 64-bit exact
    /// range.
    pub fn start_loop(&mut self, now: Ratio) -> (r: Result<(), Error>)
        requires
            sys_wf(*old(self)),
            now.wf(),
        ensures
            sys_wf(*final(self)),
            match r {
                Ok(()) => {
                    &&& q_lt(q_zero(), sys_period(*old(self)).q())
                    &&& sys_setup_ok(*old(self), sys_period(*old(self)))
                    &&& sys_setup_rel(
                        *old(self),
                        *final(self),
                        true,
                        sys_period(*old(self)),
                        now,
                    )
                },
                Err(er) => {
                    if !q_lt(q_zero(), sys_period(*old(self)).q()) {
                        &&& *final(self) == *old(self)
                        &&& er == (Error::Validation {
                            field: crate::error::Field::Period,
                            constraint: crate::error::Constraint::Positive,
                            value: sys_period(*old(self)),
                        })
                    } else {
                        &&& er == Error::Overflow
                        &&& !sys_setup_ok(*old(self), sys_period(*old(self)))
                        &&& sys_same_shape(*old(self), *final(self))
                        &&& sys_active(*final(self)) == sys_active(*old(self))
                        &&& sys_initialized(*final(self)) == sys_initialized(*old(self))
                        &&& sys_looping_flag(*final(self)) == sys_looping_flag(*old(self))
                        &&& sys_start_time(*final(self)) == sys_start_time(*old(self))
                        &&& sys_period(*final(self)) == sys_period(*old(self))
                    }
                },
            },
    {
        self.setup(true, None, now)
    }

    /// Set the system up into its (non-looping) active state, with its
    /// clock started at `now`.  This is `setup` with the stored period:
    /// it fails with the period validation error when that period is
    /// not positive (leaving the system unchanged), and with `Overflow`
    /// exactly when the tree cannot be set up within the 64-bit exact
    /// range.
    pub fn start(&mut self, now: Ratio) -> (r: Result<(), Error>)
        requires
            sys_wf(*old(self)),
            now.wf(),
        ensures
            sys_wf(*final(self)),
            match r {
                Ok(()) => {
                    &&& q_lt(q_zero(), sys_period(*old(self)).q())
                    &&& sys_setup_ok(*old(self), sys_period(*old(self)))
                    &&& sys_setup_rel(
                        *old(self),
                        *final(self),
                        false,
                        sys_period(*old(self)),
                        now,
                    )
                },
                Err(er) => {
                    if !q_lt(q_zero(), sys_period(*old(self)).q()) {
                        &&& *final(self) == *old(self)
                        &&& er == (Error::Validation {
                            field: crate::error::Field::Period,
                            constraint: crate::error::Constraint::Positive,
                            value: sys_period(*old(self)),
                        })
                    } else {
                        &&& er == Error::Overflow
                        &&& !sys_setup_ok(*old(self), sys_period(*old(self)))
                        &&& sys_same_shape(*old(self), *final(self))
                        &&& sys_active(*final(self)) == sys_active(*old(self))
                        &&& sys_initialized(*final(self)) == sys_initialized(*old(self))
                        &&& sys_looping_flag(*final(self)) == sys_looping_flag(*old(self))
                        &&& sys_start_time(*final(self)) == sys_start_time(*old(self))
                        &&& sys_period(*final(self)) == sys_period(*old(self))
                    }
                },
            },
    {
        self.setup(false, None, now)
    }

    /// Tear down and deactivate the system.
    pub fn stop(&mut self)
        requires
            sys_wf(*old(self)),
        ensures
            sys_wf(*final(self)),
            sys_teardown_rel(*old(self), *final(self)),
    {
        self.tear_down();
    }

    /// Drive one tick: advance with the system's own elapsed time, and
    /// when the tick reports the period over, either rewind the clock
    /// (looping) or tear the system down.  Must not be called before a
    /// successful `setup`: that fails with `NotReady` and changes
    /// nothing.
    #[verifier::rlimit(50)]
    #[verifier::spinoff_prover]
    pub fn run(&mut self, fr: &Frame) -> (r: Result<bool, Error>)
        requires
            sys_wf(*old(self)),
            fr.wf(),
        ensures
            sys_wf(*final(self)),
            !(sys_active(*old(self)) && sys_initialized(*old(self))) ==> r == Err::<bool, Error>(
                Error::NotReady,
            ) && *final(self) == *old(self),
            (sys_active(*old(self)) && sys_initialized(*old(self))) ==> ({
                let el = match q_checked(q_sub(fr.now.q(), sys_start_time(*old(self)).q())) {
                    None => None::<Ratio>,
                    Some(m) => Some(crate::ratio::ratio_of(m)),
                };
                match r {
                    Ok(b) => sys_run_rel(*old(self), *final(self), el, *fr, b),
                    Err(e) => sys_frame_rel(*old(self), *final(self), el, *fr, Err(e)),
                }
            }),
    {
        if !(self.is_active() && self.is_initialized()) {
            return Err(Error::NotReady);
        }
        let elapsed = self.elapsed_time(&fr.now);
        let b = match self.next_frame(elapsed, fr) {
            Ok(b) => b,
            Err(e) => {
                proof {
                    let el = match q_checked(q_sub(fr.now.q(), sys_start_time(*old(self)).q())) {
                        None => None::<Ratio>,
                        Some(m) => Some(crate::ratio::ratio_of(m)),
                    };
                    assert(elapsed == el);
                }
                return Err(e);
            },
        };
        let ghost mid = *self;
        if !b {
            if self.is_looping() {
                self.reset_time(fr.now);
            } else {
                self.tear_down();
            }
        }
        proof {
            let el = match q_checked(q_sub(fr.now.q(), sys_start_time(*old(self)).q())) {
                None => None::<Ratio>,
                Some(m) => Some(crate::ratio::ratio_of(m)),
            };
            assert(elapsed == el);
            if sys_active(*old(self)) && sys_initialized(*old(self)) {
                assert(sys_run_rel(*old(self), *self, el, *fr, b)) by {
                    assert(sys_frame_rel(*old(self), mid, el, *fr, Ok(b)));
                }
            }
        }
        Ok(b)
    }
}

} // verus!
