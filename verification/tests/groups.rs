use linearpl::error::{Constraint, Error, Field};
use linearpl::geom::Vec3;
use linearpl::groups::{SeqGrp, SyncGrp};
use linearpl::linear_particles::{LinearGrp, LinearParticles};
use linearpl::particle_sys::{Frame, ParticleSys};
use linearpl::ratio::Ratio;

fn q(num: i64, den: i64) -> Ratio {
    Ratio::new(num, den)
}

fn v3(x: i64, y: i64, z: i64) -> Vec3 {
    Vec3::new(q(x, 1), q(y, 1), q(z, 1))
}

fn quiet_emitter() -> LinearParticles {
    LinearParticles::new(v3(0, 0, 0), v3(1, 1, 1))
        .with_densities(&vec![q(0, 1)])
        .unwrap()
}

fn busy_emitter(start: Vec3, end: Vec3) -> LinearParticles {
    LinearParticles::new(start, end)
}

fn frame_at(now: Ratio) -> Frame {
    Frame::new(now, q(1, 100))
}

#[test]
fn sync_group_shares_one_time_snapshot() {
    // Two emitters along different lines; after one group frame both
    // spawned at the same working time, halfway into the shared
    // period.
    let children = vec![
        ParticleSys::Linear(busy_emitter(v3(0, 0, 0), v3(2, 0, 0))),
        ParticleSys::Linear(busy_emitter(v3(0, 0, 0), v3(0, 4, 0))),
    ];
    let mut grp = SyncGrp::new(q(1, 1), children);
    grp.setup(false, None, q(0, 1)).unwrap();
    assert!(grp.is_active());
    let alive = grp.next_frame(Some(q(1, 2)), &frame_at(q(1, 2))).unwrap();
    assert!(alive);
    match (&grp.parts[0], &grp.parts[1]) {
        (ParticleSys::Linear(a), ParticleSys::Linear(b)) => {
            assert_eq!(a.particles.len(), 1);
            assert_eq!(b.particles.len(), 1);
            // Both children interpolated at the same ratio 1/2.
            assert!(a.particles[0].location.x.eq_value(&q(1, 1)));
            assert!(b.particles[0].location.y.eq_value(&q(2, 1)));
            assert_eq!(a.particles[0].spawn_time, b.particles[0].spawn_time);
        },
        _ => panic!("children changed shape"),
    }
    // Past the shared period the group reports it is done.
    let alive = grp.next_frame(Some(q(3, 2)), &frame_at(q(3, 2))).unwrap();
    assert!(!alive);
}

#[test]
fn sync_group_setup_propagates_period() {
    let children = vec![
        ParticleSys::Linear(quiet_emitter()),
        ParticleSys::Linear(quiet_emitter()),
    ];
    let mut grp = SyncGrp::new(q(3, 1), children);
    grp.setup(true, None, q(0, 1)).unwrap();
    for part in grp.parts.iter() {
        match part {
            ParticleSys::Linear(lp) => {
                assert!(lp.period.eq_value(&q(3, 1)));
                assert!(lp.is_active());
                assert!(lp.looping);
            },
            _ => panic!("children changed shape"),
        }
    }
}

#[test]
fn seq_group_divides_its_period() {
    let children = vec![
        ParticleSys::Linear(quiet_emitter()),
        ParticleSys::Linear(quiet_emitter()),
    ];
    let grp = SeqGrp::new(q(2, 1), children).unwrap();
    assert!(grp.part_period.eq_value(&q(1, 1)));
    assert_eq!(grp.current_part, 0);

    let none: Vec<ParticleSys> = Vec::new();
    assert_eq!(SeqGrp::new(q(2, 1), none).unwrap_err(), Error::Division);
}

#[test]
fn seq_group_exhausts_after_each_child_had_its_share() {
    let children = vec![
        ParticleSys::Linear(quiet_emitter()),
        ParticleSys::Linear(quiet_emitter()),
    ];
    let mut grp = SeqGrp::new(q(2, 1), children).unwrap();
    grp.setup(false, None, q(0, 1)).unwrap();
    assert_eq!(grp.current_part, 0);
    assert!(grp.time_offset.eq_value(&q(0, 1)));

    // Within the first child's share: nothing advances.
    assert!(grp.next_frame(Some(q(1, 2)), &frame_at(q(1, 2))).unwrap());
    assert_eq!(grp.current_part, 0);

    // The first child's share (one second) passes: hand over.
    assert!(grp.next_frame(Some(q(3, 2)), &frame_at(q(3, 2))).unwrap());
    assert_eq!(grp.current_part, 1);
    assert!(grp.time_offset.eq_value(&q(1, 1)));

    // The second child's share passes too: the group is exhausted.
    let alive = grp.next_frame(Some(q(5, 2)), &frame_at(q(5, 2))).unwrap();
    assert!(!alive);

    // Further frames surface the internal index invariant.
    assert_eq!(
        grp.next_frame(Some(q(3, 1)), &frame_at(q(3, 1))).unwrap_err(),
        Error::Index
    );
}

#[test]
fn seq_group_loops_back_to_its_first_child() {
    let children = vec![
        ParticleSys::Linear(quiet_emitter()),
        ParticleSys::Linear(quiet_emitter()),
    ];
    let mut grp = SeqGrp::new(q(2, 1), children).unwrap();
    grp.setup(true, None, q(0, 1)).unwrap();

    assert!(grp.next_frame(Some(q(3, 2)), &frame_at(q(3, 2))).unwrap());
    assert_eq!(grp.current_part, 1);

    // The last child exhausts while looping: back to child zero with
    // the offset rewound.
    assert!(grp.next_frame(Some(q(5, 2)), &frame_at(q(5, 2))).unwrap());
    assert_eq!(grp.current_part, 0);
    assert!(grp.time_offset.eq_value(&q(0, 1)));
    assert_eq!(grp.start_time, q(5, 2));
}

#[test]
fn seq_group_tear_down_rewinds_bookkeeping() {
    let children = vec![
        ParticleSys::Linear(quiet_emitter()),
        ParticleSys::Linear(quiet_emitter()),
    ];
    let mut grp = SeqGrp::new(q(2, 1), children).unwrap();
    grp.setup(false, None, q(0, 1)).unwrap();
    grp.next_frame(Some(q(3, 2)), &frame_at(q(3, 2))).unwrap();
    assert_eq!(grp.current_part, 1);
    grp.tear_down();
    assert_eq!(grp.current_part, 0);
    assert!(grp.time_offset.eq_value(&q(0, 1)));
    assert!(!grp.is_active());
    assert!(!grp.is_initialized());
}

#[test]
fn run_before_setup_fails_not_ready_without_mutation() {
    let mut sys = ParticleSys::Linear(quiet_emitter());
    let e = sys.run(&frame_at(q(1, 1))).unwrap_err();
    assert_eq!(e, Error::NotReady);
    assert!(!sys.is_active());
    assert!(!sys.is_initialized());
    match &sys {
        ParticleSys::Linear(lp) => {
            assert_eq!(lp.particles.len(), 0);
            assert_eq!(lp.start_time, q(0, 1));
        },
        _ => panic!("system changed shape"),
    }
}

#[test]
fn start_rejects_a_non_positive_stored_period() {
    let mut sys = ParticleSys::Linear(quiet_emitter());
    match &mut sys {
        ParticleSys::Linear(lp) => lp.period = q(0, 1),
        _ => panic!("system changed shape"),
    }
    let e = sys.start(q(0, 1)).unwrap_err();
    assert_eq!(
        e,
        Error::Validation {
            field: Field::Period,
            constraint: Constraint::Positive,
            value: q(0, 1),
        }
    );
    assert!(!sys.is_active());
    assert!(!sys.is_initialized());

    let e = sys.start_loop(q(0, 1)).unwrap_err();
    assert!(matches!(
        e,
        Error::Validation { field: Field::Period, constraint: Constraint::Positive, .. }
    ));
    assert!(!sys.is_active());
}

#[test]
fn run_drives_the_lifecycle() {
    let mut sys = ParticleSys::Linear(quiet_emitter());
    sys.start(q(0, 1)).unwrap();
    assert!(sys.is_active());
    // Within the period.
    assert!(sys.run(&frame_at(q(1, 2))).unwrap());
    // Past the period without looping: the tick reports the end and
    // the system is torn down.
    assert!(!sys.run(&frame_at(q(2, 1))).unwrap());
    assert!(!sys.is_active());
    assert!(!sys.is_initialized());

    // With looping the clock rewinds instead.
    let mut sys = ParticleSys::Linear(quiet_emitter());
    sys.start_loop(q(0, 1)).unwrap();
    assert!(!sys.run(&frame_at(q(2, 1))).unwrap());
    assert!(sys.is_active());
    assert!(sys.is_initialized());
    match &sys {
        ParticleSys::Linear(lp) => assert_eq!(lp.start_time, q(2, 1)),
        _ => panic!("system changed shape"),
    }
}

#[test]
fn groups_nest() {
    let inner = vec![
        ParticleSys::Linear(quiet_emitter()),
        ParticleSys::Linear(quiet_emitter()),
    ];
    let inner_grp = ParticleSys::Sync(SyncGrp::new(q(1, 1), inner));
    let outer = vec![inner_grp, ParticleSys::Linear(quiet_emitter())];
    let mut grp = ParticleSys::Sync(SyncGrp::new(q(2, 1), outer));
    grp.setup(true, None, q(0, 1)).unwrap();
    assert!(grp.is_active());
    assert!(grp.is_looping());
    assert!(grp.run(&frame_at(q(1, 2))).unwrap());
    grp.stop();
    assert!(!grp.is_active());
}

#[test]
fn linear_group_runs_its_emitters_together() {
    let kids = vec![
        busy_emitter(v3(0, 0, 0), v3(2, 0, 0)),
        busy_emitter(v3(0, 0, 0), v3(0, 4, 0)),
    ];
    let mut grp = LinearGrp::new(q(1, 1), &kids);
    assert!(!grp.is_active());
    grp.start_loop(q(0, 1)).unwrap();
    assert!(grp.is_active());
    assert!(grp.is_looping());
    for lp in grp.linear_particles.iter() {
        assert!(lp.period.eq_value(&q(1, 1)));
        assert!(lp.is_active());
    }
    let alive = grp.next_frame(Some(q(1, 2)), &frame_at(q(1, 2))).unwrap();
    assert!(alive);
    grp.stop();
    assert!(!grp.is_active());
}
