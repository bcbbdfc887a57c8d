use linearpl::error::{Constraint, Error, Field};
use linearpl::geom::{Color, Vec3};
use linearpl::particle::Particle;
use linearpl::particle_sys::Frame;
use linearpl::linear_particles::LinearParticles;
use linearpl::ratio::Ratio;

fn q(num: i64, den: i64) -> Ratio {
    Ratio::new(num, den)
}

fn v3(x: i64, y: i64, z: i64) -> Vec3 {
    Vec3::new(q(x, 1), q(y, 1), q(z, 1))
}

fn frame_at(now: Ratio) -> Frame {
    Frame::new(now, q(1, 100))
}

#[test]
fn builders_validate_their_fields() {
    let lp = LinearParticles::new(v3(0, 0, 0), v3(1, 1, 1));
    assert!(!lp.is_active());
    assert!(!lp.is_initialized());
    let lp = lp.with_decay(q(1, 2)).unwrap();
    assert!(lp.with_decay(q(-1, 2)).is_err());

    let lp = LinearParticles::new(v3(0, 0, 0), v3(1, 1, 1));
    let e = lp.with_densities(&Vec::new()).unwrap_err();
    assert!(matches!(
        e,
        Error::Validation { field: Field::Densities, constraint: Constraint::NonEmpty, .. }
    ));

    let lp = LinearParticles::new(v3(0, 0, 0), v3(1, 1, 1));
    let e = lp.with_locations(&vec![q(2, 1)]).unwrap_err();
    assert!(matches!(
        e,
        Error::Validation { field: Field::Locations, constraint: Constraint::UnitRange, .. }
    ));

    let lp = LinearParticles::new(v3(0, 0, 0), v3(1, 1, 1));
    let e = lp.with_period(q(0, 1)).unwrap_err();
    assert!(matches!(
        e,
        Error::Validation { field: Field::Period, constraint: Constraint::Positive, .. }
    ));
}

#[test]
fn setup_rejects_bad_period_override_without_panicking() {
    let mut lp = LinearParticles::new(v3(0, 0, 0), v3(1, 1, 1));
    let e = lp.setup(false, Some(q(-1, 1)), q(0, 1)).unwrap_err();
    assert_eq!(
        e,
        Error::Validation {
            field: Field::Period,
            constraint: Constraint::Positive,
            value: q(-1, 1),
        }
    );
    assert!(!lp.is_active());
    assert!(!lp.is_initialized());
    assert!(lp.setup(false, Some(q(2, 1)), q(0, 1)).is_ok());
    assert!(lp.is_active());
    assert!(lp.is_initialized());
    assert!(lp.period.eq_value(&q(2, 1)));
}

#[test]
fn setup_rejects_an_invalid_configuration_field_by_field() {
    // The fields are public, so an invalid configuration can be built
    // directly; setup rejects it with the first violation, in the
    // order densities, locations, colors, sizes, period, decay, and
    // never arms the emitter.
    let mut lp = LinearParticles::new(v3(0, 0, 0), v3(1, 1, 1));
    lp.densities = vec![q(3, 2)];
    let e = lp.setup(false, None, q(0, 1)).unwrap_err();
    assert_eq!(
        e,
        Error::Validation {
            field: Field::Densities,
            constraint: Constraint::UnitRange,
            value: q(3, 2),
        }
    );
    assert!(!lp.is_active());
    assert!(!lp.is_initialized());

    let mut lp = LinearParticles::new(v3(0, 0, 0), v3(1, 1, 1));
    lp.densities = Vec::new();
    assert!(matches!(
        lp.setup(false, None, q(0, 1)).unwrap_err(),
        Error::Validation { field: Field::Densities, constraint: Constraint::NonEmpty, .. }
    ));

    // An out-of-range density is reported before an out-of-range
    // location.
    let mut lp = LinearParticles::new(v3(0, 0, 0), v3(1, 1, 1));
    lp.densities = vec![q(3, 2)];
    lp.locations = vec![q(5, 1)];
    assert!(matches!(
        lp.setup(false, None, q(0, 1)).unwrap_err(),
        Error::Validation { field: Field::Densities, .. }
    ));

    let mut lp = LinearParticles::new(v3(0, 0, 0), v3(1, 1, 1));
    lp.locations = vec![q(-1, 2)];
    assert!(matches!(
        lp.setup(false, None, q(0, 1)).unwrap_err(),
        Error::Validation { field: Field::Locations, constraint: Constraint::UnitRange, .. }
    ));

    let mut lp = LinearParticles::new(v3(0, 0, 0), v3(1, 1, 1));
    lp.colors = Vec::new();
    assert!(matches!(
        lp.setup(false, None, q(0, 1)).unwrap_err(),
        Error::Validation { field: Field::Colors, constraint: Constraint::NonEmpty, .. }
    ));

    let mut lp = LinearParticles::new(v3(0, 0, 0), v3(1, 1, 1));
    lp.sizes = vec![q(-1, 10)];
    assert!(matches!(
        lp.setup(false, None, q(0, 1)).unwrap_err(),
        Error::Validation { field: Field::Sizes, constraint: Constraint::NonNegative, .. }
    ));

    let mut lp = LinearParticles::new(v3(0, 0, 0), v3(1, 1, 1));
    lp.period = q(0, 1);
    assert!(matches!(
        lp.setup(false, None, q(0, 1)).unwrap_err(),
        Error::Validation { field: Field::Period, constraint: Constraint::Positive, .. }
    ));

    let mut lp = LinearParticles::new(v3(0, 0, 0), v3(1, 1, 1));
    lp.decay = q(-1, 10);
    assert!(matches!(
        lp.setup(false, None, q(0, 1)).unwrap_err(),
        Error::Validation { field: Field::Decay, constraint: Constraint::NonNegative, .. }
    ));
}

#[test]
fn tear_down_twice_is_idempotent() {
    let mut lp = LinearParticles::new(v3(0, 0, 0), v3(1, 1, 1));
    lp.setup(true, None, q(0, 1)).unwrap();
    assert!(lp.is_active());
    lp.tear_down();
    let snapshot = lp.duplicate();
    lp.tear_down();
    assert!(!lp.is_active());
    assert!(!lp.is_initialized());
    assert_eq!(lp.active, snapshot.active);
    assert_eq!(lp.initialized, snapshot.initialized);
    assert_eq!(lp.looping, snapshot.looping);
    assert_eq!(lp.period, snapshot.period);
    assert_eq!(lp.decay, snapshot.decay);
    assert_eq!(lp.start_time, snapshot.start_time);
    assert_eq!(lp.particles, snapshot.particles);
    assert_eq!(lp.locations, snapshot.locations);
    assert_eq!(lp.densities, snapshot.densities);
    assert_eq!(lp.colors, snapshot.colors);
    assert_eq!(lp.sizes, snapshot.sizes);
}

#[test]
fn reversed_twice_restores_the_configuration() {
    let mut lp = LinearParticles::new(v3(1, 2, 3), v3(4, 5, 6))
        .with_locations(&vec![q(0, 1), q(1, 2), q(1, 1)])
        .unwrap()
        .with_densities(&vec![q(1, 4), q(3, 4)])
        .unwrap()
        .with_colors(&vec![
            Color::new(q(1, 1), q(0, 1), q(0, 1), q(1, 1)),
            Color::new(q(0, 1), q(1, 1), q(0, 1), q(1, 2)),
        ])
        .unwrap()
        .with_sizes(&vec![q(1, 100), q(1, 50)])
        .unwrap();
    let orig = lp.duplicate();
    lp.reversed();
    assert_eq!(lp.start_location, orig.end_location);
    assert_eq!(lp.locations[0], q(1, 1));
    lp.reversed();
    assert_eq!(lp.start_location, orig.start_location);
    assert_eq!(lp.end_location, orig.end_location);
    assert_eq!(lp.locations, orig.locations);
    assert_eq!(lp.densities, orig.densities);
    assert_eq!(lp.colors, orig.colors);
    assert_eq!(lp.sizes, orig.sizes);
}

#[test]
fn certain_density_spawns_a_particle() {
    let mut lp = LinearParticles::new(v3(0, 0, 0), v3(1, 1, 1));
    lp.setup(false, Some(q(1, 1)), q(0, 1)).unwrap();
    // The default density is the constant one, which beats every draw.
    let fr = frame_at(q(1, 2));
    let alive = lp.next_frame_with_draw(Some(q(1, 2)), &fr, u32::MAX).unwrap();
    assert!(alive);
    assert_eq!(lp.particles.len(), 1);
    let p = &lp.particles[0];
    assert_eq!(p.spawn_time, q(1, 2));
    assert!(p.fades);
    // locations [0, 1] at half period puts the spawn halfway along the
    // line: position = start * rho + end * (1 - rho) with rho == 1/2.
    assert!(p.location.x.eq_value(&q(1, 2)));
}

#[test]
fn zero_density_never_spawns() {
    let mut lp = LinearParticles::new(v3(0, 0, 0), v3(1, 1, 1))
        .with_densities(&vec![q(0, 1)])
        .unwrap();
    lp.setup(false, Some(q(1, 1)), q(0, 1)).unwrap();
    let fr = frame_at(q(1, 2));
    let alive = lp.next_frame_with_draw(Some(q(1, 2)), &fr, 0).unwrap();
    assert!(alive);
    assert_eq!(lp.particles.len(), 0);
    // Past the period the emitter reports it is done.
    let fr = frame_at(q(3, 2));
    let alive = lp.next_frame_with_draw(Some(q(3, 2)), &fr, 0).unwrap();
    assert!(!alive);
}

#[test]
fn expired_particles_are_retired() {
    let mut lp = LinearParticles::new(v3(0, 0, 0), v3(1, 1, 1))
        .with_decay(q(1, 10))
        .unwrap();
    lp.setup(false, Some(q(1, 1)), q(0, 1)).unwrap();
    let fr = frame_at(q(1, 10));
    lp.next_frame_with_draw(Some(q(1, 10)), &fr, 0).unwrap();
    assert_eq!(lp.particles.len(), 1);
    // A frame late enough retires the spawn of the previous frame
    // (spawned at 1/10, lifetime 1/10, so expired after 2/10).
    let fr = frame_at(q(9, 10));
    let alive = lp.next_frame_with_draw(Some(q(9, 10)), &fr, u32::MAX).unwrap();
    assert!(alive);
    // Only the fresh spawn survives.
    assert_eq!(lp.particles.len(), 1);
    assert_eq!(lp.particles[0].spawn_time, q(9, 10));
}

#[test]
fn particle_draw_fades_alpha() {
    let color = Color::new(q(1, 1), q(1, 1), q(1, 1), q(1, 1));
    let p = Particle::new_line(v3(0, 0, 0), v3(1, 0, 0), color, q(1, 100), q(1, 1), true, q(0, 1))
        .unwrap();
    let (c, expired) = p.draw(&q(1, 2)).unwrap();
    assert!(!expired);
    assert!(c.a.eq_value(&q(1, 2)));
    assert_eq!(c.r, color.r);
    let (_, expired) = p.draw(&q(2, 1)).unwrap();
    assert!(expired);
}

#[test]
fn particle_offsets_and_reset() {
    let color = Color::new(q(1, 1), q(1, 1), q(1, 1), q(1, 1));
    let p = Particle::new(v3(1, 1, 1), color, q(1, 2), q(1, 1), false, q(0, 1)).unwrap();
    assert!(p.end_location.x.eq_value(&q(3, 2)));
    let p = p.add_location(&q(1, 1), &q(0, 1), &q(0, 1)).unwrap();
    assert!(p.location.x.eq_value(&q(2, 1)));
    let p = p.sub_location(&q(1, 2), &q(0, 1), &q(0, 1)).unwrap();
    assert!(p.location.x.eq_value(&q(3, 2)));
    let mut p = p;
    p.reset(q(5, 1)).unwrap();
    assert_eq!(p.spawn_time, q(5, 1));
    assert!(p.expire_at.eq_value(&q(6, 1)));
    assert!(!p.is_expired(&q(6, 1)));
    assert!(p.is_expired(&q(7, 1)));
}
