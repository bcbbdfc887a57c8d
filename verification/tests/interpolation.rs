use linearpl::error::{Constraint, Error, Field};
use linearpl::geom::{Color, Vec3};
use linearpl::ratio::Ratio;
use linearpl::util::{
    check_colors, check_decay, check_densities, check_locations, check_period, check_sizes,
    map_color_decay, map_color_value, map_float_value, map_location,
};

fn q(num: i64, den: i64) -> Ratio {
    Ratio::new(num, den)
}

#[test]
fn map_float_value_test() {
    let values = vec![q(0, 1), q(1, 1)];
    assert!(map_float_value(&values, &q(0, 1), &q(1, 1)).unwrap().eq_value(&q(0, 1)));
    assert!(map_float_value(&values, &q(2, 3), &q(1, 1)).unwrap().eq_value(&q(2, 3)));

    let values = vec![q(1, 1), q(0, 1), q(1, 2), q(0, 1)];
    assert!(map_float_value(&values, &q(1, 2), &q(1, 1)).unwrap().eq_value(&q(1, 4)));
}

#[test]
fn single_keyframe_is_constant() {
    let values = vec![q(7, 3)];
    assert!(map_float_value(&values, &q(0, 1), &q(1, 1)).unwrap().eq_value(&q(7, 3)));
    assert!(map_float_value(&values, &q(1, 2), &q(1, 1)).unwrap().eq_value(&q(7, 3)));
    assert!(map_float_value(&values, &q(5, 1), &q(1, 1)).unwrap().eq_value(&q(7, 3)));
    assert!(map_float_value(&values, &q(-3, 1), &q(1, 1)).unwrap().eq_value(&q(7, 3)));
}

#[test]
fn two_keyframes_endpoints_and_midpoint() {
    let a = q(1, 3);
    let b = q(2, 3);
    let values = vec![a, b];
    let total = q(1, 1);
    assert!(map_float_value(&values, &q(0, 1), &total).unwrap().eq_value(&a));
    assert!(map_float_value(&values, &total, &total).unwrap().eq_value(&b));
    // (1/3 + 2/3) / 2 == 1/2
    assert!(map_float_value(&values, &q(1, 2), &total).unwrap().eq_value(&q(1, 2)));
}

#[test]
fn interpolation_clamps_out_of_range_times() {
    let values = vec![q(1, 4), q(3, 4)];
    let total = q(2, 1);
    assert!(map_float_value(&values, &q(-1, 1), &total).unwrap().eq_value(&q(1, 4)));
    assert!(map_float_value(&values, &q(5, 1), &total).unwrap().eq_value(&q(3, 4)));
}

#[test]
fn interpolation_result_is_reduced() {
    let values = vec![q(0, 1), q(1, 1)];
    let r = map_float_value(&values, &q(2, 3), &q(1, 1)).unwrap();
    assert_eq!(r.num, 2);
    assert_eq!(r.den, 3);
}

#[test]
fn color_channels_interpolate_independently() {
    let c0 = Color::new(q(1, 1), q(0, 1), q(1, 2), q(1, 1));
    let c1 = Color::new(q(0, 1), q(1, 1), q(1, 2), q(0, 1));
    let colors = vec![c0, c1];
    let mid = map_color_value(&colors, &q(1, 2), &q(1, 1)).unwrap();
    assert!(mid.r.eq_value(&q(1, 2)));
    assert!(mid.g.eq_value(&q(1, 2)));
    assert!(mid.b.eq_value(&q(1, 2)));
    assert!(mid.a.eq_value(&q(1, 2)));
}

#[test]
fn location_blend_direction() {
    // A location ratio of one sits at the start location, zero at the
    // end location.
    let locations = vec![q(0, 1), q(1, 1)];
    let start = Vec3::new(q(0, 1), q(0, 1), q(0, 1));
    let end = Vec3::new(q(2, 1), q(4, 1), q(6, 1));
    let period = q(1, 1);
    let at_zero = map_location(&locations, &start, &end, &q(0, 1), &period).unwrap();
    assert!(at_zero.x.eq_value(&q(2, 1)));
    assert!(at_zero.y.eq_value(&q(4, 1)));
    assert!(at_zero.z.eq_value(&q(6, 1)));
    let at_end = map_location(&locations, &start, &end, &period, &period).unwrap();
    assert!(at_end.x.eq_value(&q(0, 1)));
    let halfway = map_location(&locations, &start, &end, &q(1, 2), &period).unwrap();
    assert!(halfway.x.eq_value(&q(1, 1)));
    assert!(halfway.y.eq_value(&q(2, 1)));
    assert!(halfway.z.eq_value(&q(3, 1)));
}

#[test]
fn fading_scales_alpha_only() {
    let orig = Color::new(q(1, 2), q(1, 3), q(1, 4), q(1, 1));
    let faded = map_color_decay(&orig, &q(1, 2), &q(1, 1)).unwrap();
    assert_eq!(faded.r, orig.r);
    assert_eq!(faded.g, orig.g);
    assert_eq!(faded.b, orig.b);
    assert!(faded.a.eq_value(&q(1, 2)));
}

#[test]
fn period_must_be_positive() {
    assert!(check_period(&q(1, 10)).is_ok());
    let e = check_period(&q(0, 1)).unwrap_err();
    assert!(matches!(
        e,
        Error::Validation { field: Field::Period, constraint: Constraint::Positive, .. }
    ));
    assert!(check_period(&q(-1, 2)).is_err());
}

#[test]
fn decay_must_be_non_negative() {
    assert!(check_decay(&q(0, 1)).is_ok());
    let e = check_decay(&q(-1, 100)).unwrap_err();
    assert!(matches!(
        e,
        Error::Validation { field: Field::Decay, constraint: Constraint::NonNegative, .. }
    ));
}

#[test]
fn keyframe_arrays_must_be_non_empty() {
    let empty: Vec<Ratio> = Vec::new();
    assert!(matches!(
        check_densities(&empty).unwrap_err(),
        Error::Validation { field: Field::Densities, constraint: Constraint::NonEmpty, .. }
    ));
    assert!(matches!(
        check_locations(&empty).unwrap_err(),
        Error::Validation { field: Field::Locations, constraint: Constraint::NonEmpty, .. }
    ));
    assert!(matches!(
        check_sizes(&empty).unwrap_err(),
        Error::Validation { field: Field::Sizes, constraint: Constraint::NonEmpty, .. }
    ));
    let no_colors: Vec<Color> = Vec::new();
    assert!(matches!(
        check_colors(&no_colors).unwrap_err(),
        Error::Validation { field: Field::Colors, constraint: Constraint::NonEmpty, .. }
    ));
}

#[test]
fn unit_range_is_enforced() {
    let bad = vec![q(1, 2), q(3, 2)];
    let e = check_densities(&bad).unwrap_err();
    assert_eq!(
        e,
        Error::Validation {
            field: Field::Densities,
            constraint: Constraint::UnitRange,
            value: q(3, 2),
        }
    );
    let e = check_locations(&vec![q(-1, 4)]).unwrap_err();
    assert!(matches!(
        e,
        Error::Validation { field: Field::Locations, constraint: Constraint::UnitRange, .. }
    ));
    assert!(check_densities(&vec![q(0, 1), q(1, 1)]).is_ok());
}

#[test]
fn exact_arithmetic_overflow_is_reported() {
    // Blending two scalars whose reduced denominator no longer fits in
    // 64 bits is rejected, never rounded.
    let p: i64 = 4294967311;
    let values = vec![Ratio::new(1, p), Ratio::new(0, 1)];
    let e = map_float_value(&values, &Ratio::new(1, p), &Ratio::new(1, 1)).unwrap_err();
    assert_eq!(e, Error::Overflow);
}

#[test]
fn ratio_constructor_reduces() {
    let r = Ratio::new(2, 4);
    assert_eq!(r.num, 1);
    assert_eq!(r.den, 2);
    let r = Ratio::new(-6, 9);
    assert_eq!(r.num, -2);
    assert_eq!(r.den, 3);
    assert!(Ratio::new(1, 3).lt(&Ratio::new(1, 2)));
    assert!(Ratio::new(2, 6).eq_value(&Ratio::new(1, 3)));
}

#[test]
fn checked_arithmetic_is_exact() {
    let a = q(1, 3);
    let b = q(1, 6);
    assert!(a.checked_add(&b).unwrap().eq_value(&q(1, 2)));
    assert!(a.checked_sub(&b).unwrap().eq_value(&q(1, 6)));
    assert!(a.checked_mul(&b).unwrap().eq_value(&q(1, 18)));
    assert!(a.checked_div(&b).unwrap().eq_value(&q(2, 1)));
    assert!(q(1, 1).checked_div_count(3).unwrap().eq_value(&q(1, 3)));
    // Reduced results that leave the 64-bit range are reported.
    let huge = Ratio::new(i64::MAX, 1);
    assert!(huge.checked_mul(&huge).is_none());
}
