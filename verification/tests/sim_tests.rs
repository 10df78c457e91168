use nbody::environment::Environment;
use nbody::field::{Field, FieldVariant};
use nbody::force::BruteForceField;
use nbody::barneshut::BHField;
use nbody::geometry::{Point, Vector};
use nbody::physics::{Body, Mass, SimError};
use nbody::writer::DataWriter;

fn body(mass: i64, x: i64, y: i64, dx: i64, dy: i64) -> Body {
    Body::new(mass, Point::new(x, y), Vector::new(dx, dy)).expect("admissible body")
}

#[test]
fn body_with_zero_mass() {
    let r = Body::new(0, Point::zero(), Vector::zero());
    assert_eq!(r.unwrap_err(), SimError::NonPositiveMass);
}

#[test]
fn body_with_negative_mass() {
    let r = Body::new(-10_000, Point::zero(), Vector::zero());
    assert_eq!(r.unwrap_err(), SimError::NonPositiveMass);
}

#[test]
fn mass_rejects_zero_and_negative() {
    assert_eq!(Mass::new(0).unwrap_err(), SimError::NonPositiveMass);
    assert_eq!(Mass::new(-5_000).unwrap_err(), SimError::NonPositiveMass);
    assert!(Mass::new(1).is_ok());
    assert_eq!(Mass::new(1_000).unwrap().value(), 1_000);
}

#[test]
fn mass_rejects_out_of_range() {
    assert_eq!(Mass::new(i64::MAX).unwrap_err(), SimError::OutOfRange);
}

#[test]
fn body_rejects_out_of_range_state() {
    let far = Point::new(2_000_000_000, 0);
    assert_eq!(
        Body::new(1_000, far, Vector::zero()).unwrap_err(),
        SimError::OutOfRange
    );
    let fast = Vector::new(0, -2_000_000_000);
    assert_eq!(
        Body::new(1_000, Point::zero(), fast).unwrap_err(),
        SimError::OutOfRange
    );
}

#[test]
fn theta_rejects_non_positive() {
    assert_eq!(
        BHField::with_config(1_000, 100, 0, 64).unwrap_err(),
        SimError::NonPositiveTheta
    );
    assert_eq!(
        BHField::with_config(1_000, 100, -1_000, 64).unwrap_err(),
        SimError::NonPositiveTheta
    );
    assert!(BHField::with_config(1_000, 100, 500, 64).is_ok());
}

#[test]
fn field_config_rejects_out_of_range() {
    assert_eq!(
        BHField::with_config(0, 100, 500, 64).unwrap_err(),
        SimError::OutOfRange
    );
    assert_eq!(
        BruteForceField::with_config(1_000, 0).unwrap_err(),
        SimError::OutOfRange
    );
}

// mass 2.0, position (1.0, 2.0), velocity (-2.0, 5.0); force (3.0, -3.0)
// gives velocity (-0.5, 3.5) and leaves the position alone.
#[test]
fn body_applies_force() {
    let mut sut = body(2_000, 1_000, 2_000, -2_000, 5_000);
    let force = Vector { dx: 3_000, dy: -3_000 };

    sut.apply_force(&force);

    assert_eq!(Vector::new(-500, 3_500), sut.velocity);
    assert_eq!(Point::new(1_000, 2_000), sut.position);
}

#[test]
fn body_applies_velocity() {
    let mut sut = body(2_000, 1_000, 2_000, -2_000, 5_000);

    sut.apply_velocity();

    assert_eq!(Point::new(-1_000, 7_000), sut.position);
}

#[test]
fn forces_are_index_aligned_and_sized() {
    let field = BruteForceField::new();
    let bodies = vec![
        body(1_000, 0, 0, 0, 0),
        body(2_000, 5_000, 0, 0, 0),
        body(3_000, 0, 7_000, 0, 0),
    ];
    let out = field.compute_forces(&bodies);
    assert_eq!(out.len(), 3);
    let bh = BHField::new();
    let out = bh.compute_forces(&bodies);
    assert_eq!(out.len(), 3);
}

#[test]
fn no_force_for_empty_or_single() {
    let field = BruteForceField::new();
    let none: Vec<Body> = vec![];
    assert_eq!(field.compute_forces(&none).len(), 0);
    let one = vec![body(5_000, 123, -456, 7, 8)];
    assert_eq!(field.compute_forces(&one), vec![Vector::zero()]);
    let bh = BHField::new();
    assert_eq!(bh.compute_forces(&none).len(), 0);
    assert_eq!(bh.compute_forces(&one), vec![Vector::zero()]);
}

#[test]
fn coincident_bodies_exert_no_directed_force() {
    let field = BruteForceField::new();
    let bodies = vec![body(1_000, 42, 42, 0, 0), body(1_000, 42, 42, 0, 0)];
    let out = field.compute_forces(&bodies);
    assert_eq!(out, vec![Vector::zero(), Vector::zero()]);
}

// Two unit masses one unit apart under G = 1.0 and softening 0.01:
// the force magnitude is G / (1 + eps^2) = 999.90... milli, stored
// floored to 999; the velocity changes by exactly that and the new
// position is the old one plus the new velocity.
#[test]
fn two_body_concrete_step() {
    let field = BruteForceField::new();
    let bodies = vec![body(1_000, 0, 0, 0, 0), body(1_000, 1_000, 0, 0, 0)];
    let out = field.compute_forces(&bodies);
    assert_eq!(out[0], Vector::new(999, 0));
    assert_eq!(out[1], Vector::new(-999, 0));

    let writer = DataWriter::new("data");
    let mut env = Environment::new(vec![FieldVariant::Brute(field)], writer);
    env.bodies = bodies;
    let frame = env.update();
    assert_eq!(env.bodies[0].velocity, Vector::new(999, 0));
    assert_eq!(env.bodies[0].position, Point::new(999, 0));
    assert_eq!(env.bodies[1].velocity, Vector::new(-999, 0));
    assert_eq!(env.bodies[1].position, Point::new(1, 0));
    assert_eq!(frame.path, "data/frame-0.txt");
    assert_eq!(frame.content, "0.999,0\n0.001,0\n");
}

// Newton's third law: for exactly two bodies the forces are equal in
// magnitude and opposite in direction.
#[test]
fn two_body_forces_are_opposite() {
    let field = BruteForceField::new();
    let bodies = vec![body(2_000, -3_000, 1_000, 0, 0), body(7_000, 4_000, 5_000, 0, 0)];
    let out = field.compute_forces(&bodies);
    assert_eq!(out[0].dx, -out[1].dx);
    assert_eq!(out[0].dy, -out[1].dy);
    assert!(out[0].dx != 0 || out[0].dy != 0);
}

// In a closed two-body system momentum stays within the rounding slack
// of its initial value over many steps.
#[test]
fn two_body_momentum_stays_bounded() {
    let field = BruteForceField::new();
    let writer = DataWriter::new("data");
    let mut env = Environment::new(vec![FieldVariant::Brute(field)], writer);
    env.bodies = vec![body(2_000, -10_000, 0, 0, 300), body(3_000, 10_000, 0, 0, -200)];
    let steps: i128 = 50;
    for _ in 0..steps {
        let _ = env.update();
    }
    let px: i128 = env
        .bodies
        .iter()
        .map(|b| (b.mass.value() as i128) * (b.velocity.dx as i128))
        .sum();
    let py: i128 = env
        .bodies
        .iter()
        .map(|b| (b.mass.value() as i128) * (b.velocity.dy as i128))
        .sum();
    let p0y: i128 = 2_000 * 300 + 3_000 * (-200);
    let slack: i128 = steps * (2_000 + 3_000);
    assert!(px.abs() <= slack, "px drifted: {}", px);
    assert!((py - p0y).abs() <= slack, "py drifted: {}", py);
}

// As theta shrinks the hierarchical field converges to the exact one;
// with the smallest positive theta no aggregate ever substitutes for
// its bodies and the outputs agree exactly.
#[test]
fn tiny_theta_agrees_with_brute_force() {
    let brute = BruteForceField::new();
    let bh = BHField::with_config(1_000, 100, 1, 64).unwrap();
    let bodies = vec![
        body(1_000, 0, 0, 0, 0),
        body(2_000, 5_000, 1_000, 0, 0),
        body(3_000, -4_000, 2_500, 0, 0),
        body(1_500, 800, -6_000, 0, 0),
        body(2_500, -900, -1_100, 0, 0),
    ];
    let exact = brute.compute_forces(&bodies);
    let approx = bh.compute_forces(&bodies);
    assert_eq!(exact, approx);
}

// With a generous theta the approximation still lands close to the
// exact answer on a clustered configuration.
#[test]
fn default_theta_stays_close_to_brute_force() {
    let brute = BruteForceField::new();
    let bh = BHField::new();
    let mut bodies = Vec::new();
    let mut seed: u64 = 42;
    for i in 0..30 {
        seed = seed.wrapping_mul(6364136223846793005).wrapping_add(1442695040888963407);
        let x = ((seed >> 20) % 200_000) as i64 - 100_000 + if i < 15 { 400_000 } else { -400_000 };
        seed = seed.wrapping_mul(6364136223846793005).wrapping_add(1442695040888963407);
        let y = ((seed >> 20) % 200_000) as i64 - 100_000;
        bodies.push(body(1_000 + (i as i64) * 10, x, y, 0, 0));
    }
    let exact = brute.compute_forces(&bodies);
    let approx = bh.compute_forces(&bodies);
    for i in 0..bodies.len() {
        let ex = exact[i].dx as i128;
        let ax = approx[i].dx as i128;
        let ey = exact[i].dy as i128;
        let ay = approx[i].dy as i128;
        let mag = ex.abs() + ey.abs() + 1;
        assert!((ex - ax).abs() * 10 <= mag + 1_000, "x off at {}: {} vs {}", i, ex, ax);
        assert!((ey - ay).abs() * 10 <= mag + 1_000, "y off at {}: {} vs {}", i, ey, ay);
    }
}

#[test]
fn fields_compose_by_summing() {
    let brute = FieldVariant::Brute(BruteForceField::new());
    let writer = DataWriter::new("data");
    let mut env = Environment::new(vec![brute, brute], writer);
    env.bodies = vec![body(1_000, 0, 0, 0, 0), body(1_000, 1_000, 0, 0, 0)];
    let _ = env.update();
    // each of the two identical fields contributes one kick
    assert_eq!(env.bodies[0].velocity, Vector::new(1_998, 0));
}

#[test]
fn environment_default_is_empty_with_bh_field() {
    let env = Environment::default();
    assert_eq!(env.bodies.len(), 0);
    assert_eq!(env.fields.len(), 1);
    assert!(matches!(env.fields[0], FieldVariant::Bh(_)));
}

#[test]
fn trait_dispatch_matches_inherent_results() {
    let bodies = vec![body(1_000, 0, 0, 0, 0), body(2_000, 3_000, 4_000, 0, 0)];
    let brute = BruteForceField::new();
    assert_eq!(Field::forces(&brute, &bodies), brute.compute_forces(&bodies));
    let bh = BHField::new();
    assert_eq!(Field::forces(&bh, &bodies), bh.compute_forces(&bodies));
}
