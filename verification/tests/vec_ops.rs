use basic_platformer::math::vec::{Vec2, SCALE};

const S: i64 = SCALE;

#[test]
fn constructors() {
    let v: Vec2 = Vec2::new(3, -4);
    assert_eq!(v.x, 3);
    assert_eq!(v.y, -4);
    let z: Vec2 = Vec2::zero();
    assert_eq!(z, Vec2::new(0, 0));
    let o: Vec2 = Vec2::one();
    assert_eq!(o, Vec2::new(S, S));
}

#[test]
fn add_sub_neg() {
    let a: Vec2 = Vec2::new(3 * S, -2 * S);
    let b: Vec2 = Vec2::new(S, 5 * S);
    assert_eq!(a.add(&b), Vec2::new(4 * S, 3 * S));
    assert_eq!(a.sub(&b), Vec2::new(2 * S, -7 * S));
    assert_eq!(a.neg(), Vec2::new(-3 * S, 2 * S));
}

#[test]
fn fixed_point_mul_and_div() {
    let a: Vec2 = Vec2::new(2 * S, 3 * S);
    let b: Vec2 = Vec2::new(4 * S, 5 * S);
    assert_eq!(a.mul(&b), Vec2::new(8 * S, 15 * S));
    let c: Vec2 = Vec2::new(8 * S, 15 * S);
    assert_eq!(c.div(&a), Vec2::new(4 * S, 5 * S));
}

#[test]
fn div_by_negative_keeps_nonnegative_remainder() {
    // Euclidean division: the quotient is chosen so the remainder is never
    // negative, which rounds toward positive infinity for a negative
    // divisor: (3 + 1/SCALE) / -2 becomes -3/2 exactly.
    let a: Vec2 = Vec2::new(3 * S + 1, 0);
    let b: Vec2 = Vec2::new(-2 * S, S);
    assert_eq!(a.div(&b), Vec2::new(-3 * S / 2, 0));
}

#[test]
fn mul_floor_rounds_toward_negative_infinity() {
    // -1/SCALE of a world unit squared is far below the grid: the exact
    // product -1/SCALE^2 floors to -1 grid step, not to zero.
    let a: Vec2 = Vec2::new(-1, 0);
    let b: Vec2 = Vec2::new(1, 0);
    assert_eq!(a.mul(&b), Vec2::new(-1, 0));
}

#[test]
fn dot_product() {
    let a: Vec2 = Vec2::new(2 * S, 3 * S);
    let b: Vec2 = Vec2::new(4 * S, 5 * S);
    assert_eq!(a.dot(b), 23 * S);
}

#[test]
fn length_and_squares() {
    let v: Vec2 = Vec2::new(3 * S, 4 * S);
    assert_eq!(v.lenght_sqr(), 25 * S);
    assert_eq!(v.length(), 5 * S);
    assert_eq!(Vec2::zero().length(), 0);
}

#[test]
fn distance() {
    let a: Vec2 = Vec2::new(S, S);
    let b: Vec2 = Vec2::new(4 * S, 5 * S);
    assert_eq!(a.distance_to(b), 5 * S);
    assert_eq!(a.distance_to(a), 0);
}

#[test]
fn scaling() {
    let v: Vec2 = Vec2::new(2 * S, -3 * S);
    assert_eq!(v.scale_by(S / 2), Vec2::new(S, -3 * S / 2));
    let mut w: Vec2 = Vec2::new(2 * S, -3 * S);
    w.scale(2 * S);
    assert_eq!(w, Vec2::new(4 * S, -6 * S));
}

#[test]
fn normalized_zero_vector_stays_zero() {
    let z: Vec2 = Vec2::zero();
    assert_eq!(z.normalized(), z);
    let mut w: Vec2 = Vec2::zero();
    w.normalize();
    assert_eq!(w, Vec2::zero());
}

#[test]
fn normalized_exact_components() {
    // |(3, 4)| = 5 world units: each component divides by 5 with floor.
    let v: Vec2 = Vec2::new(3 * S, 4 * S);
    let n: Vec2 = v.normalized();
    assert_eq!(n, Vec2::new(3 * S / 5, 4 * S / 5));
}

#[test]
fn normalized_has_unit_length_within_tolerance() {
    let cases: Vec<Vec2> = vec![
        Vec2::new(3 * S, 4 * S),
        Vec2::new(-7 * S, S),
        Vec2::new(123 * S + 4567, -89 * S - 123),
        Vec2::new(S, 0),
        Vec2::new(0, -S),
    ];
    for v in cases {
        let n: Vec2 = v.normalized();
        let len_sq: i128 = (n.x as i128) * (n.x as i128) + (n.y as i128) * (n.y as i128);
        let unit_sq: i128 = (S as i128) * (S as i128);
        assert!(len_sq >= unit_sq - 5 * (S as i128));
        assert!(len_sq <= unit_sq + 7 * (S as i128));
    }
}

#[test]
fn lerp_interpolates() {
    let a: Vec2 = Vec2::new(0, 0);
    let b: Vec2 = Vec2::new(10 * S, 20 * S);
    assert_eq!(a.lerp(b, S / 2), Vec2::new(5 * S, 10 * S));
    assert_eq!(a.lerp(b, 0), a);
    assert_eq!(a.lerp(b, S), b);
}

#[test]
fn clamp_components() {
    let v: Vec2 = Vec2::new(-5 * S, 7 * S);
    assert_eq!(v.clamp(-2 * S, 3 * S), Vec2::new(-2 * S, 3 * S));
    let w: Vec2 = Vec2::new(S, 2 * S);
    assert_eq!(w.clamp(0, 4 * S), w);
}
