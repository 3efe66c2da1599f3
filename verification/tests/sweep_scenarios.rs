use basic_platformer::math::frac::Frac;
use basic_platformer::math::rect::Rect;
use basic_platformer::math::sweep::{dynamic_rect_vs_rect, ray_vs_rect, Contact};
use basic_platformer::math::vec::{Vec2, SCALE};

const S: i64 = SCALE;

fn rect(px: i64, py: i64, sx: i64, sy: i64) -> Rect {
    Rect::new(Vec2::new(px, py), Vec2::new(sx, sy))
}

fn moving(px: i64, py: i64, sx: i64, sy: i64, vx: i64, vy: i64) -> Rect {
    let mut r: Rect = rect(px, py, sx, sy);
    r.vel = Vec2::new(vx, vy);
    r
}

/// The fraction equals `n / d`.
fn frac_is(f: &Frac, n: i128, d: i128) -> bool {
    assert!(f.den > 0);
    f.num * d == n * f.den
}

#[test]
fn ray_hits_box_ahead() {
    let target: Rect = rect(2 * S, -S, 2 * S, 2 * S);
    let hit: Option<Contact> = ray_vs_rect(&Vec2::zero(), &Vec2::new(10 * S, 0), &target);
    let c: Contact = hit.expect("ray straight at the box must hit");
    assert!(frac_is(&c.contact_time, 1, 5));
    assert_eq!(c.contact_normal, Vec2::new(-S, 0));
    assert!(frac_is(&c.contact_point.x, 2 * (S as i128), 1));
    assert!(frac_is(&c.contact_point.y, 0, 1));
}

#[test]
fn ray_against_direction_gets_positive_normal() {
    let target: Rect = rect(2 * S, -S, S, 2 * S);
    let hit: Option<Contact> = ray_vs_rect(&Vec2::new(5 * S, 0), &Vec2::new(-2 * S, 0), &target);
    let c: Contact = hit.expect("leftward ray must hit");
    assert!(frac_is(&c.contact_time, 1, 1));
    assert_eq!(c.contact_normal, Vec2::new(S, 0));
}

#[test]
fn ray_parallel_outside_slab_misses() {
    let target: Rect = rect(2 * S, 6 * S, S, S);
    let hit: Option<Contact> = ray_vs_rect(&Vec2::new(0, 5 * S), &Vec2::new(S, 0), &target);
    assert!(hit.is_none());
}

#[test]
fn ray_box_behind_origin_misses() {
    let target: Rect = rect(-3 * S, -S, S, 2 * S);
    let hit: Option<Contact> = ray_vs_rect(&Vec2::zero(), &Vec2::new(S, 0), &target);
    assert!(hit.is_none());
}

#[test]
fn corner_exact_hit_leaves_normal_unresolved() {
    // Both axes reach their entry time together: the tie is reported as the
    // zero normal rather than either axis winning.
    let target: Rect = rect(S, S, S, S);
    let hit: Option<Contact> = ray_vs_rect(&Vec2::zero(), &Vec2::new(S, S), &target);
    let c: Contact = hit.expect("the corner is on the ray");
    assert_eq!(c.contact_normal, Vec2::zero());
    assert!(frac_is(&c.contact_time, 1, 1));
}

#[test]
fn swept_hit_halfway() {
    // Moving box at (0,0), size 10x10, velocity (10,0); obstacle at (20,0),
    // size 10x10; over two seconds the motion covers 20 units and meets the
    // obstacle halfway.
    let d: Rect = moving(0, 0, 10 * S, 10 * S, 10 * S, 0);
    let s: Rect = rect(20 * S, 0, 10 * S, 10 * S);
    let dt: Frac = Frac::new(2, 1);
    let c: Contact = dynamic_rect_vs_rect(&d, &s, &dt).expect("must collide within the tick");
    assert!(frac_is(&c.contact_time, 1, 2));
    assert_eq!(c.contact_normal, Vec2::new(-S, 0));
    assert!(frac_is(&c.contact_point.x, 15 * (S as i128), 1));
    assert!(frac_is(&c.contact_point.y, 5 * (S as i128), 1));
}

#[test]
fn swept_boundary_exact_motion_misses() {
    // Same scene over one second: the motion ends exactly touching the
    // obstacle, and the strict below-one check excludes the contact.
    let d: Rect = moving(0, 0, 10 * S, 10 * S, 10 * S, 0);
    let s: Rect = rect(20 * S, 0, 10 * S, 10 * S);
    let dt: Frac = Frac::new(1, 1);
    assert!(dynamic_rect_vs_rect(&d, &s, &dt).is_none());
}

#[test]
fn swept_zero_velocity_never_collides() {
    let d: Rect = moving(0, 0, 10 * S, 10 * S, 0, 0);
    let obstacles: Vec<Rect> = vec![
        rect(20 * S, 0, 10 * S, 10 * S),
        rect(0, 0, 10 * S, 10 * S),
        rect(-5 * S, -5 * S, 40 * S, 40 * S),
    ];
    let dts: Vec<Frac> = vec![Frac::new(1, 1), Frac::new(2, 1), Frac::new(1, 2), Frac::new(1000, 1)];
    for s in &obstacles {
        for dt in &dts {
            assert!(dynamic_rect_vs_rect(&d, s, dt).is_none());
        }
    }
}

#[test]
fn swept_contact_lies_on_center_path() {
    // For a hit from a separated start, the time is in [0, 1) and the point
    // equals center + velocity * elapsed * time, checked as exact rationals.
    let d: Rect = moving(-3 * S, 2 * S, 4 * S, 6 * S, 9 * S, -5 * S);
    let s: Rect = rect(7 * S, -9 * S, 8 * S, 8 * S);
    let dt: Frac = Frac::new(3, 2);
    if let Some(c) = dynamic_rect_vs_rect(&d, &s, &dt) {
        assert!(c.contact_time.num >= 0);
        assert!(c.contact_time.num < c.contact_time.den);
        // center + vel * dt * t, via cross-multiplication:
        // point == (2*pos + size) / 2 + vel * (dt.num/dt.den) * (t.num/t.den)
        let tn: i128 = c.contact_time.num;
        let td: i128 = c.contact_time.den;
        let expect_x_num: i128 =
            (2 * (d.pos.x as i128) + d.size.x as i128) * dt.den * td + 2 * (d.vel.x as i128) * dt.num * tn;
        let expect_den: i128 = 2 * dt.den * td;
        assert_eq!(c.contact_point.x.num * expect_den, expect_x_num * c.contact_point.x.den);
        let expect_y_num: i128 =
            (2 * (d.pos.y as i128) + d.size.y as i128) * dt.den * td + 2 * (d.vel.y as i128) * dt.num * tn;
        assert_eq!(c.contact_point.y.num * expect_den, expect_y_num * c.contact_point.y.den);
    } else {
        panic!("the diagonal path crosses the obstacle");
    }
}

#[test]
fn swept_vertical_motion_hits_floor() {
    let d: Rect = moving(0, 0, 10 * S, 10 * S, 0, 20 * S);
    let s: Rect = rect(0, 30 * S, 40 * S, 5 * S);
    let dt: Frac = Frac::new(2, 1);
    let c: Contact = dynamic_rect_vs_rect(&d, &s, &dt).expect("falling box lands");
    assert!(frac_is(&c.contact_time, 1, 2));
    assert_eq!(c.contact_normal, Vec2::new(0, -S));
}

#[test]
fn swept_thin_obstacle_is_not_tunnelled() {
    // A fast box crossing a one-grid-step-thin wall in a single tick still
    // reports the contact: the swept test covers the whole path.
    let d: Rect = moving(0, 0, S, S, 1000 * S, 0);
    let s: Rect = rect(50 * S, 0, 1, S);
    let dt: Frac = Frac::new(1, 1);
    let c: Contact = dynamic_rect_vs_rect(&d, &s, &dt).expect("thin wall on the path");
    assert!(c.contact_time.num >= 0);
    assert!(c.contact_time.num < c.contact_time.den);
    assert_eq!(c.contact_normal, Vec2::new(-S, 0));
}
