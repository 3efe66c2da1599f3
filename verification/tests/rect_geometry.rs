use basic_platformer::math::rect::{point_in_rect, rect_intersect, Rect};
use basic_platformer::math::vec::{Vec2, SCALE};

const S: i64 = SCALE;

fn rect(px: i64, py: i64, sx: i64, sy: i64) -> Rect {
    Rect::new(Vec2::new(px, py), Vec2::new(sx, sy))
}

#[test]
fn new_rect_is_at_rest() {
    let r: Rect = rect(S, 2 * S, 3 * S, 4 * S);
    assert_eq!(r.pos, Vec2::new(S, 2 * S));
    assert_eq!(r.size, Vec2::new(3 * S, 4 * S));
    assert_eq!(r.vel, Vec2::zero());
}

#[test]
fn point_strictly_inside() {
    let r: Rect = rect(0, 0, 10 * S, 10 * S);
    assert!(r.point_in_rect(Vec2::new(5 * S, 5 * S)));
    assert!(point_in_rect(Vec2::new(S, 9 * S), &r));
}

#[test]
fn point_on_boundary_is_outside() {
    let r: Rect = rect(0, 0, 10 * S, 10 * S);
    assert!(!r.point_in_rect(Vec2::new(0, 5 * S)));
    assert!(!r.point_in_rect(Vec2::new(10 * S, 5 * S)));
    assert!(!r.point_in_rect(Vec2::new(5 * S, 0)));
    assert!(!r.point_in_rect(Vec2::new(5 * S, 10 * S)));
    assert!(!r.point_in_rect(Vec2::new(-S, 5 * S)));
}

#[test]
fn rects_overlapping() {
    let a: Rect = rect(0, 0, 10 * S, 10 * S);
    let b: Rect = rect(5 * S, 5 * S, 10 * S, 10 * S);
    assert!(a.rect_intersect(&b));
    assert!(rect_intersect(&a, &b));
}

#[test]
fn touching_rects_do_not_intersect() {
    let a: Rect = rect(0, 0, 10 * S, 10 * S);
    let b: Rect = rect(10 * S, 0, 10 * S, 10 * S);
    assert!(!rect_intersect(&a, &b));
    let c: Rect = rect(0, 10 * S, 10 * S, 10 * S);
    assert!(!rect_intersect(&a, &c));
}

#[test]
fn zero_size_rects_follow_the_same_formulas() {
    let a: Rect = rect(0, 0, 10 * S, 10 * S);
    // Strictly inside, a zero-width rect still projects into the other's
    // open interval on both axes.
    let inside: Rect = rect(5 * S, 5 * S, 0, 10 * S);
    assert!(rect_intersect(&inside, &a));
    // On the edge, the strict comparison excludes it.
    let on_edge: Rect = rect(10 * S, 5 * S, 0, S);
    assert!(!rect_intersect(&on_edge, &a));
    // Two zero-size rects at the same spot have no open overlap at all.
    let p: Rect = rect(5 * S, 5 * S, 0, 0);
    assert!(!rect_intersect(&p, &p));
}

#[test]
fn intersection_is_symmetric() {
    let pairs: Vec<(Rect, Rect)> = vec![
        (rect(0, 0, 10 * S, 10 * S), rect(5 * S, 5 * S, 10 * S, 10 * S)),
        (rect(0, 0, 10 * S, 10 * S), rect(20 * S, 0, 10 * S, 10 * S)),
        (rect(0, 0, 10 * S, 10 * S), rect(10 * S, 0, 10 * S, 10 * S)),
        (rect(-5 * S, -5 * S, S, S), rect(-6 * S, -6 * S, 3 * S, 3 * S)),
        (rect(0, 0, 0, 0), rect(0, 0, 10 * S, 10 * S)),
    ];
    for (a, b) in pairs {
        assert_eq!(rect_intersect(&a, &b), rect_intersect(&b, &a));
    }
}
