use basic_platformer::math::frac::Frac;
use basic_platformer::math::rect::Rect;
use basic_platformer::math::sweep::dynamic_rect_vs_rect;
use basic_platformer::math::vec::{Vec2, SCALE};
use basic_platformer::phys::{collision_response, resolve_tick};
use basic_platformer::tile_map::TileMap;

const S: i64 = SCALE;

fn rect(px: i64, py: i64, sx: i64, sy: i64) -> Rect {
    Rect::new(Vec2::new(px, py), Vec2::new(sx, sy))
}

fn moving(px: i64, py: i64, sx: i64, sy: i64, vx: i64, vy: i64) -> Rect {
    let mut r: Rect = rect(px, py, sx, sy);
    r.vel = Vec2::new(vx, vy);
    r
}

#[test]
fn response_broadcasts_one_scalar_to_both_components() {
    // dot((10,0), (-1,0)) = -10; the correction -10 * (1 - 1/2) = -5 lands
    // on both components, not along the normal.
    let vel: Vec2 = Vec2::new(10 * S, 0);
    let normal: Vec2 = Vec2::new(-S, 0);
    let t: Frac = Frac::new(1, 2);
    let r: Vec2 = collision_response(&vel, &normal, &t);
    assert_eq!(r, Vec2::new(5 * S, -5 * S));
}

#[test]
fn response_with_immediate_contact_cancels_the_full_dot() {
    let vel: Vec2 = Vec2::new(7 * S, 3 * S);
    let normal: Vec2 = Vec2::new(0, -S);
    let t: Frac = Frac::new(0, 1);
    let r: Vec2 = collision_response(&vel, &normal, &t);
    assert_eq!(r, Vec2::new(4 * S, 0));
}

#[test]
fn tick_without_contact_only_integrates() {
    let mut entity: Rect = moving(0, 0, 10 * S, 10 * S, 10 * S, 0);
    let obstacles: Vec<Rect> = vec![rect(35 * S, 0, 10 * S, 10 * S)];
    let dt: Frac = Frac::new(1, 1);
    resolve_tick(&dt, &obstacles, &mut entity);
    assert_eq!(entity.vel, Vec2::new(10 * S, 0));
    assert_eq!(entity.pos, Vec2::new(10 * S, 0));
}

#[test]
fn tick_approach_corrects_velocity_once_and_never_tunnels() {
    // An entity approaches a single obstacle ahead at constant velocity.
    // The velocity changes exactly in the ticks that report a contact, by
    // the broadcast formula, and the entity never passes the obstacle's far
    // edge within a tick.
    let obstacle: Rect = rect(35 * S, 0, 10 * S, 10 * S);
    let obstacles: Vec<Rect> = vec![obstacle];
    let dt: Frac = Frac::new(1, 1);
    let mut entity: Rect = moving(0, 0, 10 * S, 10 * S, 10 * S, 0);
    let far_edge: i64 = 45 * S;
    let mut contact_ticks: u32 = 0;
    let mut tick: u32 = 0;
    while tick < 3 {
        tick += 1;
        let before: Vec2 = entity.vel;
        let contact: bool = dynamic_rect_vs_rect(&entity, &obstacle, &dt).is_some();
        resolve_tick(&dt, &obstacles, &mut entity);
        if contact {
            contact_ticks += 1;
            assert_ne!(entity.vel, before);
        } else {
            assert_eq!(entity.vel, before);
        }
        assert!(entity.pos.x + entity.size.x <= far_edge);
    }
    assert_eq!(contact_ticks, 1);
    // Ticks one and two approach; tick three meets the obstacle at half its
    // motion: dot((10,0), (-1,0)) * (1 - 1/2) = -5 on both components.
    assert_eq!(entity.vel, Vec2::new(5 * S, -5 * S));
    assert_eq!(entity.pos, Vec2::new(25 * S, -5 * S));
}

#[test]
fn tick_applies_corrections_in_list_order() {
    // Two obstacles contacted in one tick: the first correction changes the
    // velocity the second test runs against.
    let a: Rect = rect(15 * S, 0, 10 * S, 10 * S);
    let b: Rect = rect(0, 13 * S, 10 * S, 10 * S);
    let obstacles: Vec<Rect> = vec![a, b];
    let dt: Frac = Frac::new(1, 1);
    let mut entity: Rect = moving(0, 0, 10 * S, 10 * S, 10 * S, 9 * S);
    resolve_tick(&dt, &obstacles, &mut entity);
    // Against a: t = 1/2, correction -5 => velocity (5, 4).
    // Against b with (5, 4): t = 3/4, correction -1 => velocity (4, 3).
    assert_eq!(entity.vel, Vec2::new(4 * S, 3 * S));
    assert_eq!(entity.pos, Vec2::new(4 * S, 3 * S));
}

#[test]
fn tick_with_empty_obstacle_list_integrates_velocity() {
    let obstacles: Vec<Rect> = vec![];
    let dt: Frac = Frac::new(1, 2);
    let mut entity: Rect = moving(4 * S, -2 * S, S, S, 6 * S, 10 * S);
    resolve_tick(&dt, &obstacles, &mut entity);
    assert_eq!(entity.vel, Vec2::new(6 * S, 10 * S));
    assert_eq!(entity.pos, Vec2::new(7 * S, 3 * S));
}

#[test]
fn tile_map_holds_its_grid() {
    let tiles: Vec<u8> = vec![0, 1, 2, 3, 4, 5];
    let map: TileMap = TileMap::new(3, 2, tiles);
    assert_eq!(map.width, 3);
    assert_eq!(map.height, 2);
    assert_eq!(map.tiles, vec![0, 1, 2, 3, 4, 5]);
}
