//! Per-tick collision resolution.
//!
//! Each simulation tick, the moving entity is tested against every static
//! obstacle in list order with the swept test; every reported contact adds
//! the scalar `dot(velocity, contact_normal) * (1 - contact_time)` to both
//! velocity components equally — a scalar broadcast, kept exactly as the
//! scene's observable behaviour rather than replaced by a normal-aligned
//! correction, and isolated in [`collision_response`] so a different
//! response can later be swapped in without touching the swept geometry.
//! After the scan the position advances by `velocity * elapsed_time`.
//!
//! Obstacles are an ordered sequence on purpose: a contact earlier in the
//! list adjusts the velocity that later obstacles are tested against, so
//! the outcome is order-dependent, and the contract pins that order.

use crate::math::frac::{div_floor, lemma_div_bounds, Frac};
use crate::math::rect::Rect;
use crate::math::sweep::{
    elapsed_in_bounds, lemma_contact_time_in_tick, lemma_mul_le, rect_in_bounds,
    starts_separated, swept_query, vec_in_bounds, SlabQuery, COORD_BOUND, ELAPSED_BOUND,
};
use crate::math::sweep::dynamic_rect_vs_rect;
use crate::math::vec::{spec_dot, Vec2, SCALE};
use vstd::math::abs;
use vstd::prelude::*;

verus! {

/// The velocity correction of one contact: `d * (1 - t)` brought back to
/// the grid by floor division, where `d` is the dot product of velocity and
/// contact normal and `t = t_num / t_den` is the contact time.
pub open spec fn corr_spec(d: int, t_num: int, t_den: int) -> int {
    d * (t_den - t_num) / t_den
}

/// The scalar that one contact adds to both velocity components:
/// `dot(vel, normal) * (1 - contact_time)`, floor-rounded to the grid.
pub open spec fn response_scalar(vel: Vec2, normal: Vec2, t_num: int, t_den: int) -> int {
    corr_spec(spec_dot(vel, normal), t_num, t_den)
}

/// The unit contact normal (in grid units) of a slab query's hit.
pub open spec fn contact_normal_of(q: SlabQuery) -> Vec2 {
    Vec2 { x: (q.normal_x() * SCALE) as i64, y: (q.normal_y() * SCALE) as i64 }
}

/// Whether the swept test reports a contact for the moving rectangle
/// against this obstacle within the tick.
pub open spec fn swept_hit_now(cur: Rect, obs: Rect, dt: Frac) -> bool {
    &&& !(cur.vel.x == 0 && cur.vel.y == 0)
    &&& swept_query(cur, obs, dt).hits()
    &&& swept_query(cur, obs, dt).t_num() < swept_query(cur, obs, dt).t_den()
}

/// The moving entity's velocity after the first `i` obstacles of the list
/// have been scanned, in order, each reported contact applying its
/// broadcast correction to both components.
pub open spec fn tick_vel(e: Rect, obs: Seq<Rect>, dt: Frac, i: int) -> Vec2
    decreases i,
{
    if i <= 0 {
        e.vel
    } else {
        let v = tick_vel(e, obs, dt, i - 1);
        let cur = Rect { pos: e.pos, size: e.size, vel: v };
        if swept_hit_now(cur, obs[i - 1], dt) {
            let q = swept_query(cur, obs[i - 1], dt);
            let c = response_scalar(v, contact_normal_of(q), q.t_num(), q.t_den());
            Vec2 { x: (v.x + c) as i64, y: (v.y + c) as i64 }
        } else {
            v
        }
    }
}

/// One position component advanced by `vel * elapsed_time`, floor-rounded
/// to the grid.
pub open spec fn integrate_pos(p: int, v: int, dt: Frac) -> int {
    p + v * (dt.num as int) / (dt.den as int)
}

/// Powers of three, for the velocity budget of a tick: each contact can at
/// worst triple the sum of the velocity components' magnitudes.
pub open spec fn pow3(n: nat) -> nat
    decreases n,
{
    if n == 0 {
        1
    } else {
        3 * pow3((n - 1) as nat)
    }
}

/// Powers of three are positive.
pub proof fn lemma_pow3_pos(n: nat)
    ensures
        pow3(n) >= 1,
    decreases n,
{
    if n > 0 {
        lemma_pow3_pos((n - 1) as nat);
    }
}

/// The velocity is small enough that `n` more broadcast corrections cannot
/// push it out of the coordinate range.
pub open spec fn vel_budget_ok(v: Vec2, n: nat) -> bool {
    (abs(v.x as int) + abs(v.y as int)) * pow3(n) <= COORD_BOUND as int
}

/// A budgeted velocity is itself in range.
proof fn lemma_budget_in_bounds(v: Vec2, n: nat)
    requires
        vel_budget_ok(v, n),
    ensures
        vec_in_bounds(v),
        abs(v.x as int) + abs(v.y as int) <= COORD_BOUND as int,
{
    lemma_pow3_pos(n);
    let s: nat = abs(v.x as int) + abs(v.y as int);
    assert(s <= COORD_BOUND as int) by (nonlinear_arith)
        requires
            s * pow3(n) <= COORD_BOUND as int,
            pow3(n) >= 1,
            s >= 0,
    ;
}

/// A budget for more corrections covers fewer.
proof fn lemma_budget_mono(v: Vec2, n: nat)
    requires
        vel_budget_ok(v, (n + 1) as nat),
    ensures
        vel_budget_ok(v, n),
{
    let s: nat = abs(v.x as int) + abs(v.y as int);
    assert(pow3((n + 1) as nat) == 3 * pow3(n));
    assert(s * pow3(n) <= COORD_BOUND as int) by (nonlinear_arith)
        requires
            s * (3 * pow3(n)) <= COORD_BOUND as int,
            s >= 0,
            pow3(n) >= 0,
    ;
}

/// After one correction bounded by the component sum, the remaining budget
/// still holds.
proof fn lemma_budget_step(v: Vec2, w: Vec2, c: int, n: nat)
    requires
        vel_budget_ok(v, (n + 1) as nat),
        -(abs(v.x as int) + abs(v.y as int)) <= c <= abs(v.x as int) + abs(v.y as int),
        w.x == v.x + c,
        w.y == v.y + c,
    ensures
        vel_budget_ok(w, n),
{
    let s: nat = abs(v.x as int) + abs(v.y as int);
    let s2: nat = abs(w.x as int) + abs(w.y as int);
    assert(s2 <= 3 * s);
    assert(pow3((n + 1) as nat) == 3 * pow3(n));
    assert(s2 * pow3(n) <= COORD_BOUND as int) by (nonlinear_arith)
        requires
            0 <= s2 <= 3 * s,
            s * (3 * pow3(n)) <= COORD_BOUND as int,
            pow3(n) >= 0,
            s >= 0,
    ;
}

/// A contact within the tick corrects the velocity by no more than the sum
/// of its components' magnitudes.
proof fn lemma_response_scalar_bound(vel: Vec2, normal: Vec2, t_num: int, t_den: int)
    requires
        vec_in_bounds(vel),
        normal.x == -SCALE || normal.x == 0 || normal.x == SCALE,
        normal.y == -SCALE || normal.y == 0 || normal.y == SCALE,
        0 <= t_num <= t_den,
        t_den >= 1,
    ensures
        -(abs(vel.x as int) + abs(vel.y as int)) <= response_scalar(vel, normal, t_num, t_den)
            <= abs(vel.x as int) + abs(vel.y as int),
{
    let s: nat = abs(vel.x as int) + abs(vel.y as int);
    assert(-(s * (SCALE as int)) <= vel.x * normal.x + vel.y * normal.y <= s * (SCALE as int))
        by (nonlinear_arith)
        requires
            s == abs(vel.x as int) + abs(vel.y as int),
            -abs(vel.x as int) <= vel.x as int <= abs(vel.x as int),
            -abs(vel.y as int) <= vel.y as int <= abs(vel.y as int),
            normal.x == -SCALE || normal.x == 0 || normal.x == SCALE,
            normal.y == -SCALE || normal.y == 0 || normal.y == SCALE,
    ;
    assert(-s <= (vel.x * normal.x + vel.y * normal.y) / (SCALE as int) <= s) by (nonlinear_arith)
        requires
            -(s * (SCALE as int)) <= vel.x * normal.x + vel.y * normal.y <= s * (SCALE as int),
            s >= 0,
    ;
    assert(-s <= spec_dot(vel, normal) * (t_den - t_num) / t_den <= s) by (nonlinear_arith)
        requires
            -s <= spec_dot(vel, normal) <= s,
            0 <= t_num <= t_den,
            t_den >= 1,
            s >= 0,
    ;
}

/// The correction of one contact, `d * (t_den - t_num) / t_den`.
fn response_corr(d: i64, t_num: i128, t_den: i128) -> (r: i128)
    requires
        -0x0200_0000_0000_0000 <= d <= 0x0200_0000_0000_0000,
        -0x8000_0000_0000_0000 <= t_num <= 0x8000_0000_0000_0000,
        1 <= t_den <= 0x4000_0000_0000_0000,
    ensures
        r == corr_spec(d as int, t_num as int, t_den as int),
{
    proof {
        lemma_mul_le(d as int, t_den - t_num, 0x0200_0000_0000_0000, 0xC000_0000_0000_0000);
    }
    let k: i128 = t_den - t_num;
    let prod: i128 = (d as i128) * k;
    let q: i128 = div_floor(prod, t_den);
    proof {
        assert(q as int == (d as int) * ((t_den - t_num) as int) / (t_den as int))
            by (nonlinear_arith)
            requires
                q as int == prod as int / (t_den as int),
                prod as int == (d as int) * (k as int),
                k as int == (t_den - t_num) as int,
                t_den >= 1,
        ;
    }
    q
}

/// The velocity after one contact's response: the scalar
/// `dot(velocity, contact_normal) * (1 - contact_time)` added to both
/// components equally. The broadcast discards the correction's direction on
/// purpose: it reproduces the scene's observable behaviour.
pub fn collision_response(vel: &Vec2, contact_normal: &Vec2, contact_time: &Frac) -> (r: Vec2)
    requires
        vec_in_bounds(*vel),
        contact_normal.x == -SCALE || contact_normal.x == 0 || contact_normal.x == SCALE,
        contact_normal.y == -SCALE || contact_normal.y == 0 || contact_normal.y == SCALE,
        -0x8000_0000_0000_0000 <= contact_time.num <= 0x8000_0000_0000_0000,
        1 <= contact_time.den <= 0x4000_0000_0000_0000,
        i64::MIN <= response_scalar(
            *vel,
            *contact_normal,
            contact_time.num as int,
            contact_time.den as int,
        ) <= i64::MAX,
        i64::MIN <= vel.x + response_scalar(
            *vel,
            *contact_normal,
            contact_time.num as int,
            contact_time.den as int,
        ) <= i64::MAX,
        i64::MIN <= vel.y + response_scalar(
            *vel,
            *contact_normal,
            contact_time.num as int,
            contact_time.den as int,
        ) <= i64::MAX,
    ensures
        r.x == vel.x + response_scalar(
            *vel,
            *contact_normal,
            contact_time.num as int,
            contact_time.den as int,
        ),
        r.y == vel.y + response_scalar(
            *vel,
            *contact_normal,
            contact_time.num as int,
            contact_time.den as int,
        ),
{
    proof {
        lemma_mul_le(vel.x as int, contact_normal.x as int, 0x80_0000_0000, 65536);
        lemma_mul_le(vel.y as int, contact_normal.y as int, 0x80_0000_0000, 65536);
        lemma_div_bounds(vel.x * contact_normal.x + vel.y * contact_normal.y, SCALE as int);
    }
    let d: i64 = vel.dot(*contact_normal);
    let corr: i128 = response_corr(d, contact_time.num, contact_time.den);
    let c: i64 = corr as i64;
    Vec2 { x: vel.x + c, y: vel.y + c }
}

/// One axis of the position integration: `pos + vel * dt`, floor-rounded.
fn integrate_axis(pos: i64, vel: i64, dt: &Frac) -> (r: i64)
    requires
        1 <= dt.num <= ELAPSED_BOUND,
        1 <= dt.den <= ELAPSED_BOUND,
        i64::MIN <= integrate_pos(pos as int, vel as int, *dt) <= i64::MAX,
    ensures
        r == integrate_pos(pos as int, vel as int, *dt),
{
    proof {
        lemma_mul_le(vel as int, dt.num as int, 0x8000_0000_0000_0000, 0x10_0000);
    }
    let prod: i128 = (vel as i128) * dt.num;
    let q: i128 = div_floor(prod, dt.den);
    proof {
        assert(q as int == (vel as int) * (dt.num as int) / (dt.den as int)) by (nonlinear_arith)
            requires
                q as int == prod as int / (dt.den as int),
                prod as int == (vel as int) * (dt.num as int),
                dt.den >= 1,
        ;
        lemma_div_bounds((vel as int) * (dt.num as int), dt.den as int);
    }
    ((pos as i128) + q) as i64
}

/// One simulation tick.
///
/// Runs the swept test of the moving entity against every obstacle in list
/// order, applies the broadcast velocity response for each reported
/// contact, and then advances the position by `velocity * elapsed_time`.
/// The final velocity and position are pinned exactly by [`tick_vel`] and
/// [`integrate_pos`].
///
/// The entity must start strictly clear of every obstacle: an entity
/// already embedded in one would get a negative contact time, and the
/// response scalar could then grow without bound. The velocity budget
/// leaves room for each contact to triple the velocity's component sum,
/// the machine limit of the broadcast response.
pub fn resolve_tick(elapsed_time: &Frac, obstacles: &Vec<Rect>, moving_entity: &mut Rect)
    requires
        elapsed_in_bounds(*elapsed_time),
        rect_in_bounds(*old(moving_entity)),
        vel_budget_ok(old(moving_entity).vel, obstacles@.len()),
        forall|i: int|
            0 <= i < obstacles@.len() ==> rect_in_bounds(#[trigger] obstacles@[i]),
        forall|i: int|
            0 <= i < obstacles@.len() ==> starts_separated(
                *old(moving_entity),
                #[trigger] obstacles@[i],
            ),
    ensures
        final(moving_entity).size == old(moving_entity).size,
        final(moving_entity).vel == tick_vel(
            *old(moving_entity),
            obstacles@,
            *elapsed_time,
            obstacles@.len() as int,
        ),
        final(moving_entity).pos.x == integrate_pos(
            old(moving_entity).pos.x as int,
            final(moving_entity).vel.x as int,
            *elapsed_time,
        ),
        final(moving_entity).pos.y == integrate_pos(
            old(moving_entity).pos.y as int,
            final(moving_entity).vel.y as int,
            *elapsed_time,
        ),
{
    let ghost e0 = *old(moving_entity);
    let n: usize = obstacles.len();
    let mut i: usize = 0;
    while i < n
        invariant
            0 <= i <= n,
            n == obstacles@.len(),
            moving_entity.pos == e0.pos,
            moving_entity.size == e0.size,
            moving_entity.vel == tick_vel(e0, obstacles@, *elapsed_time, i as int),
            vel_budget_ok(moving_entity.vel, (n - i) as nat),
            elapsed_in_bounds(*elapsed_time),
            rect_in_bounds(e0),
            forall|k: int| 0 <= k < obstacles@.len() ==> rect_in_bounds(#[trigger] obstacles@[k]),
            forall|k: int|
                0 <= k < obstacles@.len() ==> starts_separated(e0, #[trigger] obstacles@[k]),
        decreases n - i,
    {
        let cur: Rect = *moving_entity;
        let obs: Rect = obstacles[i];
        proof {
            lemma_budget_in_bounds(cur.vel, (n - i) as nat);
        }
        let hit: Option<crate::math::sweep::Contact> = dynamic_rect_vs_rect(
            &cur,
            &obs,
            elapsed_time,
        );
        match hit {
            Some(c) => {
                proof {
                    let q = swept_query(cur, obs, *elapsed_time);
                    assert(-1 <= q.normal_x() <= 1 && -1 <= q.normal_y() <= 1);
                    lemma_contact_time_in_tick(cur, obs, *elapsed_time, c);
                    lemma_response_scalar_bound(
                        cur.vel,
                        c.contact_normal,
                        c.contact_time.num as int,
                        c.contact_time.den as int,
                    );
                }
                let newv: Vec2 = collision_response(&cur.vel, &c.contact_normal, &c.contact_time);
                proof {
                    let q = swept_query(cur, obs, *elapsed_time);
                    assert(c.contact_normal == contact_normal_of(q));
                    lemma_budget_step(
                        cur.vel,
                        newv,
                        response_scalar(
                            cur.vel,
                            c.contact_normal,
                            c.contact_time.num as int,
                            c.contact_time.den as int,
                        ),
                        (n - i - 1) as nat,
                    );
                    assert(newv == tick_vel(e0, obstacles@, *elapsed_time, i + 1));
                }
                *moving_entity = Rect { pos: cur.pos, size: cur.size, vel: newv };
            },
            None => {
                proof {
                    assert(tick_vel(e0, obstacles@, *elapsed_time, i + 1) == cur.vel);
                    lemma_budget_mono(cur.vel, (n - i - 1) as nat);
                }
            },
        }
        i = i + 1;
    }
    proof {
        lemma_budget_in_bounds(moving_entity.vel, 0nat);
        lemma_mul_le(moving_entity.vel.x as int, elapsed_time.num as int, 0x80_0000_0000, 0x10_0000);
        lemma_mul_le(moving_entity.vel.y as int, elapsed_time.num as int, 0x80_0000_0000, 0x10_0000);
        lemma_div_bounds(
            (moving_entity.vel.x as int) * (elapsed_time.num as int),
            elapsed_time.den as int,
        );
        lemma_div_bounds(
            (moving_entity.vel.y as int) * (elapsed_time.num as int),
            elapsed_time.den as int,
        );
    }
    let px: i64 = integrate_axis(moving_entity.pos.x, moving_entity.vel.x, elapsed_time);
    let py: i64 = integrate_axis(moving_entity.pos.y, moving_entity.vel.y, elapsed_time);
    *moving_entity = Rect {
        pos: Vec2 { x: px, y: py },
        size: moving_entity.size,
        vel: moving_entity.vel,
    };
}

} // verus!
