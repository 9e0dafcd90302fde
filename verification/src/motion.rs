//! Movement toward a target and hitbox collision detection.

use vstd::prelude::*;

use crate::combatant::{Combatant, BASE_SPRITE_H, BASE_SPRITE_W, COORD_LIMIT, DOWN_SCALE, SCALE_ONE};
use crate::math::{abs_val, sq_dist, sqrt_floor};

verus! {

/// Where a combatant at `(x, y)` with the given speed ends up after one step
/// toward `(tx, ty)`: it advances `speed` thousandths of a unit along the
/// direction of the target, measured with the integer square root of the
/// squared distance.  A zero-length direction means no movement, and a target
/// nearer than one step is reached exactly.
pub open spec fn moved_pos(x: int, y: int, tx: int, ty: int, speed: int) -> (int, int) {
    let dist = sqrt_floor(sq_dist(x, y, tx, ty) as nat) as int;
    if dist == 0 {
        (x, y)
    } else if speed >= dist {
        (tx, ty)
    } else {
        let mx = abs_val(tx - x) * speed / dist;
        let my = abs_val(ty - y) * speed / dist;
        (
            if tx >= x {
                x + mx
            } else {
                x - mx
            },
            if ty >= y {
                y + my
            } else {
                y - my
            },
        )
    }
}

/// A step never moves a coordinate outside the closed interval between the
/// mover's coordinate and the target's.
pub proof fn lemma_moved_pos_between(x: int, y: int, tx: int, ty: int, speed: int)
    requires
        -COORD_LIMIT <= x <= COORD_LIMIT,
        -COORD_LIMIT <= y <= COORD_LIMIT,
        -COORD_LIMIT <= tx <= COORD_LIMIT,
        -COORD_LIMIT <= ty <= COORD_LIMIT,
        0 <= speed,
    ensures
        ({
            let (nx, ny) = moved_pos(x, y, tx, ty, speed);
            &&& if x <= tx {
                x <= nx <= tx
            } else {
                tx <= nx <= x
            }
            &&& if y <= ty {
                y <= ny <= ty
            } else {
                ty <= ny <= y
            }
        }),
{
    crate::math::lemma_sq_dist_bounds(x, y, tx, ty);
    let d2 = sq_dist(x, y, tx, ty) as nat;
    crate::math::lemma_sqrt_floor_bounds(d2);
    let dist = sqrt_floor(d2) as int;
    if dist == 0 || speed >= dist {
    } else {
        let adx = abs_val(tx - x);
        let ady = abs_val(ty - y);
        lemma_scaled_step_le(adx, speed, dist);
        lemma_scaled_step_le(ady, speed, dist);
    }
}

/// For `0 <= speed < dist`, the scaled step `a * speed / dist` is between 0
/// and `a`.
proof fn lemma_scaled_step_le(a: int, speed: int, dist: int)
    requires
        0 <= a,
        0 <= speed < dist,
    ensures
        0 <= a * speed / dist <= a,
{
    assert(0 <= a * speed / dist <= a) by (nonlinear_arith)
    requires
        0 <= a,
        0 <= speed < dist,
    ;
}

impl Combatant {
    /// Advances this combatant one step toward the target position; speed,
    /// scale, type and id are untouched.
    pub fn move_toward(&mut self, tx: i64, ty: i64)
        requires
            old(self).wf(),
            -COORD_LIMIT <= tx <= COORD_LIMIT,
            -COORD_LIMIT <= ty <= COORD_LIMIT,
        ensures
            ({
                let (nx, ny) = moved_pos(
                    old(self).x as int,
                    old(self).y as int,
                    tx as int,
                    ty as int,
                    old(self).speed as int,
                );
                final(self).x == nx && final(self).y == ny
            }),
            *final(self) == (Combatant { x: final(self).x, y: final(self).y, ..*old(self) }),
            final(self).wf(),
    {
        proof {
            lemma_moved_pos_between(
                self.x as int,
                self.y as int,
                tx as int,
                ty as int,
                self.speed as int,
            );
        }
        let x = self.x;
        let y = self.y;
        let d2 = crate::math::sq_dist_exec(x, y, tx, ty);
        let dist = crate::math::isqrt(d2);
        if dist == 0 {
            return ;
        }
        proof {
            assert(dist < 0x80000000u64) by (nonlinear_arith)
            requires
                dist * dist <= d2,
                d2 < 0x4000000000000000u64,
            ;
        }
        if self.speed >= dist as i64 {
            self.x = tx;
            self.y = ty;
            return ;
        }
        let speed = self.speed as u64;
        let adx: u64 = if tx >= x {
            (tx - x) as u64
        } else {
            (x - tx) as u64
        };
        let ady: u64 = if ty >= y {
            (ty - y) as u64
        } else {
            (y - ty) as u64
        };
        proof {
            lemma_scaled_step_le(adx as int, speed as int, dist as int);
            lemma_scaled_step_le(ady as int, speed as int, dist as int);
            assert(adx * speed <= 0x40000000 * 0x100000int) by (nonlinear_arith)
            requires
                0 <= adx <= 0x40000000u64,
                0 <= speed <= 0x100000u64,
            ;
            assert(ady * speed <= 0x40000000 * 0x100000int) by (nonlinear_arith)
            requires
                0 <= ady <= 0x40000000u64,
                0 <= speed <= 0x100000u64,
            ;
        }
        let mx = adx * speed / dist;
        let my = ady * speed / dist;
        self.x = if tx >= x {
            x + mx as i64
        } else {
            x - mx as i64
        };
        self.y = if ty >= y {
            y + my as i64
        } else {
            y - my as i64
        };
    }
}

/// Width of a combatant's axis-aligned hitbox: the base sprite width scaled
/// by its current scale and divided by the shared downscale constant.
pub open spec fn hitbox_w(c: Combatant) -> int {
    BASE_SPRITE_W * c.scale / (SCALE_ONE * DOWN_SCALE)
}

/// Height of a combatant's axis-aligned hitbox.
pub open spec fn hitbox_h(c: Combatant) -> int {
    BASE_SPRITE_H * c.scale / (SCALE_ONE * DOWN_SCALE)
}

/// Whether the two hitboxes, positioned at each combatant's top-left corner,
/// overlap.
pub open spec fn overlaps(a: Combatant, b: Combatant) -> bool {
    &&& a.x < b.x + hitbox_w(b)
    &&& b.x < a.x + hitbox_w(a)
    &&& a.y < b.y + hitbox_h(b)
    &&& b.y < a.y + hitbox_h(a)
}

/// Decides whether the hitboxes of the two combatants overlap.  Pure
/// geometric predicate: no side effects, movement happens regardless.
pub fn collision_detection(el1: &Combatant, el2: &Combatant) -> (hit: bool)
    requires
        el1.wf(),
        el2.wf(),
    ensures
        hit == overlaps(*el1, *el2),
{
    let w1 = hitbox_w_exec(el1);
    let h1 = hitbox_h_exec(el1);
    let w2 = hitbox_w_exec(el2);
    let h2 = hitbox_h_exec(el2);
    el1.x < el2.x + w2 && el2.x < el1.x + w1 && el1.y < el2.y + h2 && el2.y < el1.y + h1
}

/// Computes the hitbox width of a well-formed combatant.
fn hitbox_w_exec(c: &Combatant) -> (w: i64)
    requires
        c.wf(),
    ensures
        w == hitbox_w(*c),
        0 <= w <= BASE_SPRITE_W * crate::combatant::SCALE_LIMIT,
{
    proof {
        lemma_hitbox_bounds(*c);
    }
    BASE_SPRITE_W * c.scale / (SCALE_ONE * DOWN_SCALE)
}

/// Computes the hitbox height of a well-formed combatant.
fn hitbox_h_exec(c: &Combatant) -> (h: i64)
    requires
        c.wf(),
    ensures
        h == hitbox_h(*c),
        0 <= h <= BASE_SPRITE_H * crate::combatant::SCALE_LIMIT,
{
    proof {
        lemma_hitbox_bounds(*c);
    }
    BASE_SPRITE_H * c.scale / (SCALE_ONE * DOWN_SCALE)
}

/// Hitbox dimensions of a well-formed combatant are nonnegative and small
/// enough that corner sums stay inside `i64`.
pub proof fn lemma_hitbox_bounds(c: Combatant)
    requires
        c.wf(),
    ensures
        0 <= hitbox_w(c) <= BASE_SPRITE_W * crate::combatant::SCALE_LIMIT,
        0 <= hitbox_h(c) <= BASE_SPRITE_H * crate::combatant::SCALE_LIMIT,
        0 <= BASE_SPRITE_W * c.scale <= BASE_SPRITE_W * crate::combatant::SCALE_LIMIT,
        0 <= BASE_SPRITE_H * c.scale <= BASE_SPRITE_H * crate::combatant::SCALE_LIMIT,
{
    assert(0 <= BASE_SPRITE_W * c.scale <= BASE_SPRITE_W * crate::combatant::SCALE_LIMIT
        && 0 <= BASE_SPRITE_H * c.scale <= BASE_SPRITE_H * crate::combatant::SCALE_LIMIT)
        by (nonlinear_arith)
    requires
        0 <= c.scale <= crate::combatant::SCALE_LIMIT,
    ;
    assert(0 <= hitbox_w(c) <= BASE_SPRITE_W * crate::combatant::SCALE_LIMIT
        && 0 <= hitbox_h(c) <= BASE_SPRITE_H * crate::combatant::SCALE_LIMIT) by (nonlinear_arith)
    requires
        0 <= BASE_SPRITE_W * c.scale <= BASE_SPRITE_W * crate::combatant::SCALE_LIMIT,
        0 <= BASE_SPRITE_H * c.scale <= BASE_SPRITE_H * crate::combatant::SCALE_LIMIT,
        hitbox_w(c) == BASE_SPRITE_W * c.scale / (SCALE_ONE * DOWN_SCALE),
        hitbox_h(c) == BASE_SPRITE_H * c.scale / (SCALE_ONE * DOWN_SCALE),
    ;
}

} // verus!
