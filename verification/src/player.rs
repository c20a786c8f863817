//! The player's pose and the movement controller.
//!
//! A tick first turns the player, then applies each active movement intent in
//! a fixed order: forward, backward, strafe left, strafe right. Every intent
//! is resolved one axis at a time: the new x is tried at the old y and kept
//! only where it is free, then the new y is tried at the x that resulted.
//! Moving diagonally into a wall therefore slides along it. Intents are not
//! combined into one displacement, so walking and strafing at once is faster
//! than either alone.

use vstd::prelude::*;
use vstd::arithmetic::div_mod::lemma_add_mod_noop;
use vstd::arithmetic::div_mod::lemma_add_mod_noop_right;
use crate::fixed::div_toward_zero;
use crate::fixed::trunc_div;
use crate::grid::GridMap;
use crate::grid::GridView;
use crate::trig::cosine;
use crate::trig::normalize;
use crate::trig::normalize_angle;
use crate::trig::sin_wide;
use crate::trig::sine;
use crate::trig::FULL_TURN;
use crate::trig::ONE;
use crate::trig::QUARTER_TURN;

verus! {

/// Where the player stands and which way the player looks: a world position
/// and a heading in angle units.
#[derive(Clone, Copy, PartialEq, Eq, Debug, Structural)]
pub struct Pose {
    pub x: i32,
    pub y: i32,
    pub heading: i32,
}

/// The movement intents that are active during one tick.
#[derive(Clone, Copy, PartialEq, Eq, Debug, Structural)]
pub struct Intents {
    pub forward: bool,
    pub backward: bool,
    pub strafe_left: bool,
    pub strafe_right: bool,
}

/// What the input devices report for one tick: the movement intents, the
/// wish to quit, and the horizontal pointer motion since the last tick.
#[derive(Clone, Copy, PartialEq, Eq, Debug, Structural)]
pub struct Input {
    pub intents: Intents,
    pub quit: bool,
    pub pointer_dx: i32,
}

/// Angle units turned per unit of pointer motion: a tenth of a degree.
pub const POINTER_SENSITIVITY: i32 = 100;

/// The distance covered along one axis in one tick at `speed`, where
/// `component` is the scaled sine or cosine of the direction of travel. The
/// product is scaled back and rounded toward zero.
pub open spec fn displacement(speed: int, component: int) -> int {
    trunc_div(speed * component, ONE as int)
}

/// The pose after turning by `delta` angle units. The heading is kept in
/// `[0, FULL_TURN)`.
pub open spec fn rotate_spec(pose: Pose, delta: int) -> Pose {
    Pose { heading: normalize(pose.heading + delta) as i32, ..pose }
}

/// The pose after trying to move by `dx` along x: the move is kept only
/// where the new position is free.
pub open spec fn try_x(grid: GridView, pose: Pose, dx: int) -> Pose {
    if grid.blocked(pose.x + dx, pose.y as int) {
        pose
    } else {
        Pose { x: (pose.x + dx) as i32, ..pose }
    }
}

/// The pose after trying to move by `dy` along y: the move is kept only
/// where the new position is free.
pub open spec fn try_y(grid: GridView, pose: Pose, dy: int) -> Pose {
    if grid.blocked(pose.x as int, pose.y + dy) {
        pose
    } else {
        Pose { y: (pose.y + dy) as i32, ..pose }
    }
}

/// The pose after trying to move by `(dx, dy)`, x first, then y from the x
/// that resulted.
pub open spec fn slide_spec(grid: GridView, pose: Pose, dx: int, dy: int) -> Pose {
    try_y(grid, try_x(grid, pose, dx), dy)
}

/// The pose after walking at `speed` along `angle`, or against it where
/// `sign` is -1.
pub open spec fn walk_spec(grid: GridView, pose: Pose, speed: int, angle: int, sign: int) -> Pose {
    slide_spec(
        grid,
        pose,
        sign * displacement(speed, cosine(angle)),
        sign * displacement(speed, sine(angle)),
    )
}

/// The pose after one tick: the turn, then each active intent in its turn.
pub open spec fn step_spec(
    grid: GridView,
    pose: Pose,
    intents: Intents,
    speed: int,
    rotation: int,
) -> Pose {
    let turned = rotate_spec(pose, rotation);
    let ahead = turned.heading as int;
    let across = turned.heading + QUARTER_TURN;
    let walked = if intents.forward {
        walk_spec(grid, turned, speed, ahead, 1)
    } else {
        turned
    };
    let backed = if intents.backward {
        walk_spec(grid, walked, speed, ahead, -1)
    } else {
        walked
    };
    let strafed = if intents.strafe_left {
        walk_spec(grid, backed, speed, across, -1)
    } else {
        backed
    };
    if intents.strafe_right {
        walk_spec(grid, strafed, speed, across, 1)
    } else {
        strafed
    }
}

/// What one tick asks of the pose: nothing where the player quits, else the
/// pose after turning by the pointer motion and moving.
pub open spec fn tick_spec(grid: GridView, pose: Pose, input: Input, speed: int) -> Option<Pose> {
    if input.quit {
        None
    } else {
        Some(step_spec(grid, pose, input.intents, speed, input.pointer_dx * POINTER_SENSITIVITY))
    }
}

/// The pose after turning by each of `deltas` in turn.
pub open spec fn turn_all(pose: Pose, deltas: Seq<int>) -> Pose
    decreases deltas.len(),
{
    if deltas.len() == 0 {
        pose
    } else {
        rotate_spec(turn_all(pose, deltas.drop_last()), deltas.last())
    }
}

/// The sum of a sequence of turns.
pub open spec fn sum_of(deltas: Seq<int>) -> int
    decreases deltas.len(),
{
    if deltas.len() == 0 {
        0
    } else {
        sum_of(deltas.drop_last()) + deltas.last()
    }
}

/// Turning leaves the position alone, and a series of turns points the
/// player where a single turn by their sum would.
pub proof fn lemma_turns_add_up(pose: Pose, deltas: Seq<int>)
    ensures
        turn_all(pose, deltas).x == pose.x,
        turn_all(pose, deltas).y == pose.y,
        normalize(turn_all(pose, deltas).heading as int) == normalize(
            pose.heading + sum_of(deltas),
        ),
    decreases deltas.len(),
{
    if deltas.len() > 0 {
        let before = turn_all(pose, deltas.drop_last());
        lemma_turns_add_up(pose, deltas.drop_last());
        let f = FULL_TURN as int;
        let d = deltas.last();
        crate::trig::lemma_normalize_keeps_direction(before.heading + d);
        lemma_add_mod_noop(before.heading as int, d, f);
        lemma_add_mod_noop(pose.heading + sum_of(deltas.drop_last()), d, f);
    }
}

/// A free position lies inside the grid, so its coordinates are small.
pub proof fn lemma_free_is_inside(grid: GridView, x: int, y: int)
    requires
        grid.wf(),
        !grid.blocked(x, y),
    ensures
        0 <= x < grid.width * grid.cell_len <= 0x4000_0000,
        0 <= y < grid.height * grid.cell_len <= 0x4000_0000,
{
    let s = grid.cell_len;
    crate::fixed::lemma_quotient_parts(x, s);
    crate::fixed::lemma_quotient_parts(y, s);
    let c = x / s;
    let r = y / s;
    assert(grid.in_bounds(c, r));
    assert(0 <= x < grid.width * s && grid.width * s <= 0x4000_0000) by (nonlinear_arith)
        requires
            x == c * s + x % s,
            0 <= x % s < s,
            0 <= c < grid.width,
            grid.width <= 32768,
            1 <= s <= 32768,
    ;
    assert(0 <= y < grid.height * s && grid.height * s <= 0x4000_0000) by (nonlinear_arith)
        requires
            y == r * s + y % s,
            0 <= y % s < s,
            0 <= r < grid.height,
            grid.height <= 32768,
            1 <= s <= 32768,
    ;
}

/// Sliding never keeps a move into a wall: where x changed, the new x is
/// free at the old y; where y changed, the new position is free. A player
/// who stands free stays free.
pub proof fn lemma_slide_keeps_free(grid: GridView, pose: Pose, dx: int, dy: int)
    requires
        grid.wf(),
    ensures
        ({
            let after = slide_spec(grid, pose, dx, dy);
            &&& after.heading == pose.heading
            &&& (after.x != pose.x ==> !grid.blocked(after.x as int, pose.y as int))
            &&& (after.y != pose.y ==> !grid.blocked(after.x as int, after.y as int))
            &&& (!grid.blocked(pose.x as int, pose.y as int) ==> !grid.blocked(
                after.x as int,
                after.y as int,
            ))
        }),
{
    let mid = try_x(grid, pose, dx);
    if !grid.blocked(pose.x + dx, pose.y as int) {
        lemma_free_is_inside(grid, pose.x + dx, pose.y as int);
    }
    if !grid.blocked(mid.x as int, mid.y + dy) {
        lemma_free_is_inside(grid, mid.x as int, mid.y + dy);
    }
}

/// A whole tick keeps a free player free, whatever the intents, the speed
/// and the turn.
pub proof fn lemma_step_keeps_free(
    grid: GridView,
    pose: Pose,
    intents: Intents,
    speed: int,
    rotation: int,
)
    requires
        grid.wf(),
        !grid.blocked(pose.x as int, pose.y as int),
    ensures
        ({
            let after = step_spec(grid, pose, intents, speed, rotation);
            &&& !grid.blocked(after.x as int, after.y as int)
            &&& after.heading == normalize(pose.heading + rotation)
        }),
{
    let turned = rotate_spec(pose, rotation);
    crate::fixed::lemma_quotient_parts(pose.heading + rotation, FULL_TURN as int);
    let ahead = turned.heading as int;
    let across = turned.heading + QUARTER_TURN;
    let walked = if intents.forward {
        walk_spec(grid, turned, speed, ahead, 1)
    } else {
        turned
    };
    lemma_slide_keeps_free(
        grid,
        turned,
        displacement(speed, cosine(ahead)),
        displacement(speed, sine(ahead)),
    );
    let backed = if intents.backward {
        walk_spec(grid, walked, speed, ahead, -1)
    } else {
        walked
    };
    lemma_slide_keeps_free(
        grid,
        walked,
        -1 * displacement(speed, cosine(ahead)),
        -1 * displacement(speed, sine(ahead)),
    );
    let strafed = if intents.strafe_left {
        walk_spec(grid, backed, speed, across, -1)
    } else {
        backed
    };
    lemma_slide_keeps_free(
        grid,
        backed,
        -1 * displacement(speed, cosine(across)),
        -1 * displacement(speed, sine(across)),
    );
    lemma_slide_keeps_free(
        grid,
        strafed,
        displacement(speed, cosine(across)),
        displacement(speed, sine(across)),
    );
}

/// Turns the pose by `delta` angle units.
pub fn rotate(pose: Pose, delta: i64) -> (r: Pose)
    ensures
        r == rotate_spec(pose, delta as int),
        r.x == pose.x && r.y == pose.y,
        r.heading == normalize(pose.heading + delta),
        0 <= r.heading < FULL_TURN,
{
    let turn: i32 = normalize_angle(delta);
    proof {
        lemma_add_mod_noop_right(pose.heading as int, delta as int, FULL_TURN as int);
    }
    let heading: i32 = normalize_angle(pose.heading as i64 + turn as i64);
    Pose { x: pose.x, y: pose.y, heading }
}

/// Whether the world position `(x, y)` lies in a wall, for coordinates of
/// any size: beyond the range of world coordinates everything is wall.
fn blocked_wide(map: &GridMap, x: i128, y: i128) -> (r: bool)
    ensures
        r == map@.blocked(x as int, y as int),
{
    let ghost grid = map@;
    proof {
        use_type_invariant(map);
    }
    if x < 0 || x > 0x4000_0000 || y < 0 || y > 0x4000_0000 {
        proof {
            if !grid.blocked(x as int, y as int) {
                lemma_free_is_inside(grid, x as int, y as int);
            }
        }
        true
    } else {
        map.is_wall_at(x as i32, y as i32)
    }
}

/// Tries to move the pose by `(dx, dy)`: first by `dx` along x, kept only
/// where the new position is free, then by `dy` along y from the x that
/// resulted, kept likewise. No move into a wall is ever kept.
pub fn slide(map: &GridMap, pose: Pose, dx: i64, dy: i64) -> (r: Pose)
    ensures
        r == slide_spec(map@, pose, dx as int, dy as int),
        r.heading == pose.heading,
        r.x != pose.x ==> !map@.blocked(r.x as int, pose.y as int),
        r.y != pose.y ==> !map@.blocked(r.x as int, r.y as int),
        !map@.blocked(pose.x as int, pose.y as int) ==> !map@.blocked(r.x as int, r.y as int),
{
    let ghost grid = map@;
    proof {
        use_type_invariant(map);
    }
    proof {
        lemma_slide_keeps_free(grid, pose, dx as int, dy as int);
    }
    let mut x: i32 = pose.x;
    let mut y: i32 = pose.y;
    let new_x: i128 = pose.x as i128 + dx as i128;
    if !blocked_wide(map, new_x, pose.y as i128) {
        proof {
            lemma_free_is_inside(grid, new_x as int, pose.y as int);
        }
        x = new_x as i32;
    }
    let new_y: i128 = pose.y as i128 + dy as i128;
    if !blocked_wide(map, x as i128, new_y) {
        proof {
            lemma_free_is_inside(grid, x as int, new_y as int);
        }
        y = new_y as i32;
    }
    Pose { x, y, heading: pose.heading }
}

/// The distance covered along one axis in one tick.
fn displacement_fixed(speed: i32, component: i32) -> (r: i64)
    requires
        -ONE <= component <= ONE,
    ensures
        r == displacement(speed as int, component as int),
        -0x8000_0000 <= r <= 0x8000_0000,
{
    proof {
        assert(-0x8000_0000 * 65536 <= speed * component <= 0x8000_0000 * 65536)
            by (nonlinear_arith)
            requires
                -0x8000_0000 <= speed < 0x8000_0000,
                -65536 <= component <= 65536,
        ;
    }
    let product: i64 = speed as i64 * component as i64;
    let r: i64 = div_toward_zero(product, ONE as i64);
    proof {
        let p = product as int;
        if p >= 0 {
            crate::fixed::lemma_quotient_parts(p, ONE as int);
        } else {
            crate::fixed::lemma_quotient_parts(-p, ONE as int);
        }
    }
    r
}

/// Walks the pose at `speed` along `angle`, or against it where `forward`
/// is false.
fn walk(map: &GridMap, pose: Pose, speed: i32, angle: i64, forward: bool) -> (r: Pose)
    requires
        -0x1_0000_0000 <= angle <= 0x1_0000_0000,
    ensures
        r == walk_spec(
            map@,
            pose,
            speed as int,
            angle as int,
            if forward {
                1
            } else {
                -1
            },
        ),
{
    let c: i32 = sin_wide(angle + QUARTER_TURN as i64);
    let s: i32 = sin_wide(angle);
    let dx: i64 = displacement_fixed(speed, c);
    let dy: i64 = displacement_fixed(speed, s);
    if forward {
        slide(map, pose, dx, dy)
    } else {
        slide(map, pose, -dx, -dy)
    }
}

/// The movement controller: the pose after one tick in which the player
/// turns by `rotation` angle units and moves at `speed` world units as the
/// active intents ask. A player who stands free stays free.
pub fn step(map: &GridMap, pose: Pose, intents: Intents, speed: i32, rotation: i64) -> (r: Pose)
    ensures
        r == step_spec(map@, pose, intents, speed as int, rotation as int),
        r.heading == normalize(pose.heading + rotation),
        !map@.blocked(pose.x as int, pose.y as int) ==> !map@.blocked(r.x as int, r.y as int),
{
    let ghost grid = map@;
    proof {
        use_type_invariant(map);
    }
    proof {
        if !grid.blocked(pose.x as int, pose.y as int) {
            lemma_step_keeps_free(grid, pose, intents, speed as int, rotation as int);
        }
    }
    let mut p: Pose = rotate(pose, rotation);
    let ahead: i64 = p.heading as i64;
    let across: i64 = p.heading as i64 + QUARTER_TURN as i64;
    if intents.forward {
        p = walk(map, p, speed, ahead, true);
    }
    if intents.backward {
        p = walk(map, p, speed, ahead, false);
    }
    if intents.strafe_left {
        p = walk(map, p, speed, across, false);
    }
    if intents.strafe_right {
        p = walk(map, p, speed, across, true);
    }
    p
}

/// One tick of the simulation: `None` where the player asks to quit, else
/// the pose after turning by the pointer motion and moving at `speed`.
pub fn tick(map: &GridMap, pose: Pose, input: Input, speed: i32) -> (r: Option<Pose>)
    ensures
        r == tick_spec(map@, pose, input, speed as int),
        r.is_none() <==> input.quit,
{
    if input.quit {
        None
    } else {
        let rotation: i64 = input.pointer_dx as i64 * POINTER_SENSITIVITY as i64;
        Some(step(map, pose, input.intents, speed, rotation))
    }
}

} // verus!
