//! Walking one ray through the grid.
//!
//! A ray starts at a world position and runs along a direction. It is walked
//! from cell to cell: at every step it crosses whichever cell boundary comes
//! first, the next vertical or the next horizontal one, and moves into the
//! neighbouring cell on that axis. The walk ends in the first wall cell.
//!
//! The distance along the ray to the k-th boundary on an axis is
//! `(offset + k * cell_len) / |d|`, where `offset` is the distance from the
//! origin to the first boundary on that axis and `d` is the direction
//! component. Two such distances are compared by cross multiplication, so no
//! division takes place and a zero component simply never comes first.

use vstd::prelude::*;
use crate::fixed::abs_i32;
use crate::fixed::floor_div;
use crate::fixed::floor_mod;
use crate::fixed::magnitude;
use crate::grid::Cell;
use crate::grid::GridMap;
use crate::grid::GridView;
use crate::trig::Direction;

verus! {

/// The axis along which a ray took a step: `X` when it crossed a vertical
/// grid line into the next column, `Y` when it crossed a horizontal one into
/// the next row.
#[derive(Clone, Copy, PartialEq, Eq, Debug, Structural)]
pub enum Side {
    X,
    Y,
}

/// Where a ray met its first wall.
#[derive(Clone, Copy, PartialEq, Eq, Debug, Structural)]
pub struct Hit {
    /// The column of the wall cell.
    pub col: i64,
    /// The row of the wall cell.
    pub row: i64,
    /// The axis of the step that entered the wall cell.
    pub side: Side,
    /// The distance in world units, measured along the axis of `side`, from
    /// the origin to the face of the wall cell through which the ray entered.
    pub travel: i64,
    /// The number of steps taken.
    pub steps: u32,
}

/// A ray set up for walking: the cell it starts in, the step it takes on each
/// axis, the distance from its origin to the first boundary on each axis, and
/// the size of each direction component.
pub struct RayView {
    pub col0: int,
    pub row0: int,
    pub step_x: int,
    pub step_y: int,
    pub off_x: int,
    pub off_y: int,
    pub len_x: int,
    pub len_y: int,
    pub cell_len: int,
}

/// The step along an axis for direction component `d`: forward for a
/// component that is positive or zero, backward for a negative one.
pub open spec fn step_sign(d: int) -> int {
    if d >= 0 {
        1
    } else {
        -1
    }
}

/// The distance from world coordinate `v` to the first cell boundary in the
/// direction of component `d`.
pub open spec fn boundary_offset(v: int, d: int, cell_len: int) -> int {
    if d >= 0 {
        cell_len - v % cell_len
    } else {
        v % cell_len
    }
}

/// The ray from world position `(x, y)` along `dir` in a grid with cells of
/// side `cell_len`.
pub open spec fn ray_of(cell_len: int, x: int, y: int, dir: Direction) -> RayView {
    RayView {
        col0: x / cell_len,
        row0: y / cell_len,
        step_x: step_sign(dir.x as int),
        step_y: step_sign(dir.y as int),
        off_x: boundary_offset(x, dir.x as int, cell_len),
        off_y: boundary_offset(y, dir.y as int, cell_len),
        len_x: magnitude(dir.x as int),
        len_y: magnitude(dir.y as int),
        cell_len,
    }
}

impl RayView {
    /// The ray is one that `ray_of` builds: steps of one cell, offsets
    /// within one cell, and direction components of machine size.
    pub open spec fn wf(self) -> bool {
        &&& 1 <= self.cell_len <= crate::grid::MAX_CELL_LEN
        &&& (self.step_x == 1 || self.step_x == -1)
        &&& (self.step_y == 1 || self.step_y == -1)
        &&& 0 <= self.off_x <= self.cell_len
        &&& 0 <= self.off_y <= self.cell_len
        &&& (self.step_x == 1 ==> self.off_x >= 1)
        &&& (self.step_y == 1 ==> self.off_y >= 1)
        &&& 0 <= self.len_x <= 0x8000_0000
        &&& 0 <= self.len_y <= 0x8000_0000
        &&& (self.len_x > 0 || self.step_x == 1)
        &&& (self.len_y > 0 || self.step_y == 1)
    }

    /// Whether, after `kx` steps along x and `ky` steps along y, the next
    /// vertical grid line comes strictly before the next horizontal one.
    pub open spec fn x_first(self, kx: int, ky: int) -> bool {
        (self.off_x + kx * self.cell_len) * self.len_y < (self.off_y + ky * self.cell_len)
            * self.len_x
    }

    /// How many of the first `n` steps go along x.
    pub open spec fn x_steps(self, n: nat) -> nat
        decreases n,
    {
        if n == 0 {
            0
        } else {
            let kx = self.x_steps((n - 1) as nat);
            if self.x_first(kx as int, n - 1 - kx) {
                kx + 1
            } else {
                kx
            }
        }
    }

    /// How many of the first `n` steps go along y.
    pub open spec fn y_steps(self, n: nat) -> int {
        n - self.x_steps(n)
    }

    /// The column of the cell reached after `n` steps.
    pub open spec fn col_after(self, n: nat) -> int {
        self.col0 + self.step_x * self.x_steps(n)
    }

    /// The row of the cell reached after `n` steps.
    pub open spec fn row_after(self, n: nat) -> int {
        self.row0 + self.step_y * self.y_steps(n)
    }

    /// The axis of step number `n`, counted from 1.
    pub open spec fn side_of(self, n: nat) -> Side {
        if n >= 1 && self.x_steps(n) > self.x_steps((n - 1) as nat) {
            Side::X
        } else {
            Side::Y
        }
    }

    /// The distance along the axis of step number `n` from the origin to the
    /// grid line that this step crosses.
    pub open spec fn travel(self, n: nat) -> int {
        match self.side_of(n) {
            Side::X => self.off_x + (self.x_steps(n) - 1) * self.cell_len,
            Side::Y => self.off_y + (self.y_steps(n) - 1) * self.cell_len,
        }
    }

    /// Whether the ray passes through the cell that lies `kx` steps along x
    /// and `ky` steps along y from its starting cell: it enters that column
    /// no later than it leaves that row, and enters that row no later than
    /// it leaves that column. Distances along the ray are compared by cross
    /// multiplication, as in `x_first`.
    pub open spec fn passes_through(self, kx: int, ky: int) -> bool {
        &&& kx >= 1 ==> (self.off_x + (kx - 1) * self.cell_len) * self.len_y <= (self.off_y + ky
            * self.cell_len) * self.len_x
        &&& ky >= 1 ==> (self.off_y + (ky - 1) * self.cell_len) * self.len_x <= (self.off_x + kx
            * self.cell_len) * self.len_y
    }

    /// Whether the ray passes through the inside of the cell that lies `kx`
    /// steps along x and `ky` steps along y from its starting cell: it
    /// enters that column before it leaves that row, and enters that row
    /// before it leaves that column. A cell that the ray only touches at a
    /// corner is not passed through in this sense.
    pub open spec fn passes_inside(self, kx: int, ky: int) -> bool {
        &&& kx >= 1 ==> (self.off_x + (kx - 1) * self.cell_len) * self.len_y < (self.off_y + ky
            * self.cell_len) * self.len_x
        &&& ky >= 1 ==> (self.off_y + (ky - 1) * self.cell_len) * self.len_x < (self.off_x + kx
            * self.cell_len) * self.len_y
    }

    /// The record of a walk that ends with step number `n`.
    pub open spec fn hit_at(self, n: nat) -> Hit {
        Hit {
            col: self.col_after(n) as i64,
            row: self.row_after(n) as i64,
            side: self.side_of(n),
            travel: self.travel(n) as i64,
            steps: n as u32,
        }
    }
}

/// Every step moves the walk into the neighbouring cell along one axis, in
/// the direction of the ray, and leaves the other axis alone.
pub proof fn lemma_step_moves_one_cell(ray: RayView, n: nat)
    ensures
        ray.side_of(n + 1) == Side::X ==> ray.col_after(n + 1) == ray.col_after(n) + ray.step_x
            && ray.row_after(n + 1) == ray.row_after(n),
        ray.side_of(n + 1) == Side::Y ==> ray.col_after(n + 1) == ray.col_after(n)
            && ray.row_after(n + 1) == ray.row_after(n) + ray.step_y,
{
    let kx = ray.x_steps(n) as int;
    let ky = ray.y_steps(n);
    assert(ray.x_steps(n + 1) == kx || ray.x_steps(n + 1) == kx + 1);
    assert(ray.step_x * (kx + 1) == ray.step_x * kx + ray.step_x) by (nonlinear_arith);
    assert(ray.step_y * (ky + 1) == ray.step_y * ky + ray.step_y) by (nonlinear_arith);
}

/// The walk follows the ray: every cell that it enters is a cell that the
/// ray passes through. The walk never strays from the ray and, moving one
/// cell at a time, never jumps over a cell on it.
pub proof fn lemma_walk_follows_ray(ray: RayView, n: nat)
    requires
        ray.wf(),
    ensures
        ray.passes_through(ray.x_steps(n) as int, ray.y_steps(n)),
    decreases n,
{
    if n > 0 {
        let m = (n - 1) as nat;
        lemma_walk_follows_ray(ray, m);
        lemma_steps_split(ray, m);
        let kx = ray.x_steps(m) as int;
        let ky = ray.y_steps(m);
        let s = ray.cell_len;
        let a = ray.off_x + kx * s;
        let b = ray.off_y + ky * s;
        assert(ray.x_first(kx, ky) == (a * ray.len_y < b * ray.len_x));
        if ray.x_first(kx, ky) {
            assert(ray.x_steps(n) == kx + 1 && ray.y_steps(n) == ky);
            assert(ray.off_x + (kx + 1 - 1) * s == a);
            assert(ky >= 1 ==> (ray.off_y + (ky - 1) * s) * ray.len_x <= (ray.off_x + (kx + 1) * s)
                * ray.len_y) by (nonlinear_arith)
                requires
                    ky >= 1 ==> (ray.off_y + (ky - 1) * s) * ray.len_x <= (ray.off_x + kx * s)
                        * ray.len_y,
                    s >= 1,
                    ray.len_y >= 0,
            ;
        } else {
            assert(ray.x_steps(n) == kx && ray.y_steps(n) == ky + 1);
            assert(ray.off_y + (ky + 1 - 1) * s == b);
            assert(kx >= 1 ==> (ray.off_x + (kx - 1) * s) * ray.len_y <= (ray.off_y + (ky + 1) * s)
                * ray.len_x) by (nonlinear_arith)
                requires
                    kx >= 1 ==> (ray.off_x + (kx - 1) * s) * ray.len_y <= (ray.off_y + ky * s)
                        * ray.len_x,
                    s >= 1,
                    ray.len_x >= 0,
            ;
        }
    }
}

/// The walk misses no cell: a cell whose inside the ray passes through is
/// entered by the walk, after as many steps as the cell is away from the
/// start. Together with `lemma_walk_follows_ray` this says that the walk
/// visits the cells on the ray and no others, in the order in which the ray
/// meets them.
pub proof fn lemma_walk_misses_no_cell(ray: RayView, kx: nat, ky: nat)
    requires
        ray.wf(),
        ray.passes_inside(kx as int, ky as int),
    ensures
        ray.x_steps(kx + ky) == kx,
        ray.y_steps(kx + ky) == ky,
{
    let n = kx + ky;
    let a = ray.x_steps(n) as int;
    let b = ray.y_steps(n);
    let s = ray.cell_len;
    lemma_walk_follows_ray(ray, n);
    lemma_steps_split(ray, n);
    if a > kx {
        assert(false) by (nonlinear_arith)
            requires
                a >= kx + 1,
                0 <= b <= ky - 1,
                (ray.off_x + (a - 1) * s) * ray.len_y <= (ray.off_y + b * s) * ray.len_x,
                (ray.off_y + (ky - 1) * s) * ray.len_x < (ray.off_x + kx * s) * ray.len_y,
                s >= 1,
                ray.len_x >= 0,
                ray.len_y >= 0,
        ;
    }
    if a < kx {
        assert(false) by (nonlinear_arith)
            requires
                b >= ky + 1,
                0 <= a <= kx - 1,
                (ray.off_y + (b - 1) * s) * ray.len_x <= (ray.off_x + a * s) * ray.len_y,
                (ray.off_x + (kx - 1) * s) * ray.len_y < (ray.off_y + ky * s) * ray.len_x,
                s >= 1,
                ray.len_x >= 0,
                ray.len_y >= 0,
        ;
    }
}

/// The walk never comes back to a cell: the cells entered by two different
/// steps differ.
pub proof fn lemma_never_revisits(ray: RayView, m: nat, n: nat)
    requires
        ray.wf(),
        m < n,
    ensures
        ray.x_steps(m) <= ray.x_steps(n),
        ray.y_steps(m) <= ray.y_steps(n),
        ray.col_after(m) != ray.col_after(n) || ray.row_after(m) != ray.row_after(n),
    decreases n - m,
{
    let kx = ray.x_steps(n) as int;
    let ky = ray.y_steps(n);
    if m + 1 < n {
        lemma_never_revisits(ray, m, (n - 1) as nat);
    }
    let jx = ray.x_steps(m) as int;
    let jy = ray.y_steps(m);
    assert(ray.x_steps(n) == ray.x_steps((n - 1) as nat) || ray.x_steps(n) == ray.x_steps(
        (n - 1) as nat,
    ) + 1);
    assert(jx <= kx && jy <= ky && jx + jy < kx + ky);
    assert(ray.step_x * kx != ray.step_x * jx || ray.step_y * ky != ray.step_y * jy)
        by (nonlinear_arith)
        requires
            jx < kx || jy < ky,
            jx <= kx,
            jy <= ky,
            ray.step_x == 1 || ray.step_x == -1,
            ray.step_y == 1 || ray.step_y == -1,
    ;
}

/// Step number `n` is the first that enters a wall cell.
pub open spec fn first_wall(grid: GridView, ray: RayView, n: nat) -> bool {
    &&& n >= 1
    &&& grid.is_wall(ray.col_after(n), ray.row_after(n))
    &&& forall|m: nat| 1 <= m < n ==> !grid.is_wall(#[trigger] ray.col_after(m), ray.row_after(m))
}

/// The number of the first step that enters a wall cell.
pub open spec fn hit_step(grid: GridView, ray: RayView) -> nat {
    choose|n: nat| first_wall(grid, ray, n)
}

/// Where the ray from `(x, y)` along `dir` meets its first wall.
pub open spec fn ray_hit(grid: GridView, x: int, y: int, dir: Direction) -> Hit {
    let ray = ray_of(grid.cell_len, x, y, dir);
    ray.hit_at(hit_step(grid, ray))
}

/// There is at most one first wall step.
pub proof fn lemma_first_wall_unique(grid: GridView, ray: RayView, a: nat, b: nat)
    requires
        first_wall(grid, ray, a),
        first_wall(grid, ray, b),
    ensures
        a == b,
        hit_step(grid, ray) == a,
{
    if a < b {
        assert(!grid.is_wall(ray.col_after(a), ray.row_after(a)));
    }
    if b < a {
        assert(!grid.is_wall(ray.col_after(b), ray.row_after(b)));
    }
    let c = hit_step(grid, ray);
    assert(first_wall(grid, ray, c));
    if a < c {
        assert(!grid.is_wall(ray.col_after(a), ray.row_after(a)));
    }
    if c < a {
        assert(!grid.is_wall(ray.col_after(c), ray.row_after(c)));
    }
}

/// The ray that `ray_of` builds is well formed.
pub proof fn lemma_ray_of_wf(cell_len: int, x: int, y: int, dir: Direction)
    requires
        1 <= cell_len <= crate::grid::MAX_CELL_LEN,
    ensures
        ray_of(cell_len, x, y, dir).wf(),
{
    crate::fixed::lemma_quotient_parts(x, cell_len);
    crate::fixed::lemma_quotient_parts(y, cell_len);
}

/// The number of cells between an in-bounds cell and the edge of the grid
/// that the ray is heading for, summed over both axes. Every step lowers it
/// by one.
pub open spec fn exit_distance(grid: GridView, ray: RayView, col: int, row: int) -> int {
    (if ray.step_x == 1 {
        grid.width - col
    } else {
        col + 1
    }) + (if ray.step_y == 1 {
        grid.height - row
    } else {
        row + 1
    })
}

/// Walks the ray from world position `(x, y)` along `dir` until it enters a
/// wall cell, and reports that cell, the axis of the last step and the
/// distance along that axis. At least one step is taken, so the cell that
/// the ray starts in is never the one reported. The walk takes at most
/// width plus height steps, because every cell outside the grid is a wall.
pub fn cast_ray(map: &GridMap, x: i32, y: i32, dir: Direction) -> (hit: Hit)
    ensures
        hit == ray_hit(map@, x as int, y as int, dir),
        first_wall(map@, ray_of(map@.cell_len, x as int, y as int, dir), hit.steps as nat),
        hit == ray_of(map@.cell_len, x as int, y as int, dir).hit_at(hit.steps as nat),
        map@.is_wall(hit.col as int, hit.row as int),
        1 <= hit.steps <= map@.width + map@.height,
        0 <= hit.travel <= hit.steps * map@.cell_len,
{
    let cell_len: i64 = map.cell_len() as i64;
    let ghost grid = map@;
    let ghost ray = ray_of(grid.cell_len, x as int, y as int, dir);
    proof {
        lemma_ray_of_wf(grid.cell_len, x as int, y as int, dir);
    }
    let step_x: i64 = if dir.x >= 0 { 1 } else { -1 };
    let step_y: i64 = if dir.y >= 0 { 1 } else { -1 };
    let len_x: i64 = abs_i32(dir.x);
    let len_y: i64 = abs_i32(dir.y);
    let rem_x: i64 = floor_mod(x as i64, cell_len);
    let rem_y: i64 = floor_mod(y as i64, cell_len);
    let mut col: i64 = floor_div(x as i64, cell_len);
    let mut row: i64 = floor_div(y as i64, cell_len);
    let mut reach_x: i64 = if dir.x >= 0 { cell_len - rem_x } else { rem_x };
    let mut reach_y: i64 = if dir.y >= 0 { cell_len - rem_y } else { rem_y };
    let mut side: Side = Side::Y;
    let mut steps: u32 = 0;
    let ghost mut kx: int = 0;
    let ghost mut ky: int = 0;
    proof {
        crate::fixed::lemma_quotient_parts(x as int, cell_len as int);
        crate::fixed::lemma_quotient_parts(y as int, cell_len as int);
        assert(-0x8000_0000 <= col <= 0x8000_0000 && -0x8000_0000 <= row <= 0x8000_0000)
            by (nonlinear_arith)
            requires
                x == col * cell_len + rem_x,
                y == row * cell_len + rem_y,
                0 <= rem_x < cell_len,
                0 <= rem_y < cell_len,
                cell_len >= 1,
                -0x8000_0000 <= x < 0x8000_0000,
                -0x8000_0000 <= y < 0x8000_0000,
        ;
    }
    loop
        invariant_except_break
            steps >= 1 ==> !grid.is_wall(col as int, row as int),
        invariant
            grid == map@,
            grid.wf(),
            ray == ray_of(grid.cell_len, x as int, y as int, dir),
            ray.wf(),
            cell_len == grid.cell_len,
            step_x == ray.step_x,
            step_y == ray.step_y,
            len_x == ray.len_x,
            len_y == ray.len_y,
            kx >= 0,
            ky >= 0,
            kx + ky == steps,
            kx == ray.x_steps(steps as nat),
            reach_x == ray.off_x + kx * cell_len,
            reach_y == ray.off_y + ky * cell_len,
            col == ray.col0 + step_x * kx,
            row == ray.row0 + step_y * ky,
            -0x8000_0000 <= ray.col0 <= 0x8000_0000,
            -0x8000_0000 <= ray.row0 <= 0x8000_0000,
            steps >= 1 ==> side == ray.side_of(steps as nat),
            steps >= 1 && side == Side::X ==> kx >= 1,
            steps >= 1 && side == Side::Y ==> ky >= 1,
            steps >= 1 && grid.in_bounds(col as int, row as int) ==> steps + exit_distance(
                grid,
                ray,
                col as int,
                row as int,
            ) <= grid.width + grid.height + 1,
            steps <= grid.width + grid.height,
            forall|m: nat|
                1 <= m < steps ==> !grid.is_wall(#[trigger] ray.col_after(m), ray.row_after(m)),
        ensures
            steps >= 1,
            grid.is_wall(col as int, row as int),
        decreases
            (if steps == 0 {
                grid.width + grid.height + 2
            } else {
                exit_distance(grid, ray, col as int, row as int)
            }),
    {
        proof {
            assert(steps < grid.width + grid.height) by {
                if steps >= 1 {
                    assert(grid.in_bounds(col as int, row as int));
                }
            }
            assert(0 <= kx * cell_len <= 65536 * 32768 && 0 <= ky * cell_len <= 65536 * 32768)
                by (nonlinear_arith)
                requires
                    0 <= kx <= 65536,
                    0 <= ky <= 65536,
                    1 <= cell_len <= 32768,
            ;
            assert(0 <= reach_x * len_y < 0x7000_0000_0000_0000 && 0 <= reach_y * len_x
                < 0x7000_0000_0000_0000) by (nonlinear_arith)
                requires
                    0 <= reach_x <= 65537 * 32768,
                    0 <= reach_y <= 65537 * 32768,
                    0 <= len_x <= 0x8000_0000,
                    0 <= len_y <= 0x8000_0000,
            ;
            assert((kx + 1) * cell_len == kx * cell_len + cell_len && (ky + 1) * cell_len == ky
                * cell_len + cell_len) by (nonlinear_arith);
            assert(step_x * (kx + 1) == step_x * kx + step_x && step_y * (ky + 1) == step_y * ky
                + step_y) by (nonlinear_arith);
            assert(ray.x_first(kx, ky) == (reach_x * len_y < reach_y * len_x));
            assert(-65536 <= step_x * kx <= 65536 && -65536 <= step_y * ky <= 65536)
                by (nonlinear_arith)
                requires
                    0 <= kx <= 65536,
                    0 <= ky <= 65536,
                    step_x == 1 || step_x == -1,
                    step_y == 1 || step_y == -1,
            ;
        }
        if reach_x * len_y < reach_y * len_x {
            reach_x = reach_x + cell_len;
            col = col + step_x;
            side = Side::X;
            proof {
                kx = kx + 1;
            }
        } else {
            reach_y = reach_y + cell_len;
            row = row + step_y;
            side = Side::Y;
            proof {
                ky = ky + 1;
            }
        }
        steps = steps + 1;
        proof {
            assert(kx == ray.x_steps(steps as nat));
            assert(col == ray.col_after(steps as nat));
            assert(row == ray.row_after(steps as nat));
        }
        match map.cell_at(col, row) {
            Cell::Wall => {
                break ;
            },
            Cell::Empty => {},
        }
    }
    let travel: i64 = match side {
        Side::X => reach_x - cell_len,
        Side::Y => reach_y - cell_len,
    };
    let hit = Hit { col, row, side, travel, steps };
    proof {
        assert(first_wall(grid, ray, steps as nat));
        lemma_first_wall_unique(grid, ray, steps as nat, steps as nat);
        assert((kx - 1) * cell_len == kx * cell_len - cell_len && (ky - 1) * cell_len == ky
            * cell_len - cell_len) by (nonlinear_arith);
        assert(travel == ray.travel(steps as nat));
        assert(0 <= travel <= steps * cell_len) by (nonlinear_arith)
            requires
                travel == ray.off_x + (kx - 1) * cell_len || travel == ray.off_y + (ky - 1)
                    * cell_len,
                side == Side::X ==> travel == ray.off_x + (kx - 1) * cell_len && kx >= 1,
                side == Side::Y ==> travel == ray.off_y + (ky - 1) * cell_len && ky >= 1,
                0 <= ray.off_x <= cell_len,
                0 <= ray.off_y <= cell_len,
                kx + ky == steps,
                kx >= 0,
                ky >= 0,
                cell_len >= 1,
        ;
        assert(hit == ray.hit_at(steps as nat));
    }
    hit
}

/// Every walk ends: from any step `n` before which no wall was entered, the
/// walk goes on to a first wall step, and that step comes no later than
/// width plus height.
pub proof fn lemma_walk_ends(grid: GridView, ray: RayView, n: nat) -> (k: nat)
    requires
        grid.wf(),
        ray.wf(),
        1 <= n <= grid.width + grid.height,
        forall|m: nat| 1 <= m < n ==> !grid.is_wall(#[trigger] ray.col_after(m), ray.row_after(m)),
        grid.in_bounds(ray.col_after(n), ray.row_after(n)) ==> n + exit_distance(
            grid,
            ray,
            ray.col_after(n),
            ray.row_after(n),
        ) <= grid.width + grid.height + 1,
    ensures
        first_wall(grid, ray, k),
        n <= k <= grid.width + grid.height,
    decreases
        (if grid.in_bounds(ray.col_after(n), ray.row_after(n)) {
            exit_distance(grid, ray, ray.col_after(n), ray.row_after(n))
        } else {
            0
        }),
{
    if grid.is_wall(ray.col_after(n), ray.row_after(n)) {
        n
    } else {
        let kx = ray.x_steps(n) as int;
        assert(ray.step_x * (kx + 1) == ray.step_x * kx + ray.step_x) by (nonlinear_arith);
        assert(ray.step_y * (n + 1 - kx) == ray.step_y * (n - kx) + ray.step_y)
            by (nonlinear_arith);
        assert(ray.x_steps(n + 1) == kx || ray.x_steps(n + 1) == kx + 1);
        lemma_walk_ends(grid, ray, n + 1)
    }
}

/// The walk of a well-formed ray through a well-formed grid has a first wall
/// step, which comes within width plus height steps.
pub proof fn lemma_hit_exists(grid: GridView, ray: RayView)
    requires
        grid.wf(),
        ray.wf(),
    ensures
        first_wall(grid, ray, hit_step(grid, ray)),
        1 <= hit_step(grid, ray) <= grid.width + grid.height,
{
    assert(ray.x_steps(0) == 0);
    assert(ray.x_steps(1) == 0 || ray.x_steps(1) == 1);
    let k = lemma_walk_ends(grid, ray, 1);
    lemma_first_wall_unique(grid, ray, k, k);
}

/// A ray whose direction has no y component steps along x only: the next
/// horizontal grid line is never reached.
pub proof fn lemma_level_ray_steps_along_x(ray: RayView, n: nat)
    requires
        ray.wf(),
        ray.len_y == 0,
        ray.len_x > 0,
    ensures
        ray.x_steps(n) == n,
        n >= 1 ==> ray.side_of(n) == Side::X,
    decreases n,
{
    if n > 0 {
        lemma_level_ray_steps_along_x(ray, (n - 1) as nat);
        assert(ray.x_first(n - 1, 0)) by (nonlinear_arith)
            requires
                ray.len_y == 0,
                ray.len_x > 0,
                ray.off_y >= 1,
                ray.x_first(n - 1, 0) == ((ray.off_x + (n - 1) * ray.cell_len) * ray.len_y < (
                ray.off_y + 0 * ray.cell_len) * ray.len_x),
        ;
    }
}

/// A ray whose direction has no x component steps along y only.
pub proof fn lemma_upright_ray_steps_along_y(ray: RayView, n: nat)
    requires
        ray.wf(),
        ray.len_x == 0,
    ensures
        ray.x_steps(n) == 0,
        n >= 1 ==> ray.side_of(n) == Side::Y,
    decreases n,
{
    if n > 0 {
        lemma_upright_ray_steps_along_y(ray, (n - 1) as nat);
        assert(!ray.x_first(0, n - 1)) by (nonlinear_arith)
            requires
                ray.len_x == 0,
                ray.len_y >= 0,
                ray.off_x >= 0,
                ray.cell_len >= 1,
                ray.x_first(0, n - 1) == ((ray.off_x + 0 * ray.cell_len) * ray.len_y < (ray.off_y
                    + (n - 1) * ray.cell_len) * ray.len_x),
        ;
    }
}

/// A ray cast straight along the positive x axis ends exactly in the first
/// wall column ahead of it in its own row, entered by a step along x: the
/// cell reported is `(wall_col, row)`, the number of steps is the number of
/// columns crossed, and the distance travelled is the distance from the
/// origin to the near face of the wall.
pub proof fn lemma_ray_along_x_hits_wall_column(
    grid: GridView,
    x: i32,
    y: i32,
    dir: Direction,
    wall_col: int,
)
    requires
        grid.wf(),
        dir.y == 0,
        dir.x > 0,
        wall_col > grid.cell_of(x as int),
        grid.is_wall(wall_col, grid.cell_of(y as int)),
        forall|c: int|
            grid.cell_of(x as int) < c < wall_col ==> !#[trigger] grid.is_wall(
                c,
                grid.cell_of(y as int),
            ),
    ensures
        ({
            let hit = ray_hit(grid, x as int, y as int, dir);
            &&& hit.col == wall_col
            &&& hit.row == grid.cell_of(y as int)
            &&& hit.side == Side::X
            &&& hit.steps == wall_col - grid.cell_of(x as int)
            &&& hit.travel == wall_col * grid.cell_len - x
        }),
{
    let s = grid.cell_len;
    let xi = x as int;
    let ray = ray_of(s, x as int, y as int, dir);
    lemma_ray_of_wf(s, x as int, y as int, dir);
    let c0 = grid.cell_of(x as int);
    let r0 = grid.cell_of(y as int);
    let n = (wall_col - c0) as nat;
    assert forall|m: nat| 1 <= m <= n implies #[trigger] ray.col_after(m) == c0 + m
        && ray.row_after(m) == r0 by {
        lemma_level_ray_steps_along_x(ray, m);
        assert(ray.step_y * 0 == 0);
    }
    lemma_level_ray_steps_along_x(ray, n);
    assert(ray.col_after(n) == wall_col && ray.row_after(n) == r0);
    assert forall|m: nat| 1 <= m < n implies !grid.is_wall(
        #[trigger] ray.col_after(m),
        ray.row_after(m),
    ) by {
        assert(!grid.is_wall(c0 + m, r0));
    }
    assert(first_wall(grid, ray, n));
    lemma_first_wall_unique(grid, ray, n, n);
    lemma_origin_cell_small(s, x);
    lemma_origin_cell_small(s, y);
    if n > 1 {
        assert(!grid.is_wall(wall_col - 1, r0));
        assert(!grid.is_wall(c0 + 1, r0));
    }
    crate::fixed::lemma_quotient_parts(x as int, s);
    assert(ray.travel(n) == wall_col * s - xi) by (nonlinear_arith)
        requires
            ray.travel(n) == ray.off_x + (n - 1) * s,
            ray.off_x == s - xi % s,
            xi == c0 * s + xi % s,
            n == wall_col - c0,
    ;
    assert(0 <= wall_col * s - xi <= 0x1_0000_0000) by (nonlinear_arith)
        requires
            wall_col * s - xi == s - xi % s + (n - 1) * s,
            0 <= xi % s < s,
            1 <= n <= 32769,
            1 <= s <= 32768,
    ;
}

/// The cell that holds a world coordinate has an index of machine size.
pub proof fn lemma_origin_cell_small(cell_len: int, v: i32)
    requires
        cell_len >= 1,
    ensures
        -0x8000_0000 <= v as int / cell_len <= 0x8000_0000,
{
    crate::fixed::lemma_quotient_parts(v as int, cell_len);
    let q = v as int / cell_len;
    let r = v as int % cell_len;
    assert(-0x8000_0000 <= q <= 0x8000_0000) by (nonlinear_arith)
        requires
            v == q * cell_len + r,
            0 <= r < cell_len,
            cell_len >= 1,
            -0x8000_0000 <= v < 0x8000_0000,
    ;
}

/// The world coordinate, along the axis of the hit, of the face through
/// which the ray entered its wall cell: the near edge of the cell for a ray
/// that steps forward, the far edge for one that steps backward.
pub open spec fn entry_face(cell_len: int, hit: Hit, dir: Direction) -> int {
    match hit.side {
        Side::X => if dir.x >= 0 {
            hit.col * cell_len
        } else {
            (hit.col + 1) * cell_len
        },
        Side::Y => if dir.y >= 0 {
            hit.row * cell_len
        } else {
            (hit.row + 1) * cell_len
        },
    }
}

/// The coordinate of the origin along the axis of the hit.
pub open spec fn origin_along(hit: Hit, x: int, y: int) -> int {
    match hit.side {
        Side::X => x,
        Side::Y => y,
    }
}

/// What a hit reports is what the walk did: the walk has a first wall step,
/// the cell reported is a wall, every cell entered before it is free, and
/// the distance travelled is the distance, along the axis of the last step,
/// from the origin to the face through which the wall cell was entered.
pub proof fn lemma_hit_facts(grid: GridView, x: i32, y: i32, dir: Direction)
    requires
        grid.wf(),
    ensures
        ({
            let ray = ray_of(grid.cell_len, x as int, y as int, dir);
            let hit = ray_hit(grid, x as int, y as int, dir);
            &&& first_wall(grid, ray, hit.steps as nat)
            &&& 1 <= hit.steps <= grid.width + grid.height
            &&& grid.is_wall(hit.col as int, hit.row as int)
            &&& hit.col == ray.col_after(hit.steps as nat)
            &&& hit.row == ray.row_after(hit.steps as nat)
            &&& hit.travel == ray.travel(hit.steps as nat)
            &&& hit.travel == magnitude(
                entry_face(grid.cell_len, hit, dir) - origin_along(hit, x as int, y as int),
            )
            &&& 0 <= hit.travel <= hit.steps * grid.cell_len
        }),
{
    let s = grid.cell_len;
    let xi = x as int;
    let yi = y as int;
    let ray = ray_of(s, x as int, y as int, dir);
    lemma_ray_of_wf(s, x as int, y as int, dir);
    lemma_hit_exists(grid, ray);
    let n = hit_step(grid, ray);
    let kx = ray.x_steps(n) as int;
    let ky = ray.y_steps(n);
    lemma_steps_split(ray, n);
    lemma_origin_cell_small(s, x);
    lemma_origin_cell_small(s, y);
    crate::fixed::lemma_quotient_parts(x as int, s);
    crate::fixed::lemma_quotient_parts(y as int, s);
    assert(-65536 <= ray.step_x * kx <= 65536 && -65536 <= ray.step_y * ky <= 65536)
        by (nonlinear_arith)
        requires
            0 <= kx <= 65536,
            0 <= ky <= 65536,
            ray.step_x == 1 || ray.step_x == -1,
            ray.step_y == 1 || ray.step_y == -1,
    ;
    let t = ray.travel(n);
    assert(0 <= t <= n * s && t <= 65536 * 32768) by (nonlinear_arith)
        requires
            t == ray.off_x + (kx - 1) * s && kx >= 1 || t == ray.off_y + (ky - 1) * s && ky >= 1,
            0 <= ray.off_x <= s,
            0 <= ray.off_y <= s,
            kx + ky == n,
            kx >= 0,
            ky >= 0,
            1 <= s <= 32768,
            n <= 65536,
    ;
    let hit = ray.hit_at(n);
    match hit.side {
        Side::X => {
            assert(t == magnitude(entry_face(s, hit, dir) - xi)) by (nonlinear_arith)
                requires
                    t == ray.off_x + (kx - 1) * s,
                    hit.col == ray.col0 + ray.step_x * kx,
                    dir.x >= 0 ==> ray.step_x == 1 && ray.off_x == s - xi % s && entry_face(
                        s,
                        hit,
                        dir,
                    ) == hit.col * s,
                    dir.x < 0 ==> ray.step_x == -1 && ray.off_x == xi % s && entry_face(s, hit, dir)
                        == (hit.col + 1) * s,
                    xi == ray.col0 * s + xi % s,
                    t >= 0,
            ;
        },
        Side::Y => {
            assert(t == magnitude(entry_face(s, hit, dir) - yi)) by (nonlinear_arith)
                requires
                    t == ray.off_y + (ky - 1) * s,
                    hit.row == ray.row0 + ray.step_y * ky,
                    dir.y >= 0 ==> ray.step_y == 1 && ray.off_y == s - yi % s && entry_face(
                        s,
                        hit,
                        dir,
                    ) == hit.row * s,
                    dir.y < 0 ==> ray.step_y == -1 && ray.off_y == yi % s && entry_face(s, hit, dir)
                        == (hit.row + 1) * s,
                    yi == ray.row0 * s + yi % s,
                    t >= 0,
            ;
        },
    }
}

/// Of the first `n` steps some go along x and the rest along y, and the
/// last one went along the axis that `side_of` names.
pub proof fn lemma_steps_split(ray: RayView, n: nat)
    ensures
        0 <= ray.x_steps(n) <= n,
        0 <= ray.y_steps(n) <= n,
        n >= 1 && ray.side_of(n) == Side::X ==> ray.x_steps(n) >= 1,
        n >= 1 && ray.side_of(n) == Side::Y ==> ray.y_steps(n) >= 1,
    decreases n,
{
    if n > 0 {
        lemma_steps_split(ray, (n - 1) as nat);
    }
}

/// A ray with a direction enters its wall along an axis on which the
/// direction has a component: the distance to the wall never divides by
/// zero.
pub proof fn lemma_hit_axis_has_component(grid: GridView, x: i32, y: i32, dir: Direction)
    requires
        grid.wf(),
        dir.x != 0 || dir.y != 0,
    ensures
        ({
            let hit = ray_hit(grid, x as int, y as int, dir);
            &&& hit.side == Side::X ==> dir.x != 0
            &&& hit.side == Side::Y ==> dir.y != 0
        }),
{
    let s = grid.cell_len;
    let ray = ray_of(s, x as int, y as int, dir);
    lemma_hit_facts(grid, x, y, dir);
    let n = hit_step(grid, ray);
    let kx = ray.x_steps((n - 1) as nat) as int;
    let ky = ray.y_steps((n - 1) as nat);
    lemma_steps_split(ray, (n - 1) as nat);
    lemma_ray_of_wf(s, x as int, y as int, dir);
    let a = ray.off_x + kx * s;
    let b = ray.off_y + ky * s;
    assert(a >= 0 && b >= 0 && (ray.step_x == 1 ==> a >= 1) && (ray.step_y == 1 ==> b >= 1))
        by (nonlinear_arith)
        requires
            a == ray.off_x + kx * s,
            b == ray.off_y + ky * s,
            kx >= 0,
            ky >= 0,
            s >= 1,
            ray.off_x >= 0,
            ray.off_y >= 0,
            ray.step_x == 1 ==> ray.off_x >= 1,
            ray.step_y == 1 ==> ray.off_y >= 1,
    ;
    assert(ray.x_first(kx, ky) == (a * ray.len_y < b * ray.len_x));
    if ray.side_of(n) == Side::X {
        assert(ray.x_first(kx, ky));
        assert(ray.len_x != 0) by (nonlinear_arith)
            requires
                a * ray.len_y < b * ray.len_x,
                a >= 0,
                ray.len_y >= 0,
        ;
    } else {
        assert(!ray.x_first(kx, ky));
        if ray.len_y == 0 {
            assert(ray.len_x > 0);
            assert(a * ray.len_y < b * ray.len_x) by (nonlinear_arith)
                requires
                    ray.len_y == 0,
                    ray.len_x > 0,
                    b >= 1,
            ;
        }
    }
}


} // verus!
