//! Turning ray hits into pixels.
//!
//! Every screen column looks along its own angle, spread evenly over the
//! field of view around the player's heading. The ray of a column is walked
//! to its wall, the distance to the wall gives the height of the wall strip,
//! and the strip is drawn centred on the middle row: wall colour inside the
//! strip, floor colour below it, and the sky colour, with which the frame is
//! filled beforehand, left above it.

use vstd::prelude::*;
use vstd::arithmetic::div_mod::lemma_add_mod_noop;
use crate::fixed::abs_i32;
use crate::fixed::clamp;
use crate::fixed::floor_div;
use crate::fixed::lemma_quotient_parts;
use crate::fixed::lemma_quotient_unique;
use crate::fixed::magnitude;
use crate::grid::lemma_area_bound;
use crate::grid::lemma_index_in_range;
use crate::grid::GridMap;
use crate::grid::GridView;
use crate::player::lemma_turns_add_up;
use crate::player::sum_of;
use crate::player::turn_all;
use crate::player::Pose;
use crate::ray::cast_ray;
use crate::ray::entry_face;
use crate::ray::hit_step;
use crate::ray::lemma_hit_facts;
use crate::ray::lemma_level_ray_steps_along_x;
use crate::ray::lemma_origin_cell_small;
use crate::ray::lemma_ray_of_wf;
use crate::ray::lemma_upright_ray_steps_along_y;
use crate::ray::origin_along;
use crate::ray::ray_of;
use crate::ray::ray_hit;
use crate::ray::Hit;
use crate::ray::Side;
use crate::trig::direction;
use crate::trig::direction_of;
use crate::trig::lemma_whole_turns;
use crate::trig::normalize;
use crate::trig::normalize_angle;
use crate::trig::Direction;
use crate::trig::FULL_TURN;
use crate::trig::ONE;

verus! {

/// The colour of a wall strip, as red, green, blue and alpha.
pub const WALL_COLOR: [u8; 4] = [255, 0, 255, 255];

/// The colour of the floor below a wall strip.
pub const FLOOR_COLOR: [u8; 4] = [0, 0, 0, 255];

/// The colour that a frame is filled with before the columns are drawn, and
/// which stays visible above every wall strip.
pub const SKY_COLOR: [u8; 4] = [0, 0, 255, 255];

/// The largest width and the largest height of a screen, in pixels.
pub const MAX_SCREEN_DIM: usize = 16384;

/// The height given to a wall strip whose wall is at distance zero, and the
/// most that any wall strip is given.
pub const LINE_HEIGHT_MAX: u32 = 0x7fff_ffff;

/// Why a screen description was turned down.
#[derive(Clone, Copy, PartialEq, Eq, Debug, Structural)]
pub enum ScreenError {
    /// The width or the height is zero.
    EmptyScreen,
    /// The width or the height is above [`MAX_SCREEN_DIM`].
    TooLarge,
}

/// The mathematical screen: its size in pixels and its field of view in
/// angle units.
pub struct ScreenView {
    pub width: int,
    pub height: int,
    pub fov: int,
}

impl ScreenView {
    /// The screen has at least one pixel and stays within the size limits.
    pub open spec fn wf(self) -> bool {
        &&& 1 <= self.width <= MAX_SCREEN_DIM
        &&& 1 <= self.height <= MAX_SCREEN_DIM
        &&& i32::MIN <= self.fov <= i32::MAX
    }

    /// The number of pixels of a frame.
    pub open spec fn area(self) -> int {
        self.width * self.height
    }

    /// The angle along which column `col` looks when the player looks along
    /// `heading`: the columns divide the field of view evenly, the middle of
    /// the screen looking straight ahead.
    pub open spec fn column_angle(self, heading: int, col: int) -> int {
        normalize(heading + ((2 * col - self.width) * self.fov) / (2 * self.width))
    }
}

/// The rows of one column that show the wall, both ends included.
#[derive(Clone, Copy, PartialEq, Eq, Debug, Structural)]
pub struct Span {
    pub start: usize,
    pub end: usize,
}

/// The first reason, if any, for which a screen description is turned down.
pub open spec fn screen_error(width: int, height: int) -> Option<ScreenError> {
    if width == 0 || height == 0 {
        Some(ScreenError::EmptyScreen)
    } else if width > MAX_SCREEN_DIM || height > MAX_SCREEN_DIM {
        Some(ScreenError::TooLarge)
    } else {
        None
    }
}

/// The size of the direction component along the axis on which the ray
/// entered its wall.
pub open spec fn hit_component(hit: Hit, dir: Direction) -> int {
    match hit.side {
        Side::X => magnitude(dir.x as int),
        Side::Y => magnitude(dir.y as int),
    }
}

/// The numerator of the distance to the wall in cells. The distance is
/// `(hit.travel / cell_len) / (component / ONE)`: the way along the axis of
/// the last step, in cells, divided by the direction component along that
/// axis.
pub open spec fn distance_num(hit: Hit) -> int {
    hit.travel * ONE
}

/// The denominator of the distance to the wall in cells.
pub open spec fn distance_den(cell_len: int, hit: Hit, dir: Direction) -> int {
    cell_len * hit_component(hit, dir)
}

/// The height in pixels of the wall strip for a hit: the screen height
/// divided by the distance to the wall in cells, rounded down and capped at
/// [`LINE_HEIGHT_MAX`]. A wall at distance zero gets the cap.
pub open spec fn line_height_spec(screen_height: int, cell_len: int, hit: Hit, dir: Direction) -> int {
    if hit.travel <= 0 {
        LINE_HEIGHT_MAX as int
    } else {
        let q = (screen_height * distance_den(cell_len, hit, dir)) / distance_num(hit);
        if q > LINE_HEIGHT_MAX {
            LINE_HEIGHT_MAX as int
        } else {
            q
        }
    }
}

/// The rows covered by a wall strip of height `line_height` on a screen of
/// `screen_height` rows: half the strip above the middle row and half below,
/// cut off at the top and bottom rows.
pub open spec fn draw_span_spec(screen_height: int, line_height: int) -> Span {
    Span {
        start: clamp(screen_height / 2 - line_height / 2, 0, screen_height - 1) as usize,
        end: clamp(screen_height / 2 + line_height / 2, 0, screen_height - 1) as usize,
    }
}

/// The colour of row `row` of a column whose wall strip is `span`, where the
/// pixel held `background` before the column was drawn.
pub open spec fn shade(span: Span, row: int, background: [u8; 4]) -> [u8; 4] {
    if span.start <= row <= span.end {
        WALL_COLOR
    } else if row > span.end {
        FLOOR_COLOR
    } else {
        background
    }
}

/// The direction along which column `col` looks.
pub open spec fn column_direction(screen: ScreenView, pose: Pose, col: int) -> Direction {
    direction_of(screen.column_angle(pose.heading as int, col))
}

/// Where the ray of column `col` meets its wall.
pub open spec fn column_hit(grid: GridView, screen: ScreenView, pose: Pose, col: int) -> Hit {
    ray_hit(grid, pose.x as int, pose.y as int, column_direction(screen, pose, col))
}

/// The wall strip of column `col`.
pub open spec fn column_span(grid: GridView, screen: ScreenView, pose: Pose, col: int) -> Span {
    draw_span_spec(
        screen.height,
        line_height_spec(
            screen.height,
            grid.cell_len,
            column_hit(grid, screen, pose, col),
            column_direction(screen, pose, col),
        ),
    )
}

/// The colour of the pixel in column `col`, row `row` of the frame.
pub open spec fn pixel_at(grid: GridView, screen: ScreenView, pose: Pose, col: int, row: int) -> [u8; 4] {
    shade(column_span(grid, screen, pose, col), row, SKY_COLOR)
}

/// The whole frame, row by row from the top, each row from the left.
pub open spec fn frame_of(grid: GridView, screen: ScreenView, pose: Pose) -> Seq<[u8; 4]> {
    Seq::new(
        screen.area() as nat,
        |i: int| pixel_at(grid, screen, pose, i % screen.width, i / screen.width),
    )
}

/// The bytes of a frame: four for each pixel, red, green, blue, alpha, in
/// the order of the pixels.
pub open spec fn bytes_of(frame: Seq<[u8; 4]>) -> Seq<u8> {
    Seq::new(4 * frame.len(), |j: int| frame[j / 4][j % 4])
}

/// In a row-major frame the pixel of column `col`, row `row` has index
/// `row * width + col`, and the index gives the column and the row back.
pub proof fn lemma_row_major(width: int, col: int, row: int)
    requires
        0 <= col < width,
    ensures
        (row * width + col) % width == col,
        (row * width + col) / width == row,
{
    lemma_quotient_unique(row * width + col, width, row, col);
}

/// For a ray along an axis, cast with a direction of length [`ONE`], the
/// distance to the wall is the straight-line distance: the ray stays in its
/// row or column, enters the wall by a step along its axis, and the
/// distance in cells is the way from the origin to the face of the wall, in
/// world units, divided by the cell side length.
pub proof fn lemma_axis_aligned_distance(grid: GridView, x: i32, y: i32, dir: Direction)
    requires
        grid.wf(),
        (dir.y == 0 && (dir.x == ONE || dir.x == -ONE)) || (dir.x == 0 && (dir.y == ONE || dir.y
            == -ONE)),
    ensures
        ({
            let hit = ray_hit(grid, x as int, y as int, dir);
            let straight = magnitude(
                entry_face(grid.cell_len, hit, dir) - origin_along(hit, x as int, y as int),
            );
            &&& dir.y == 0 ==> hit.side == Side::X && hit.row == grid.cell_of(y as int)
            &&& dir.x == 0 ==> hit.side == Side::Y && hit.col == grid.cell_of(x as int)
            &&& hit.travel == straight
            &&& distance_den(grid.cell_len, hit, dir) == grid.cell_len * ONE
            &&& distance_num(hit) * grid.cell_len == straight * distance_den(
                grid.cell_len,
                hit,
                dir,
            )
        }),
{
    let s = grid.cell_len;
    let ray = ray_of(s, x as int, y as int, dir);
    lemma_ray_of_wf(s, x as int, y as int, dir);
    lemma_hit_facts(grid, x, y, dir);
    let n = hit_step(grid, ray);
    let hit = ray_hit(grid, x as int, y as int, dir);
    if dir.y == 0 {
        lemma_level_ray_steps_along_x(ray, n);
        assert(ray.step_y * 0 == 0);
    } else {
        lemma_upright_ray_steps_along_y(ray, n);
        assert(ray.step_x * 0 == 0);
    }
    lemma_origin_cell_small(s, x);
    lemma_origin_cell_small(s, y);
    let t = hit.travel as int;
    assert((t * ONE) * s == t * (s * ONE)) by (nonlinear_arith);
}

/// On a screen of even width the column just right of the middle looks
/// straight ahead: its angle is the heading, its direction the direction of
/// the heading.
pub proof fn lemma_middle_column_looks_ahead(screen: ScreenView, pose: Pose)
    requires
        screen.wf(),
        screen.width % 2 == 0,
    ensures
        screen.column_angle(pose.heading as int, screen.width / 2) == normalize(
            pose.heading as int,
        ),
        column_direction(screen, pose, screen.width / 2) == direction_of(pose.heading as int),
{
    let w = screen.width;
    assert(2 * (w / 2) - w == 0);
    assert((2 * (w / 2) - w) * screen.fov == 0) by (nonlinear_arith)
        requires
            2 * (w / 2) - w == 0,
    ;
    lemma_quotient_unique(0, 2 * w, 0, 0);
    crate::trig::lemma_normalize_keeps_direction(pose.heading as int);
}

/// Two poses at the same position whose headings differ by whole turns see
/// the same frame.
pub proof fn lemma_same_direction_same_frame(
    grid: GridView,
    screen: ScreenView,
    a: Pose,
    b: Pose,
)
    requires
        screen.wf(),
        a.x == b.x,
        a.y == b.y,
        normalize(a.heading as int) == normalize(b.heading as int),
    ensures
        frame_of(grid, screen, a) == frame_of(grid, screen, b),
        forall|col: int| screen.column_angle(a.heading as int, col) == screen.column_angle(b.heading as int, col),
{
    let f = FULL_TURN as int;
    assert forall|col: int| screen.column_angle(a.heading as int, col) == screen.column_angle(
        b.heading as int,
        col,
    ) by {
        let off = ((2 * col - screen.width) * screen.fov) / (2 * screen.width);
        lemma_add_mod_noop(a.heading as int, off, f);
        lemma_add_mod_noop(b.heading as int, off, f);
    }
    assert forall|col: int, row: int|
        pixel_at(grid, screen, a, col, row) == pixel_at(grid, screen, b, col, row) by {
        assert(screen.column_angle(a.heading as int, col) == screen.column_angle(
            b.heading as int,
            col,
        ));
    }
    assert(frame_of(grid, screen, a) =~= frame_of(grid, screen, b));
}

/// A full revolution, made in any number of turns, leaves the frame as it
/// was: where the turns `deltas` add up to a whole number of full turns, the
/// player sees after them exactly what was seen before.
pub proof fn lemma_full_turn_keeps_frame(
    grid: GridView,
    screen: ScreenView,
    pose: Pose,
    deltas: Seq<int>,
)
    requires
        screen.wf(),
        sum_of(deltas) % (FULL_TURN as int) == 0,
    ensures
        frame_of(grid, screen, turn_all(pose, deltas)) == frame_of(grid, screen, pose),
{
    let f = FULL_TURN as int;
    lemma_turns_add_up(pose, deltas);
    lemma_quotient_parts(sum_of(deltas), f);
    lemma_whole_turns(pose.heading as int, sum_of(deltas) / f);
    lemma_same_direction_same_frame(grid, screen, turn_all(pose, deltas), pose);
}

/// A screen of fixed size with a field of view.
pub struct Screen {
    width: usize,
    height: usize,
    fov: i32,
}

impl View for Screen {
    type V = ScreenView;

    closed spec fn view(&self) -> ScreenView {
        ScreenView { width: self.width as int, height: self.height as int, fov: self.fov as int }
    }
}

impl Screen {
    /// Every screen is well formed.
    #[verifier::type_invariant]
    pub open spec fn well_formed(&self) -> bool {
        self@.wf()
    }

    /// A screen of `width` by `height` pixels that spans `fov` angle units.
    /// It is accepted exactly when both sizes lie between 1 and
    /// [`MAX_SCREEN_DIM`].
    pub fn new(width: usize, height: usize, fov: i32) -> (r: Result<Screen, ScreenError>)
        ensures
            match r {
                Ok(screen) => screen_error(width as int, height as int).is_none() && screen@ == (
                ScreenView { width: width as int, height: height as int, fov: fov as int })
                    && screen@.wf(),
                Err(e) => screen_error(width as int, height as int) == Some(e),
            },
    {
        if width == 0 || height == 0 {
            return Err(ScreenError::EmptyScreen);
        }
        if width > MAX_SCREEN_DIM || height > MAX_SCREEN_DIM {
            return Err(ScreenError::TooLarge);
        }
        Ok(Screen { width, height, fov })
    }

    /// The width of the screen in pixels.
    pub fn width(&self) -> (r: usize)
        ensures
            r == self@.width,
            self@.wf(),
    {
        proof {
            use_type_invariant(self);
        }
        self.width
    }

    /// The height of the screen in pixels.
    pub fn height(&self) -> (r: usize)
        ensures
            r == self@.height,
            self@.wf(),
    {
        proof {
            use_type_invariant(self);
        }
        self.height
    }

    /// The field of view in angle units.
    pub fn fov(&self) -> (r: i32)
        ensures
            r == self@.fov,
            self@.wf(),
    {
        proof {
            use_type_invariant(self);
        }
        self.fov
    }

    /// The angle along which column `col` looks when the player looks along
    /// `heading`.
    pub fn column_angle(&self, heading: i32, col: usize) -> (r: i32)
        requires
            col < self@.width,
        ensures
            r == self@.column_angle(heading as int, col as int),
            0 <= r < FULL_TURN,
    {
        proof {
            use_type_invariant(self);
        }
        let width: i64 = self.width as i64;
        let across: i64 = 2 * col as i64 - width;
        proof {
            assert(-0x8000 * 0x8000_0000 <= across * self.fov <= 0x8000 * 0x8000_0000)
                by (nonlinear_arith)
                requires
                    -0x8000 <= across <= 0x8000,
                    -0x8000_0000 <= self.fov < 0x8000_0000,
            ;
        }
        let offset: i64 = floor_div(across * self.fov as i64, 2 * width);
        proof {
            let p = (across * self.fov) as int;
            lemma_quotient_parts(p, 2 * width);
            assert(-0x8000 * 0x8000_0000 - 1 <= offset <= 0x8000 * 0x8000_0000) by (nonlinear_arith)
                requires
                    p == offset * (2 * width) + p % (2 * width),
                    0 <= p % (2 * width) < 2 * width,
                    width >= 1,
                    -0x8000 * 0x8000_0000 <= p <= 0x8000 * 0x8000_0000,
            ;
        }
        normalize_angle(heading as i64 + offset)
    }
}

/// The height in pixels of the wall strip for `hit`, which the ray along
/// `dir` produced.
pub fn line_height(screen: &Screen, map: &GridMap, hit: Hit, dir: Direction) -> (r: u32)
    ensures
        r == line_height_spec(screen@.height, map@.cell_len, hit, dir),
        r <= LINE_HEIGHT_MAX,
{
    let height: u128 = screen.height() as u128;
    let cell_len: u128 = map.cell_len() as u128;
    if hit.travel <= 0 {
        return LINE_HEIGHT_MAX;
    }
    let component: u128 = match hit.side {
        Side::X => abs_i32(dir.x) as u128,
        Side::Y => abs_i32(dir.y) as u128,
    };
    proof {
        assert(0 <= cell_len * component <= 0x8000 * 0x8000_0000) by (nonlinear_arith)
            requires
                0 <= cell_len <= 0x8000,
                0 <= component <= 0x8000_0000,
        ;
        assert(0 <= height * (cell_len * component) <= 0x8000 * (0x8000 * 0x8000_0000))
            by (nonlinear_arith)
            requires
                0 <= height <= 0x8000,
                0 <= cell_len * component <= 0x8000 * 0x8000_0000,
        ;
        assert(0 < hit.travel * ONE <= 0x7fff_ffff_ffff_ffff * 65536) by (nonlinear_arith)
            requires
                0 < hit.travel <= 0x7fff_ffff_ffff_ffff,
                ONE == 65536,
        ;
    }
    let num: u128 = height * (cell_len * component);
    let den: u128 = hit.travel as u128 * ONE as u128;
    let q: u128 = num / den;
    if q > LINE_HEIGHT_MAX as u128 {
        LINE_HEIGHT_MAX
    } else {
        q as u32
    }
}

/// The rows covered by a wall strip of height `line_height`.
pub fn draw_span(screen: &Screen, line_height: u32) -> (span: Span)
    ensures
        span == draw_span_spec(screen@.height, line_height as int),
        span.start <= span.end < screen@.height,
{
    let height: i64 = screen.height() as i64;
    let middle: i64 = height / 2;
    let half: i64 = (line_height / 2) as i64;
    let top: i64 = middle - half;
    let bottom: i64 = middle + half;
    let start: i64 = if top < 0 { 0 } else { top };
    let end: i64 = if bottom > height - 1 { height - 1 } else { bottom };
    Span { start: start as usize, end: end as usize }
}

/// The wall strip of column `col`: the column's angle gives a direction, the
/// ray along it is walked to its wall, and the hit gives the strip.
pub fn cast_column(map: &GridMap, screen: &Screen, pose: Pose, col: usize) -> (span: Span)
    requires
        col < screen@.width,
    ensures
        span == column_span(map@, screen@, pose, col as int),
        span.start <= span.end < screen@.height,
{
    let angle: i32 = screen.column_angle(pose.heading, col);
    let dir: Direction = direction(angle);
    let hit: Hit = cast_ray(map, pose.x, pose.y, dir);
    let height: u32 = line_height(screen, map, hit, dir);
    draw_span(screen, height)
}

/// Draws column `col` into a row-major frame: wall colour on the rows of
/// `span`, floor colour below them, and the rows above left as they are. No
/// pixel of another column changes.
pub fn draw_column(frame: &mut Vec<[u8; 4]>, screen: &Screen, col: usize, span: Span)
    requires
        old(frame).len() == screen@.area(),
        col < screen@.width,
    ensures
        final(frame).len() == old(frame).len(),
        forall|i: int|
            0 <= i < old(frame).len() ==> #[trigger] final(frame)@[i] == (if i % screen@.width
                == col {
                shade(span, i / screen@.width, old(frame)@[i])
            } else {
                old(frame)@[i]
            }),
{
    let width: usize = screen.width();
    let height: usize = screen.height();
    let ghost before = frame@;
    let ghost w = width as int;
    proof {
        lemma_area_bound(width as int, height as int);
    }
    let mut row: usize = 0;
    while row < height
        invariant
            row <= height,
            w == width == screen@.width,
            height == screen@.height,
            screen@.wf(),
            col < width,
            w * height <= 0x4000_0000,
            frame.len() == before.len() == w * height,
            forall|i: int|
                0 <= i < before.len() ==> #[trigger] frame@[i] == (if i % w == col && i / w < row {
                    shade(span, i / w, before[i])
                } else {
                    before[i]
                }),
        decreases height - row,
    {
        proof {
            lemma_index_in_range(w, height as int, col as int, row as int);
        }
        let index: usize = row * width + col;
        let ghost prev = frame@;
        if row >= span.start && row <= span.end {
            frame.set(index, WALL_COLOR);
        } else if row > span.end {
            frame.set(index, FLOOR_COLOR);
        }
        proof {
            lemma_row_major(w, col as int, row as int);
            assert(frame@[index as int] == shade(span, row as int, before[index as int]));
            assert forall|i: int| 0 <= i < before.len() implies #[trigger] frame@[i] == (if i % w
                == col && i / w < row + 1 {
                shade(span, i / w, before[i])
            } else {
                before[i]
            }) by {
                if i != index {
                    assert(frame@[i] == prev[i]);
                    lemma_quotient_parts(i, w);
                    if i % w == col && i / w == row {
                        assert(i == row * w + col);
                    }
                }
            }
        }
        row = row + 1;
    }
    proof {
        assert forall|i: int| 0 <= i < before.len() implies #[trigger] frame@[i] == (if i % w
            == col {
            shade(span, i / w, before[i])
        } else {
            before[i]
        }) by {
            lemma_quotient_parts(i, w);
            if i / w >= height {
                assert(i >= height * w) by (nonlinear_arith)
                    requires
                        i == (i / w) * w + i % w,
                        0 <= i % w,
                        i / w >= height,
                        w >= 1,
                ;
                assert(height * w == w * height) by (nonlinear_arith);
            }
        }
    }
}

/// Renders the view of a player at `pose` in `map` onto `screen`: one ray
/// per column, each drawn as a wall strip over the sky-filled frame. The
/// frame lists the pixels row by row from the top, each row from the left.
pub fn raycast(map: &GridMap, screen: &Screen, pose: Pose) -> (frame: Vec<[u8; 4]>)
    ensures
        frame@ == frame_of(map@, screen@, pose),
        frame.len() == screen@.width * screen@.height,
        frame.len() <= MAX_SCREEN_DIM * MAX_SCREEN_DIM,
        forall|i: int|
            0 <= i < frame.len() ==> #[trigger] frame@[i] == pixel_at(
                map@,
                screen@,
                pose,
                i % screen@.width,
                i / screen@.width,
            ),
{
    let width: usize = screen.width();
    let height: usize = screen.height();
    let ghost w = width as int;
    proof {
        assert(width * height <= 16384 * 16384) by (nonlinear_arith)
            requires
                0 <= width <= 16384,
                0 <= height <= 16384,
        ;
    }
    let area: usize = width * height;
    let mut frame: Vec<[u8; 4]> = Vec::new();
    let mut filled: usize = 0;
    while filled < area
        invariant
            filled <= area,
            frame.len() == filled,
            forall|i: int| 0 <= i < filled ==> #[trigger] frame@[i] == SKY_COLOR,
        decreases area - filled,
    {
        frame.push(SKY_COLOR);
        filled = filled + 1;
    }
    let mut col: usize = 0;
    while col < width
        invariant
            col <= width,
            w == width == screen@.width,
            height == screen@.height,
            screen@.wf(),
            area == w * height,
            frame.len() == area,
            forall|i: int|
                0 <= i < area ==> #[trigger] frame@[i] == (if i % w < col {
                    pixel_at(map@, screen@, pose, i % w, i / w)
                } else {
                    SKY_COLOR
                }),
        decreases width - col,
    {
        let span: Span = cast_column(map, screen, pose, col);
        draw_column(&mut frame, screen, col, span);
        col = col + 1;
    }
    proof {
        assert forall|i: int| 0 <= i < frame.len() implies #[trigger] frame@[i] == pixel_at(
            map@,
            screen@,
            pose,
            i % w,
            i / w,
        ) by {
            lemma_quotient_parts(i, w);
        }
        assert(frame@ =~= frame_of(map@, screen@, pose));
    }
    frame
}

/// The frame assembler: lays a frame out as the bytes that a display
/// expects, four per pixel in the order red, green, blue, alpha, the pixels
/// in frame order.
pub fn frame_bytes(frame: &Vec<[u8; 4]>) -> (bytes: Vec<u8>)
    requires
        frame.len() <= usize::MAX / 4,
    ensures
        bytes@ == bytes_of(frame@),
        bytes.len() == 4 * frame.len(),
        forall|i: int, k: int|
            0 <= i < frame.len() && 0 <= k < 4 ==> bytes@[4 * i + k] == #[trigger] frame@[i][k],
{
    let mut bytes: Vec<u8> = Vec::new();
    let mut i: usize = 0;
    while i < frame.len()
        invariant
            i <= frame.len(),
            frame.len() <= usize::MAX / 4,
            bytes.len() == 4 * i,
            forall|j: int| 0 <= j < 4 * i ==> #[trigger] bytes@[j] == frame@[j / 4][j % 4],
        decreases frame.len() - i,
    {
        let pixel: [u8; 4] = frame[i];
        bytes.push(pixel[0]);
        bytes.push(pixel[1]);
        bytes.push(pixel[2]);
        bytes.push(pixel[3]);
        i = i + 1;
    }
    proof {
        assert(bytes@ =~= bytes_of(frame@));
    }
    bytes
}

} // verus!
