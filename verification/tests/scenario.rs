use raycaster::grid::Cell;
use raycaster::grid::GridMap;
use raycaster::player::Pose;
use raycaster::ray::cast_ray;
use raycaster::ray::Side;
use raycaster::render::draw_span;
use raycaster::render::line_height;
use raycaster::render::raycast;
use raycaster::render::Screen;
use raycaster::render::FLOOR_COLOR;
use raycaster::render::SKY_COLOR;
use raycaster::render::WALL_COLOR;
use raycaster::trig::direction;
use raycaster::trig::DEGREE;
use raycaster::trig::ONE;

fn demo_codes() -> Vec<u8> {
    vec![
        1, 1, 1, 1, 1, 1, 1, 1, 1, 1, 1, 1, 1, 1, 1,
        1, 0, 0, 0, 0, 0, 0, 0, 0, 0, 0, 0, 0, 0, 1,
        1, 0, 0, 0, 0, 0, 0, 0, 1, 1, 0, 0, 0, 0, 1,
        1, 0, 0, 0, 0, 0, 0, 0, 0, 1, 0, 0, 0, 0, 1,
        1, 0, 0, 0, 0, 0, 0, 0, 0, 0, 0, 0, 0, 0, 1,
        1, 0, 0, 0, 0, 0, 0, 0, 0, 0, 0, 0, 0, 0, 1,
        1, 0, 0, 0, 0, 0, 0, 0, 0, 0, 1, 0, 0, 0, 1,
        1, 0, 0, 0, 0, 0, 0, 0, 0, 0, 0, 0, 0, 0, 1,
        1, 0, 0, 0, 0, 0, 0, 0, 0, 0, 0, 0, 0, 0, 1,
        1, 1, 1, 1, 1, 1, 1, 1, 1, 1, 1, 1, 1, 1, 1,
    ]
}

fn demo_map() -> GridMap {
    GridMap::new(15, 10, 32, &demo_codes()).unwrap()
}

fn demo_screen() -> Screen {
    Screen::new(480, 320, 90 * DEGREE).unwrap()
}

#[test]
fn centre_ray_reaches_the_east_border() {
    let map = demo_map();
    let dir = direction(0);
    assert_eq!((dir.x, dir.y), (ONE, 0));
    let hit = cast_ray(&map, 160, 160, dir);
    assert_eq!(hit.col, 14);
    assert_eq!(hit.row, 5);
    assert_eq!(hit.side, Side::X);
    assert_eq!(hit.steps, 9);
    assert_eq!(hit.travel, 14 * 32 - 160);
    assert_eq!(map.cell_at(hit.col, hit.row), Cell::Wall);
}

#[test]
fn centre_column_strip_is_centred() {
    let map = demo_map();
    let screen = demo_screen();
    let dir = direction(0);
    let hit = cast_ray(&map, 160, 160, dir);
    let height = line_height(&screen, &map, hit, dir);
    assert_eq!(height, 35);
    let span = draw_span(&screen, height);
    assert_eq!((span.start, span.end), (143, 177));
    assert_eq!(span.start + span.end, 320);
}

#[test]
fn wall_five_cells_away_is_sixty_four_pixels_tall() {
    let map = demo_map();
    let screen = demo_screen();
    let dir = direction(0);
    let hit = cast_ray(&map, 288, 160, dir);
    assert_eq!(hit.col, 14);
    assert_eq!(hit.travel, 5 * 32);
    let height = line_height(&screen, &map, hit, dir);
    assert_eq!(height, 64);
    let span = draw_span(&screen, height);
    assert_eq!((span.start, span.end), (128, 192));
}

#[test]
fn frame_centre_column_matches_the_strip() {
    let map = demo_map();
    let screen = demo_screen();
    let pose = Pose { x: 160, y: 160, heading: 0 };
    let frame = raycast(&map, &screen, pose);
    assert_eq!(frame.len(), 480 * 320);
    let at = |row: usize| frame[row * 480 + 240];
    assert_eq!(at(0), SKY_COLOR);
    assert_eq!(at(142), SKY_COLOR);
    assert_eq!(at(143), WALL_COLOR);
    assert_eq!(at(160), WALL_COLOR);
    assert_eq!(at(177), WALL_COLOR);
    assert_eq!(at(178), FLOOR_COLOR);
    assert_eq!(at(319), FLOOR_COLOR);
}
