use raycaster::grid::Cell;
use raycaster::grid::GridMap;
use raycaster::ray::cast_ray;
use raycaster::ray::Hit;
use raycaster::ray::Side;
use raycaster::trig::direction;
use raycaster::trig::Direction;
use raycaster::trig::ONE;

fn ray_map() -> GridMap {
    let codes: Vec<u8> = vec![
        1, 1, 1, 1, 1, 1, 1, 1, 1, 1, 1, 1, 1, 1, 1,
        1, 0, 0, 0, 0, 0, 0, 0, 0, 0, 0, 0, 0, 0, 1,
        1, 0, 0, 0, 0, 0, 0, 0, 1, 1, 0, 0, 0, 0, 1,
        1, 0, 0, 0, 0, 0, 0, 0, 0, 1, 0, 0, 0, 0, 1,
        1, 0, 0, 0, 0, 0, 0, 0, 0, 0, 0, 0, 0, 0, 1,
        1, 0, 0, 0, 0, 0, 0, 0, 0, 0, 0, 0, 0, 0, 1,
        1, 0, 0, 0, 0, 0, 0, 0, 0, 0, 1, 0, 0, 0, 1,
        1, 0, 0, 0, 0, 0, 0, 0, 0, 0, 0, 0, 0, 0, 1,
        1, 0, 0, 0, 0, 0, 0, 0, 0, 0, 0, 0, 0, 0, 1,
        1, 1, 1, 1, 1, 1, 1, 1, 1, 1, 1, 1, 1, 1, 1,
    ];
    GridMap::new(15, 10, 32, &codes).unwrap()
}

fn hit(col: i64, row: i64, side: Side, travel: i64, steps: u32) -> Hit {
    Hit { col, row, side, travel, steps }
}

#[test]
fn ray_along_positive_x_stops_at_the_wall_column() {
    let map = ray_map();
    let east = Direction { x: ONE, y: 0 };
    assert_eq!(cast_ray(&map, 160, 160, east), hit(14, 5, Side::X, 288, 9));
    assert_eq!(cast_ray(&map, 288, 160, east), hit(14, 5, Side::X, 160, 5));
    assert_eq!(cast_ray(&map, 40, 70, east), hit(8, 2, Side::X, 8 * 32 - 40, 7));
    assert_eq!(cast_ray(&map, 40, 200, east), hit(10, 6, Side::X, 10 * 32 - 40, 9));
    assert_eq!(cast_ray(&map, 447, 40, east), hit(14, 1, Side::X, 1, 1));
}

#[test]
fn ray_along_x_needs_no_unit_direction() {
    let map = ray_map();
    assert_eq!(cast_ray(&map, 160, 160, Direction { x: 1, y: 0 }), hit(14, 5, Side::X, 288, 9));
    assert_eq!(
        cast_ray(&map, 160, 160, Direction { x: i32::MAX, y: 0 }),
        hit(14, 5, Side::X, 288, 9)
    );
    assert_eq!(
        cast_ray(&map, 160, 160, Direction { x: i32::MIN, y: 0 }),
        hit(0, 5, Side::X, 128, 5)
    );
}

#[test]
fn rays_along_the_four_axes() {
    let map = ray_map();
    assert_eq!(cast_ray(&map, 160, 160, direction(0)), hit(14, 5, Side::X, 288, 9));
    assert_eq!(cast_ray(&map, 160, 160, direction(90_000)), hit(5, 9, Side::Y, 128, 4));
    assert_eq!(cast_ray(&map, 160, 160, direction(180_000)), hit(0, 5, Side::X, 128, 5));
    assert_eq!(cast_ray(&map, 160, 160, direction(270_000)), hit(5, 0, Side::Y, 128, 5));
}

#[test]
fn axis_rays_measure_the_straight_line() {
    let map = ray_map();
    let east = cast_ray(&map, 170, 100, direction(0));
    assert_eq!(east.side, Side::X);
    assert_eq!(east.travel, east.col * 32 - 170);
    let west = cast_ray(&map, 170, 100, direction(180_000));
    assert_eq!(west.side, Side::X);
    assert_eq!(west.travel, 170 - (west.col + 1) * 32);
    let south = cast_ray(&map, 170, 100, direction(90_000));
    assert_eq!(south.side, Side::Y);
    assert_eq!(south.travel, south.row * 32 - 100);
    let north = cast_ray(&map, 170, 100, direction(270_000));
    assert_eq!(north.side, Side::Y);
    assert_eq!(north.travel, 100 - (north.row + 1) * 32);
    assert_eq!((east.col, west.col, south.row, north.row), (9, 0, 9, 0));
}

#[test]
fn diagonal_rays_from_the_middle() {
    let map = ray_map();
    assert_eq!(cast_ray(&map, 160, 160, direction(45_000)), hit(8, 9, Side::Y, 128, 7));
    assert_eq!(cast_ray(&map, 160, 160, direction(135_000)), hit(1, 9, Side::Y, 128, 8));
    assert_eq!(cast_ray(&map, 160, 160, direction(225_000)), hit(1, 0, Side::Y, 128, 9));
    assert_eq!(cast_ray(&map, 160, 160, direction(315_000)), hit(8, 0, Side::Y, 128, 8));
    assert_eq!(cast_ray(&map, 160, 160, direction(30_000)), hit(11, 9, Side::Y, 128, 10));
    assert_eq!(cast_ray(&map, 160, 160, direction(200_500)), hit(0, 3, Side::X, 128, 7));
}

#[test]
fn rays_meet_the_walls_inside_the_grid() {
    let map = ray_map();
    assert_eq!(
        cast_ray(&map, 300, 100, Direction { x: -40000, y: -30000 }),
        hit(9, 2, Side::Y, 4, 1)
    );
    assert_eq!(
        cast_ray(&map, 200, 250, Direction { x: 50000, y: -12345 }),
        hit(10, 6, Side::X, 120, 5)
    );
}

#[test]
fn ray_from_a_cell_boundary() {
    let map = ray_map();
    assert_eq!(cast_ray(&map, 64, 64, Direction { x: -ONE, y: 0 }), hit(0, 2, Side::X, 32, 2));
    assert_eq!(cast_ray(&map, 64, 64, Direction { x: -1, y: -1 }), hit(1, 0, Side::Y, 32, 3));
    assert_eq!(cast_ray(&map, 32, 40, Direction { x: -ONE, y: 0 }), hit(0, 1, Side::X, 0, 1));
    assert_eq!(cast_ray(&map, 40, 32, Direction { x: 0, y: -ONE }), hit(1, 0, Side::Y, 0, 1));
}

#[test]
fn ray_next_to_a_wall_stops_after_one_step() {
    let map = ray_map();
    assert_eq!(cast_ray(&map, 40, 40, Direction { x: -ONE, y: 0 }), hit(0, 1, Side::X, 8, 1));
    assert_eq!(cast_ray(&map, 40, 40, Direction { x: 0, y: -ONE }), hit(1, 0, Side::Y, 8, 1));
}

#[test]
fn ray_without_a_component_never_steps_along_that_axis() {
    let map = ray_map();
    let h = cast_ray(&map, 100, 100, Direction { x: 0, y: 7 });
    assert_eq!((h.col, h.side), (3, Side::Y));
    let h = cast_ray(&map, 100, 100, Direction { x: -7, y: 0 });
    assert_eq!((h.row, h.side), (3, Side::X));
    assert_eq!(cast_ray(&map, 64, 64, Direction { x: 0, y: 0 }), hit(2, 9, Side::Y, 224, 7));
}

#[test]
fn ray_from_outside_the_grid() {
    let map = ray_map();
    assert_eq!(cast_ray(&map, -100, 160, Direction { x: ONE, y: 0 }), hit(-3, 5, Side::X, 4, 1));
    assert_eq!(
        cast_ray(&map, -100, -100, Direction { x: ONE, y: ONE }),
        hit(-4, -3, Side::Y, 4, 1)
    );
    assert_eq!(cast_ray(&map, 1000, 1000, Direction { x: -5, y: -3 }), hit(30, 31, Side::X, 8, 1));
    let far = cast_ray(&map, i32::MAX, i32::MIN, Direction { x: i32::MIN, y: i32::MAX });
    assert_eq!(far.steps, 1);
    let far = cast_ray(&map, i32::MIN, i32::MAX, Direction { x: i32::MAX, y: i32::MIN });
    assert_eq!(far.steps, 1);
}

#[test]
fn every_ray_ends_in_a_wall_after_free_cells() {
    let map = ray_map();
    let mut angle: i32 = 0;
    while angle < 360_000 {
        let h = cast_ray(&map, 75, 245, direction(angle));
        assert_eq!(map.cell_at(h.col, h.row), Cell::Wall);
        assert!(h.steps >= 1 && h.steps <= 25);
        assert!(h.travel >= 0 && h.travel <= h.steps as i64 * 32);
        angle += 211;
    }
}

#[test]
fn ray_in_an_open_grid_stops_at_the_edge() {
    let open = GridMap::new(4, 3, 10, &vec![0; 12]).unwrap();
    assert_eq!(cast_ray(&open, 5, 5, Direction { x: ONE, y: 0 }), hit(4, 0, Side::X, 35, 4));
    assert_eq!(cast_ray(&open, 5, 5, Direction { x: -ONE, y: 0 }), hit(-1, 0, Side::X, 5, 1));
    assert_eq!(cast_ray(&open, 5, 5, Direction { x: 0, y: ONE }), hit(0, 3, Side::Y, 25, 3));
    assert_eq!(cast_ray(&open, 5, 5, Direction { x: 3, y: 2 }), hit(4, 2, Side::X, 35, 6));
    let corner = cast_ray(&open, 35, 25, Direction { x: -3, y: -2 });
    assert!(corner.steps <= 7);
    assert_eq!(open.cell_at(corner.col, corner.row), Cell::Wall);
}
