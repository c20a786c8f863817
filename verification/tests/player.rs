use raycaster::grid::GridMap;
use raycaster::player::rotate;
use raycaster::player::slide;
use raycaster::player::step;
use raycaster::player::tick;
use raycaster::player::Input;
use raycaster::player::Intents;
use raycaster::player::Pose;
use raycaster::player::POINTER_SENSITIVITY;

fn player_map() -> GridMap {
    let codes: Vec<u8> = vec![
        1, 1, 1, 1, 1, 1, 1, 1, 1, 1, 1, 1, 1, 1, 1,
        1, 0, 0, 0, 0, 0, 0, 0, 0, 0, 0, 0, 0, 0, 1,
        1, 0, 0, 0, 0, 0, 0, 0, 1, 1, 0, 0, 0, 0, 1,
        1, 0, 0, 0, 0, 0, 0, 0, 0, 1, 0, 0, 0, 0, 1,
        1, 0, 0, 0, 0, 0, 0, 0, 0, 0, 0, 0, 0, 0, 1,
        1, 0, 0, 0, 0, 0, 0, 0, 0, 0, 0, 0, 0, 0, 1,
        1, 0, 0, 0, 0, 0, 0, 0, 0, 0, 1, 0, 0, 0, 1,
        1, 0, 0, 0, 0, 0, 0, 0, 0, 0, 0, 0, 0, 0, 1,
        1, 0, 0, 0, 0, 0, 0, 0, 0, 0, 0, 0, 0, 0, 1,
        1, 1, 1, 1, 1, 1, 1, 1, 1, 1, 1, 1, 1, 1, 1,
    ];
    GridMap::new(15, 10, 32, &codes).unwrap()
}

fn pose(x: i32, y: i32, heading: i32) -> Pose {
    Pose { x, y, heading }
}

fn still() -> Intents {
    Intents { forward: false, backward: false, strafe_left: false, strafe_right: false }
}

fn forward() -> Intents {
    Intents { forward: true, ..still() }
}

#[test]
fn turning_keeps_the_heading_within_one_turn() {
    assert_eq!(rotate(pose(1, 2, 0), 1_000), pose(1, 2, 1_000));
    assert_eq!(rotate(pose(1, 2, 350_000), 20_000), pose(1, 2, 10_000));
    assert_eq!(rotate(pose(1, 2, 0), -1), pose(1, 2, 359_999));
    assert_eq!(rotate(pose(1, 2, 400_000), 0), pose(1, 2, 40_000));
    assert_eq!(rotate(pose(1, 2, -90_000), 0), pose(1, 2, 270_000));
    assert_eq!(rotate(pose(1, 2, 123_456), 360_000), pose(1, 2, 123_456));
    assert_eq!(rotate(pose(1, 2, 123_456), -720_000), pose(1, 2, 123_456));
    assert_eq!(rotate(pose(1, 2, 5), i64::MAX), pose(1, 2, ((5 + i64::MAX % 360_000) % 360_000) as i32));
    assert_eq!(rotate(pose(1, 2, i32::MAX), i64::MIN).x, 1);
}

#[test]
fn walking_along_the_axes() {
    let map = player_map();
    assert_eq!(step(&map, pose(160, 160, 0), forward(), 2, 0), pose(162, 160, 0));
    let back = Intents { backward: true, ..still() };
    assert_eq!(step(&map, pose(160, 160, 0), back, 2, 0), pose(158, 160, 0));
    let right = Intents { strafe_right: true, ..still() };
    assert_eq!(step(&map, pose(160, 160, 0), right, 2, 0), pose(160, 162, 0));
    let left = Intents { strafe_left: true, ..still() };
    assert_eq!(step(&map, pose(160, 160, 0), left, 2, 0), pose(160, 158, 0));
    assert_eq!(step(&map, pose(160, 160, 180_000), forward(), 3, 0), pose(157, 160, 180_000));
    assert_eq!(step(&map, pose(160, 160, 90_000), forward(), 3, 0), pose(160, 163, 90_000));
    assert_eq!(step(&map, pose(160, 160, 270_000), forward(), 3, 0), pose(160, 157, 270_000));
}

#[test]
fn walking_at_an_angle_rounds_toward_zero() {
    let map = player_map();
    assert_eq!(step(&map, pose(160, 160, 45_000), forward(), 10, 0), pose(167, 167, 45_000));
    let back = Intents { backward: true, ..still() };
    assert_eq!(step(&map, pose(160, 160, 45_000), back, 10, 0), pose(153, 153, 45_000));
    assert_eq!(step(&map, pose(160, 160, 225_000), forward(), 10, 0), pose(153, 153, 225_000));
    assert_eq!(step(&map, pose(160, 160, 30_000), forward(), 100, 0), pose(246, 210, 30_000));
    assert_eq!(step(&map, pose(160, 160, 30_000), forward(), 1, 0), pose(160, 160, 30_000));
}

#[test]
fn turn_is_applied_before_the_move() {
    let map = player_map();
    assert_eq!(step(&map, pose(160, 160, 0), forward(), 4, 90_000), pose(160, 164, 90_000));
    assert_eq!(step(&map, pose(160, 160, 0), still(), 4, -90_000), pose(160, 160, 270_000));
    assert_eq!(step(&map, pose(160, 160, 350_000), forward(), 4, 10_000), pose(164, 160, 0));
}

#[test]
fn opposite_intents_cancel_in_free_space() {
    let map = player_map();
    let both = Intents { forward: true, backward: true, ..still() };
    assert_eq!(step(&map, pose(160, 160, 33_000), both, 7, 0), pose(160, 160, 33_000));
    let sides = Intents { strafe_left: true, strafe_right: true, ..still() };
    assert_eq!(step(&map, pose(160, 160, 33_000), sides, 7, 0), pose(160, 160, 33_000));
}

#[test]
fn walking_and_strafing_add_up_without_normalising() {
    let map = player_map();
    let both = Intents { forward: true, strafe_right: true, ..still() };
    assert_eq!(step(&map, pose(160, 160, 0), both, 5, 0), pose(165, 165, 0));
    let all = Intents { forward: true, backward: false, strafe_left: true, strafe_right: false };
    assert_eq!(step(&map, pose(160, 160, 90_000), all, 5, 0), pose(165, 165, 90_000));
}

#[test]
fn moving_into_a_wall_slides_along_it() {
    let map = player_map();
    assert_eq!(step(&map, pose(446, 160, 45_000), forward(), 10, 0), pose(446, 167, 45_000));
    assert_eq!(step(&map, pose(160, 286, 45_000), forward(), 10, 0), pose(167, 286, 45_000));
    assert_eq!(slide(&map, pose(446, 160, 0), 7, 7), pose(446, 167, 0));
    assert_eq!(slide(&map, pose(34, 34, 0), -7, 7), pose(34, 41, 0));
}

#[test]
fn moving_into_a_corner_stays_put() {
    let map = player_map();
    assert_eq!(step(&map, pose(446, 286, 45_000), forward(), 10, 0), pose(446, 286, 45_000));
    assert_eq!(slide(&map, pose(33, 33, 0), -2, -2), pose(33, 33, 0));
}

#[test]
fn second_axis_is_tried_from_the_new_first_axis() {
    let map = player_map();
    assert_eq!(slide(&map, pose(318, 190, 0), 5, 5), pose(323, 190, 0));
    assert_eq!(slide(&map, pose(318, 190, 0), 0, 5), pose(318, 195, 0));
    assert_eq!(slide(&map, pose(318, 195, 0), 5, -5), pose(318, 190, 0));
}

#[test]
fn a_jump_over_a_wall_is_allowed_where_the_landing_is_free() {
    let map = player_map();
    assert_eq!(slide(&map, pose(300, 200, 0), 60, 0), pose(360, 200, 0));
    assert_eq!(slide(&map, pose(300, 200, 0), 40, 0), pose(300, 200, 0));
}

#[test]
fn huge_moves_are_blocked() {
    let map = player_map();
    assert_eq!(slide(&map, pose(160, 160, 0), i64::MAX, i64::MIN), pose(160, 160, 0));
    assert_eq!(slide(&map, pose(160, 160, 0), 1 << 40, 3), pose(160, 163, 0));
    assert_eq!(slide(&map, pose(160, 160, 0), -(1 << 33), 0), pose(160, 160, 0));
    assert_eq!(step(&map, pose(160, 160, 0), forward(), i32::MAX, 0), pose(160, 160, 0));
    assert_eq!(step(&map, pose(160, 160, 0), forward(), i32::MIN, 0), pose(160, 160, 0));
}

#[test]
fn negative_speed_walks_backward() {
    let map = player_map();
    assert_eq!(step(&map, pose(160, 160, 0), forward(), -2, 0), pose(158, 160, 0));
}

#[test]
fn no_move_is_kept_that_ends_in_a_wall() {
    let map = player_map();
    let mut p = pose(160, 160, 0);
    let all = Intents { forward: true, backward: false, strafe_left: false, strafe_right: true };
    let mut ticks = 0;
    while ticks < 2000 {
        let before = p;
        p = step(&map, p, all, 9, 7_300);
        assert!(!map.is_wall_at(p.x, p.y));
        if p.x != before.x {
            assert!(!map.is_wall_at(p.x, before.y) || p.y != before.y);
        }
        ticks += 1;
    }
}

#[test]
fn a_player_inside_a_wall_cannot_walk_deeper() {
    let map = player_map();
    assert_eq!(slide(&map, pose(10, 10, 0), 5, 5), pose(10, 10, 0));
    assert_eq!(slide(&map, pose(10, 40, 0), 25, 0), pose(35, 40, 0));
}

#[test]
fn tick_turns_by_the_pointer_and_moves() {
    let map = player_map();
    let input = Input { intents: forward(), quit: false, pointer_dx: 10 };
    assert_eq!(POINTER_SENSITIVITY, 100);
    assert_eq!(tick(&map, pose(160, 160, 0), input, 100), Some(pose(259, 161, 1_000)));
    let input = Input { intents: still(), quit: false, pointer_dx: -1 };
    assert_eq!(tick(&map, pose(160, 160, 0), input, 100), Some(pose(160, 160, 359_900)));
    let input = Input { intents: still(), quit: false, pointer_dx: i32::MIN };
    let turned = tick(&map, pose(160, 160, 0), input, 100).unwrap();
    assert_eq!(turned.heading as i64, (i32::MIN as i64 * 100).rem_euclid(360_000));
}

#[test]
fn tick_stops_on_quit() {
    let map = player_map();
    let input = Input { intents: forward(), quit: true, pointer_dx: 10 };
    assert_eq!(tick(&map, pose(160, 160, 0), input, 100), None);
}

#[test]
fn a_full_revolution_restores_the_heading() {
    let map = player_map();
    let mut p = pose(200, 100, 77_000);
    let mut turns = 0;
    while turns < 360 {
        p = step(&map, p, still(), 5, 1_000);
        turns += 1;
    }
    assert_eq!(p, pose(200, 100, 77_000));
    let mut p = pose(200, 100, 77_000);
    let mut turns = 0;
    while turns < 7 {
        p = rotate(p, -360_000 / 8 * 8 / 7 - 1);
        turns += 1;
    }
    p = rotate(p, 7 * (360_000 / 7 + 1) % 360_000);
    assert_eq!(p.heading, (77_000 + 7 * (-(360_000 / 7) - 1) + 7 * (360_000 / 7 + 1)) % 360_000);
}
