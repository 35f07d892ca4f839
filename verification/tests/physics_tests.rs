use platformer_core::common::{BoundingBox, Pos};
use platformer_core::physics::{
    check_and_snap_hang, check_platform_snap, collides_with_map, integrate_kinematic, sweep_axis,
    KinematicResult,
};
use platformer_core::room::Room;
use platformer_core::tiles::{BaseTile, Dir, OverlayTile};
use platformer_core::units::tile_index;
use platformer_core::world::overlaps_any_solid;

/// An open room from (-5, -5) to (5, 5) with a stone floor in row `floor`.
fn hall(floor: i32) -> Room {
    let mut room = Room::new_empty(-5, -5, 11, 11);
    for y in -5..=5 {
        for x in -5..=5 {
            room.set_base(x, y, if y == floor { BaseTile::Stone } else { BaseTile::Empty });
        }
    }
    room
}

fn bb(x: i64, y: i64, w: i64, h: i64, vx: i64, vy: i64) -> BoundingBox {
    BoundingBox { x, y, w, h, vx, vy }
}

#[test]
fn tile_index_rounds_down() {
    assert_eq!(tile_index(0), 0);
    assert_eq!(tile_index(999), 0);
    assert_eq!(tile_index(1000), 1);
    assert_eq!(tile_index(-1), -1);
    assert_eq!(tile_index(-1000), -1);
    assert_eq!(tile_index(-1001), -2);
    assert_eq!(tile_index(2_147_483_647_000), 2_147_483_647);
    assert_eq!(tile_index(-2_147_483_647_000), -2_147_483_647);
}

#[test]
fn rest_without_gravity_changes_nothing() {
    let world = hall(4);
    let start = bb(300, -700, 600, 800, 0, 0);
    let r = integrate_kinematic(&world, &start, false);
    assert_eq!(
        r,
        KinematicResult { new_bb: start, on_bottom: false, on_top: false, on_left: false, on_right: false }
    );
}

#[test]
fn rest_inside_a_wall_changes_nothing() {
    let world = hall(0);
    let start = bb(200, 200, 600, 600, 0, 0);
    assert!(overlaps_any_solid(&world, 200, 200, 600, 600));
    let r = integrate_kinematic(&world, &start, false);
    assert_eq!(r.new_bb, start);
    assert!(!r.on_bottom && !r.on_top && !r.on_left && !r.on_right);
}

#[test]
fn falling_onto_a_floor_rests_one_unit_above_it() {
    let world = hall(1);
    let start = bb(0, 0, 1000, 1000, 0, 500);
    let r = integrate_kinematic(&world, &start, false);
    assert_eq!(r.new_bb, bb(0, -1, 1000, 1000, 0, 0));
    assert!(r.on_bottom);
    assert!(!r.on_top && !r.on_left && !r.on_right);
    let with_gravity = integrate_kinematic(&world, &start, true);
    assert_eq!(with_gravity.new_bb, bb(0, -1, 1000, 1000, 0, 0));
    assert!(with_gravity.on_bottom);
}

#[test]
fn gravity_adds_to_the_fall_up_to_the_terminal_velocity() {
    let world = hall(5);
    let r = integrate_kinematic(&world, &bb(0, -3000, 600, 800, 0, 100), true);
    assert_eq!(r.new_bb, bb(0, -2893, 600, 800, 0, 107));
    let fast = integrate_kinematic(&world, &bb(0, -3000, 600, 800, 0, 898), true);
    assert_eq!(fast.new_bb, bb(0, -2100, 600, 800, 0, 900));
    let faster = integrate_kinematic(&world, &bb(0, -3000, 600, 800, 0, 2000), true);
    assert_eq!(faster.new_bb, bb(0, -2100, 600, 800, 0, 900));
    let none = integrate_kinematic(&world, &bb(0, -3000, 600, 800, 0, 100), false);
    assert_eq!(none.new_bb, bb(0, -2900, 600, 800, 0, 100));
}

#[test]
fn free_move_is_taken_whole() {
    let world = hall(5);
    let r = integrate_kinematic(&world, &bb(0, 0, 600, 800, 40, -190), false);
    assert_eq!(r.new_bb, bb(40, -190, 600, 800, 40, -190));
    assert!(!r.on_bottom && !r.on_top && !r.on_left && !r.on_right);
}

#[test]
fn walking_into_a_wall_stops_in_front_of_it() {
    let mut world = hall(5);
    world.set_base(2, 0, BaseTile::Wood);
    world.set_base(-2, 0, BaseTile::Wood);
    let right = integrate_kinematic(&world, &bb(1300, 100, 600, 800, 400, 0), false);
    assert_eq!(right.new_bb, bb(1399, 100, 600, 800, 400, 0));
    assert!(right.on_right && !right.on_left && !right.on_bottom && !right.on_top);
    let left = integrate_kinematic(&world, &bb(-900, 100, 600, 800, -400, 0), false);
    assert_eq!(left.new_bb, bb(-999, 100, 600, 800, -400, 0));
    assert!(left.on_left && !left.on_right);
}

#[test]
fn jumping_into_a_ceiling_stops_below_it() {
    let mut world = hall(5);
    for x in -5..=5 {
        world.set_base(x, -2, BaseTile::Stone);
    }
    let r = integrate_kinematic(&world, &bb(0, -800, 600, 800, 0, -300), false);
    assert_eq!(r.new_bb, bb(0, -999, 600, 800, 0, 0));
    assert!(r.on_top && !r.on_bottom);
}

#[test]
fn a_mover_at_game_speeds_does_not_pass_a_thin_wall() {
    let mut world = hall(5);
    for y in -5..=4 {
        world.set_base(2, y, BaseTile::Stone);
    }
    let mut start_x: i64 = 500;
    while start_x <= 1400 {
        for speed in [40i64, 190, 601, 900] {
            let r = integrate_kinematic(&world, &bb(start_x, 0, 600, 800, speed, 0), false);
            assert!(!overlaps_any_solid(&world, r.new_bb.x, r.new_bb.y, r.new_bb.w, r.new_bb.h));
            assert!(r.new_bb.x + 600 <= 2000);
            if start_x + speed > 1400 {
                assert!(r.on_right);
                assert_eq!(r.new_bb.x, 1399);
            } else {
                assert!(!r.on_right);
                assert_eq!(r.new_bb.x, start_x + speed);
            }
        }
        start_x += 50;
    }
}

#[test]
fn a_blocked_sweep_stops_in_front_of_the_wall_at_any_length() {
    let mut world = hall(5);
    world.set_base(2, 0, BaseTile::Stone);
    for speed in [1401i64, 2000, 2500, 2999] {
        let r = integrate_kinematic(&world, &bb(0, 0, 600, 800, speed, 0), false);
        assert!(r.on_right);
        assert_eq!(r.new_bb.x, 1399);
    }
}

#[test]
fn a_step_from_a_free_place_ends_on_a_free_place() {
    let mut world = hall(3);
    world.set_base(1, 2, BaseTile::Wood);
    world.set_base(-2, 1, BaseTile::Stone);
    world.set_base(0, -2, BaseTile::Stone);
    let speeds: [i64; 9] = [-2600, -901, -333, -40, 0, 7, 250, 1000, 4100];
    for vx in speeds {
        for vy in speeds {
            for gravity in [false, true] {
                let start = bb(-300, 100, 600, 800, vx, vy);
                assert!(!overlaps_any_solid(&world, start.x, start.y, start.w, start.h));
                let r = integrate_kinematic(&world, &start, gravity);
                assert!(!overlaps_any_solid(&world, r.new_bb.x, r.new_bb.y, r.new_bb.w, r.new_bb.h));
                assert_eq!((r.new_bb.w, r.new_bb.h, r.new_bb.vx), (600, 800, vx));
            }
        }
    }
}

#[test]
fn a_mover_that_starts_inside_a_solid_stays_and_reports_blocked() {
    let world = hall(0);
    let r = integrate_kinematic(&world, &bb(200, 200, 600, 600, 50, 60), false);
    assert_eq!(r.new_bb, bb(200, 200, 600, 600, 50, 0));
    assert!(r.on_right && r.on_bottom && !r.on_left && !r.on_top);
}

#[test]
fn a_mover_that_starts_inside_a_solid_may_leave_it_whole() {
    let world = hall(0);
    let r = integrate_kinematic(&world, &bb(200, 200, 600, 600, 0, -1000), false);
    assert_eq!(r.new_bb, bb(200, -800, 600, 600, 0, -1000));
    assert!(!r.on_top && !r.on_bottom);
}

#[test]
fn sweep_axis_reports_displacement_and_block() {
    let world = hall(1);
    assert_eq!(sweep_axis(&world, 0, 0, 1000, 1000, false, 0), (0, false));
    assert_eq!(sweep_axis(&world, 0, -2000, 1000, 1000, false, 700), (700, false));
    assert_eq!(sweep_axis(&world, 0, -500, 1000, 1000, false, 700), (499, true));
    assert_eq!(sweep_axis(&world, 0, 0, 1000, 1000, true, 700), (700, false));
}

#[test]
fn collision_looks_at_the_four_corner_tiles() {
    let mut world = hall(5);
    world.set_base(1, 1, BaseTile::Stone);
    assert!(!collides_with_map(&world, 0, 0, 1000, 1000));
    assert!(collides_with_map(&world, 1, 1, 1000, 1000));
    assert!(collides_with_map(&world, 1999, 1999, 500, 500));
    assert!(!collides_with_map(&world, 2000, 1000, 500, 500));
    assert!(collides_with_map(&world, -20_000, 0, 500, 500));
    // A rectangle of three tiles reaches over a tile; its corners do not touch it.
    assert!(!collides_with_map(&world, 0, 0, 3000, 3000));
}

#[test]
fn a_falling_mover_grabs_a_ledge_on_its_right() {
    let mut world = hall(5);
    world.set_base(1, 1, BaseTile::Stone);
    let before = bb(350, 900, 600, 800, 40, 200);
    let after = bb(350, 1100, 600, 800, 40, 200);
    assert_eq!(check_and_snap_hang(&before, &after, &world, Dir::Right), Some(Pos { x: 400, y: 1000 }));
    assert_eq!(check_and_snap_hang(&before, &after, &world, Dir::Left), None);
}

#[test]
fn a_falling_mover_grabs_a_ledge_on_its_left() {
    let mut world = hall(5);
    world.set_base(-1, 1, BaseTile::Stone);
    let before = bb(60, 900, 600, 800, -40, 200);
    let after = bb(60, 1100, 600, 800, -40, 200);
    assert_eq!(check_and_snap_hang(&before, &after, &world, Dir::Left), Some(Pos { x: 0, y: 1000 }));
}

#[test]
fn no_ledge_is_grabbed_when_a_condition_fails() {
    let mut world = hall(5);
    world.set_base(1, 1, BaseTile::Stone);
    // too far from the wall
    assert_eq!(
        check_and_snap_hang(&bb(299, 900, 600, 800, 0, 200), &bb(299, 1100, 600, 800, 0, 200), &world, Dir::Right),
        None
    );
    // at the limit of the reach
    assert_eq!(
        check_and_snap_hang(&bb(300, 900, 600, 800, 0, 200), &bb(300, 1100, 600, 800, 0, 200), &world, Dir::Right),
        Some(Pos { x: 400, y: 1000 })
    );
    // the top edge stays in its row
    assert_eq!(
        check_and_snap_hang(&bb(350, 1100, 600, 800, 0, 200), &bb(350, 1300, 600, 800, 0, 200), &world, Dir::Right),
        None
    );
    // moving up
    assert_eq!(
        check_and_snap_hang(&bb(350, 1100, 600, 800, 0, -200), &bb(350, 900, 600, 800, 0, -200), &world, Dir::Right),
        None
    );
    // the wall goes on above: no lip
    world.set_base(1, 0, BaseTile::Stone);
    assert_eq!(
        check_and_snap_hang(&bb(350, 900, 600, 800, 0, 200), &bb(350, 1100, 600, 800, 0, 200), &world, Dir::Right),
        None
    );
    // no wall at all
    let open = hall(5);
    assert_eq!(
        check_and_snap_hang(&bb(350, 900, 600, 800, 0, 200), &bb(350, 1100, 600, 800, 0, 200), &open, Dir::Right),
        None
    );
}

#[test]
fn a_mover_lands_on_a_platform_from_above() {
    let mut world = hall(5);
    world.set_overlay(0, 2, OverlayTile::Platform);
    let before = bb(100, 1150, 600, 800, 0, 100);
    let mut after = bb(100, 1250, 600, 800, 0, 107);
    assert!(check_platform_snap(&before, &mut after, &world));
    assert_eq!(after, bb(100, 1200, 600, 800, 0, 0));
    // resting on it, the next step lands again
    let rest = after;
    let mut next = bb(100, 1207, 600, 800, 0, 7);
    assert!(check_platform_snap(&rest, &mut next, &world));
    assert_eq!(next, rest);
}

#[test]
fn a_platform_under_the_right_corner_is_enough() {
    let mut world = hall(5);
    world.set_overlay(1, 2, OverlayTile::LadderPlatform);
    let before = bb(700, 1150, 600, 800, 0, 100);
    let mut after = bb(700, 1250, 600, 800, 0, 100);
    assert!(check_platform_snap(&before, &mut after, &world));
    assert_eq!(after, bb(700, 1200, 600, 800, 0, 0));
}

#[test]
fn a_platform_lets_movers_pass_from_below_and_inside() {
    let mut world = hall(5);
    world.set_overlay(0, 2, OverlayTile::Platform);
    // moving up through it
    let mut up = bb(100, 1150, 600, 800, 0, -100);
    assert!(!check_platform_snap(&bb(100, 1250, 600, 800, 0, -100), &mut up, &world));
    assert_eq!(up, bb(100, 1150, 600, 800, 0, -100));
    // falling inside the platform's row
    let mut inside = bb(100, 1500, 600, 800, 0, 100);
    assert!(!check_platform_snap(&bb(100, 1400, 600, 800, 0, 100), &mut inside, &world));
    assert_eq!(inside, bb(100, 1500, 600, 800, 0, 100));
    // a ladder alone carries nobody
    let mut ladder = hall(5);
    ladder.set_overlay(0, 2, OverlayTile::Ladder);
    let mut after = bb(100, 1250, 600, 800, 0, 100);
    assert!(!check_platform_snap(&bb(100, 1150, 600, 800, 0, 100), &mut after, &ladder));
    // the sweep itself does not stop at a platform
    let r = integrate_kinematic(&world, &bb(100, 1150, 600, 800, 0, 100), false);
    assert_eq!(r.new_bb.y, 1250);
    assert!(!r.on_bottom);
}

#[test]
fn rectangles_overlap_when_they_share_area() {
    let a = bb(0, 0, 1000, 1000, 0, 0);
    assert!(a.overlaps(&bb(999, 999, 10, 10, 0, 0)));
    assert!(!a.overlaps(&bb(1000, 0, 10, 10, 0, 0)));
    assert!(!a.overlaps(&bb(0, 1000, 10, 10, 0, 0)));
    assert!(!a.overlaps(&bb(-10, 0, 10, 10, 0, 0)));
    assert!(a.overlaps(&bb(-10, -10, 11, 11, 0, 0)));
    assert!(bb(i64::MAX - 5, 0, 5, 5, 0, 0).overlaps(&bb(i64::MAX - 3, 1, 3, 3, 0, 0)));
}

#[test]
fn iterate_moves_by_the_velocity() {
    assert_eq!(bb(10, 20, 5, 6, -3, 4).iterate(), bb(7, 24, 5, 6, -3, 4));
}

#[test]
fn range_check_tells_what_the_movement_code_accepts() {
    assert!(bb(0, 0, 1, 1, 0, 0).check_in_range());
    assert!(!bb(0, 0, 0, 1, 0, 0).check_in_range());
    assert!(!bb(0, 0, 1, -1, 0, 0).check_in_range());
    assert!(bb(700_000_000_000, -700_000_000_000, 700_000_000_000, 1, 0, 0).check_in_range());
    assert!(!bb(700_000_000_001, 0, 1, 1, 0, 0).check_in_range());
    assert!(!bb(0, 0, 1, 1, 0, -700_000_000_001).check_in_range());
}

#[test]
fn a_right_edge_just_past_the_face_of_the_lip_still_grabs() {
    let mut world = Room::new(0, 0, 5, 5);
    world.set_base_absolute(3, 2, BaseTile::Stone);
    let before = bb(2450, 1950, 600, 800, 0, 100);
    let after = bb(2450, 2050, 600, 800, 0, 100);
    assert_eq!(check_and_snap_hang(&before, &after, &world, Dir::Right), Some(Pos { x: 2400, y: 2000 }));
    // exactly at the face, and at the two ends of the reach
    for x in [2300, 2400, 2500] {
        assert_eq!(
            check_and_snap_hang(&bb(x, 1950, 600, 800, 0, 100), &bb(x, 2050, 600, 800, 0, 100), &world, Dir::Right),
            Some(Pos { x: 2400, y: 2000 })
        );
    }
    // one unit beyond the reach on either side
    for x in [2299, 2501] {
        assert_eq!(
            check_and_snap_hang(&bb(x, 1950, 600, 800, 0, 100), &bb(x, 2050, 600, 800, 0, 100), &world, Dir::Right),
            None
        );
    }
}

#[test]
fn a_left_edge_past_the_face_does_not_grab() {
    let mut world = hall(5);
    world.set_base(-1, 1, BaseTile::Stone);
    // the left edge lies inside the wall's column
    assert_eq!(
        check_and_snap_hang(&bb(-50, 900, 600, 800, 0, 200), &bb(-50, 1100, 600, 800, 0, 200), &world, Dir::Left),
        None
    );
    assert_eq!(
        check_and_snap_hang(&bb(100, 900, 600, 800, 0, 200), &bb(100, 1100, 600, 800, 0, 200), &world, Dir::Left),
        Some(Pos { x: 0, y: 1000 })
    );
    assert_eq!(
        check_and_snap_hang(&bb(101, 900, 600, 800, 0, 200), &bb(101, 1100, 600, 800, 0, 200), &world, Dir::Left),
        None
    );
}
