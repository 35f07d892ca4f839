use platformer_core::room::{Door, EnemyKind, Room, SpawnTemplate};
use platformer_core::tiles::{BaseTile, DoorDir, OverlayTile};
use platformer_core::world::MapLike;

fn same_tiles(a: &Room, b: &Room) -> bool {
    a.x == b.x && a.y == b.y && a.w == b.w && a.h == b.h && a.base == b.base && a.overlay == b.overlay
}

#[test]
fn boxed_room_has_wood_rim_and_empty_inside() {
    let room = Room::new(0, 0, 5, 5);
    assert_eq!(room.base.len(), 25);
    assert_eq!(room.overlay.len(), 25);
    for y in 0..5u32 {
        for x in 0..5u32 {
            let (b, o) = room.get_absolute(x, y);
            let rim = x == 0 || y == 0 || x == 4 || y == 4;
            assert_eq!(b, if rim { BaseTile::Wood } else { BaseTile::Empty });
            assert_eq!(o, OverlayTile::Nothing);
        }
    }
    assert!(room.doors.is_empty());
    assert!(room.templates.is_empty());
}

#[test]
fn boxed_room_of_one_cell_is_wood() {
    let room = Room::new(3, -4, 1, 1);
    assert_eq!(room.get_absolute(0, 0), (BaseTile::Wood, OverlayTile::Nothing));
}

#[test]
fn empty_room_is_outside_everywhere() {
    let room = Room::new_empty(2, 3, 4, 2);
    for y in 0..2u32 {
        for x in 0..4u32 {
            assert_eq!(room.get_absolute(x, y), (BaseTile::NotPartOfRoom, OverlayTile::Nothing));
        }
    }
}

#[test]
fn abs_to_rel_maps_world_tiles_to_cells() {
    let room = Room::new(10, -3, 4, 5);
    assert_eq!(room.abs_to_rel((10, -3)), Some((0, 0)));
    assert_eq!(room.abs_to_rel((13, 1)), Some((3, 4)));
    assert_eq!(room.abs_to_rel((9, -3)), None);
    assert_eq!(room.abs_to_rel((10, -4)), None);
    assert_eq!(room.abs_to_rel((14, 0)), None);
    assert_eq!(room.abs_to_rel((10, 2)), None);
}

#[test]
fn get_relative_reads_inside_and_refuses_outside() {
    let mut room = Room::new(10, 20, 3, 3);
    room.set_overlay_absolute(1, 1, OverlayTile::Ladder);
    assert_eq!(room.get_relative(11, 21), Some((BaseTile::Empty, OverlayTile::Ladder)));
    assert_eq!(room.get_relative(10, 20), Some((BaseTile::Wood, OverlayTile::Nothing)));
    assert_eq!(room.get_relative(13, 21), None);
}

#[test]
fn out_of_range_reads_as_solid_without_overlay() {
    let room = Room::new(0, 0, 3, 3);
    assert_eq!(room.get_at(-1, 0), (BaseTile::NotPartOfRoom, OverlayTile::Nothing));
    assert!(room.is_solid_at(-1, 0));
    assert!(room.is_solid_at(100, 100));
    assert!(!room.is_ladder_at(100, 100));
    assert!(!room.is_platform_at(100, 100));
    assert!(!room.is_solid_at(1, 1));
    assert!(room.is_solid_at(0, 0));
}

#[test]
fn overlay_predicates_follow_the_tile() {
    let mut room = Room::new(0, 0, 6, 3);
    room.set_overlay_absolute(1, 1, OverlayTile::Ladder);
    room.set_overlay_absolute(2, 1, OverlayTile::Platform);
    room.set_overlay_absolute(3, 1, OverlayTile::LadderPlatform);
    assert!(room.is_ladder_at(1, 1) && !room.is_platform_at(1, 1));
    assert!(!room.is_ladder_at(2, 1) && room.is_platform_at(2, 1));
    assert!(room.is_ladder_at(3, 1) && room.is_platform_at(3, 1));
    assert!(!room.is_ladder_at(4, 1) && !room.is_platform_at(4, 1));
}

#[test]
fn not_part_of_room_is_solid_and_empty_is_not() {
    assert!(BaseTile::NotPartOfRoom.is_solid());
    assert!(BaseTile::Stone.is_solid());
    assert!(BaseTile::Wood.is_solid());
    assert!(!BaseTile::Empty.is_solid());
}

#[test]
fn resize_to_fit_grows_left_and_up() {
    let mut room = Room::new(0, 0, 3, 3);
    room.set_door(2, 1, DoorDir::Right);
    assert!(room.add_template(1500, 1500, EnemyKind::Bat));
    assert!(room.fits_after_growth(-2, -1));
    room.resize_to_fit(-2, -1);
    assert_eq!((room.x, room.y, room.w, room.h), (-2, -1, 5, 4));
    assert_eq!(room.get_relative(-2, -1), Some((BaseTile::NotPartOfRoom, OverlayTile::Nothing)));
    assert_eq!(room.get_relative(0, 0), Some((BaseTile::Wood, OverlayTile::Nothing)));
    assert_eq!(room.get_relative(1, 1), Some((BaseTile::Empty, OverlayTile::Nothing)));
    assert_eq!(room.get_relative(2, 2), Some((BaseTile::Wood, OverlayTile::Nothing)));
    assert_eq!(room.doors, vec![Door { x: 4, y: 2, dir: DoorDir::Right }]);
    assert_eq!(room.templates, vec![SpawnTemplate { x: 3500, y: 2500, kind: EnemyKind::Bat }]);
}

#[test]
fn resize_to_fit_grows_right_and_down() {
    let mut room = Room::new(0, 0, 3, 3);
    room.set_door(0, 1, DoorDir::Left);
    room.resize_to_fit(5, 4);
    assert_eq!((room.x, room.y, room.w, room.h), (0, 0, 6, 5));
    assert_eq!(room.get_relative(5, 4), Some((BaseTile::NotPartOfRoom, OverlayTile::Nothing)));
    assert_eq!(room.get_relative(2, 2), Some((BaseTile::Wood, OverlayTile::Nothing)));
    assert_eq!(room.doors, vec![Door { x: 0, y: 1, dir: DoorDir::Left }]);
}

#[test]
fn resize_to_fit_inside_changes_nothing() {
    let mut room = Room::new(4, 4, 3, 3);
    let before = room.clone();
    room.resize_to_fit(5, 5);
    assert!(same_tiles(&room, &before));
}

#[test]
fn fits_after_growth_refuses_what_overflows() {
    let room = Room::new(0, 0, 3, 3);
    assert!(room.fits_after_growth(100, 100));
    assert!(!room.fits_after_growth(i32::MAX, 0));
    assert!(!room.fits_after_growth(i32::MIN, 0));
    assert!(!room.fits_after_growth(100_000, 100_000));
}

#[test]
fn grow_then_shrink_gives_the_room_back() {
    let mut room = Room::new(2, 3, 5, 5);
    room.set_door(6, 5, DoorDir::Right);
    room.set_door(2, 4, DoorDir::Left);
    assert!(room.add_template(2500, 2500, EnemyKind::Slime));
    room.set_overlay_absolute(2, 2, OverlayTile::Ladder);
    let before = room.clone();
    for (x, y) in [(-4, -7), (20, 3), (2, 30), (-1, 9), (7, 8)] {
        let mut grown = before.clone();
        grown.resize_to_fit(x, y);
        assert!(grown.get_relative(x, y).is_some());
        grown.resize_shrink();
        assert!(same_tiles(&grown, &before));
        assert_eq!(grown.doors, before.doors);
        assert_eq!(grown.templates, before.templates);
    }
    room.resize_shrink();
    assert!(same_tiles(&room, &before));
}

#[test]
fn shrink_trims_each_side_on_its_own() {
    let mut room = Room::new_empty(0, 0, 6, 5);
    room.set_base_absolute(2, 1, BaseTile::Stone);
    room.set_overlay_absolute(3, 3, OverlayTile::Platform);
    room.resize_shrink();
    assert_eq!((room.x, room.y, room.w, room.h), (2, 1, 2, 3));
    assert_eq!(room.get_relative(2, 1), Some((BaseTile::Stone, OverlayTile::Nothing)));
    assert_eq!(room.get_relative(3, 3), Some((BaseTile::NotPartOfRoom, OverlayTile::Platform)));
    assert_eq!(room.get_relative(3, 1), Some((BaseTile::NotPartOfRoom, OverlayTile::Nothing)));
    assert_eq!(room.base.len(), 6);
}

#[test]
fn shrink_of_an_empty_room_keeps_one_cell() {
    let mut room = Room::new_empty(3, 4, 4, 3);
    room.resize_shrink();
    assert_eq!((room.w, room.h), (1, 1));
    assert_eq!((room.x, room.y), (6, 6));
    assert_eq!(room.get_absolute(0, 0), (BaseTile::NotPartOfRoom, OverlayTile::Nothing));
}

#[test]
fn shrink_pulls_doors_and_spawn_points_inside() {
    let mut room = Room::new_empty(0, 0, 6, 6);
    room.set_base_absolute(2, 2, BaseTile::Empty);
    room.set_base_absolute(3, 3, BaseTile::Empty);
    room.set_door(0, 0, DoorDir::Left);
    room.set_door(5, 5, DoorDir::Right);
    room.set_door(3, 2, DoorDir::Up);
    assert!(room.add_template(500, 5500, EnemyKind::Worm));
    room.resize_shrink();
    assert_eq!((room.x, room.y, room.w, room.h), (2, 2, 2, 2));
    assert_eq!(
        room.doors,
        vec![
            Door { x: 0, y: 0, dir: DoorDir::Left },
            Door { x: 1, y: 1, dir: DoorDir::Right },
            Door { x: 1, y: 0, dir: DoorDir::Up },
        ]
    );
    assert_eq!(room.templates, vec![SpawnTemplate { x: 0, y: 2000, kind: EnemyKind::Worm }]);
}

#[test]
fn doors_stay_inside_through_grow_and_shrink() {
    let mut room = Room::new(0, 0, 4, 4);
    room.set_door(3, 1, DoorDir::Right);
    room.set_door(0, 2, DoorDir::Left);
    room.set_door(1, 0, DoorDir::Up);
    let steps: [(i32, i32); 6] = [(-3, 0), (9, 9), (0, -5), (4, 4), (-8, 12), (1, 1)];
    for (k, (x, y)) in steps.iter().enumerate() {
        if room.fits_after_growth(*x, *y) {
            room.resize_to_fit(*x, *y);
        }
        for d in &room.doors {
            assert!(0 <= d.x && (d.x as u32) < room.w && 0 <= d.y && (d.y as u32) < room.h);
        }
        if k % 2 == 1 {
            room.resize_shrink();
            for d in &room.doors {
                assert!(0 <= d.x && (d.x as u32) < room.w && 0 <= d.y && (d.y as u32) < room.h);
            }
        }
    }
}

#[test]
fn set_base_outside_grows_and_keeps_the_rest() {
    let mut room = Room::new(0, 0, 3, 3);
    room.set_base(5, 1, BaseTile::Stone);
    assert_eq!((room.x, room.y, room.w, room.h), (0, 0, 6, 3));
    assert_eq!(room.get_at(5, 1), (BaseTile::Stone, OverlayTile::Nothing));
    assert_eq!(room.get_at(4, 1), (BaseTile::NotPartOfRoom, OverlayTile::Nothing));
    assert_eq!(room.get_at(1, 1), (BaseTile::Empty, OverlayTile::Nothing));
    assert_eq!(room.get_at(2, 2), (BaseTile::Wood, OverlayTile::Nothing));
}

#[test]
fn set_base_inside_writes_one_tile() {
    let mut room = Room::new(0, 0, 3, 3);
    room.set_base(1, 1, BaseTile::Stone);
    assert_eq!((room.w, room.h), (3, 3));
    assert_eq!(room.get_at(1, 1), (BaseTile::Stone, OverlayTile::Nothing));
    assert_eq!(room.get_at(0, 1), (BaseTile::Wood, OverlayTile::Nothing));
}

#[test]
fn set_overlay_outside_grows_and_keeps_the_base() {
    let mut room = Room::new(0, 0, 3, 3);
    room.set_overlay(-1, -1, OverlayTile::Ladder);
    assert_eq!((room.x, room.y, room.w, room.h), (-1, -1, 4, 4));
    assert_eq!(room.get_at(-1, -1), (BaseTile::NotPartOfRoom, OverlayTile::Ladder));
    assert_eq!(room.get_at(0, 0), (BaseTile::Wood, OverlayTile::Nothing));
    room.set_overlay(1, 1, OverlayTile::Platform);
    assert_eq!(room.get_at(1, 1), (BaseTile::Empty, OverlayTile::Platform));
}

#[test]
fn set_door_replaces_a_door_on_the_same_tile() {
    let mut room = Room::new(5, 5, 4, 4);
    room.set_door(8, 6, DoorDir::Right);
    room.set_door(5, 6, DoorDir::Left);
    room.set_door(8, 6, DoorDir::Down);
    assert_eq!(
        room.doors,
        vec![Door { x: 3, y: 1, dir: DoorDir::Down }, Door { x: 0, y: 1, dir: DoorDir::Left }]
    );
}

#[test]
fn set_door_outside_grows_the_room() {
    let mut room = Room::new(0, 0, 3, 3);
    room.set_door(2, 1, DoorDir::Right);
    room.set_door(-1, 1, DoorDir::Left);
    assert_eq!((room.x, room.w), (-1, 4));
    assert_eq!(
        room.doors,
        vec![Door { x: 3, y: 1, dir: DoorDir::Right }, Door { x: 0, y: 1, dir: DoorDir::Left }]
    );
}

#[test]
fn add_template_refuses_points_outside() {
    let mut room = Room::new(0, 0, 3, 2);
    assert!(room.add_template(0, 0, EnemyKind::Slime));
    assert!(room.add_template(3000, 2000, EnemyKind::Bat));
    assert!(!room.add_template(3001, 0, EnemyKind::Bat));
    assert!(!room.add_template(0, -1, EnemyKind::Bat));
    assert_eq!(room.templates.len(), 2);
}

#[test]
fn column_and_row_scans_see_content() {
    let mut room = Room::new_empty(0, 0, 3, 3);
    room.set_overlay_absolute(1, 2, OverlayTile::Ladder);
    assert!(room.column_is_empty(0));
    assert!(!room.column_is_empty(1));
    assert!(room.row_is_empty(0));
    assert!(!room.row_is_empty(2));
}

#[test]
fn door_directions_pair_up() {
    assert_eq!(DoorDir::Left.opposite(), DoorDir::Right);
    assert_eq!(DoorDir::Right.opposite(), DoorDir::Left);
    assert_eq!(DoorDir::Up.opposite(), DoorDir::Down);
    assert_eq!(DoorDir::Down.opposite(), DoorDir::Up);
}
