use platformer_core::assembler::{doors_facing, rooms_with_doors, ATTEMPT_BUDGET};
use platformer_core::assembly::Assembly;
use platformer_core::dungeon::{rooms_compatible, tiles_compatible, MapDoor};
use platformer_core::game_map::GameMap;
use platformer_core::physics::integrate_kinematic;
use platformer_core::common::BoundingBox;
use platformer_core::room::{Door, EnemyKind, Room, SpawnTemplate};
use platformer_core::tiles::{BaseTile, DoorDir, OverlayTile};
use platformer_core::world::{overlaps_any_solid, MapLike};

/// A walled room with a door in the middle of its left and of its right wall.
fn corridor(w: u32, h: u32) -> Room {
    let mut room = Room::new(0, 0, w, h);
    room.set_door(0, (h / 2) as i32, DoorDir::Left);
    room.set_door(w as i32 - 1, (h / 2) as i32, DoorDir::Right);
    room
}

fn count_conflicts(rooms: &[Room]) -> usize {
    let mut n = 0;
    for i in 0..rooms.len() {
        for j in 0..rooms.len() {
            if i == j {
                continue;
            }
            let a = &rooms[i];
            let b = &rooms[j];
            for cy in 0..a.h {
                for cx in 0..a.w {
                    let mine = a.get_absolute(cx, cy);
                    let tx = a.x + cx as i32;
                    let ty = a.y + cy as i32;
                    if let Some(theirs) = b.get_relative(tx, ty) {
                        if mine.0 != BaseTile::NotPartOfRoom
                            && theirs.0 != BaseTile::NotPartOfRoom
                            && mine != theirs
                        {
                            n += 1;
                        }
                    }
                }
            }
        }
    }
    n
}

fn count_shared_anchors(rooms: &[Room]) -> usize {
    let mut n = 0;
    for i in 0..rooms.len() {
        for j in (i + 1)..rooms.len() {
            if rooms[i].x == rooms[j].x && rooms[i].y == rooms[j].y {
                n += 1;
            }
        }
    }
    n
}

#[test]
fn tiles_are_compatible_when_equal_or_outside() {
    let none = OverlayTile::Nothing;
    assert!(tiles_compatible((BaseTile::Wood, none), (BaseTile::Wood, none)));
    assert!(tiles_compatible((BaseTile::NotPartOfRoom, none), (BaseTile::Stone, OverlayTile::Ladder)));
    assert!(tiles_compatible((BaseTile::Empty, OverlayTile::Platform), (BaseTile::NotPartOfRoom, none)));
    assert!(tiles_compatible((BaseTile::NotPartOfRoom, none), (BaseTile::NotPartOfRoom, OverlayTile::Ladder)));
    assert!(tiles_compatible((BaseTile::Empty, OverlayTile::Ladder), (BaseTile::Empty, OverlayTile::Ladder)));
    assert!(!tiles_compatible((BaseTile::Wood, none), (BaseTile::Stone, none)));
    assert!(!tiles_compatible((BaseTile::Empty, none), (BaseTile::Wood, none)));
    assert!(!tiles_compatible((BaseTile::Empty, OverlayTile::Ladder), (BaseTile::Empty, none)));
    assert!(!tiles_compatible((BaseTile::Empty, OverlayTile::Ladder), (BaseTile::Empty, OverlayTile::Platform)));
}

#[test]
fn rooms_with_different_overlays_on_one_tile_conflict() {
    let a = Room::new(0, 0, 4, 4);
    let mut b = Room::new(0, 0, 4, 4);
    assert!(rooms_compatible(&a, &b));
    b.set_overlay_absolute(1, 1, OverlayTile::Ladder);
    assert!(!rooms_compatible(&a, &b));
    assert!(!rooms_compatible(&b, &a));
    // an overlay on a tile outside the footprint is no conflict
    let mut c = Room::new_empty(0, 0, 4, 4);
    c.set_overlay_absolute(1, 1, OverlayTile::Platform);
    assert!(rooms_compatible(&a, &c));
    assert!(rooms_compatible(&c, &b));
}

#[test]
fn rooms_agree_unless_some_tile_differs() {
    let a = Room::new(0, 0, 4, 4);
    assert!(rooms_compatible(&a, &Room::new(10, 0, 4, 4)));
    // walls on walls
    assert!(rooms_compatible(&a, &Room::new(3, 0, 4, 4)));
    // a wall over the inside of the other
    assert!(!rooms_compatible(&a, &Room::new(2, 0, 4, 4)));
    assert!(!rooms_compatible(&Room::new(2, 0, 4, 4), &a));
    // outside tiles never conflict
    assert!(rooms_compatible(&a, &Room::new_empty(1, 1, 5, 5)));
    assert!(rooms_compatible(&a, &a.moved_to(0, 0)));
}

#[test]
fn moved_room_keeps_everything_but_the_anchor() {
    let mut room = corridor(5, 5);
    assert!(room.add_template(2500, 2500, EnemyKind::Bat));
    room.set_overlay_absolute(2, 2, OverlayTile::Ladder);
    let moved = room.moved_to(-7, 9);
    assert_eq!((moved.x, moved.y, moved.w, moved.h), (-7, 9, 5, 5));
    assert_eq!(moved.base, room.base);
    assert_eq!(moved.overlay, room.overlay);
    assert_eq!(moved.doors, room.doors);
    assert_eq!(moved.templates, room.templates);
    assert_eq!(moved.get_at(-5, 11), (BaseTile::Empty, OverlayTile::Ladder));
}

#[test]
fn carve_opens_a_tile_of_the_footprint() {
    let mut room = Room::new(0, 0, 3, 3);
    room.set_overlay_absolute(0, 1, OverlayTile::Ladder);
    room.set_overlay_absolute(1, 1, OverlayTile::Ladder);
    room.carve(0, 1, false);
    assert_eq!(room.get_at(0, 1), (BaseTile::Empty, OverlayTile::Nothing));
    assert_eq!(room.get_at(1, 1), (BaseTile::Empty, OverlayTile::Ladder));
    assert_eq!(room.get_at(0, 0), (BaseTile::Wood, OverlayTile::Nothing));
    room.carve(7, 7, true);
    assert_eq!((room.w, room.h), (3, 3));
    let mut outside = Room::new_empty(0, 0, 2, 2);
    outside.carve(1, 1, false);
    assert_eq!(outside.get_at(1, 1), (BaseTile::NotPartOfRoom, OverlayTile::Nothing));
    outside.carve(1, 1, true);
    assert_eq!(outside.get_at(1, 1), (BaseTile::Empty, OverlayTile::Nothing));
}

#[test]
fn two_rooms_joined_by_facing_doors_share_an_open_tile() {
    let mut left = Room::new(0, 0, 5, 5);
    left.set_door(4, 2, DoorDir::Right);
    let mut right = Room::new(0, 0, 4, 5);
    right.set_door(0, 2, DoorDir::Left);

    let mut a = Assembly::start(&left, 0, 0);
    assert!(a.try_attach(0, 0, &right, 0));
    assert_eq!(a.rooms.len(), 2);
    assert_eq!((a.rooms[1].x, a.rooms[1].y), (4, 0));
    assert_eq!((a.x, a.y, a.w, a.h), (0, 0, 8, 5));
    assert_eq!(
        a.doors,
        vec![MapDoor { x: 4, y: 2, dir: DoorDir::Right, open: true, closed_frames: 0 }]
    );
    assert_eq!(a.rooms[0].get_at(4, 2).0, BaseTile::Empty);
    assert_eq!(a.rooms[1].get_at(4, 2).0, BaseTile::Empty);
    assert_eq!(a.rooms[0].get_at(4, 1).0, BaseTile::Wood);
    assert_eq!(a.rooms[1].get_at(4, 3).0, BaseTile::Wood);
    assert_eq!(count_conflicts(&a.rooms), 0);

    let map = GameMap::from_assembly(a);
    assert_eq!(map.get_at(4, 2), (BaseTile::Empty, OverlayTile::Nothing));
    assert!(!map.is_solid_at(3, 2));
    assert!(!map.is_solid_at(4, 2));
    assert!(!map.is_solid_at(5, 2));
    assert!(map.is_solid_at(4, 1));
    // a mover walks from one room into the other
    let mut bb = BoundingBox { x: 3100, y: 2100, w: 600, h: 800, vx: 400, vy: 0 };
    for _ in 0..5 {
        let r = integrate_kinematic(&map, &bb, false);
        assert!(!r.on_right);
        bb = r.new_bb;
    }
    assert_eq!(bb.x, 5100);
}

#[test]
fn attach_refuses_doors_that_do_not_face_each_other() {
    let room = corridor(5, 5);
    let mut a = Assembly::start(&room, 0, 0);
    // door 1 is the right door; candidate door 1 is a right door too
    assert!(!a.try_attach(0, 1, &room, 1));
    assert_eq!(a.rooms.len(), 1);
    assert_eq!(a.doors.len(), 0);
    assert_eq!(a.rooms[0].base, room.base);
    assert!(a.try_attach(0, 1, &room, 0));
    assert_eq!((a.rooms[1].x, a.rooms[1].y), (4, 0));
}

#[test]
fn attach_refuses_a_room_that_conflicts() {
    let mut first = Room::new(0, 0, 5, 5);
    first.set_door(4, 2, DoorDir::Right);
    // its left door sits inside it: hung on the first room it reaches back into it
    let mut deep = Room::new(0, 0, 5, 5);
    deep.set_door(2, 2, DoorDir::Left);
    let mut a = Assembly::start(&first, 0, 0);
    assert!(!a.try_attach(0, 0, &deep, 0));
    assert_eq!(a.rooms.len(), 1);
    assert_eq!(a.rooms[0].base, first.base);
    assert_eq!((a.x, a.y, a.w, a.h), (0, 0, 5, 5));
}

#[test]
fn attach_refuses_a_second_room_on_the_same_anchor() {
    let mut first = Room::new_empty(0, 0, 3, 3);
    first.set_door(1, 1, DoorDir::Right);
    let mut other = Room::new_empty(0, 0, 3, 3);
    other.set_door(1, 1, DoorDir::Left);
    let mut a = Assembly::start(&first, 0, 0);
    assert!(!a.try_attach(0, 0, &other, 0));
    assert_eq!(a.rooms.len(), 1);
    let mut shifted = Room::new_empty(0, 0, 3, 3);
    shifted.set_door(0, 1, DoorDir::Left);
    assert!(a.try_attach(0, 0, &shifted, 0));
    assert_eq!((a.rooms[1].x, a.rooms[1].y), (1, 0));
    assert_eq!(a.rooms[0].get_at(1, 1).0, BaseTile::Empty);
    assert_eq!(a.rooms[1].get_at(1, 1).0, BaseTile::Empty);
}

#[test]
fn attach_refuses_a_room_that_leaves_the_coordinate_range() {
    let mut first = Room::new(0, 0, 3, 3);
    first.set_door(2, 1, DoorDir::Right);
    let mut far = Room::new(0, 0, 3, 3);
    far.set_door(0, 1, DoorDir::Left);
    let mut a = Assembly::start(&first, i32::MAX - 4, 0);
    assert!(!a.try_attach(0, 0, &far, 0));
    assert_eq!(a.rooms.len(), 1);
}

#[test]
fn a_passage_is_opened_in_every_room_that_has_the_tile() {
    // two corridors in a row, then a room hung from above on the tile they share
    let room = corridor(5, 5);
    let mut top = Room::new(0, 0, 3, 3);
    top.set_door(1, 2, DoorDir::Down);
    let mut with_up = corridor(5, 5);
    with_up.set_door(4, 0, DoorDir::Up);
    let mut b = Assembly::start(&with_up, 0, 0);
    assert!(b.try_attach(0, 1, &room, 0));
    // door 2 of room 0 is the upward door on the tile (4, 0), which room 1 holds too
    assert!(b.try_attach(0, 2, &top, 0));
    assert_eq!(b.rooms[0].get_at(4, 0).0, BaseTile::Empty);
    assert_eq!(b.rooms[1].get_at(4, 0).0, BaseTile::Empty);
    assert_eq!(b.rooms[2].get_at(4, 0).0, BaseTile::Empty);
    assert_eq!(count_conflicts(&b.rooms), 0);
    let map = GameMap::from_assembly(b);
    assert_eq!(map.get_at(4, 0).0, BaseTile::Empty);
    assert_eq!(map.get_bounds(), (0, -2, 9, 7));
}

#[test]
fn flat_map_reads_stone_where_no_room_is() {
    let mut small = Room::new(0, 0, 3, 3);
    small.set_door(2, 1, DoorDir::Right);
    let mut tall = Room::new(0, 0, 3, 7);
    tall.set_door(0, 5, DoorDir::Left);
    let mut a = Assembly::start(&small, 0, 0);
    assert!(a.try_attach(0, 0, &tall, 0));
    let map = GameMap::from_assembly(a);
    assert_eq!(map.get_bounds(), (0, -4, 5, 7));
    assert_eq!(map.width_tiles(), 5);
    assert_eq!(map.height_tiles(), 7);
    // inside the bounds, outside both rooms
    assert_eq!(map.get_at(0, -4), (BaseTile::Stone, OverlayTile::Nothing));
    assert_eq!(map.get_at(1, -1), (BaseTile::Stone, OverlayTile::Nothing));
    // outside the bounds
    assert_eq!(map.get_at(-1, 0), (BaseTile::Stone, OverlayTile::Nothing));
    assert_eq!(map.get_at(100, 100), (BaseTile::Stone, OverlayTile::Nothing));
    assert!(map.is_solid_at(100, 100));
    assert!(!map.is_ladder_at(100, 100));
    // the rooms themselves
    assert_eq!(map.get_at(1, 1), (BaseTile::Empty, OverlayTile::Nothing));
    assert_eq!(map.get_at(3, -3), (BaseTile::Empty, OverlayTile::Nothing));
    assert_eq!(map.get_at(2, 1), (BaseTile::Empty, OverlayTile::Nothing));
    assert_eq!(map.get_at(2, 0), (BaseTile::Wood, OverlayTile::Nothing));
    for ty in -4..3 {
        for tx in 0..5 {
            let mut want = (BaseTile::Stone, OverlayTile::Nothing);
            for room in map.rooms.iter().rev() {
                if let Some(t) = room.get_relative(tx, ty) {
                    if t.0 != BaseTile::NotPartOfRoom {
                        want = t;
                    }
                }
            }
            assert_eq!(map.get_at(tx, ty), want);
        }
    }
}

#[test]
fn a_closed_door_blocks_and_an_open_one_does_not() {
    let room = corridor(5, 5);
    let mut a = Assembly::start(&room, 0, 0);
    assert!(a.try_attach(0, 1, &room, 0));
    let mut map = GameMap::from_assembly(a);
    assert!(!overlaps_any_solid(&map, 4100, 2100, 600, 800));
    assert!(!map.hits_closed_door(4100, 2100, 600, 800));
    map.set_door_state(0, false, 0);
    assert!(map.hits_closed_door(4100, 2100, 600, 800));
    assert!(overlaps_any_solid(&map, 4100, 2100, 600, 800));
    assert!(map.hits_closed_door(3500, 2100, 600, 800));
    assert!(!map.hits_closed_door(3400, 2100, 600, 800));
    assert!(!map.hits_closed_door(5000, 2100, 600, 800));
    // a closed door stops a mover although the tile is empty
    let r = integrate_kinematic(
        &map,
        &BoundingBox { x: 3100, y: 2100, w: 600, h: 800, vx: 500, vy: 0 },
        false,
    );
    assert!(r.on_right);
    assert_eq!(r.new_bb.x, 3399);
    map.set_door_state(0, true, 2);
    assert!(map.hits_closed_door(4100, 2100, 600, 800));
    map.tick_doors();
    assert_eq!(map.doors[0].closed_frames, 1);
    assert!(map.hits_closed_door(4100, 2100, 600, 800));
    map.tick_doors();
    assert!(!map.hits_closed_door(4100, 2100, 600, 800));
    map.tick_doors();
    assert_eq!(map.doors[0].closed_frames, 0);
    assert!(map.doors[0].open);
}

#[test]
fn room_lookup_draws_the_rooms_in_by_half_a_tile() {
    let room = corridor(5, 5);
    let mut a = Assembly::start(&room, 0, 0);
    assert!(a.try_attach(0, 1, &room, 0));
    let map = GameMap::from_assembly(a);
    assert_eq!(map.get_room_at(2000, 2000), Some(0));
    assert_eq!(map.get_room_at(500, 500), Some(0));
    assert_eq!(map.get_room_at(499, 500), None);
    assert_eq!(map.get_room_at(4499, 2500), Some(0));
    assert_eq!(map.get_room_at(4500, 2500), Some(1));
    assert_eq!(map.get_room_at(8499, 4499), Some(1));
    assert_eq!(map.get_room_at(8500, 2500), None);
    assert_eq!(map.get_room_at(2000, 4500), None);
    assert_eq!(map.get_room_at(-3000, 2000), None);
}

#[test]
fn spawn_points_come_out_in_world_coordinates() {
    let mut room = corridor(5, 5);
    assert!(room.add_template(1500, 2500, EnemyKind::Slime));
    assert!(room.add_template(3500, 1500, EnemyKind::Bat));
    let mut a = Assembly::start(&room, 0, 0);
    assert!(a.try_attach(0, 1, &room, 0));
    let map = GameMap::from_assembly(a);
    assert_eq!(
        map.get_enemies_from_templates(),
        vec![
            SpawnTemplate { x: 1500, y: 2500, kind: EnemyKind::Slime },
            SpawnTemplate { x: 3500, y: 1500, kind: EnemyKind::Bat },
            SpawnTemplate { x: 5500, y: 2500, kind: EnemyKind::Slime },
            SpawnTemplate { x: 7500, y: 1500, kind: EnemyKind::Bat },
        ]
    );
}

#[test]
fn helper_lists_hold_the_rooms_and_doors_asked_for() {
    let room = corridor(5, 5);
    let mut a = Assembly::start(&room, 0, 0);
    assert!(a.try_attach(0, 1, &room, 0));
    assert_eq!(rooms_with_doors(&a), vec![0, 1]);
    assert_eq!(doors_facing(&room, DoorDir::Left), vec![0]);
    assert_eq!(doors_facing(&room, DoorDir::Right), vec![1]);
    assert_eq!(doors_facing(&room, DoorDir::Up), Vec::<usize>::new());
}

#[test]
fn random_assembly_gives_a_sound_dungeon() {
    let mut cross = Room::new(0, 0, 7, 7);
    cross.set_door(0, 3, DoorDir::Left);
    cross.set_door(6, 3, DoorDir::Right);
    cross.set_door(3, 0, DoorDir::Up);
    cross.set_door(3, 6, DoorDir::Down);
    let templates = vec![corridor(5, 5), corridor(9, 5), cross];
    for target in [1usize, 2, 5, 12] {
        for _ in 0..5 {
            let map = GameMap::new_random(&templates, target);
            assert!(1 <= map.rooms.len() && map.rooms.len() <= target);
            assert_eq!(map.doors.len(), map.rooms.len() - 1);
            assert_eq!(count_conflicts(&map.rooms), 0);
            assert_eq!(count_shared_anchors(&map.rooms), 0);
            assert_eq!((map.rooms[0].x, map.rooms[0].y), (0, 0));
            for room in &map.rooms {
                assert!(templates.iter().any(|t| t.w == room.w && t.h == room.h && t.doors == room.doors));
                assert!(map.x <= room.x && room.x as i64 + room.w as i64 <= map.x as i64 + map.w as i64);
                assert!(map.y <= room.y && room.y as i64 + room.h as i64 <= map.y as i64 + map.h as i64);
            }
            for d in &map.doors {
                assert_eq!(map.get_at(d.x, d.y).0, BaseTile::Empty);
                assert!(d.open);
            }
            assert_eq!(map.base.len(), (map.w * map.h) as usize);
        }
    }
}

#[test]
fn random_assembly_without_doors_stays_at_one_room() {
    let templates = vec![Room::new(0, 0, 4, 4)];
    let map = GameMap::new_random(&templates, 6);
    assert_eq!(map.rooms.len(), 1);
    assert_eq!(map.doors.len(), 0);
    assert_eq!(map.get_bounds(), (0, 0, 4, 4));
    assert_eq!(map.rooms[0].base, templates[0].base);
}

#[test]
fn random_assembly_of_corridors_places_a_second_room_and_forms_a_row() {
    // whatever the first attempt draws, a corridor fits on either end of a corridor
    let templates = vec![corridor(5, 5)];
    for _ in 0..10 {
        let map = GameMap::new_random(&templates, 4);
        assert!(2 <= map.rooms.len() && map.rooms.len() <= 4);
        assert_eq!(map.h, 5);
        assert_eq!(map.w as usize, 4 * map.rooms.len() + 1);
        assert_eq!(count_shared_anchors(&map.rooms), 0);
    }
    assert_eq!(GameMap::new_random(&templates, 2).rooms.len(), 2);
    assert_eq!(GameMap::new_random(&templates, 1).rooms.len(), 1);
}

#[test]
fn assembly_counts_its_attempts_and_stays_in_its_budget() {
    assert_eq!(ATTEMPT_BUDGET, 1000);
    // nothing can ever be hung: the whole budget is used
    let plain = vec![Room::new(0, 0, 4, 4)];
    let (map, attempts) = GameMap::assemble(&plain, 3);
    assert_eq!(map.rooms.len(), 1);
    assert_eq!(attempts, 1000);
    // a target of one room needs no attempt
    let (map, attempts) = GameMap::assemble(&plain, 1);
    assert_eq!(map.rooms.len(), 1);
    assert_eq!(attempts, 0);
    // every first attempt fits: a target of two takes one attempt
    let templates = vec![corridor(5, 5)];
    let (map, attempts) = GameMap::assemble(&templates, 2);
    assert_eq!(map.rooms.len(), 2);
    assert_eq!(attempts, 1);
    for target in [3usize, 6] {
        let (map, attempts) = GameMap::assemble(&templates, target);
        assert!(attempts <= 1000);
        assert!(map.rooms.len() <= attempts as usize + 1);
        if attempts < 1000 {
            assert_eq!(map.rooms.len(), target);
        }
    }
}

#[test]
fn every_placed_room_hangs_on_its_recorded_door() {
    let mut cross = Room::new(0, 0, 7, 7);
    cross.set_door(0, 3, DoorDir::Left);
    cross.set_door(6, 3, DoorDir::Right);
    cross.set_door(3, 0, DoorDir::Up);
    cross.set_door(3, 6, DoorDir::Down);
    let templates = vec![corridor(5, 5), cross];
    let map = GameMap::new_random(&templates, 8);
    let has_door = |room: &Room, x: i32, y: i32, dir: DoorDir| {
        room.doors.iter().any(|d| room.x + d.x == x && room.y + d.y == y && d.dir == dir)
    };
    for i in 1..map.rooms.len() {
        let d = map.doors[i - 1];
        assert!(has_door(&map.rooms[i], d.x, d.y, d.dir.opposite()));
        assert!((0..i).any(|j| has_door(&map.rooms[j], d.x, d.y, d.dir)));
    }
    // a room differs from its template only on tiles of recorded doors
    for room in &map.rooms {
        let t = templates.iter().find(|t| t.w == room.w && t.h == room.h).unwrap();
        for cy in 0..room.h {
            for cx in 0..room.w {
                if room.get_absolute(cx, cy) != t.get_absolute(cx, cy) {
                    assert_eq!(room.get_absolute(cx, cy), (BaseTile::Empty, OverlayTile::Nothing));
                    let (x, y) = (room.x + cx as i32, room.y + cy as i32);
                    assert!(map.doors.iter().any(|d| d.x == x && d.y == y));
                }
            }
        }
    }
}

#[test]
fn doors_on_one_tile_are_replaced() {
    let mut room = Room::new(0, 0, 3, 3);
    room.set_door(1, 0, DoorDir::Up);
    room.set_door(1, 0, DoorDir::Down);
    assert_eq!(room.doors, vec![Door { x: 1, y: 0, dir: DoorDir::Down }]);
}

/// A room of three by three cells outside any footprint, with a door in
/// its left and in its right side.
fn open_cell() -> Room {
    let mut room = Room::new_empty(0, 0, 3, 3);
    room.set_door(0, 1, DoorDir::Left);
    room.set_door(2, 1, DoorDir::Right);
    room
}

#[test]
fn an_attempt_that_every_draw_can_hang_places_a_room() {
    // whatever door is drawn, the template has the facing door and fits there
    let templates = vec![open_cell()];
    for _ in 0..20 {
        let mut a = Assembly::start(&templates[0], 0, 0);
        assert!(a.random_attempt(&templates));
        assert_eq!(a.rooms.len(), 2);
        assert_eq!(a.doors.len(), 1);
        assert!(a.rooms[1].x == 2 || a.rooms[1].x == -2);
        assert_eq!(a.rooms[1].y, 0);
        assert_eq!(a.rooms[0].get_at(a.doors[0].x, a.doors[0].y).0, BaseTile::Empty);
        assert_eq!(a.rooms[1].get_at(a.doors[0].x, a.doors[0].y).0, BaseTile::Empty);
        assert!(a.check_wf());
    }
}

#[test]
fn an_attempt_that_no_draw_can_hang_places_none() {
    // no doors at all
    let plain = vec![Room::new(0, 0, 4, 4)];
    let mut a = Assembly::start(&plain[0], 0, 0);
    for _ in 0..20 {
        assert!(!a.random_attempt(&plain));
    }
    assert_eq!(a.rooms.len(), 1);
    assert_eq!(a.rooms[0].base, plain[0].base);
    // doors that all look the same way
    let mut one_way = Room::new(0, 0, 4, 4);
    one_way.set_door(3, 1, DoorDir::Right);
    let templates = vec![one_way];
    let mut b = Assembly::start(&templates[0], 0, 0);
    for _ in 0..20 {
        assert!(!b.random_attempt(&templates));
    }
    assert_eq!(b.rooms.len(), 1);
    assert_eq!(b.doors.len(), 0);
    assert_eq!((b.x, b.y, b.w, b.h), (0, 0, 4, 4));
}
