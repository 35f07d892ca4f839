use platformer_core::assembly::Assembly;
use platformer_core::audit::{check_anchors, check_bounds, check_conflicts, check_passage, flat_tile_of};
use platformer_core::game_map::GameMap;
use platformer_core::room::Room;
use platformer_core::tiles::{BaseTile, DoorDir, OverlayTile};

fn corridor(w: u32, h: u32) -> Room {
    let mut room = Room::new(0, 0, w, h);
    room.set_door(0, (h / 2) as i32, DoorDir::Left);
    room.set_door(w as i32 - 1, (h / 2) as i32, DoorDir::Right);
    room
}

fn two_rooms() -> Assembly {
    let room = corridor(5, 5);
    let mut a = Assembly::start(&room, 0, 0);
    assert!(a.try_attach(0, 1, &room, 0));
    a
}

#[test]
fn an_assembled_dungeon_passes_the_audit() {
    let a = two_rooms();
    assert!(a.check_wf());
    let map = GameMap::from_assembly(a);
    assert!(map.check_wf());
}

#[test]
fn random_dungeons_pass_the_audit() {
    let mut cross = Room::new(0, 0, 7, 7);
    cross.set_door(0, 3, DoorDir::Left);
    cross.set_door(6, 3, DoorDir::Right);
    cross.set_door(3, 0, DoorDir::Up);
    cross.set_door(3, 6, DoorDir::Down);
    let templates = vec![corridor(5, 5), corridor(8, 3), cross];
    for target in [1usize, 3, 9] {
        let map = GameMap::new_random(&templates, target);
        assert!(map.check_wf());
        assert!(check_conflicts(&map.rooms));
        assert!(map.rooms.len() <= target);
    }
}

#[test]
fn the_audit_finds_a_conflict() {
    let mut a = two_rooms();
    assert!(check_conflicts(&a.rooms));
    a.rooms[1].set_base_absolute(0, 0, BaseTile::Stone);
    assert!(!check_conflicts(&a.rooms));
    assert!(!a.check_wf());
}

#[test]
fn the_audit_finds_a_closed_passage() {
    let mut a = two_rooms();
    assert!(check_passage(&a.rooms, 4, 2));
    assert!(!check_passage(&a.rooms, 4, 1));
    assert!(!check_passage(&a.rooms, 100, 100));
    a.rooms[0].set_base_absolute(4, 2, BaseTile::Wood);
    assert!(!check_passage(&a.rooms, 4, 2));
    assert!(!a.check_wf());
}

#[test]
fn the_audit_finds_wrong_bounds() {
    let mut a = two_rooms();
    assert!(check_bounds(&a.rooms, 0, 0, 9, 5));
    assert!(!check_bounds(&a.rooms, 0, 0, 10, 5));
    assert!(!check_bounds(&a.rooms, -1, 0, 10, 5));
    assert!(!check_bounds(&a.rooms, 0, 0, 8, 5));
    a.w = 10;
    assert!(!a.check_wf());
}

#[test]
fn the_audit_finds_a_missing_door_and_a_broken_room() {
    let mut a = two_rooms();
    a.doors.clear();
    assert!(!a.check_wf());
    let mut b = two_rooms();
    b.rooms[0].base.pop();
    assert!(!b.check_wf());
}

#[test]
fn the_audit_finds_a_stale_buffer() {
    let mut map = GameMap::from_assembly(two_rooms());
    assert_eq!(flat_tile_of(&map.rooms, 1, 1), (BaseTile::Empty, OverlayTile::Nothing));
    assert_eq!(flat_tile_of(&map.rooms, 4, 2), (BaseTile::Empty, OverlayTile::Nothing));
    assert_eq!(flat_tile_of(&map.rooms, 50, 50), (BaseTile::Stone, OverlayTile::Nothing));
    map.rooms[0].set_overlay_absolute(1, 1, OverlayTile::Ladder);
    assert!(!map.check_wf());
    // the cell (1, 1) of a buffer nine tiles wide
    map.overlay[10] = OverlayTile::Ladder;
    assert!(map.check_wf());
    map.base.push(BaseTile::Stone);
    assert!(!map.check_wf());
}

#[test]
fn the_audit_finds_two_rooms_on_one_anchor() {
    let mut a = two_rooms();
    assert!(check_anchors(&a.rooms));
    a.rooms[1].x = 0;
    assert!(!check_anchors(&a.rooms));
    assert!(!a.check_wf());
    let empty: Vec<Room> = Vec::new();
    assert!(check_anchors(&empty));
}

#[test]
fn the_audit_finds_an_overlay_left_on_a_passage() {
    let mut a = two_rooms();
    assert!(a.check_wf());
    a.rooms[0].set_overlay_absolute(4, 2, OverlayTile::Ladder);
    assert!(!check_passage(&a.rooms, 4, 2));
    assert!(!a.check_wf());
}
