use platformer_core::animation::{AnimationConfig, AnimationConfigResult, AnimationHandler};
use platformer_core::enemies::{EnemyHitResult, EnemyHitType, WormAnimationState};
use platformer_core::atlas::AtlasRect;
use platformer_core::input::InputState;
use platformer_core::item::ItemType;
use platformer_core::tiles::Dir;

#[test]
fn config_keeps_its_three_numbers() {
    let c = AnimationConfigResult::new(3, 9, 4);
    assert_eq!((c.start, c.end, c.dur), (3, 9, 4));
}

#[test]
fn worm_moves_through_six_frames_of_ten_steps() {
    assert_eq!(WormAnimationState::Moving.get_config(), AnimationConfigResult::new(0, 5, 10));
    let mut h = AnimationHandler::new(WormAnimationState::Moving);
    assert_eq!(h.current_frame, 0);
    assert_eq!(h.get_atlas_index(), 0);
    for _ in 0..9 {
        h.increment_frame();
    }
    assert_eq!(h.get_atlas_index(), 0);
    h.increment_frame();
    assert_eq!(h.get_atlas_index(), 1);
    for _ in 0..49 {
        h.increment_frame();
    }
    assert_eq!(h.current_frame, 59);
    assert_eq!(h.get_atlas_index(), 5);
    h.increment_frame();
    assert_eq!(h.get_atlas_index(), 0);
}

#[test]
fn setting_the_same_state_keeps_the_frame_count() {
    let mut h = AnimationHandler::new(WormAnimationState::Moving);
    h.increment_frame();
    h.increment_frame();
    h.set_state(WormAnimationState::Moving);
    assert_eq!(h.current_frame, 2);
    assert!(*h.current_state() == WormAnimationState::Moving);
}

#[derive(Clone, Copy, PartialEq, Debug)]
enum Lamp {
    Off,
    Blinking,
}

impl AnimationConfig for Lamp {
    fn config(&self) -> AnimationConfigResult {
        self.get_config()
    }

    fn get_config(&self) -> AnimationConfigResult {
        match self {
            Lamp::Off => AnimationConfigResult::new(7, 7, 1),
            Lamp::Blinking => AnimationConfigResult::new(8, 9, 3),
        }
    }
}

#[test]
fn setting_another_state_starts_the_count_anew() {
    let mut h = AnimationHandler::new(Lamp::Off);
    for _ in 0..5 {
        h.increment_frame();
    }
    assert_eq!(h.get_atlas_index(), 7);
    h.set_state(Lamp::Blinking);
    assert_eq!(h.current_frame, 0);
    assert_eq!(*h.current_state(), Lamp::Blinking);
    assert_eq!(h.get_atlas_index(), 8);
    for _ in 0..3 {
        h.increment_frame();
    }
    assert_eq!(h.get_atlas_index(), 9);
    for _ in 0..3 {
        h.increment_frame();
    }
    assert_eq!(h.get_atlas_index(), 8);
}

#[test]
fn input_starts_with_nothing_held() {
    let i = InputState::default();
    assert!(!i.left && !i.right && !i.up && !i.jump && !i.down && !i.swing);
}

#[test]
fn small_types_compare_by_value() {
    assert_eq!(EnemyHitType::Swing, EnemyHitType::Swing);
    assert_ne!(EnemyHitType::Swing, EnemyHitType::Stomp);
    assert_ne!(EnemyHitResult::GotHit, EnemyHitResult::DidNotHit);
    assert_ne!(ItemType::Coin, ItemType::Box);
    assert_eq!(AtlasRect { x: 1, y: 2, w: 3, h: 4 }, AtlasRect { x: 1, y: 2, w: 3, h: 4 });
    assert_eq!(ItemType::Coin.size_px(), (5, 5));
    assert_eq!(ItemType::SmallStone.size_px(), (4, 4));
    assert_eq!(ItemType::LargeStone.size_px(), (8, 8));
    assert_eq!(ItemType::Box.size_px(), (8, 10));
    assert!(Dir::Right.goes_right());
    assert!(!Dir::Left.goes_right());
}
