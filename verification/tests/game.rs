use rustlab::game::{
    change_flashlight_state, movement_input, play_animation, AnimationPlan, FlashLightState,
    Inventory, PlaybackDirection, Rooms, INVENTORY_MAX,
};

#[test]
fn default_room() {
    let default_room = Rooms::default();
    assert_eq!(default_room, Rooms::Hallway);
}

#[test]
fn flashlight_starts_off() {
    assert_eq!(FlashLightState::default(), FlashLightState::Off);
}

#[test]
fn inventory_starts_empty() {
    let inv = Inventory::new();
    assert!(inv.items.is_empty());
    assert_eq!(inv.capacity, INVENTORY_MAX);
    assert_eq!(inv.capacity, 5);
}

#[test]
fn flashlight_key_toggles() {
    assert_eq!(change_flashlight_state(false, true), None);
    let on = change_flashlight_state(true, false).unwrap();
    assert_eq!(on.next_state, FlashLightState::On);
    assert!(on.now_on);
    let off = change_flashlight_state(true, on.now_on).unwrap();
    assert_eq!(off.next_state, FlashLightState::Off);
    assert!(!off.now_on);
}

#[test]
fn animation_plans() {
    assert_eq!(
        play_animation(Some(true), true),
        AnimationPlan { replay: true, direction: PlaybackDirection::Backward }
    );
    assert_eq!(
        play_animation(Some(true), false),
        AnimationPlan { replay: false, direction: PlaybackDirection::Forward }
    );
    assert_eq!(
        play_animation(Some(false), false),
        AnimationPlan { replay: false, direction: PlaybackDirection::Backward }
    );
    assert_eq!(
        play_animation(None, true),
        AnimationPlan { replay: false, direction: PlaybackDirection::Backward }
    );
}

#[test]
fn movement_keys() {
    assert_eq!(movement_input(true, false, false, true), (1, 1));
    assert_eq!(movement_input(true, true, true, true), (0, 0));
    assert_eq!(movement_input(false, true, true, false), (-1, -1));
}
