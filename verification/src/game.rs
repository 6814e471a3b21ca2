//! The decisions of the apartment game: its rooms, the inventory, the
//! flashlight and movement input.
use vstd::prelude::*;

verus! {

/// The most items the inventory holds.
pub const INVENTORY_MAX: u16 = 5;

/// The rooms of the apartment.
#[allow(non_camel_case_types)]
#[derive(Debug, Clone, Copy, PartialEq, Eq, Structural, Hash)]
pub enum Rooms {
    Hallway,
    Room_X,
}

impl Default for Rooms {
    /// The game starts in the hallway.
    fn default() -> (r: Self)
        ensures
            r == Rooms::Hallway,
    {
        Rooms::Hallway
    }
}

/// An item the player can carry.
#[derive(Debug, Clone, Copy, PartialEq, Eq, Structural)]
pub enum Item {
    FlashLightItem,
}

/// The player's inventory.
#[derive(Debug)]
pub struct Inventory {
    pub items: Vec<Item>,
    pub capacity: u16,
}

impl Inventory {
    /// An empty inventory with room for `INVENTORY_MAX` items.
    pub fn new() -> (r: Self)
        ensures
            r.items@ == Seq::<Item>::empty(),
            r.capacity == INVENTORY_MAX,
    {
        Self { items: Vec::new(), capacity: INVENTORY_MAX }
    }
}

/// Whether the flashlight is switched on.
#[derive(Debug, Clone, Copy, PartialEq, Eq, Structural, Hash)]
pub enum FlashLightState {
    On,
    Off,
}

impl Default for FlashLightState {
    /// The flashlight starts switched off.
    fn default() -> (r: Self)
        ensures
            r == FlashLightState::Off,
    {
        FlashLightState::Off
    }
}

/// What pressing the flashlight key changes: the state to enter and whether the
/// flashlight is on afterwards (a click sound plays with every change).
#[derive(Debug, Clone, Copy, PartialEq, Eq, Structural)]
pub struct FlashLightChange {
    pub next_state: FlashLightState,
    pub now_on: bool,
}

/// The change of the flashlight for one frame: none unless the key was just
/// pressed, else a switch to the other state.
pub fn change_flashlight_state(key_just_pressed: bool, flashlight_on: bool) -> (r: Option<
    FlashLightChange,
>)
    ensures
        r is None <==> !key_just_pressed,
        r matches Some(c) ==> c.now_on == !flashlight_on && c.next_state == (if flashlight_on {
            FlashLightState::Off
        } else {
            FlashLightState::On
        }),
{
    if key_just_pressed {
        let next_state = if !flashlight_on {
            FlashLightState::On
        } else {
            FlashLightState::Off
        };
        Some(FlashLightChange { next_state, now_on: !flashlight_on })
    } else {
        None
    }
}

/// Which way an animation plays.
#[derive(Debug, Clone, Copy, PartialEq, Eq, Structural)]
pub enum PlaybackDirection {
    /// At speed 1.
    Forward,
    /// At speed -1.
    Backward,
}

/// How to (re)start a flashlight animation.
#[derive(Debug, Clone, Copy, PartialEq, Eq, Structural)]
pub struct AnimationPlan {
    /// Restart it from its beginning.
    pub replay: bool,
    pub direction: PlaybackDirection,
}

/// How to play a flashlight animation: `idle` is `None` when the animation is
/// not active, else whether it has finished or is paused; `on` is whether the
/// flashlight is on.
pub fn play_animation(idle: Option<bool>, on: bool) -> (r: AnimationPlan)
    ensures
        idle == Some(true) && on ==> r == (AnimationPlan {
            replay: true,
            direction: PlaybackDirection::Backward,
        }),
        idle == Some(true) && !on ==> r == (AnimationPlan {
            replay: false,
            direction: PlaybackDirection::Forward,
        }),
        idle != Some(true) ==> r == (AnimationPlan {
            replay: false,
            direction: PlaybackDirection::Backward,
        }),
{
    match idle {
        Some(true) => {
            if on {
                AnimationPlan { replay: true, direction: PlaybackDirection::Backward }
            } else {
                AnimationPlan { replay: false, direction: PlaybackDirection::Forward }
            }
        },
        _ => AnimationPlan { replay: false, direction: PlaybackDirection::Backward },
    }
}

/// The direction asked for by the movement keys, as `(x, y)`: `W` adds one to
/// `y`, `S` takes one from it, `A` takes one from `x`, `D` adds one to it.
pub fn movement_input(w: bool, s: bool, a: bool, d: bool) -> (r: (i8, i8))
    ensures
        r.0 == (if d { 1int } else { 0int }) - (if a { 1int } else { 0int }),
        r.1 == (if w { 1int } else { 0int }) - (if s { 1int } else { 0int }),
{
    let mut x: i8 = 0;
    let mut y: i8 = 0;
    if w {
        y = y + 1;
    }
    if s {
        y = y - 1;
    }
    if a {
        x = x - 1;
    }
    if d {
        x = x + 1;
    }
    (x, y)
}

} // verus!
