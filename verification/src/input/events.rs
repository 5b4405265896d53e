//! Input events and their delivery.

use vstd::prelude::*;

use crate::input::gamepad::GamepadEvent;
use crate::input::keyboard::KeyboardEvent;
use crate::input::mouse::MouseEvent;

verus! {

/// An input event from the client.
#[derive(Debug, Clone, Copy, PartialEq, Eq, Structural)]
pub enum InputEvent {
    Keyboard(KeyboardEvent),
    Mouse(MouseEvent),
    Gamepad(GamepadEvent),
}

/// Urgency of delivery.
#[derive(Debug, Clone, Copy, PartialEq, Eq, Structural)]
pub enum EventPriority {
    High,
    Normal,
    Low,
}

impl InputEvent {
    /// How urgent an event is: relative motions are, everything else is not.
    pub fn priority(&self) -> (priority: EventPriority)
        ensures
            priority == if *self matches InputEvent::Mouse(MouseEvent::Move { .. }) {
                EventPriority::High
            } else {
                EventPriority::Normal
            },
    {
        match self {
            Self::Mouse(MouseEvent::Move { .. }) => EventPriority::High,
            Self::Keyboard(_) => EventPriority::Normal,
            Self::Mouse(_) => EventPriority::Normal,
            Self::Gamepad(_) => EventPriority::Normal,
        }
    }
}

} // verus!
