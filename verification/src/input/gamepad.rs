//! Gamepad events.

use vstd::prelude::*;

use crate::error::FluxError;

verus! {

/// Gamepad buttons.
#[derive(Debug, Clone, Copy, PartialEq, Eq, Structural)]
pub enum GamepadButton {
    A,
    B,
    X,
    Y,
    LeftBumper,
    RightBumper,
    Back,
    Start,
    Guide,
    LeftStick,
    RightStick,
    DPadUp,
    DPadDown,
    DPadLeft,
    DPadRight,
}

/// Gamepad axes.
#[derive(Debug, Clone, Copy, PartialEq, Eq, Structural)]
pub enum GamepadAxis {
    LeftStickX,
    LeftStickY,
    RightStickX,
    RightStickY,
    LeftTrigger,
    RightTrigger,
}

/// A gamepad event from the client.
#[derive(Debug, Clone, Copy, PartialEq, Eq, Structural)]
pub enum GamepadEvent {
    /// A button changed.
    Button { gamepad_id: u8, button: GamepadButton, pressed: bool },
    /// An axis changed. Its position is the bit pattern of a single-precision
    /// number.
    Axis { gamepad_id: u8, axis: GamepadAxis, value_bits: u32 },
    /// A gamepad was plugged in.
    Connected { gamepad_id: u8 },
    /// A gamepad was unplugged.
    Disconnected { gamepad_id: u8 },
}

/// Takes in gamepad events.
pub struct GamepadSink {
    _private: (),
}

impl GamepadSink {
    /// A sink; it can always be had.
    pub fn new() -> (result: Result<Self, FluxError>)
        ensures
            result is Ok,
    {
        Ok(Self { _private: () })
    }

    /// Takes in an event. No virtual gamepad is attached, so every event is
    /// accepted and none has an effect.
    pub fn inject(&self, _event: &GamepadEvent) -> (result: Result<(), FluxError>)
        ensures
            result is Ok,
    {
        Ok(())
    }
}

} // verus!
