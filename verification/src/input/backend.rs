//! Ways of injecting input, and the codes that they take.

use vstd::prelude::*;

use crate::error::FluxError;
use crate::input::mouse::MouseButton;

verus! {

/// Ways of injecting input on Linux.
#[derive(Debug, Clone, Copy, PartialEq, Eq, Structural)]
pub enum InputBackendKind {
    Portal,
    Libei,
    Uinput,
}

/// A backend that accepts every event and injects none.
pub struct NoopInputBackend {
    kind: InputBackendKind,
}

impl NoopInputBackend {
    /// The way that the backend stands in for.
    pub closed spec fn stands_for(self) -> InputBackendKind {
        self.kind
    }

    /// A backend that stands in for a way of injecting.
    pub fn new(kind: InputBackendKind) -> (backend: Self)
        ensures
            backend.stands_for() == kind,
    {
        Self { kind }
    }

    /// The name of the backend.
    pub fn name(&self) -> (name: &'static str)
        ensures
            name@ == "noop"@,
    {
        "noop"
    }

    /// Whether the pointer can be placed: what the backend stands in for decides,
    /// and only uinput cannot.
    pub fn supports_absolute(&self) -> (supported: bool)
        ensures
            supported == (self.stands_for() != InputBackendKind::Uinput),
    {
        self.kind != InputBackendKind::Uinput
    }

    /// Accepts a button.
    pub fn pointer_button(&self, _button: MouseButton, _down: bool) -> (result: Result<(), FluxError>)
        ensures
            result is Ok,
    {
        Ok(())
    }

    /// Accepts a key.
    pub fn key(&self, _evdev_code: u32, _down: bool) -> (result: Result<(), FluxError>)
        ensures
            result is Ok,
    {
        Ok(())
    }
}

/// Whether the desktop portal is to be tried first.
pub fn tries_portal(kind: InputBackendKind) -> (tried: bool)
    ensures
        tried == (kind == InputBackendKind::Portal),
{
    kind == InputBackendKind::Portal
}

/// The backend where no way of injecting is available.
pub fn select_input_backend(kind: InputBackendKind) -> (backend: NoopInputBackend)
    ensures
        backend.stands_for() == kind,
{
    NoopInputBackend::new(kind)
}

/// The Linux code of a mouse button.
pub open spec fn button_code(button: MouseButton) -> i32 {
    match button {
        MouseButton::Left => 0x110,
        MouseButton::Right => 0x111,
        MouseButton::Middle => 0x112,
        MouseButton::Back => 0x113,
        MouseButton::Forward => 0x114,
    }
}

/// The Linux code of a mouse button.
pub fn evdev_button(button: MouseButton) -> (code: i32)
    ensures
        code == button_code(button),
{
    match button {
        MouseButton::Left => 0x110,
        MouseButton::Right => 0x111,
        MouseButton::Middle => 0x112,
        MouseButton::Back => 0x113,
        MouseButton::Forward => 0x114,
    }
}

/// States of a key or a button.
#[derive(Debug, Clone, Copy, PartialEq, Eq, Structural)]
pub enum KeyState {
    Pressed,
    Released,
}

/// The state of a key that is down or not.
pub fn key_state(down: bool) -> (state: KeyState)
    ensures
        state == if down {
            KeyState::Pressed
        } else {
            KeyState::Released
        },
{
    if down {
        KeyState::Pressed
    } else {
        KeyState::Released
    }
}

/// The codes of the buttons follow each other from 272 on: left, right, middle, and the
/// two extra ones.
pub proof fn law_button_codes_follow()
    ensures
        button_code(MouseButton::Left) == 272,
        button_code(MouseButton::Right) == button_code(MouseButton::Left) + 1,
        button_code(MouseButton::Middle) == button_code(MouseButton::Right) + 1,
        button_code(MouseButton::Back) == button_code(MouseButton::Middle) + 1,
        button_code(MouseButton::Forward) == button_code(MouseButton::Back) + 1,
{
}

} // verus!
