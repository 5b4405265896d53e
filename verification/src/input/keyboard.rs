//! Keyboard events.

use vstd::prelude::*;

use crate::error::FluxError;

verus! {

/// A keyboard event from the client.
#[derive(Debug, Clone, Copy, PartialEq, Eq, Structural)]
pub enum KeyboardEvent {
    /// A key went down.
    KeyDown { scan_code: u16, key_code: Option<u16>, modifiers: u16 },
    /// A key went up.
    KeyUp { scan_code: u16, key_code: Option<u16>, modifiers: u16 },
}

/// Modifiers that are held: shift, control, alt, meta, caps lock and num lock,
/// from the lowest bit up.
#[derive(Debug, Clone, Copy, PartialEq, Eq, Structural)]
pub struct ModifierFlags {
    bits: u16,
}

impl ModifierFlags {
    pub const SHIFT: u16 = 0x0001;

    pub const CTRL: u16 = 0x0002;

    pub const ALT: u16 = 0x0004;

    pub const META: u16 = 0x0008;

    pub const CAPS_LOCK: u16 = 0x0010;

    pub const NUM_LOCK: u16 = 0x0020;

    /// The bits of the modifiers.
    pub closed spec fn mask(self) -> u16 {
        self.bits
    }

    /// The modifiers in a mask; bits without a meaning are dropped.
    pub fn from_bits_truncate(bits: u16) -> (flags: Self)
        ensures
            flags.mask() == bits % 64,
    {
        Self { bits: bits % 64 }
    }

    /// The bits of the modifiers.
    pub fn bits(&self) -> (bits: u16)
        ensures
            bits == self.mask(),
    {
        self.bits
    }
}

impl KeyboardEvent {
    /// The mask of modifiers that came with the event.
    pub open spec fn raw_modifiers(self) -> u16 {
        match self {
            KeyboardEvent::KeyDown { modifiers, .. } => modifiers,
            KeyboardEvent::KeyUp { modifiers, .. } => modifiers,
        }
    }

    /// The modifiers that are held during the event.
    pub fn modifier_flags(&self) -> (flags: ModifierFlags)
        ensures
            flags.mask() == self.raw_modifiers() % 64,
    {
        match self {
            KeyboardEvent::KeyDown { modifiers, .. } | KeyboardEvent::KeyUp { modifiers, .. } => {
                ModifierFlags::from_bits_truncate(*modifiers)
            },
        }
    }
}

/// Flag of a key that goes up.
pub const KEYEVENTF_KEYUP: u32 = 0x0002;

/// Flag of a key that is told by its scancode.
pub const KEYEVENTF_SCANCODE: u32 = 0x0008;

/// A key as the operating system takes it.
#[derive(Debug, Clone, Copy, PartialEq, Eq, Structural)]
pub struct KeyInput {
    pub vk_code: u16,
    pub scan_code: u16,
    pub flags: u32,
}

/// The key of an event: by its scancode where it has one, else by its virtual
/// code. An event with neither is no key.
pub open spec fn key_input(event: KeyboardEvent) -> Option<KeyInput> {
    let (scan_code, key_code, up) = match event {
        KeyboardEvent::KeyDown { scan_code, key_code, .. } => (scan_code, key_code, 0u32),
        KeyboardEvent::KeyUp { scan_code, key_code, .. } => (scan_code, key_code, KEYEVENTF_KEYUP),
    };
    let vk_code = match key_code {
        Some(code) => code,
        None => 0,
    };
    if scan_code > 0 {
        Some(KeyInput { vk_code: 0, scan_code, flags: (up + KEYEVENTF_SCANCODE) as u32 })
    } else if vk_code != 0 {
        Some(KeyInput { vk_code, scan_code: 0, flags: up })
    } else {
        None
    }
}

/// Turns keyboard events into keys of the host.
pub struct KeyboardSink {
    _private: (),
}

impl KeyboardSink {
    /// A sink; it can always be had.
    pub fn new() -> (result: Result<Self, FluxError>)
        ensures
            result is Ok,
    {
        Ok(Self { _private: () })
    }

    /// The key to inject for an event, if there is one.
    pub fn inject(&self, event: &KeyboardEvent) -> (result: Result<Option<KeyInput>, FluxError>)
        ensures
            result matches Ok(input) && input == key_input(*event),
    {
        let (scan, key, up): (u16, Option<u16>, bool) = match event {
            KeyboardEvent::KeyDown { scan_code, key_code, .. } => (*scan_code, *key_code, false),
            KeyboardEvent::KeyUp { scan_code, key_code, .. } => (*scan_code, *key_code, true),
        };
        let mut flags: u32 = if up {
            KEYEVENTF_KEYUP
        } else {
            0
        };
        let mut scan_code: u16 = 0;
        let mut vk_code: u16 = 0;
        if scan > 0 {
            flags = flags + KEYEVENTF_SCANCODE;
            scan_code = scan;
        } else if let Some(code) = key {
            vk_code = code;
        }
        if scan_code == 0 && vk_code == 0 {
            return Ok(None);
        }
        Ok(Some(KeyInput { vk_code, scan_code, flags }))
    }
}

/// A key is told by its scancode where it has one, with the flag 8, and else by its
/// virtual code, with none. Going up adds the flag 2, and modifiers change nothing.
pub proof fn law_keys_are_told(
    scan_code: u16,
    key_code: Option<u16>,
    modifiers: u16,
    other_modifiers: u16,
)
    ensures
        ({
            let down = key_input(KeyboardEvent::KeyDown { scan_code, key_code, modifiers });
            let up = key_input(
                KeyboardEvent::KeyUp { scan_code, key_code, modifiers: other_modifiers },
            );
            &&& down is Some <==> scan_code != 0 || (key_code matches Some(code) && code != 0)
            &&& down is None ==> up is None
            &&& down matches Some(key) ==> {
                &&& up == Some(KeyInput { flags: (key.flags + 2) as u32, ..key })
                &&& scan_code != 0 ==> key.scan_code == scan_code && key.vk_code == 0 && key.flags == 8
                &&& scan_code == 0 ==> key.scan_code == 0 && Some(key.vk_code) == key_code
                    && key.flags == 0
            }
        }),
{
}

/// Each modifier has a bit of its own, from the lowest up.
pub proof fn law_modifiers_have_their_bits()
    ensures
        ModifierFlags::SHIFT == 1,
        ModifierFlags::CTRL == 2,
        ModifierFlags::ALT == 4,
        ModifierFlags::META == 8,
        ModifierFlags::CAPS_LOCK == 16,
        ModifierFlags::NUM_LOCK == 32,
{
}

/// The modifiers of an event are those that it came with.
pub proof fn law_events_carry_their_modifiers(
    scan_code: u16,
    key_code: Option<u16>,
    modifiers: u16,
)
    ensures
        (KeyboardEvent::KeyDown { scan_code, key_code, modifiers }).raw_modifiers() == modifiers,
        (KeyboardEvent::KeyUp { scan_code, key_code, modifiers }).raw_modifiers() == modifiers,
        KEYEVENTF_KEYUP == 2,
        KEYEVENTF_SCANCODE == 8,
{
}

} // verus!
