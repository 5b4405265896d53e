//! Scancodes and the key codes of Linux.

use vstd::prelude::*;

verus! {

/// The largest scancode that is its own key code.
pub const MAX_DIRECT_SCANCODE: u16 = 0x58;

/// The key code of an extended key, by the byte behind its prefix.
pub open spec fn extended_key(base: u16) -> Option<u32> {
    if base == 0x1C {
        Some(96)
    } else if base == 0x1D {
        Some(97)
    } else if base == 0x38 {
        Some(100)
    } else if base == 0x47 {
        Some(102)
    } else if base == 0x48 {
        Some(103)
    } else if base == 0x49 {
        Some(104)
    } else if base == 0x4B {
        Some(105)
    } else if base == 0x4D {
        Some(106)
    } else if base == 0x4F {
        Some(107)
    } else if base == 0x50 {
        Some(108)
    } else if base == 0x51 {
        Some(109)
    } else if base == 0x52 {
        Some(110)
    } else if base == 0x53 {
        Some(111)
    } else if base == 0x5B {
        Some(125)
    } else if base == 0x5C {
        Some(126)
    } else {
        None
    }
}

/// The key code of a scancode: an extended key has `0xE0` in its high byte, the
/// main block is its own key code, and nothing else is known.
pub open spec fn key_code(scancode: u16) -> Option<u32> {
    if scancode / 256 == 0xE0 {
        extended_key(scancode % 256)
    } else if 1 <= scancode <= MAX_DIRECT_SCANCODE {
        Some(scancode as u32)
    } else {
        None
    }
}

/// The key code of a scancode, if it has one.
pub fn scancode_to_evdev(scancode: u16) -> (code: Option<u32>)
    ensures
        code == key_code(scancode),
{
    if scancode / 256 == 0xE0 {
        return extended_to_evdev(scancode % 256);
    }
    if scancode >= 0x01 && scancode <= MAX_DIRECT_SCANCODE {
        return Some(scancode as u32);
    }
    None
}

/// The key code of an extended key, by the byte behind its prefix.
pub fn extended_to_evdev(base: u16) -> (code: Option<u32>)
    ensures
        code == extended_key(base),
{
    let code: u32 = match base {
        0x1C => 96,  // keypad enter
        0x1D => 97,  // right control
        0x38 => 100,  // right alt
        0x47 => 102,  // home
        0x48 => 103,  // up
        0x49 => 104,  // page up
        0x4B => 105,  // left
        0x4D => 106,  // right
        0x4F => 107,  // end
        0x50 => 108,  // down
        0x51 => 109,  // page down
        0x52 => 110,  // insert
        0x53 => 111,  // delete
        0x5B => 125,  // left meta
        0x5C => 126,  // right meta
        _ => {
            return None;
        },
    };
    Some(code)
}

/// No two scancodes share a key code.
pub proof fn law_key_codes_are_distinct(a: u16, b: u16)
    requires
        key_code(a) is Some,
        key_code(a) == key_code(b),
    ensures
        a == b,
{
}

/// The keys of the main block are their own codes, and no other scancode below the
/// extended ones has any.
pub proof fn law_main_keys_keep_their_codes(scancode: u16)
    requires
        scancode < 0xE000 || scancode > 0xE0FF,
    ensures
        key_code(scancode) matches Some(code) ==> code == scancode,
        key_code(scancode) is Some <==> 1 <= scancode <= 88,
{
}

/// The codes of the extended keys rise with their scancodes. There are fifteen, and their
/// codes are those from 96 to 126 that Linux gives them.
pub proof fn law_extended_keys_rise(a: u16, b: u16)
    requires
        0xE000 <= a < b <= 0xE0FF,
    ensures
        key_code(a) is Some && key_code(b) is Some ==> key_code(a)->0 < key_code(b)->0,
        key_code(a) matches Some(code) ==> code == 96 || code == 97 || code == 100 || 102 <= code <= 111
            || code == 125 || code == 126,
        key_code(a) is Some <==> a == 0xE01C || a == 0xE01D || a == 0xE038 || 0xE047 <= a <= 0xE049 || a
            == 0xE04B || a == 0xE04D || 0xE04F <= a <= 0xE053 || a == 0xE05B || a == 0xE05C,
{
}

/// An extended key is told by the byte behind its prefix, whichever way it is looked up.
pub proof fn law_extended_keys_by_their_byte(base: u16)
    ensures
        base < 0x100 ==> extended_key(base) == key_code((0xE000 + base) as u16),
        base >= 0x100 ==> extended_key(base) is None,
        MAX_DIRECT_SCANCODE == 88,
{
}

/// The codes of the extended keys, by the byte behind their prefix.
pub proof fn law_extended_key_codes(base: u16)
    ensures
        extended_key(0x1C) == Some(96u32),
        extended_key(0x1D) == Some(97u32),
        extended_key(0x38) == Some(100u32),
        extended_key(0x47) == Some(102u32),
        extended_key(0x48) == Some(103u32),
        extended_key(0x49) == Some(104u32),
        extended_key(0x4B) == Some(105u32),
        extended_key(0x4D) == Some(106u32),
        extended_key(0x4F) == Some(107u32),
        extended_key(0x50) == Some(108u32),
        extended_key(0x51) == Some(109u32),
        extended_key(0x52) == Some(110u32),
        extended_key(0x53) == Some(111u32),
        extended_key(0x5B) == Some(125u32),
        extended_key(0x5C) == Some(126u32),
        extended_key(base) is Some <==> base == 0x1C || base == 0x1D || base == 0x38 || 0x47 <= base
            <= 0x49 || base == 0x4B || base == 0x4D || 0x4F <= base <= 0x53 || base == 0x5B || base
            == 0x5C,
{
}

} // verus!
