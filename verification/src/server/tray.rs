//! The tray icon of the host: what it shows and what its menu does.

use vstd::prelude::*;

use crate::text::{decimal, push_decimal};

verus! {

/// What the menu does.
#[derive(Debug, Clone, Copy, PartialEq, Eq, Structural)]
pub enum TrayAction {
    ShowPin,
    ShowStatus,
    OpenConfig,
    Quit,
}

/// What the tray shows.
#[derive(Debug)]
pub struct TrayState {
    pub active_sessions: usize,
    pub server_name: String,
    pub bind_address: String,
}

impl Default for TrayState {
    /// A host without a name, an address or a session.
    fn default() -> (state: Self)
        ensures
            state.active_sessions == 0,
            state.server_name@ == Seq::<char>::empty(),
            state.bind_address@ == Seq::<char>::empty(),
    {
        TrayState {
            active_sessions: 0,
            server_name: String::new(),
            bind_address: String::new(),
        }
    }
}

impl TrayState {
    /// The first text of the status item.
    pub fn initial_status(&self) -> (text: String)
        ensures
            text@ == "Flux: "@ + self.server_name@,
    {
        let mut text = "Flux: ".to_string();
        text.append(self.server_name.as_str());
        text
    }

    /// The text of the status item.
    pub fn status_text(&self) -> (text: String)
        ensures
            text@ == "Flux: "@ + self.server_name@ + " ("@ + self.bind_address@ + ")"@,
    {
        let mut text = "Flux: ".to_string();
        text.append(self.server_name.as_str());
        text.append(" (");
        text.append(self.bind_address.as_str());
        text.append(")");
        text
    }

    /// The text of the sessions item.
    pub fn sessions_text(&self) -> (text: String)
        ensures
            text@ == "Active Sessions: "@ + decimal(self.active_sessions as nat),
    {
        let mut text = "Active Sessions: ".to_string();
        push_decimal(&mut text, self.active_sessions as u64);
        text
    }
}

/// The identifiers of the items of the menu that do something.
#[derive(Debug)]
pub struct MenuIds {
    pub pin: String,
    pub config: String,
    pub quit: String,
}

/// What a click on an item of the menu does.
pub fn menu_action(ids: &MenuIds, clicked: &String) -> (action: Option<TrayAction>)
    ensures
        action == if clicked@ == ids.pin@ {
            Some(TrayAction::ShowPin)
        } else if clicked@ == ids.config@ {
            Some(TrayAction::OpenConfig)
        } else if clicked@ == ids.quit@ {
            Some(TrayAction::Quit)
        } else {
            None
        },
{
    if *clicked == ids.pin {
        Some(TrayAction::ShowPin)
    } else if *clicked == ids.config {
        Some(TrayAction::OpenConfig)
    } else if *clicked == ids.quit {
        Some(TrayAction::Quit)
    } else {
        None
    }
}

/// Side of the icon.
pub const ICON_SIZE: u32 = 32;

/// Whether a pixel is inside the border of the icon.
pub open spec fn in_square(x: int, y: int) -> bool {
    2 <= x < 30 && 2 <= y < 30
}

/// Whether a pixel belongs to the letter of the icon: two bars and a stem.
pub open spec fn in_letter(x: int, y: int) -> bool {
    ||| 7 <= y <= 9 && 9 <= x <= 22
    ||| 14 <= y <= 16 && 9 <= x <= 19
    ||| 9 <= x <= 11 && 7 <= y <= 25
}

/// A channel of a pixel of the icon: a white letter on blue, with a transparent
/// border.
pub open spec fn icon_channel(x: int, y: int, channel: int) -> u8 {
    if !in_square(x, y) {
        0
    } else if in_letter(x, y) || channel == 3 {
        255
    } else if channel == 0 {
        37
    } else if channel == 1 {
        99
    } else {
        235
    }
}

/// The byte of the icon at a position: rows of pixels of four channels.
pub open spec fn icon_byte(at: int) -> u8 {
    icon_channel(at / 4 % 32, at / 128, at % 4)
}

/// The pixels of the icon, in RGBA.
pub fn icon_rgba() -> (rgba: Vec<u8>)
    ensures
        rgba@ == Seq::new(4096, |at: int| icon_byte(at)),
{
    let mut rgba: Vec<u8> = Vec::new();
    for at in 0..4096u32
        invariant
            rgba@ == Seq::new(at as nat, |i: int| icon_byte(i)),
    {
        let x: u32 = at / 4 % 32;
        let y: u32 = at / 128;
        let channel: u32 = at % 4;
        let square: bool = x >= 2 && x < 30 && y >= 2 && y < 30;
        let letter: bool = (y >= 7 && y <= 9 && x >= 9 && x <= 22) || (y >= 14 && y <= 16 && x >= 9
            && x <= 19) || (x >= 9 && x <= 11 && y >= 7 && y <= 25);
        let byte: u8 = if !square {
            0
        } else if letter || channel == 3 {
            255
        } else if channel == 0 {
            37
        } else if channel == 1 {
            99
        } else {
            235
        };
        rgba.push(byte);
        assert(rgba@ =~= Seq::new((at + 1) as nat, |i: int| icon_byte(i)));
    }
    rgba
}

/// The icon has 32 rows of 32 pixels of four bytes. A pixel of the border, which is
/// two pixels wide, is transparent. Inside it, one in a bar or in the stem of the
/// letter is white, and another is blue.
pub proof fn law_icon_pixels(x: int, y: int)
    requires
        0 <= x < 32,
        0 <= y < 32,
    ensures
        ({
            let at = 4 * (32 * y + x);
            let border = x < 2 || x >= 30 || y < 2 || y >= 30;
            let letter = (7 <= y <= 9 && 9 <= x <= 22) || (14 <= y <= 16 && 9 <= x <= 19) || (9 <= x
                <= 11 && 7 <= y <= 25);
            let pixel = (icon_byte(at), icon_byte(at + 1), icon_byte(at + 2), icon_byte(at + 3));
            &&& border ==> pixel == (0u8, 0u8, 0u8, 0u8)
            &&& letter ==> pixel == (255u8, 255u8, 255u8, 255u8)
            &&& !border && !letter ==> pixel == (37u8, 99u8, 235u8, 255u8)
            &&& ICON_SIZE == 32
        }),
{
    let at = 4 * (32 * y + x);
    assert(at / 4 % 32 == x && at / 128 == y && at % 4 == 0);
    assert((at + 1) / 4 % 32 == x && (at + 1) / 128 == y && (at + 1) % 4 == 1);
    assert((at + 2) / 4 % 32 == x && (at + 2) / 128 == y && (at + 2) % 4 == 2);
    assert((at + 3) / 4 % 32 == x && (at + 3) / 128 == y && (at + 3) % 4 == 3);
}

} // verus!
