//! Mouse events.

use vstd::prelude::*;

use crate::error::FluxError;
use crate::types::DesktopRect;

verus! {

/// Mouse buttons.
#[derive(Debug, Clone, Copy, PartialEq, Eq, Structural)]
pub enum MouseButton {
    Left,
    Right,
    Middle,
    Back,
    Forward,
}

/// A mouse event from the client.
#[derive(Debug, Clone, Copy, PartialEq, Eq, Structural)]
pub enum MouseEvent {
    /// The pointer moved by some pixels.
    Move { dx: i32, dy: i32 },
    /// The pointer moved to a place of the virtual desktop, each axis of which
    /// counts from 0 to 65535.
    MoveAbsolute { x: i32, y: i32 },
    /// A button went down.
    ButtonDown { button: MouseButton },
    /// A button went up.
    ButtonUp { button: MouseButton },
    /// The wheel turned.
    Scroll { dx: i32, dy: i32 },
}

/// Flag of a motion.
pub const MOUSEEVENTF_MOVE: u32 = 0x0001;

/// Flag of the left button going down.
pub const MOUSEEVENTF_LEFTDOWN: u32 = 0x0002;

/// Flag of the left button going up.
pub const MOUSEEVENTF_LEFTUP: u32 = 0x0004;

/// Flag of the right button going down.
pub const MOUSEEVENTF_RIGHTDOWN: u32 = 0x0008;

/// Flag of the right button going up.
pub const MOUSEEVENTF_RIGHTUP: u32 = 0x0010;

/// Flag of the middle button going down.
pub const MOUSEEVENTF_MIDDLEDOWN: u32 = 0x0020;

/// Flag of the middle button going up.
pub const MOUSEEVENTF_MIDDLEUP: u32 = 0x0040;

/// Flag of an extra button going down.
pub const MOUSEEVENTF_XDOWN: u32 = 0x0080;

/// Flag of an extra button going up.
pub const MOUSEEVENTF_XUP: u32 = 0x0100;

/// Flag of the wheel.
pub const MOUSEEVENTF_WHEEL: u32 = 0x0800;

/// Flag of the horizontal wheel.
pub const MOUSEEVENTF_HWHEEL: u32 = 0x1000;

/// Flags of a motion to a place of the virtual desktop.
pub const MOUSEEVENTF_TO_DESKTOP_PLACE: u32 = 0xC001;

/// The first extra button.
pub const XBUTTON1: u32 = 0x0001;

/// The second extra button.
pub const XBUTTON2: u32 = 0x0002;

/// A mouse action as the operating system takes it.
#[derive(Debug, Clone, Copy, PartialEq, Eq, Structural)]
pub struct MouseInput {
    pub dx: i32,
    pub dy: i32,
    pub mouse_data: u32,
    pub flags: u32,
}

/// An action without a motion.
pub open spec fn still(flags: u32, mouse_data: u32) -> MouseInput {
    MouseInput { dx: 0, dy: 0, mouse_data, flags }
}

/// The actions of an event. A turn of the wheel has one for each axis that
/// turned, the horizontal one first.
pub open spec fn mouse_inputs(event: MouseEvent) -> Seq<MouseInput> {
    match event {
        MouseEvent::Move { dx, dy } => seq![
            MouseInput { dx, dy, mouse_data: 0, flags: MOUSEEVENTF_MOVE },
        ],
        MouseEvent::MoveAbsolute { x, y } => seq![
            MouseInput { dx: x, dy: y, mouse_data: 0, flags: MOUSEEVENTF_TO_DESKTOP_PLACE },
        ],
        MouseEvent::ButtonDown { button } => seq![
            match button {
                MouseButton::Left => still(MOUSEEVENTF_LEFTDOWN, 0),
                MouseButton::Right => still(MOUSEEVENTF_RIGHTDOWN, 0),
                MouseButton::Middle => still(MOUSEEVENTF_MIDDLEDOWN, 0),
                MouseButton::Back => still(MOUSEEVENTF_XDOWN, XBUTTON1),
                MouseButton::Forward => still(MOUSEEVENTF_XDOWN, XBUTTON2),
            },
        ],
        MouseEvent::ButtonUp { button } => seq![
            match button {
                MouseButton::Left => still(MOUSEEVENTF_LEFTUP, 0),
                MouseButton::Right => still(MOUSEEVENTF_RIGHTUP, 0),
                MouseButton::Middle => still(MOUSEEVENTF_MIDDLEUP, 0),
                MouseButton::Back => still(MOUSEEVENTF_XUP, XBUTTON1),
                MouseButton::Forward => still(MOUSEEVENTF_XUP, XBUTTON2),
            },
        ],
        MouseEvent::Scroll { dx, dy } => {
            let across = if dx != 0 {
                seq![still(MOUSEEVENTF_HWHEEL, dx as u32)]
            } else {
                Seq::empty()
            };
            if dy != 0 {
                across.push(still(MOUSEEVENTF_WHEEL, dy as u32))
            } else {
                across
            }
        },
    }
}

/// Turns mouse events into actions on the host.
pub struct MouseSink {
    target_rect: DesktopRect,
}

impl MouseSink {
    /// The output that receives absolute motions.
    pub closed spec fn target(self) -> DesktopRect {
        self.target_rect
    }

    /// A sink for an output.
    pub fn new(target_rect: DesktopRect) -> (result: Result<Self, FluxError>)
        ensures
            result matches Ok(sink) && sink.target() == target_rect,
    {
        Ok(Self { target_rect })
    }

    /// The output that receives absolute motions.
    pub fn target_rect(&self) -> (rect: DesktopRect)
        ensures
            rect == self.target(),
    {
        self.target_rect
    }

    /// Changes the output after the displays changed.
    pub fn set_target_rect(&mut self, target_rect: DesktopRect) -> (result: Result<(), FluxError>)
        ensures
            result is Ok,
            final(self).target() == target_rect,
    {
        self.target_rect = target_rect;
        Ok(())
    }

    /// The actions to inject for an event, in order.
    pub fn inject(&self, event: &MouseEvent) -> (result: Result<Vec<MouseInput>, FluxError>)
        ensures
            result matches Ok(inputs) && inputs@ == mouse_inputs(*event),
    {
        let mut inputs: Vec<MouseInput> = Vec::new();
        let input: MouseInput = match event {
            MouseEvent::Move { dx, dy } => MouseInput {
                dx: *dx,
                dy: *dy,
                mouse_data: 0,
                flags: MOUSEEVENTF_MOVE,
            },
            MouseEvent::MoveAbsolute { x, y } => MouseInput {
                dx: *x,
                dy: *y,
                mouse_data: 0,
                flags: MOUSEEVENTF_TO_DESKTOP_PLACE,
            },
            MouseEvent::ButtonDown { button } => match button {
                MouseButton::Left => still_input(MOUSEEVENTF_LEFTDOWN, 0),
                MouseButton::Right => still_input(MOUSEEVENTF_RIGHTDOWN, 0),
                MouseButton::Middle => still_input(MOUSEEVENTF_MIDDLEDOWN, 0),
                MouseButton::Back => still_input(MOUSEEVENTF_XDOWN, XBUTTON1),
                MouseButton::Forward => still_input(MOUSEEVENTF_XDOWN, XBUTTON2),
            },
            MouseEvent::ButtonUp { button } => match button {
                MouseButton::Left => still_input(MOUSEEVENTF_LEFTUP, 0),
                MouseButton::Right => still_input(MOUSEEVENTF_RIGHTUP, 0),
                MouseButton::Middle => still_input(MOUSEEVENTF_MIDDLEUP, 0),
                MouseButton::Back => still_input(MOUSEEVENTF_XUP, XBUTTON1),
                MouseButton::Forward => still_input(MOUSEEVENTF_XUP, XBUTTON2),
            },
            MouseEvent::Scroll { dx, dy } => {
                if *dx != 0 {
                    inputs.push(still_input(MOUSEEVENTF_HWHEEL, *dx as u32));
                }
                if *dy == 0 {
                    assert(inputs@ =~= mouse_inputs(*event));
                    return Ok(inputs);
                }
                still_input(MOUSEEVENTF_WHEEL, *dy as u32)
            },
        };
        inputs.push(input);
        assert(inputs@ =~= mouse_inputs(*event));
        Ok(inputs)
    }
}

fn still_input(flags: u32, mouse_data: u32) -> (input: MouseInput)
    ensures
        input == still(flags, mouse_data),
{
    MouseInput { dx: 0, dy: 0, mouse_data, flags }
}

/// A button that goes down is told by the flag that Win32 documents for it: 2 for the
/// left one, 8 for the right one, 32 for the middle one, and 128 for the extra ones, which
/// the data tells apart. Going up is told by twice the flag, with the same data, and
/// neither moves the pointer.
pub proof fn law_buttons_have_their_flags(button: MouseButton)
    ensures
        ({
            let down = mouse_inputs(MouseEvent::ButtonDown { button });
            let up = mouse_inputs(MouseEvent::ButtonUp { button });
            &&& down.len() == 1 && up.len() == 1
            &&& down[0].dx == 0 && down[0].dy == 0
            &&& up[0] == MouseInput { flags: (2 * down[0].flags) as u32, ..down[0] }
            &&& button == MouseButton::Left <==> down[0].flags == 2
            &&& button == MouseButton::Right <==> down[0].flags == 8
            &&& button == MouseButton::Middle <==> down[0].flags == 32
            &&& button == MouseButton::Back <==> down[0].flags == 128 && down[0].mouse_data == 1
            &&& button == MouseButton::Forward <==> down[0].flags == 128 && down[0].mouse_data == 2
            &&& down[0].flags < 128 ==> down[0].mouse_data == 0
        }),
{
}

/// Motions keep their distance and their place: a relative one has the flag 1, an
/// absolute one over the whole desktop adds 32768 and 16384 to it, and neither has data.
pub proof fn law_motions_keep_their_numbers(dx: i32, dy: i32)
    ensures
        ({
            let moved = mouse_inputs(MouseEvent::Move { dx, dy });
            let placed = mouse_inputs(MouseEvent::MoveAbsolute { x: dx, y: dy });
            &&& moved.len() == 1 && placed.len() == 1
            &&& moved[0].dx == dx && moved[0].dy == dy && moved[0].mouse_data == 0
            &&& moved[0].flags == 1
            &&& placed[0] == MouseInput { flags: (1 + 0x8000 + 0x4000) as u32, ..moved[0] }
        }),
{
}

/// A turn of the wheel has one action for each axis that turned, the horizontal one
/// first: 4096 across, 2048 along. The data is the turn, a negative one counted down
/// from 2 to the 32nd.
pub proof fn law_wheel_turns(dx: i32, dy: i32)
    ensures
        ({
            let turns = mouse_inputs(MouseEvent::Scroll { dx, dy });
            let told = |n: i32|
                if n < 0 {
                    0x1_0000_0000 + n
                } else {
                    n as int
                };
            &&& turns.len() == (if dx != 0 {
                1int
            } else {
                0
            }) + (if dy != 0 {
                1int
            } else {
                0
            })
            &&& forall|i: int| 0 <= i < turns.len() ==> (#[trigger] turns[i]).dx == 0 && turns[i].dy == 0
            &&& dx != 0 ==> turns[0].flags == 4096 && turns[0].mouse_data == told(dx)
            &&& dy != 0 ==> turns.last().flags == 2048 && turns.last().mouse_data == told(dy)
        }),
{
    lemma_told(dx);
    lemma_told(dy);
}

/// A number with a sign as one without.
proof fn lemma_told(n: i32)
    ensures
        (n as u32) as int == if n < 0 {
            0x1_0000_0000 + n
        } else {
            n as int
        },
{
    assert((n < 0 ==> (n as u32) as i64 == n as i64 + 0x1_0000_0000) && (n >= 0 ==> (n as u32) as i64
        == n as i64)) by (bit_vector);
}

/// Events are told apart: no two of them give the same actions.
pub proof fn law_mouse_events_differ(a: MouseEvent, b: MouseEvent)
    requires
        mouse_inputs(a) == mouse_inputs(b),
    ensures
        a == b,
{
    let (these, those) = (mouse_inputs(a), mouse_inputs(b));
    if let MouseEvent::Scroll { dx, dy } = a {
        law_wheel_turns(dx, dy);
        if let MouseEvent::Scroll { dx: other_dx, dy: other_dy } = b {
            law_wheel_turns(other_dx, other_dy);
            if these.len() > 0 {
                assert(these[0].flags == those[0].flags);
                assert(these.last().flags == those.last().flags);
            }
            assert(dx == other_dx);
            assert(dy == other_dy);
        } else {
            assert(those.len() == 1);
            assert(these[0].flags == those[0].flags);
        }
    } else {
        assert(these.len() == 1);
        if let MouseEvent::Scroll { dx: other_dx, dy: other_dy } = b {
            law_wheel_turns(other_dx, other_dy);
            assert(these[0].flags == those[0].flags);
        } else {
            assert(these[0] == those[0]);
        }
    }
}

/// The flags of mouse events.
pub proof fn law_mouse_flags()
    ensures
        MOUSEEVENTF_MOVE == 0x1,
        MOUSEEVENTF_LEFTDOWN == 0x2,
        MOUSEEVENTF_LEFTUP == 0x4,
        MOUSEEVENTF_RIGHTDOWN == 0x8,
        MOUSEEVENTF_RIGHTUP == 0x10,
        MOUSEEVENTF_MIDDLEDOWN == 0x20,
        MOUSEEVENTF_MIDDLEUP == 0x40,
        MOUSEEVENTF_XDOWN == 0x80,
        MOUSEEVENTF_XUP == 0x100,
        MOUSEEVENTF_WHEEL == 0x800,
        MOUSEEVENTF_HWHEEL == 0x1000,
        MOUSEEVENTF_TO_DESKTOP_PLACE == 0x8000 + 0x4000 + 0x1,
        XBUTTON1 == 1,
        XBUTTON2 == 2,
{
}

} // verus!
