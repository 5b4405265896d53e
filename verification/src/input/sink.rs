//! Dispatch of input events to the devices they are for.

use vstd::prelude::*;

use crate::error::FluxError;
use crate::input::events::InputEvent;
use crate::input::gamepad::GamepadSink;
use crate::input::keyboard::{key_input, KeyInput, KeyboardSink};
use crate::input::mouse::{mouse_inputs, MouseInput, MouseSink};
use crate::types::DesktopRect;

verus! {

/// An action as the operating system takes it.
#[derive(Debug, Clone, Copy, PartialEq, Eq, Structural)]
pub enum HostInput {
    Key(KeyInput),
    Mouse(MouseInput),
}

/// The actions of an event, in order.
pub open spec fn host_inputs(event: InputEvent) -> Seq<HostInput> {
    match event {
        InputEvent::Keyboard(event) => match key_input(event) {
            Some(input) => seq![HostInput::Key(input)],
            None => Seq::empty(),
        },
        InputEvent::Mouse(event) => mouse_inputs(event).map_values(|m: MouseInput| HostInput::Mouse(m)),
        InputEvent::Gamepad(_) => Seq::empty(),
    }
}

/// The actions of some events, in order.
pub open spec fn all_host_inputs(events: Seq<InputEvent>) -> Seq<HostInput>
    decreases events.len(),
{
    if events.len() == 0 {
        Seq::empty()
    } else {
        all_host_inputs(events.drop_last()) + host_inputs(events.last())
    }
}

/// Takes in the events of all devices.
pub struct InputSink {
    keyboard: KeyboardSink,
    mouse: MouseSink,
    gamepad: GamepadSink,
}

impl InputSink {
    /// The output that receives absolute motions.
    pub closed spec fn target(self) -> DesktopRect {
        self.mouse.target()
    }

    /// A sink for an output.
    pub fn new(target_rect: DesktopRect) -> (result: Result<Self, FluxError>)
        ensures
            result matches Ok(sink) && sink.target() == target_rect,
    {
        Ok(
            Self {
                keyboard: KeyboardSink::new()?,
                mouse: MouseSink::new(target_rect)?,
                gamepad: GamepadSink::new()?,
            },
        )
    }

    /// The output that receives absolute motions.
    pub fn target_rect(&self) -> (rect: DesktopRect)
        ensures
            rect == self.target(),
    {
        self.mouse.target_rect()
    }

    /// Changes the output after the displays changed.
    pub fn set_target_rect(&mut self, target_rect: DesktopRect) -> (result: Result<(), FluxError>)
        ensures
            result is Ok,
            final(self).target() == target_rect,
    {
        self.mouse.set_target_rect(target_rect)
    }

    /// The actions to inject for an event, in order.
    pub fn handle_event(&self, event: &InputEvent) -> (result: Result<Vec<HostInput>, FluxError>)
        ensures
            result matches Ok(inputs) && inputs@ == host_inputs(*event),
    {
        let mut inputs: Vec<HostInput> = Vec::new();
        match event {
            InputEvent::Keyboard(e) => {
                if let Some(input) = self.keyboard.inject(e)? {
                    inputs.push(HostInput::Key(input));
                }
            },
            InputEvent::Mouse(e) => {
                let actions: Vec<MouseInput> = self.mouse.inject(e)?;
                for i in 0..actions.len()
                    invariant
                        inputs@ == actions@.take(i as int).map_values(
                            |m: MouseInput| HostInput::Mouse(m),
                        ),
                {
                    inputs.push(HostInput::Mouse(actions[i]));
                    assert(inputs@ =~= actions@.take(i + 1).map_values(
                        |m: MouseInput| HostInput::Mouse(m),
                    ));
                }
                assert(actions@.take(actions@.len() as int) =~= actions@);
            },
            InputEvent::Gamepad(e) => {
                self.gamepad.inject(e)?;
            },
        }
        assert(inputs@ =~= host_inputs(*event));
        Ok(inputs)
    }

    /// The actions to inject for some events, in order.
    pub fn handle_events(&self, events: &[InputEvent]) -> (result: Result<Vec<HostInput>, FluxError>)
        ensures
            result matches Ok(inputs) && inputs@ == all_host_inputs(events@),
    {
        let mut inputs: Vec<HostInput> = Vec::new();
        assert(events@.take(0) =~= Seq::empty());
        for i in 0..events.len()
            invariant
                inputs@ == all_host_inputs(events@.take(i as int)),
        {
            let ghost before = inputs@;
            let mut actions: Vec<HostInput> = self.handle_event(&events[i])?;
            inputs.append(&mut actions);
            assert(events@.take(i + 1).drop_last() =~= events@.take(i as int));
            assert(inputs@ =~= all_host_inputs(events@.take(i + 1)));
        }
        assert(events@.take(events@.len() as int) =~= events@);
        Ok(inputs)
    }
}

/// An event is handled by its own device: a key event gives that key alone, a mouse event
/// its actions one by one in order, and a gamepad nothing.
pub proof fn law_events_reach_their_device(event: InputEvent)
    ensures
        match event {
            InputEvent::Keyboard(key) => {
                &&& key_input(key) is None ==> host_inputs(event).len() == 0
                &&& key_input(key) matches Some(input) ==> host_inputs(event).len() == 1
                    && host_inputs(event)[0] == HostInput::Key(input)
            },
            InputEvent::Mouse(mouse) => {
                &&& host_inputs(event).len() == mouse_inputs(mouse).len()
                &&& forall|i: int|
                    0 <= i < host_inputs(event).len() ==> #[trigger] host_inputs(event)[i]
                        == HostInput::Mouse(mouse_inputs(mouse)[i])
            },
            InputEvent::Gamepad(_) => host_inputs(event).len() == 0,
        },
{
}

/// Events are handled in order and on their own: what two runs of events give is what the
/// first gives and then what the second gives, and a single event gives what it gives
/// alone.
pub proof fn law_events_are_handled_in_order(first: Seq<InputEvent>, second: Seq<InputEvent>)
    ensures
        all_host_inputs(first + second) == all_host_inputs(first) + all_host_inputs(second),
        first.len() == 1 ==> all_host_inputs(first) == host_inputs(first[0]),
        first.len() == 0 ==> all_host_inputs(first).len() == 0,
    decreases second.len(),
{
    if second.len() == 0 {
        assert(first + second =~= first);
        assert(all_host_inputs(first) + all_host_inputs(second) =~= all_host_inputs(first));
    } else {
        law_events_are_handled_in_order(first, second.drop_last());
        assert((first + second).drop_last() =~= first + second.drop_last());
        assert(all_host_inputs(first + second) =~= all_host_inputs(first) + all_host_inputs(second));
    }
    if first.len() == 1 {
        assert(all_host_inputs(first.drop_last()) =~= Seq::empty());
        assert(all_host_inputs(first) =~= host_inputs(first[0]));
    }
}

} // verus!
