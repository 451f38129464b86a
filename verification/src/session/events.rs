//! What the input of remote clients does.

use crate::compositor::event::{Effect, IpcEvent, Protocol};
use crate::compositor::state::{DinatorState, Model, OutputState};
use crate::displaycontrol::DisplayControlState;
use crate::input::codes::{evdev_of_keysym, xkeysym_to_xkb_keycode};
use crate::input::remote::{
    button_changes, changes, key_counts, key_noted, ButtonChange, PressedKeys, RdpInputEvent,
};
use crate::session::surfaces::{low16, primary_size};
use vstd::prelude::*;

verus! {

/// Input of a VNC client.
#[derive(Debug, Clone, Copy, PartialEq, Eq, Structural)]
pub enum VncInputEvent {
    PointerMove { x: u16, y: u16, button_mask: u8 },
    Key { keysym: u32, pressed: bool },
    ResizeOutput { width: u16, height: u16 },
    ClientConnected,
    ClientDisconnected,
}

/// What an event asks of the seat and the session, in order.
#[derive(Debug)]
#[allow(inconsistent_fields)]
pub enum InputStep {
    /// The pointer goes to this place.
    PointerTo { x: u16, y: u16 },
    /// A button goes down or up; where it goes down, the window under the pointer is raised and
    /// takes the focus.
    Button { button: u32, pressed: bool },
    /// The wheel turns; 120 is one notch.
    Scroll { value: i16 },
    /// A key goes down or up, unless it is bound.
    Key { keycode: u32, pressed: bool },
    /// Keys go up, bound or not.
    Release { keycodes: Vec<u32> },
    /// The focused output is to get this size before the next frame.
    ResizeFocused { width: u16, height: u16 },
    /// The compositor is to end.
    Quit,
    /// Subscribers and plugins hear of it.
    Effects { effects: Vec<Effect> },
}

/// A button change as a step.
pub open spec fn button_step(c: ButtonChange) -> InputStep {
    InputStep::Button { button: c.button, pressed: c.pressed }
}

/// The steps for a key event, under the keys that are held.
pub open spec fn key_steps(keys: Seq<u32>, keycode: u32, pressed: bool) -> Seq<InputStep> {
    if key_counts(keys, keycode, pressed) {
        seq![InputStep::Key { keycode, pressed }]
    } else {
        Seq::empty()
    }
}

/// The effects of a client that came or went.
pub open spec fn announces(step: InputStep, protocol: Protocol, came: bool) -> bool {
    &&& step matches InputStep::Effects { effects }
    &&& effects@ == if came {
        came_effects(protocol)
    } else {
        went_effects(protocol)
    }
}

/// Keys go up.
pub open spec fn releases(step: InputStep, keys: Seq<u32>) -> bool {
    &&& step matches InputStep::Release { keycodes }
    &&& keycodes@ == keys
}

/// What subscribers hear of a client that came.
pub open spec fn came_effects(protocol: Protocol) -> Seq<Effect> {
    seq![Effect::Emit { event: IpcEvent::ClientConnected { protocol } }]
}

/// What subscribers hear of a client that went.
pub open spec fn went_effects(protocol: Protocol) -> Seq<Effect> {
    seq![Effect::Emit { event: IpcEvent::ClientDisconnected { protocol } }]
}

/// The state with one client more.
pub open spec fn with_one_more(m: Model, protocol: Protocol) -> Model {
    m.with_clients(protocol, (m.clients(protocol) + 1) as u32)
}

/// The state with one client less, if there was one.
pub open spec fn with_one_less(m: Model, protocol: Protocol) -> Model {
    m.with_clients(
        protocol,
        if m.clients(protocol) > 0 {
            (m.clients(protocol) - 1) as u32
        } else {
            0
        },
    )
}

/// What is known of the VNC clients' input.
#[derive(Debug)]
pub struct VncInput {
    pub button_mask: u8,
    pub keys: PressedKeys,
}

/// What an event of a VNC client does: to the buttons and keys that are held, to the state, and
/// what it asks for.
pub open spec fn vnc_done(
    mask: u8,
    keys: Seq<u32>,
    m: Model,
    event: VncInputEvent,
    new_mask: u8,
    new_keys: Seq<u32>,
    after: Model,
    steps: Seq<InputStep>,
) -> bool {
    match event {
        VncInputEvent::PointerMove { x, y, button_mask } => {
            &&& new_mask == button_mask
            &&& new_keys == keys
            &&& after == m
            &&& steps == seq![InputStep::PointerTo { x, y }] + changes(
                mask,
                button_mask,
            ).map_values(|c: ButtonChange| button_step(c))
        },
        VncInputEvent::Key { keysym, pressed } => {
            &&& new_mask == mask
            &&& after == m
            &&& match evdev_of_keysym(keysym) {
                Some(code) => {
                    let keycode = (code + 8) as u32;
                    &&& key_noted(keys, new_keys, keycode, pressed)
                    &&& steps == key_steps(keys, keycode, pressed)
                },
                None => new_keys == keys && steps == Seq::<InputStep>::empty(),
            }
        },
        VncInputEvent::ResizeOutput { width, height } => {
            &&& new_mask == mask
            &&& new_keys == keys
            &&& after == m
            &&& steps == seq![InputStep::ResizeFocused { width, height }]
        },
        VncInputEvent::ClientConnected => {
            &&& new_mask == mask
            &&& new_keys == Seq::<u32>::empty()
            &&& after == with_one_more(m, Protocol::Vnc)
            &&& steps.len() == 1
            &&& announces(steps[0], Protocol::Vnc, true)
        },
        VncInputEvent::ClientDisconnected => {
            &&& new_mask == mask
            &&& new_keys == Seq::<u32>::empty()
            &&& after == with_one_less(m, Protocol::Vnc)
            &&& steps.len() == 2
            &&& releases(steps[0], keys)
            &&& announces(steps[1], Protocol::Vnc, false)
        },
    }
}

impl VncInput {
    /// No button and no key is held.
    pub fn new() -> (r: Self)
        ensures
            r.button_mask == 0,
            r.keys.wf(),
            r.keys@ == Seq::<u32>::empty(),
    {
        VncInput { button_mask: 0, keys: PressedKeys::new() }
    }

    /// An event of a client. When a client goes, every key that is held goes up, so that none stays
    /// stuck.
    pub fn handle(&mut self, state: &mut DinatorState, event: VncInputEvent) -> (steps: Vec<
        InputStep,
    >)
        requires
            old(self).keys.wf(),
            old(state).wf(),
            event == VncInputEvent::ClientConnected ==> old(state).vnc_clients < u32::MAX,
        ensures
            final(self).keys.wf(),
            final(state).wf(),
            vnc_done(
                old(self).button_mask,
                old(self).keys@,
                old(state)@,
                event,
                final(self).button_mask,
                final(self).keys@,
                final(state)@,
                steps@,
            ),
    {
        let mut steps: Vec<InputStep> = Vec::new();
        match event {
            VncInputEvent::PointerMove { x, y, button_mask } => {
                steps.push(InputStep::PointerTo { x, y });
                let changed = button_changes(self.button_mask, button_mask);
                let ghost expected = changed@.map_values(|c: ButtonChange| button_step(c));
                let mut i: usize = 0;
                while i < changed.len()
                    invariant
                        i <= changed@.len(),
                        expected == changed@.map_values(|c: ButtonChange| button_step(c)),
                        steps@ =~= seq![InputStep::PointerTo { x, y }] + expected.take(i as int),
                    decreases changed@.len() - i,
                {
                    steps.push(
                        InputStep::Button { button: changed[i].button, pressed: changed[i].pressed },
                    );
                    i = i + 1;
                }
                assert(expected.take(i as int) =~= expected);
                self.button_mask = button_mask;
            },
            VncInputEvent::Key { keysym, pressed } => {
                match xkeysym_to_xkb_keycode(keysym) {
                    Some(keycode) => {
                        if self.keys.key(keycode, pressed) {
                            steps.push(InputStep::Key { keycode, pressed });
                        }
                    },
                    None => {},
                }
            },
            VncInputEvent::ResizeOutput { width, height } => {
                steps.push(InputStep::ResizeFocused { width, height });
            },
            VncInputEvent::ClientConnected => {
                let _ = self.keys.release_all();
                steps.push(
                    InputStep::Effects { effects: state.client_connected(Protocol::Vnc) },
                );
            },
            VncInputEvent::ClientDisconnected => {
                steps.push(InputStep::Release { keycodes: self.keys.release_all() });
                steps.push(
                    InputStep::Effects { effects: state.client_disconnected(Protocol::Vnc) },
                );
            },
        }
        steps
    }
}

/// What is known of the RDP client's input, and the size of the desktop that it is told.
#[derive(Debug)]
pub struct RdpInput {
    pub keys: PressedKeys,
    pub desktop: (u16, u16),
}

/// The desktop that the next client gets: the first output, if there is one.
pub open spec fn desktop_of(outputs: Seq<OutputState>, before: (u16, u16)) -> (u16, u16) {
    if outputs.len() > 0 {
        (low16(outputs[0].geometry.width as int), low16(outputs[0].geometry.height as int))
    } else {
        before
    }
}

/// What an event of an RDP client does: to the keys that are held, to the state, and what it asks
/// for.
pub open spec fn rdp_done(
    keys: Seq<u32>,
    m: Model,
    event: RdpInputEvent,
    new_keys: Seq<u32>,
    after: Model,
    steps: Seq<InputStep>,
) -> bool {
    match event {
        RdpInputEvent::MouseMove { x, y } => {
            &&& new_keys == keys
            &&& after == m
            &&& steps == seq![InputStep::PointerTo { x, y }]
        },
        RdpInputEvent::MouseButton { button, pressed } => {
            &&& new_keys == keys
            &&& after == m
            &&& steps == seq![InputStep::Button { button, pressed }]
        },
        RdpInputEvent::MouseScroll { value } => {
            &&& new_keys == keys
            &&& after == m
            &&& steps == seq![InputStep::Scroll { value }]
        },
        RdpInputEvent::Key { keycode, pressed } => {
            &&& key_noted(keys, new_keys, keycode, pressed)
            &&& after == m
            &&& steps == key_steps(keys, keycode, pressed)
        },
        RdpInputEvent::ClientConnected => {
            &&& new_keys == Seq::<u32>::empty()
            &&& after == with_one_more(m, Protocol::Rdp)
            &&& steps.len() == 1
            &&& announces(steps[0], Protocol::Rdp, true)
        },
        RdpInputEvent::ClientDisconnected => {
            &&& new_keys == Seq::<u32>::empty()
            &&& after == with_one_less(m, Protocol::Rdp)
            &&& steps.len() == 2
            &&& releases(steps[0], keys)
            &&& announces(steps[1], Protocol::Rdp, false)
        },
        RdpInputEvent::Quit => {
            &&& new_keys == keys
            &&& after == m
            &&& steps == seq![InputStep::Quit]
        },
    }
}

impl RdpInput {
    /// No key is held.
    pub fn new(width: u16, height: u16) -> (r: Self)
        ensures
            r.keys.wf(),
            r.keys@ == Seq::<u32>::empty(),
            r.desktop == (width, height),
    {
        RdpInput { keys: PressedKeys::new(), desktop: (width, height) }
    }

    /// An event of a client. When a client goes, every key that is held goes up, the desktop is that
    /// of the first output again, and a monitor layout of the client that still waits is forgotten.
    pub fn handle(
        &mut self,
        state: &mut DinatorState,
        monitors: &mut DisplayControlState,
        event: RdpInputEvent,
    ) -> (steps: Vec<InputStep>)
        requires
            old(self).keys.wf(),
            old(state).wf(),
            event == RdpInputEvent::ClientConnected ==> old(state).rdp_clients < u32::MAX,
        ensures
            final(self).keys.wf(),
            final(state).wf(),
            rdp_done(
                old(self).keys@,
                old(state)@,
                event,
                final(self).keys@,
                final(state)@,
                steps@,
            ),
            event == RdpInputEvent::ClientDisconnected ==> {
                &&& final(self).desktop == desktop_of(old(state).outputs@, old(self).desktop)
                &&& final(monitors).pending_layout is None
            },
            event != RdpInputEvent::ClientDisconnected ==> {
                &&& final(self).desktop == old(self).desktop
                &&& *final(monitors) == *old(monitors)
            },
    {
        let mut steps: Vec<InputStep> = Vec::new();
        match event {
            RdpInputEvent::MouseMove { x, y } => {
                steps.push(InputStep::PointerTo { x, y });
            },
            RdpInputEvent::MouseButton { button, pressed } => {
                steps.push(InputStep::Button { button, pressed });
            },
            RdpInputEvent::MouseScroll { value } => {
                steps.push(InputStep::Scroll { value });
            },
            RdpInputEvent::Key { keycode, pressed } => {
                if self.keys.key(keycode, pressed) {
                    steps.push(InputStep::Key { keycode, pressed });
                }
            },
            RdpInputEvent::ClientConnected => {
                let _ = self.keys.release_all();
                steps.push(
                    InputStep::Effects { effects: state.client_connected(Protocol::Rdp) },
                );
            },
            RdpInputEvent::ClientDisconnected => {
                steps.push(InputStep::Release { keycodes: self.keys.release_all() });
                match primary_size(&state.outputs) {
                    Some(size) => {
                        self.desktop = size;
                    },
                    None => {},
                }
                monitors.pending_layout = None;
                steps.push(
                    InputStep::Effects { effects: state.client_disconnected(Protocol::Rdp) },
                );
            },
            RdpInputEvent::Quit => {
                steps.push(InputStep::Quit);
            },
        }
        steps
    }
}

} // verus!
