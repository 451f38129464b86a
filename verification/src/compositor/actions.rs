//! What plugins, key bindings, the configuration and remote clients ask of the state.

use crate::background::{backdrop_of, parse_background, Background};
use crate::compositor::event::{Effect, IpcEvent, PluginAction, Protocol};
use crate::compositor::layouts::{
    gap_set, layout_cycled, layout_set, master_grown, master_shrunk,
};
use crate::compositor::outputs::{output_focus_moved, window_sent_towards};
use crate::compositor::state::{
    distinct, has_output, index_of, lemma_same_names, DinatorState, Model, OutputState,
};
use crate::config::Config;
use crate::input::codes::{is_neighbour_resolution, next_resolution};
use crate::input::keys::KeyAction;
use vstd::prelude::*;
use vstd::string::*;

verus! {

impl Model {
    /// The state with another background on the focused output.
    pub open spec fn with_background(&self, background: Background) -> Model {
        match self.focused_index() {
            Some(i) => Model {
                outputs: self.outputs.update(i, OutputState { background, ..self.outputs[i] }),
                ..*self
            },
            None => *self,
        }
    }
}

/// What one action of a plugin does.
pub open spec fn action_done(
    before: Model,
    after: Model,
    action: PluginAction,
    effects: Seq<Effect>,
) -> bool {
    match action {
        PluginAction::Spawn { cmd, args } => {
            &&& after == before
            &&& effects == seq![Effect::Spawn { cmd, args }]
        },
        PluginAction::SetLayout { name } => {
            &&& layout_set(before, after, name@)
            &&& effects == (if before.takes_layout(name@) {
                before.retiles_focused()
            } else {
                Seq::empty()
            })
        },
        PluginAction::FocusNext => {
            &&& after == before.cycled(1)
            &&& effects == before.cycle_effects(1)
        },
        PluginAction::FocusPrev => {
            &&& after == before.cycled(-1)
            &&& effects == before.cycle_effects(-1)
        },
        PluginAction::CloseWindow => {
            &&& after == before
            &&& effects == before.close_effects()
        },
        PluginAction::SwapMaster => {
            &&& after == before.master_swapped()
            &&& effects == before.swap_effects()
        },
        PluginAction::ToggleFloat => {
            &&& after == before.float_switched()
            &&& effects == before.float_switch_effects()
        },
        PluginAction::ToggleFullscreen => {
            &&& after == before.fullscreen_switched()
            &&& effects == before.fullscreen_switch_effects()
        },
        PluginAction::Log { message } => {
            &&& after == before
            &&& effects == seq![Effect::Log { message }]
        },
        PluginAction::SwitchWorkspace { workspace } => {
            &&& after == before.switched(workspace)
            &&& effects == before.switch_effects(workspace)
        },
        PluginAction::MoveToWorkspace { workspace } => {
            &&& after == before.moved_to(workspace)
            &&& effects == before.move_effects(workspace)
        },
    }
}

/// What a list of actions does, one after the other.
pub open spec fn actions_done(
    before: Model,
    after: Model,
    actions: Seq<PluginAction>,
    effects: Seq<Effect>,
) -> bool
    decreases actions.len(),
{
    if actions.len() == 0 {
        after == before && effects == Seq::<Effect>::empty()
    } else {
        exists|between: Model, last: Seq<Effect>|
            {
                &&& #[trigger] action_done(between, after, actions.last(), last)
                &&& last.is_suffix_of(effects)
                &&& actions_done(
                    before,
                    between,
                    actions.drop_last(),
                    effects.take(effects.len() - last.len()),
                )
            }
    }
}

/// What a key binding asks for besides effects.
#[derive(Debug)]
pub enum Request {
    Nothing,
    /// Stop the compositor.
    Quit,
    /// Give the output another resolution.
    Resize { width: u16, height: u16 },
    /// Call a plugin's callback, then carry out its actions.
    Callback { id: String },
}

/// A program is started without arguments.
pub open spec fn spawns(effects: Seq<Effect>, program: Seq<char>) -> bool {
    &&& effects.len() == 1
    &&& effects[0] matches Effect::Spawn { cmd, args } && cmd@ == program && args@.len() == 0
}

/// The focused output has the next layout of the list in a direction, and everyone is told. Without
/// a focused output nothing happens.
pub open spec fn cycled_and_told(
    before: Model,
    after: Model,
    direction: int,
    effects: Seq<Effect>,
) -> bool {
    if before.focused_index() is Some {
        exists|name: String|
            {
                &&& #[trigger] layout_cycled(before, after, direction, name@)
                &&& effects == before.retiles_focused() + seq![
                    Effect::Emit { event: IpcEvent::LayoutChanged { name } },
                ]
            }
    } else {
        &&& after == before
        &&& effects == Seq::<Effect>::empty()
    }
}

/// The output asks for the next common resolution in a direction, if its own is known.
pub open spec fn asks_resolution(size: Option<(u16, u16)>, up: bool, request: Request) -> bool {
    match size {
        Some((w, h)) => request matches Request::Resize { width, height }
            && is_neighbour_resolution(w * h, up, (width, height)),
        None => request is Nothing,
    }
}

/// What a key binding does. `size` is the resolution of the output, where it is known.
pub open spec fn key_done(
    before: Model,
    after: Model,
    action: KeyAction,
    size: Option<(u16, u16)>,
    effects: Seq<Effect>,
    request: Request,
) -> bool {
    let quiet = request is Nothing;
    let still = after == before && effects == Seq::<Effect>::empty();
    match action {
        KeyAction::LaunchTerminal => quiet && after == before && spawns(effects, "foot"@),
        KeyAction::LaunchLauncher => quiet && after == before && spawns(effects, "fuzzel"@),
        KeyAction::CloseWindow => quiet && after == before && effects == before.close_effects(),
        KeyAction::FocusNext => quiet && after == before.cycled(1) && effects
            == before.cycle_effects(1),
        KeyAction::FocusPrev => quiet && after == before.cycled(-1) && effects
            == before.cycle_effects(-1),
        KeyAction::SwapMaster => quiet && after == before.master_swapped() && effects
            == before.swap_effects(),
        KeyAction::MasterGrow => {
            ||| quiet && master_grown(before, after, true) && effects == before.retiles_focused()
            ||| quiet && master_grown(before, after, false) && effects == Seq::<Effect>::empty()
        },
        KeyAction::MasterShrink => {
            ||| quiet && master_shrunk(before, after, true) && effects == before.retiles_focused()
            ||| quiet && master_shrunk(before, after, false) && effects == Seq::<Effect>::empty()
        },
        KeyAction::ToggleFullscreen => quiet && after == before.fullscreen_switched() && effects
            == before.fullscreen_switch_effects(),
        KeyAction::ToggleFloat => quiet && after == before.float_switched() && effects
            == before.float_switch_effects(),
        KeyAction::CycleLayoutForward => quiet && cycled_and_told(before, after, 1, effects),
        KeyAction::CycleLayoutBackward => quiet && cycled_and_told(before, after, -1, effects),
        KeyAction::ResolutionUp => still && asks_resolution(size, true, request),
        KeyAction::ResolutionDown => still && asks_resolution(size, false, request),
        KeyAction::FocusOutputLeft => quiet && output_focus_moved(before, after, -1, effects),
        KeyAction::FocusOutputRight => quiet && output_focus_moved(before, after, 1, effects),
        KeyAction::MoveToOutputLeft => quiet && exists|sent: bool|
            #[trigger] window_sent_towards(before, after, -1, sent, effects),
        KeyAction::MoveToOutputRight => quiet && exists|sent: bool|
            #[trigger] window_sent_towards(before, after, 1, sent, effects),
        KeyAction::Quit => still && request is Quit,
        KeyAction::PluginCallback(id) => still && request == (Request::Callback { id }),
        KeyAction::SwitchWorkspace(n) => quiet && after == before.switched(n) && effects
            == before.switch_effects(n),
        KeyAction::MoveToWorkspace(n) => quiet && after == before.moved_to(n) && effects
            == before.move_effects(n),
    }
}

/// The background of the configuration is set, where there is one that can be read.
pub open spec fn background_configured(before: Model, after: Model, text: Option<String>) -> bool {
    match text {
        Some(s) => match backdrop_of(s@) {
            Some(b) => exists|background: Background| #[trigger]
                background@ == b && after == before.with_background(background),
            None => after == before,
        },
        None => after == before,
    }
}

/// The gap of the configuration is set, where there is one.
pub open spec fn gap_configured(before: Model, after: Model, gap: Option<i32>) -> bool {
    match gap {
        Some(g) => exists|changed: bool| #[trigger] gap_set(before, after, g, changed),
        None => after == before,
    }
}

/// The layout of the configuration is set, where there is one that is known.
pub open spec fn layout_configured(before: Model, after: Model, name: Option<String>) -> bool {
    match name {
        Some(n) => layout_set(before, after, n@),
        None => after == before,
    }
}

/// The configuration is applied: background, gap, and layout, in this order.
pub open spec fn configured(before: Model, after: Model, config: Config) -> bool {
    exists|first: Model, second: Model|
        {
            &&& #[trigger] background_configured(before, first, config.background)
            &&& #[trigger] gap_configured(first, second, config.gap)
            &&& layout_configured(second, after, config.layout)
        }
}

/// The output is arranged anew for the gap and for the layout of a configuration.
pub open spec fn config_effects(m: Model, config: Config, output: String) -> Seq<Effect> {
    let retile = seq![Effect::Retile { output }];
    (if config.gap is Some {
        retile
    } else {
        Seq::empty()
    }) + (if config.layout is Some && m.takes_layout(config.layout->0@) {
        retile
    } else {
        Seq::empty()
    })
}

impl Model {
    /// The state with another number of remote clients.
    pub open spec fn with_clients(&self, protocol: Protocol, n: u32) -> Model {
        match protocol {
            Protocol::Rdp => Model { rdp_clients: n, ..*self },
            Protocol::Vnc => Model { vnc_clients: n, ..*self },
        }
    }

    /// The number of remote clients of a protocol.
    pub open spec fn clients(&self, protocol: Protocol) -> u32 {
        match protocol {
            Protocol::Rdp => self.rdp_clients,
            Protocol::Vnc => self.vnc_clients,
        }
    }
}

impl DinatorState {
    /// The background of an output.
    pub fn background_for_output(&self, output: &str) -> (r: &Background)
        requires
            self.wf(),
        ensures
            *r == (if has_output(self.outputs@, output@) {
                self.outputs@[index_of(self.outputs@, output@)].background
            } else {
                Background::Default
            }),
    {
        match self.output_index(output) {
            Some(i) => &self.outputs[i].background,
            None => &Background::Default,
        }
    }

    /// Set the background of the focused output.
    pub fn set_background(&mut self, background: Background)
        requires
            old(self).wf(),
        ensures
            final(self).wf(),
            final(self)@ == old(self)@.with_background(background),
    {
        match self.focused_output_index() {
            Some(i) => {
                let ghost before = self.outputs@;
                let output = &mut self.outputs[i];
                output.background = background;
                proof {
                    lemma_same_names(before, self.outputs@);
                    assert(self@ =~= old(self)@.with_background(background));
                }
            },
            None => {},
        }
    }

    /// Carries out one action of a plugin.
    pub fn execute_plugin_action(&mut self, action: PluginAction) -> (effects: Vec<Effect>)
        requires
            old(self).wf(),
        ensures
            final(self).wf(),
            action_done(old(self)@, final(self)@, action, effects@),
    {
        match action {
            PluginAction::Spawn { cmd, args } => {
                let mut effects: Vec<Effect> = Vec::new();
                effects.push(Effect::Spawn { cmd, args });
                effects
            },
            PluginAction::SetLayout { name } => {
                let mut effects: Vec<Effect> = Vec::new();
                if self.set_layout(name.as_str()) {
                    self.push_retile_focused(&mut effects);
                    proof {
                        lemma_layout_keeps_names(old(self)@, self@, name@);
                    }
                }
                effects
            },
            PluginAction::FocusNext => self.focus_next(),
            PluginAction::FocusPrev => self.focus_prev(),
            PluginAction::CloseWindow => self.close_focused_window(),
            PluginAction::SwapMaster => self.swap_master(),
            PluginAction::ToggleFloat => self.toggle_float().1,
            PluginAction::ToggleFullscreen => self.toggle_fullscreen().1,
            PluginAction::Log { message } => {
                let mut effects: Vec<Effect> = Vec::new();
                effects.push(Effect::Log { message });
                effects
            },
            PluginAction::SwitchWorkspace { workspace } => self.switch_workspace(workspace),
            PluginAction::MoveToWorkspace { workspace } => self.move_to_workspace(workspace),
        }
    }

    /// Carries out the actions that plugins have queued.
    pub fn execute_plugin_actions(&mut self, actions: Vec<PluginAction>) -> (effects: Vec<Effect>)
        requires
            old(self).wf(),
        ensures
            final(self).wf(),
            actions_done(old(self)@, final(self)@, actions@, effects@),
    {
        let ghost all = actions@;
        let mut left = actions;
        let mut todo: Vec<PluginAction> = Vec::new();
        while left.len() > 0
            invariant
                todo@.len() + left@.len() == all.len(),
                left@ =~= all.take(left@.len() as int),
                forall|j: int| 0 <= j < todo@.len() ==> todo@[j] == all[all.len() - 1 - j],
            decreases left@.len(),
        {
            match left.pop() {
                Some(action) => {
                    todo.push(action);
                },
                None => {},
            }
        }
        let mut effects: Vec<Effect> = Vec::new();
        assert(all.take(0) =~= Seq::<PluginAction>::empty());
        while todo.len() > 0
            invariant
                self.wf(),
                todo@.len() <= all.len(),
                forall|j: int| 0 <= j < todo@.len() ==> todo@[j] == all[all.len() - 1 - j],
                actions_done(old(self)@, self@, all.take(all.len() - todo@.len()), effects@),
            decreases todo@.len(),
        {
            let ghost done = all.len() - todo@.len();
            let ghost first = effects@;
            let ghost between = self@;
            match todo.pop() {
                Some(action) => {
                    let ghost this = action;
                    let mut last = self.execute_plugin_action(action);
                    proof {
                        let next = all.take(done + 1);
                        assert(next.drop_last() =~= all.take(done));
                        assert(next.last() == this);
                        assert(action_done(between, self@, next.last(), last@));
                        assert((first + last@).take(first.len() as int) =~= first);
                        assert(actions_done(old(self)@, between, next.drop_last(), first));
                        assert(actions_done(old(self)@, self@, next, first + last@));
                    }
                    effects.append(&mut last);
                },
                None => {},
            }
        }
        assert(all.take(all.len() as int) =~= all);
        effects
    }

    /// Carries out what a key binding asks for. `size` is the resolution of the output, where it is
    /// known.
    pub fn perform_key_action(&mut self, action: KeyAction, size: Option<(u16, u16)>) -> (r: (
        Vec<Effect>,
        Request,
    ))
        requires
            old(self).wf(),
        ensures
            final(self).wf(),
            key_done(old(self)@, final(self)@, action, size, r.0@, r.1),
    {
        let mut effects: Vec<Effect> = Vec::new();
        match action {
            KeyAction::LaunchTerminal => {
                effects.push(Effect::Spawn { cmd: String::from_str("foot"), args: Vec::new() });
            },
            KeyAction::LaunchLauncher => {
                effects.push(Effect::Spawn { cmd: String::from_str("fuzzel"), args: Vec::new() });
            },
            KeyAction::CloseWindow => {
                effects = self.close_focused_window();
            },
            KeyAction::FocusNext => {
                effects = self.focus_next();
            },
            KeyAction::FocusPrev => {
                effects = self.focus_prev();
            },
            KeyAction::SwapMaster => {
                effects = self.swap_master();
            },
            KeyAction::MasterGrow => {
                if self.grow_master() {
                    self.push_retile_focused(&mut effects);
                    proof {
                        lemma_same_names(old(self)@.outputs, self@.outputs);
                    }
                }
            },
            KeyAction::MasterShrink => {
                if self.shrink_master() {
                    self.push_retile_focused(&mut effects);
                    proof {
                        lemma_same_names(old(self)@.outputs, self@.outputs);
                    }
                }
            },
            KeyAction::ToggleFullscreen => {
                effects = self.toggle_fullscreen().1;
            },
            KeyAction::ToggleFloat => {
                effects = self.toggle_float().1;
            },
            KeyAction::CycleLayoutForward => {
                effects = self.cycle_and_tell(1);
            },
            KeyAction::CycleLayoutBackward => {
                effects = self.cycle_and_tell(-1);
            },
            KeyAction::ResolutionUp => {
                return (effects, resolution_request(size, 1));
            },
            KeyAction::ResolutionDown => {
                return (effects, resolution_request(size, -1));
            },
            KeyAction::FocusOutputLeft => {
                effects = self.focus_output_direction(-1);
            },
            KeyAction::FocusOutputRight => {
                effects = self.focus_output_direction(1);
            },
            KeyAction::MoveToOutputLeft => {
                effects = self.move_window_to_output_direction(-1).1;
            },
            KeyAction::MoveToOutputRight => {
                effects = self.move_window_to_output_direction(1).1;
            },
            KeyAction::Quit => {
                return (effects, Request::Quit);
            },
            KeyAction::PluginCallback(id) => {
                return (effects, Request::Callback { id });
            },
            KeyAction::SwitchWorkspace(n) => {
                effects = self.switch_workspace(n);
            },
            KeyAction::MoveToWorkspace(n) => {
                effects = self.move_to_workspace(n);
            },
        }
        (effects, Request::Nothing)
    }

    fn cycle_and_tell(&mut self, direction: i32) -> (effects: Vec<Effect>)
        requires
            old(self).wf(),
        ensures
            final(self).wf(),
            cycled_and_told(old(self)@, final(self)@, direction as int, effects@),
    {
        let mut effects: Vec<Effect> = Vec::new();
        match self.cycle_layout(direction) {
            Some(name) => {
                proof {
                    lemma_layout_keeps_names(old(self)@, self@, name@);
                    assert(layout_cycled(old(self)@, self@, direction as int, name@));
                }
                self.push_retile_focused(&mut effects);
                let ghost told = name;
                effects.push(Effect::Emit { event: IpcEvent::LayoutChanged { name } });
                proof {
                    assert(effects@ =~= old(self)@.retiles_focused() + seq![
                        Effect::Emit { event: IpcEvent::LayoutChanged { name: told } },
                    ]);
                    assert(layout_cycled(old(self)@, self@, direction as int, told@));
                }
            },
            None => {},
        }
        effects
    }

    /// Applies a configuration to the output that was registered first.
    pub fn apply_config(&mut self, config: &Config, output: &String) -> (effects: Vec<Effect>)
        requires
            old(self).wf(),
        ensures
            final(self).wf(),
            configured(old(self)@, final(self)@, *config),
            effects@ == config_effects(old(self)@, *config, *output),
    {
        let mut effects: Vec<Effect> = Vec::new();
        match &config.background {
            Some(text) => match parse_background(text.as_str()) {
                Some(background) => {
                    self.set_background(background);
                },
                None => {},
            },
            None => {},
        }
        let ghost first = self@;
        assert(background_configured(old(self)@, first, config.background));
        match config.gap {
            Some(gap) => {
                let changed = self.set_layout_gap(gap);
                assert(gap_set(first, self@, gap, changed));
                effects.push(Effect::Retile { output: output.clone() });
            },
            None => {},
        }
        let ghost second = self@;
        assert(gap_configured(first, second, config.gap));
        match &config.layout {
            Some(name) => {
                if self.set_layout(name.as_str()) {
                    effects.push(Effect::Retile { output: output.clone() });
                }
            },
            None => {},
        }
        assert(layout_configured(second, self@, config.layout));
        assert(effects@ =~= config_effects(old(self)@, *config, *output));
        effects
    }

    /// A remote client came.
    pub fn client_connected(&mut self, protocol: Protocol) -> (effects: Vec<Effect>)
        requires
            old(self).wf(),
            old(self)@.clients(protocol) < u32::MAX,
        ensures
            final(self).wf(),
            final(self)@ == old(self)@.with_clients(
                protocol,
                (old(self)@.clients(protocol) + 1) as u32,
            ),
            effects@ == seq![Effect::Emit { event: IpcEvent::ClientConnected { protocol } }],
    {
        match protocol {
            Protocol::Rdp => {
                self.rdp_clients = self.rdp_clients + 1;
            },
            Protocol::Vnc => {
                self.vnc_clients = self.vnc_clients + 1;
            },
        }
        let mut effects: Vec<Effect> = Vec::new();
        effects.push(Effect::Emit { event: IpcEvent::ClientConnected { protocol } });
        effects
    }

    /// A remote client went.
    pub fn client_disconnected(&mut self, protocol: Protocol) -> (effects: Vec<Effect>)
        requires
            old(self).wf(),
        ensures
            final(self).wf(),
            final(self)@ == old(self)@.with_clients(
                protocol,
                if old(self)@.clients(protocol) > 0 {
                    (old(self)@.clients(protocol) - 1) as u32
                } else {
                    0
                },
            ),
            effects@ == seq![Effect::Emit { event: IpcEvent::ClientDisconnected { protocol } }],
    {
        match protocol {
            Protocol::Rdp => {
                if self.rdp_clients > 0 {
                    self.rdp_clients = self.rdp_clients - 1;
                }
            },
            Protocol::Vnc => {
                if self.vnc_clients > 0 {
                    self.vnc_clients = self.vnc_clients - 1;
                }
            },
        }
        let mut effects: Vec<Effect> = Vec::new();
        effects.push(Effect::Emit { event: IpcEvent::ClientDisconnected { protocol } });
        effects
    }
}

/// A client that comes and goes leaves the state as it was.
pub proof fn lemma_visit_leaves_no_trace(m: Model, protocol: Protocol)
    requires
        m.clients(protocol) < u32::MAX,
    ensures
        ({
            let there = m.with_clients(protocol, (m.clients(protocol) + 1) as u32);
            there.with_clients(protocol, (there.clients(protocol) - 1) as u32) == m
        }),
{
}

fn resolution_request(size: Option<(u16, u16)>, direction: i32) -> (r: Request)
    ensures
        asks_resolution(size, direction > 0, r),
{
    match size {
        Some((w, h)) => {
            let (width, height) = next_resolution(w, h, direction);
            Request::Resize { width, height }
        },
        None => Request::Nothing,
    }
}

/// Another layout on the focused output retiles the same output.
pub(crate) proof fn lemma_layout_keeps_names(before: Model, after: Model, name: Seq<char>)
    requires
        distinct(before.outputs),
        layout_set(before, after, name),
    ensures
        after.retiles_focused() == before.retiles_focused(),
{
    lemma_same_names(before.outputs, after.outputs);
}

} // verus!
