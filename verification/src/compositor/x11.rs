//! Windows of X11 applications.

use crate::compositor::event::{Effect, IpcEvent};
use crate::compositor::lifecycle::{text_view, Opening};
use crate::compositor::state::{DinatorState, Model, WindowInfo};
use crate::tiling::{Rect, WindowId};
use crate::wire::{signed, to_signed};
use std::collections::HashMap;
use vstd::prelude::*;
use vstd::string::*;

verus! {

broadcast use vstd::std_specs::hash::group_hash_axioms;

/// Windows of X11 applications, by the numbers that the X server gives them.
#[derive(Debug)]
pub struct X11Windows {
    pub ids: HashMap<u64, WindowId>,
    /// Windows that are mapped, but have no surface yet.
    pub pending: Vec<u64>,
}

/// What the X server knows of a window.
#[derive(Debug)]
pub struct X11Window {
    pub number: u64,
    /// Menus and tooltips place themselves.
    pub override_redirect: bool,
    pub has_surface: bool,
    pub geometry: Rect,
    pub class: String,
    pub title: String,
}

/// A text, if it is not empty.
pub open spec fn if_any(text: Seq<char>) -> Option<Seq<char>> {
    if text.len() == 0 {
        None
    } else {
        Some(text)
    }
}

fn text_if_any(text: &String) -> (r: Option<String>)
    ensures
        text_view(r) == if_any(text@),
        r is Some ==> r->0 == *text,
{
    if text.as_str().unicode_len() == 0 {
        None
    } else {
        Some(text.clone())
    }
}

/// Numbers other than one.
pub open spec fn others(number: u64) -> spec_fn(u64) -> bool {
    |n: u64| n != number
}

/// The numbers without one.
pub open spec fn all_but(numbers: Seq<u64>, number: u64) -> Seq<u64> {
    numbers.filter(others(number))
}

impl Model {
    /// The first output is arranged anew.
    pub open spec fn retiles_first(&self) -> Seq<Effect> {
        if self.outputs.len() > 0 {
            seq![Effect::Retile { output: self.outputs[0].name }]
        } else {
            Seq::empty()
        }
    }

    /// The state with a new X11 window at the end of the focused workspace, which has the focus.
    pub open spec fn with_x11_window(&self) -> Model {
        self.with_window(
            WindowInfo {
                has_surface: true,
                x11: true,
                workspace: Some(self.focused_workspace()),
                commits: 0,
            },
        )
    }

    /// The state with a new menu or tooltip.
    pub open spec fn with_x11_popup(&self) -> Model {
        let id = self.next_window;
        Model {
            windows: self.windows.insert(
                id,
                WindowInfo { has_surface: true, x11: true, workspace: None, commits: 0 },
            ),
            floating: self.floating.insert(id),
            next_window: (id + 1) as u64,
            ..*self
        }
    }
}

/// What mapping a window does.
pub open spec fn window_mapped(
    before: Model,
    after: Model,
    w: X11Window,
    effects: Seq<Effect>,
) -> bool {
    let id = WindowId(before.next_window);
    let opening = before.opening(if_any(w.class@), if_any(w.title@));
    &&& after == before.with_x11_window().opened(id, opening)
    &&& exists|event: IpcEvent|
        {
            &&& #[trigger] opens(event, id, w)
            &&& effects == seq![Effect::MoveTo { id, x: 0, y: 0 }] + before.retiles_first() + seq![
                Effect::Focus { target: Some(id) },
                Effect::Emit { event },
            ] + (if opening is Tiled {
                Seq::empty()
            } else {
                before.retiles_first()
            })
        }
}

/// The event tells of the window.
pub open spec fn opens(event: IpcEvent, id: WindowId, w: X11Window) -> bool {
    &&& event matches IpcEvent::WindowOpened { id: n, app_id, title }
    &&& n == id.0
    &&& text_view(app_id) == if_any(w.class@)
    &&& text_view(title) == if_any(w.title@)
}

/// What mapping a menu or tooltip does.
pub open spec fn popup_mapped(
    before: Model,
    after: Model,
    w: X11Window,
    effects: Seq<Effect>,
) -> bool {
    let id = WindowId(before.next_window);
    &&& after == before.with_x11_popup()
    &&& effects == seq![
        Effect::MoveTo { id, x: w.geometry.x, y: w.geometry.y },
        Effect::Raise { id, activate: true },
    ]
}

/// Nothing happened.
pub open spec fn nothing(before: Model, after: Model, effects: Seq<Effect>) -> bool {
    after == before && effects == Seq::<Effect>::empty()
}

impl X11Windows {
    pub fn new() -> (r: Self)
        ensures
            r.ids@ == Map::<u64, WindowId>::empty(),
            r.pending@.len() == 0,
    {
        X11Windows { ids: HashMap::new(), pending: Vec::new() }
    }

    fn forget_pending(&mut self, number: u64)
        ensures
            final(self).ids == old(self).ids,
            final(self).pending@ == all_but(old(self).pending@, number),
    {
        let mut kept: Vec<u64> = Vec::new();
        let mut i: usize = 0;
        assert(all_but(self.pending@.take(0), number) =~= Seq::<u64>::empty()) by {
            reveal(Seq::filter);
        }
        while i < self.pending.len()
            invariant
                i <= self.pending@.len(),
                self.ids == old(self).ids,
                self.pending == old(self).pending,
                kept@ == all_but(self.pending@.take(i as int), number),
            decreases self.pending@.len() - i,
        {
            assert(self.pending@.take(i + 1).drop_last() =~= self.pending@.take(i as int));
            reveal(Seq::filter);
            if self.pending[i] != number {
                kept.push(self.pending[i]);
            }
            i = i + 1;
        }
        assert(self.pending@.take(i as int) =~= self.pending@);
        self.pending = kept;
    }

    fn is_pending(&self, number: u64) -> (r: bool)
        ensures
            r == self.pending@.contains(number),
    {
        let mut i: usize = 0;
        while i < self.pending.len()
            invariant
                i <= self.pending@.len(),
                forall|j: int| 0 <= j < i ==> self.pending@[j] != number,
            decreases self.pending@.len() - i,
        {
            if self.pending[i] == number {
                return true;
            }
            i = i + 1;
        }
        false
    }

    /// Finishes mapping a window, once it has a surface and if it is not mapped yet: it goes to the
    /// end of the focused workspace and takes the focus, and the rules for windows apply.
    pub fn finish_map(&mut self, state: &mut DinatorState, w: &X11Window) -> (effects: Vec<Effect>)
        requires
            old(state).wf(),
            old(state).next_window < u64::MAX,
        ensures
            final(state).wf(),
            final(self).pending == old(self).pending,
            if w.has_surface && !old(self).ids@.dom().contains(w.number) {
                &&& window_mapped(old(state)@, final(state)@, *w, effects@)
                &&& final(self).ids@ == old(self).ids@.insert(
                    w.number,
                    WindowId(old(state)@.next_window),
                )
            } else {
                &&& nothing(old(state)@, final(state)@, effects@)
                &&& final(self).ids@ == old(self).ids@
            },
    {
        let mut effects: Vec<Effect> = Vec::new();
        if !w.has_surface || self.ids.contains_key(&w.number) {
            return effects;
        }
        let ghost before = state@;
        let workspace: usize = state.focused_workspace();
        let info = WindowInfo { has_surface: true, x11: true, workspace: Some(workspace), commits: 0 };
        let mut ignored: Vec<Effect> = Vec::new();
        let app_id = text_if_any(&w.class);
        let title = text_if_any(&w.title);
        let opening = state.opening_of(&app_id, &title);
        let id = state.insert_window(info, &mut ignored);
        self.ids.insert(w.number, id);
        effects.push(Effect::MoveTo { id, x: 0, y: 0 });
        push_retile_first(state, &mut effects);
        effects.push(Effect::Focus { target: Some(id) });
        let event = IpcEvent::WindowOpened { id: id.0, app_id, title };
        let ghost told = event;
        effects.push(Effect::Emit { event });
        assert(opens(told, id, *w));
        match opening {
            Opening::Tiled => {},
            Opening::Floating => {
                state.floating.insert(id.0);
                push_retile_first(state, &mut effects);
            },
            Opening::Fullscreen => {
                state.fullscreen.insert(id.0);
                push_retile_first(state, &mut effects);
            },
        }
        proof {
            assert(state@ =~= before.with_x11_window().opened(id, opening));
            assert(effects@ =~= seq![Effect::MoveTo { id, x: 0, y: 0 }] + before.retiles_first()
                + seq![Effect::Focus { target: Some(id) }, Effect::Emit { event: told }] + (
            if opening is Tiled {
                Seq::empty()
            } else {
                before.retiles_first()
            }));
        }
        effects
    }

    fn map_popup(&mut self, state: &mut DinatorState, w: &X11Window) -> (effects: Vec<Effect>)
        requires
            old(state).wf(),
            old(state).next_window < u64::MAX,
        ensures
            final(state).wf(),
            final(self).pending == old(self).pending,
            if w.has_surface {
                &&& popup_mapped(old(state)@, final(state)@, *w, effects@)
                &&& final(self).ids@ == old(self).ids@.insert(
                    w.number,
                    WindowId(old(state)@.next_window),
                )
            } else {
                &&& nothing(old(state)@, final(state)@, effects@)
                &&& final(self).ids@ == old(self).ids@
            },
    {
        let mut effects: Vec<Effect> = Vec::new();
        if !w.has_surface {
            return effects;
        }
        let ghost before = state@;
        let number: u64 = state.next_window;
        let id = WindowId(number);
        state.next_window = number + 1;
        state.windows.insert(
            number,
            WindowInfo { has_surface: true, x11: true, workspace: None, commits: 0 },
        );
        state.floating.insert(number);
        self.ids.insert(w.number, id);
        effects.push(Effect::MoveTo { id, x: w.geometry.x, y: w.geometry.y });
        effects.push(Effect::Raise { id, activate: true });
        assert(state@ =~= before.with_x11_popup());
        assert(effects@ =~= seq![
            Effect::MoveTo { id, x: w.geometry.x, y: w.geometry.y },
            Effect::Raise { id, activate: true },
        ]);
        effects
    }

    /// The X server mapped a window. Menus and tooltips go where they want to be; other windows
    /// wait for their surfaces.
    pub fn map_window_notify(&mut self, state: &mut DinatorState, w: &X11Window) -> (effects: Vec<
        Effect,
    >)
        requires
            old(state).wf(),
            old(state).next_window < u64::MAX,
        ensures
            final(state).wf(),
            final(self).pending@ == (if !w.override_redirect && !w.has_surface {
                old(self).pending@.push(w.number)
            } else {
                old(self).pending@
            }),
            if w.has_surface && (w.override_redirect || !old(self).ids@.dom().contains(w.number)) {
                &&& w.override_redirect ==> popup_mapped(
                    old(state)@,
                    final(state)@,
                    *w,
                    effects@,
                )
                &&& !w.override_redirect ==> window_mapped(
                    old(state)@,
                    final(state)@,
                    *w,
                    effects@,
                )
                &&& final(self).ids@ == old(self).ids@.insert(
                    w.number,
                    WindowId(old(state)@.next_window),
                )
            } else {
                &&& nothing(old(state)@, final(state)@, effects@)
                &&& final(self).ids@ == old(self).ids@
            },
    {
        if w.override_redirect {
            return self.map_popup(state, w);
        }
        if w.has_surface {
            self.finish_map(state, w)
        } else {
            self.pending.push(w.number);
            Vec::new()
        }
    }

    /// A window got its surface. One that waited for it is mapped now.
    pub fn surface_associated(&mut self, state: &mut DinatorState, w: &X11Window) -> (effects: Vec<
        Effect,
    >)
        requires
            old(state).wf(),
            old(state).next_window < u64::MAX,
        ensures
            final(state).wf(),
            final(self).pending@ == (if old(self).pending@.contains(w.number) {
                all_but(old(self).pending@, w.number)
            } else {
                old(self).pending@
            }),
            if old(self).pending@.contains(w.number) && w.has_surface && !old(
                self,
            ).ids@.dom().contains(w.number) {
                &&& window_mapped(old(state)@, final(state)@, *w, effects@)
                &&& final(self).ids@ == old(self).ids@.insert(
                    w.number,
                    WindowId(old(state)@.next_window),
                )
            } else {
                &&& nothing(old(state)@, final(state)@, effects@)
                &&& final(self).ids@ == old(self).ids@
            },
    {
        if self.is_pending(w.number) {
            self.forget_pending(w.number);
            self.finish_map(state, w)
        } else {
            Vec::new()
        }
    }

    /// The X server unmapped a window. A menu or tooltip just goes; another window is closed, and
    /// the last window of the focused workspace takes the focus.
    pub fn unmapped_window(&mut self, state: &mut DinatorState, w: &X11Window) -> (effects: Vec<
        Effect,
    >)
        requires
            old(state).wf(),
        ensures
            final(state).wf(),
            final(self).ids@ == old(self).ids@.remove(w.number),
            final(self).pending@ == (if w.override_redirect {
                old(self).pending@
            } else {
                all_but(old(self).pending@, w.number)
            }),
            if !old(self).ids@.dom().contains(w.number) {
                nothing(old(state)@, final(state)@, effects@)
            } else if w.override_redirect {
                let id = old(self).ids@[w.number];
                &&& final(state)@ == old(state)@.without_popup(id)
                &&& effects@ == seq![Effect::Unmap { id }]
            } else {
                window_unmapped(
                    old(state)@,
                    final(state)@,
                    old(self).ids@[w.number],
                    effects@,
                )
            },
    {
        let mut effects: Vec<Effect> = Vec::new();
        let ghost before = state@;
        if w.override_redirect {
            match self.ids.remove(&w.number) {
                Some(id) => {
                    state.floating.remove(&id.0);
                    state.windows.remove(&id.0);
                    effects.push(Effect::Unmap { id });
                    assert(state@ =~= before.without_popup(id));
                },
                None => {
                    assert(self.ids@ =~= old(self).ids@.remove(w.number));
                },
            }
            return effects;
        }
        self.forget_pending(w.number);
        match self.ids.remove(&w.number) {
            Some(id) => {
                effects.push(Effect::Emit { event: IpcEvent::WindowClosed { id: id.0 } });
                state.forget_window(id);
                effects.push(Effect::Unmap { id });
                push_retile_first(state, &mut effects);
                state.focus_last(&mut effects);
                let ghost left = before.without_window(id);
                assert(effects@ =~= seq![
                    Effect::Emit { event: IpcEvent::WindowClosed { id: id.0 } },
                    Effect::Unmap { id },
                ] + before.retiles_first() + (match left.last_focused() {
                    Some(next) => left.focus_effects(next),
                    None => Seq::empty(),
                }));
            },
            None => {
                assert(self.ids@ =~= old(self).ids@.remove(w.number));
            },
        }
        effects
    }

    /// The X server destroyed a window: nothing is left of it.
    pub fn destroyed_window(&mut self, state: &mut DinatorState, number: u64) -> (effects: Vec<
        Effect,
    >)
        requires
            old(state).wf(),
        ensures
            final(state).wf(),
            final(self).ids@ == old(self).ids@.remove(number),
            final(self).pending@ == all_but(old(self).pending@, number),
            if old(self).ids@.dom().contains(number) {
                let id = old(self).ids@[number];
                &&& final(state)@ == old(state)@.without_window(id)
                &&& effects@ == seq![Effect::Unmap { id }]
            } else {
                nothing(old(state)@, final(state)@, effects@)
            },
    {
        let mut effects: Vec<Effect> = Vec::new();
        self.forget_pending(number);
        match self.ids.remove(&number) {
            Some(id) => {
                state.forget_window(id);
                effects.push(Effect::Unmap { id });
            },
            None => {
                assert(self.ids@ =~= old(self).ids@.remove(number));
            },
        }
        effects
    }

    /// A window wants to be elsewhere. Floating windows, menus and tooltips may; what they do not
    /// say stays. Other windows are told to keep their places.
    pub fn configure_request(
        &self,
        state: &DinatorState,
        w: &X11Window,
        x: Option<i32>,
        y: Option<i32>,
        width: Option<u32>,
        height: Option<u32>,
    ) -> (r: Option<Rect>)
        ensures
            r == (if w.override_redirect || (self.ids@.dom().contains(w.number)
                && state@.floating.contains(self.ids@[w.number].0)) {
                Some(
                    Rect {
                        x: match x {
                            Some(v) => v,
                            None => w.geometry.x,
                        },
                        y: match y {
                            Some(v) => v,
                            None => w.geometry.y,
                        },
                        width: match width {
                            Some(v) => signed(v) as i32,
                            None => w.geometry.width,
                        },
                        height: match height {
                            Some(v) => signed(v) as i32,
                            None => w.geometry.height,
                        },
                    },
                )
            } else {
                None
            }),
    {
        let floats = match self.ids.get(&w.number) {
            Some(id) => state.floating.contains(&id.0),
            None => false,
        };
        if !floats && !w.override_redirect {
            return None;
        }
        let left: i32 = match x {
            Some(v) => v,
            None => w.geometry.x,
        };
        let top: i32 = match y {
            Some(v) => v,
            None => w.geometry.y,
        };
        let wide: i32 = match width {
            Some(v) => to_signed(v),
            None => w.geometry.width,
        };
        let high: i32 = match height {
            Some(v) => to_signed(v),
            None => w.geometry.height,
        };
        Some(Rect { x: left, y: top, width: wide, height: high })
    }

    /// A window wants to be fullscreen, or not any more.
    pub fn fullscreen_request(
        &self,
        state: &mut DinatorState,
        number: u64,
        fullscreen: bool,
    ) -> (effects: Vec<Effect>)
        requires
            old(state).wf(),
        ensures
            final(state).wf(),
            if self.ids@.dom().contains(number) {
                let id = self.ids@[number].0;
                let m = old(state)@;
                &&& final(state)@ == (if fullscreen {
                    Model {
                        floating: m.floating.remove(id),
                        fullscreen: m.fullscreen.insert(id),
                        ..m
                    }
                } else {
                    Model { fullscreen: m.fullscreen.remove(id), ..m }
                })
                &&& effects@ == m.retiles_first()
            } else {
                nothing(old(state)@, final(state)@, effects@)
            },
    {
        let mut effects: Vec<Effect> = Vec::new();
        match self.ids.get(&number) {
            Some(id) => {
                let n: u64 = id.0;
                if fullscreen {
                    state.floating.remove(&n);
                    state.fullscreen.insert(n);
                } else {
                    state.fullscreen.remove(&n);
                }
                push_retile_first(state, &mut effects);
            },
            None => {},
        }
        effects
    }
}

impl Model {
    /// The state without a menu or tooltip.
    pub open spec fn without_popup(&self, id: WindowId) -> Model {
        Model {
            windows: self.windows.remove(id.0),
            floating: self.floating.remove(id.0),
            ..*self
        }
    }
}

/// What unmapping a window does.
pub open spec fn window_unmapped(
    before: Model,
    after: Model,
    id: WindowId,
    effects: Seq<Effect>,
) -> bool {
    let left = before.without_window(id);
    &&& after == (match left.last_focused() {
        Some(next) => left.focusing(next),
        None => left,
    })
    &&& effects == seq![
        Effect::Emit { event: IpcEvent::WindowClosed { id: id.0 } },
        Effect::Unmap { id },
    ] + before.retiles_first() + (match left.last_focused() {
        Some(next) => left.focus_effects(next),
        None => Seq::empty(),
    })
}

fn push_retile_first(state: &DinatorState, effects: &mut Vec<Effect>)
    ensures
        final(effects)@ == old(effects)@ + state@.retiles_first(),
{
    if state.outputs.len() > 0 {
        effects.push(Effect::Retile { output: state.outputs[0].name.clone() });
    }
    assert(effects@ =~= old(effects)@ + state@.retiles_first());
}

} // verus!
