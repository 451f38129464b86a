//! Windows that come, commit, and go.

use crate::compositor::event::{Effect, IpcEvent, WindowRule};
use crate::compositor::state::{DinatorState, Model, WindowInfo};
use crate::compositor::workspaces::without;
use crate::text::{contains, contains_text, same};
use crate::tiling::{in_i32, tdiv, truncating_div, Rect, WindowId};
use crate::cursors::CursorIcon;
use vstd::prelude::*;

verus! {

broadcast use vstd::std_specs::hash::group_hash_axioms;

/// Smallest width and height that is assumed of a window that starts to float by itself.
pub const MIN_FLOAT_EXTENT: i32 = 100;

/// Commits after which a window without an application name is taken for a popup.
pub const NAMELESS_COMMITS: u32 = 3;

/// Seconds for which a request for activation counts.
pub const ACTIVATION_SECONDS: u64 = 10;

pub open spec fn text_view(text: Option<String>) -> Option<Seq<char>> {
    match text {
        Some(s) => Some(s@),
        None => None,
    }
}

/// A rule matches a window: the application's name is the one asked for, and the title holds the
/// part asked for. What is not asked for matches anything.
pub open spec fn rule_matches(
    rule: WindowRule,
    app_id: Option<Seq<char>>,
    title: Option<Seq<char>>,
) -> bool {
    &&& match rule.app_id {
        Some(pattern) => app_id is Some && app_id->0 == pattern@,
        None => true,
    }
    &&& match rule.title {
        Some(pattern) => title is Some && contains_text(title->0, pattern@),
        None => true,
    }
}

/// The index of the first rule that matches, or the number of rules.
pub open spec fn first_rule(
    rules: Seq<WindowRule>,
    app_id: Option<Seq<char>>,
    title: Option<Seq<char>>,
) -> int
    decreases rules.len(),
{
    if rules.len() == 0 {
        0
    } else {
        let i = first_rule(rules.drop_last(), app_id, title);
        if i < rules.len() - 1 {
            i
        } else if rule_matches(rules.last(), app_id, title) {
            rules.len() - 1
        } else {
            rules.len() as int
        }
    }
}

proof fn lemma_first_rule_stable(
    rules: Seq<WindowRule>,
    app_id: Option<Seq<char>>,
    title: Option<Seq<char>>,
    n: int,
)
    requires
        0 <= n <= rules.len(),
        first_rule(rules.take(n), app_id, title) < n,
    ensures
        first_rule(rules, app_id, title) == first_rule(rules.take(n), app_id, title),
    decreases rules.len() - n,
{
    if n < rules.len() {
        assert(rules.take(n + 1).drop_last() =~= rules.take(n));
        lemma_first_rule_stable(rules, app_id, title, n + 1);
    } else {
        assert(rules.take(n) =~= rules);
    }
}

/// How a rule lets a window open.
#[derive(Debug, Clone, Copy, PartialEq, Eq, Structural)]
pub enum Opening {
    Tiled,
    Floating,
    Fullscreen,
}

impl Model {
    /// How a window opens: as the first matching rule says. Floating goes before fullscreen.
    pub open spec fn opening(
        &self,
        app_id: Option<Seq<char>>,
        title: Option<Seq<char>>,
    ) -> Opening {
        let i = first_rule(self.window_rules, app_id, title);
        if i < self.window_rules.len() {
            if self.window_rules[i].float {
                Opening::Floating
            } else if self.window_rules[i].fullscreen {
                Opening::Fullscreen
            } else {
                Opening::Tiled
            }
        } else {
            Opening::Tiled
        }
    }

    /// The state with a new window at the end of the focused workspace, in focus if it can be.
    pub open spec fn with_window(&self, info: WindowInfo) -> Model {
        let ws = self.focused_workspace();
        let id = WindowId(self.next_window);
        Model {
            windows: self.windows.insert(id.0, info),
            orders: self.orders.insert(ws, self.order(ws).push(id)),
            next_window: (self.next_window + 1) as u64,
            ..*self
        }.focusing(id)
    }

    /// The state with a window marked as it opens.
    pub open spec fn opened(&self, id: WindowId, opening: Opening) -> Model {
        match opening {
            Opening::Tiled => *self,
            Opening::Floating => Model { floating: self.floating.insert(id.0), ..*self },
            Opening::Fullscreen => Model { fullscreen: self.fullscreen.insert(id.0), ..*self },
        }
    }

    /// What marking a window as it opens asks for.
    pub open spec fn opening_effects(&self, id: WindowId, opening: Opening) -> Seq<Effect> {
        match opening {
            Opening::Tiled => Seq::empty(),
            Opening::Floating => self.centering(id) + self.retiles_focused(),
            Opening::Fullscreen => self.retiles_focused(),
        }
    }

    /// The state without a window.
    pub open spec fn without_window(&self, id: WindowId) -> Model {
        Model {
            windows: self.windows.remove(id.0),
            floating: self.floating.remove(id.0),
            fullscreen: self.fullscreen.remove(id.0),
            orders: Map::new(|ws: usize| true, |ws: usize| without(self.orders[ws], id)),
            saved_focus: Map::new(
                |ws: usize| true,
                |ws: usize|
                    if self.saved_focus[ws] == Some(id) {
                        None
                    } else {
                        self.saved_focus[ws]
                    },
            ),
            ..*self
        }
    }

    /// The last window of the focused workspace, if it has any.
    pub open spec fn last_focused(&self) -> Option<WindowId> {
        let order = self.order(self.focused_workspace());
        if order.len() > 0 {
            Some(order.last())
        } else {
            None
        }
    }

    /// A window that commits is made to float: it does not yet, and it has a parent, or still has
    /// no application name after a few commits.
    pub open spec fn floats_itself(&self, id: WindowId, has_parent: bool, has_app_id: bool) -> bool {
        &&& !self.floating.contains(id.0)
        &&& has_parent || (self.windows[id.0].commits + 1 == NAMELESS_COMMITS && !has_app_id)
    }
}

/// Where a window of a size stands when it starts to float by itself: in the middle of an area.
pub open spec fn float_origin(area: Rect, width: i32, height: i32) -> (int, int) {
    let w = if width < MIN_FLOAT_EXTENT {
        MIN_FLOAT_EXTENT
    } else {
        width
    };
    let h = if height < MIN_FLOAT_EXTENT {
        MIN_FLOAT_EXTENT
    } else {
        height
    };
    (area.x + tdiv(area.width - w, 2), area.y + tdiv(area.height - h, 2))
}

/// What a commit is followed by: the window starts to float, or its size is set right.
pub open spec fn commit_effects(
    m: Model,
    id: WindowId,
    floats: bool,
    width: i32,
    height: i32,
    configured: Option<(i32, i32)>,
) -> Seq<Effect> {
    if floats {
        match m.focused_index() {
            Some(i) => {
                let origin = float_origin(m.outputs[i].geometry, width, height);
                seq![
                    Effect::MoveTo { id, x: origin.0 as i32, y: origin.1 as i32 },
                    Effect::Raise { id, activate: true },
                ] + m.retiles_focused()
            },
            None => Seq::empty(),
        }
    } else if m.floating.contains(id.0) {
        Seq::empty()
    } else if width == 0 || height == 0 {
        m.retiles_focused()
    } else {
        match configured {
            Some((w, h)) => if w != width || h != height {
                seq![Effect::Resize { id, width: w, height: h }]
            } else {
                Seq::empty()
            },
            None => Seq::empty(),
        }
    }
}

impl DinatorState {
    /// Check if a window matches any window rule and return the index of the first match.
    pub fn match_window_rule(&self, app_id: Option<&str>, title: Option<&str>) -> (r: Option<usize>)
        ensures
            ({
                let a = match app_id {
                    Some(s) => Some(s@),
                    None => None,
                };
                let t = match title {
                    Some(s) => Some(s@),
                    None => None,
                };
                match r {
                    Some(i) => i < self.window_rules@.len() && first_rule(self.window_rules@, a, t)
                        == i,
                    None => first_rule(self.window_rules@, a, t) == self.window_rules@.len(),
                }
            }),
    {
        let ghost a = match app_id {
            Some(s) => Some(s@),
            None => None,
        };
        let ghost t = match title {
            Some(s) => Some(s@),
            None => None,
        };
        let mut i: usize = 0;
        while i < self.window_rules.len()
            invariant
                i <= self.window_rules@.len(),
                a == (match app_id {
                    Some(s) => Some(s@),
                    None => None,
                }),
                t == (match title {
                    Some(s) => Some(s@),
                    None => None,
                }),
                first_rule(self.window_rules@.take(i as int), a, t) == i,
            decreases self.window_rules@.len() - i,
        {
            assert(self.window_rules@.take(i + 1).drop_last() =~= self.window_rules@.take(
                i as int,
            ));
            let rule = &self.window_rules[i];
            let app_match: bool = match &rule.app_id {
                Some(pattern) => match app_id {
                    Some(id) => same(id, pattern.as_str()),
                    None => false,
                },
                None => true,
            };
            let title_match: bool = match &rule.title {
                Some(pattern) => match title {
                    Some(text) => contains(text, pattern.as_str()),
                    None => false,
                },
                None => true,
            };
            if app_match && title_match {
                proof {
                    lemma_first_rule_stable(self.window_rules@, a, t, i + 1);
                }
                return Some(i);
            }
            i = i + 1;
        }
        assert(self.window_rules@.take(i as int) =~= self.window_rules@);
        None
    }

    /// How a window opens: as the first matching rule says.
    pub(crate) fn opening_of(&self, app_id: &Option<String>, title: &Option<String>) -> (r: Opening)
        ensures
            r == self@.opening(text_view(*app_id), text_view(*title)),
    {
        let a: Option<&str> = match app_id {
            Some(s) => Some(s.as_str()),
            None => None,
        };
        let t: Option<&str> = match title {
            Some(s) => Some(s.as_str()),
            None => None,
        };
        match self.match_window_rule(a, t) {
            Some(i) => {
                if self.window_rules[i].float {
                    Opening::Floating
                } else if self.window_rules[i].fullscreen {
                    Opening::Fullscreen
                } else {
                    Opening::Tiled
                }
            },
            None => Opening::Tiled,
        }
    }

    /// Adds a window at the end of the focused workspace.
    pub(crate) fn insert_window(&mut self, info: WindowInfo, effects: &mut Vec<Effect>) -> (id: WindowId)
        requires
            old(self).wf(),
            old(self).next_window < u64::MAX,
            info.has_surface,
        ensures
            final(self).wf(),
            id == WindowId(old(self).next_window),
            final(self)@ == old(self)@.with_window(info),
            final(effects)@ == old(effects)@ + seq![Effect::MoveTo { id, x: 0, y: 0 }] + old(
                self,
            )@.retiles_focused() + seq![Effect::Focus { target: Some(id) }],
    {
        let ghost m = self@;
        let ghost before = effects@;
        let ws: usize = self.focused_workspace();
        let id = WindowId(self.next_window);
        self.next_window = self.next_window + 1;
        self.windows.insert(id.0, info);
        self.workspaces.push(ws, id);
        effects.push(Effect::MoveTo { id, x: 0, y: 0 });
        self.push_retile_focused(effects);
        assert(self@.retiles_focused() == m.retiles_focused());
        let ghost placed = effects@;
        self.give_focus(id, effects);
        assert(self@ =~= m.with_window(info));
        assert(effects@ =~= before + seq![Effect::MoveTo { id, x: 0, y: 0 }] + m.retiles_focused()
            + seq![Effect::Focus { target: Some(id) }]);
        id
    }

    /// A new toplevel window: it shows that what was launched has started, joins the focused workspace, takes the focus, and opens as the
    /// first matching rule says. Its number is returned.
    pub fn new_toplevel(&mut self, app_id: Option<String>, title: Option<String>) -> (r: (
        WindowId,
        Vec<Effect>,
    ))
        requires
            old(self).wf(),
            old(self).next_window < u64::MAX,
        ensures
            final(self).wf(),
            ({
                let m = old(self)@;
                let id = WindowId(m.next_window);
                let info = WindowInfo {
                    has_surface: true,
                    x11: false,
                    workspace: Some(m.focused_workspace()),
                    commits: 0,
                };
                let opening = m.opening(text_view(app_id), text_view(title));
                &&& r.0 == id
                &&& final(self)@ == m.with_window(info).opened(id, opening)
                &&& r.1@ == seq![
                    Effect::Cursor { icon: CursorIcon::Default },
                    Effect::MoveTo { id, x: 0, y: 0 },
                ] + m.retiles_focused() + seq![Effect::Focus { target: Some(id) }]
                    + m.opening_effects(id, opening) + seq![
                    Effect::Emit { event: IpcEvent::WindowOpened { id: id.0, app_id, title } },
                ]
            }),
    {
        let ghost m = self@;
        let ws: usize = self.focused_workspace();
        let mut effects: Vec<Effect> = Vec::new();
        effects.push(Effect::Cursor { icon: CursorIcon::Default });
        let info = WindowInfo { has_surface: true, x11: false, workspace: Some(ws), commits: 0 };
        let id = self.insert_window(info, &mut effects);
        let ghost inserted = effects@;
        let opening: Opening = self.opening_of(&app_id, &title);
        match opening {
            Opening::Tiled => {},
            Opening::Floating => {
                self.floating.insert(id.0);
                self.push_centering(id, &mut effects);
                self.push_retile_focused(&mut effects);
            },
            Opening::Fullscreen => {
                self.fullscreen.insert(id.0);
                self.push_retile_focused(&mut effects);
            },
        }
        assert(self@.retiles_focused() == m.retiles_focused());
        assert(self@.centering(id) == m.centering(id));
        assert(self@ =~= m.with_window(info).opened(id, opening));
        effects.push(Effect::Emit { event: IpcEvent::WindowOpened { id: id.0, app_id, title } });
        assert(effects@ =~= seq![
            Effect::Cursor { icon: CursorIcon::Default },
            Effect::MoveTo { id, x: 0, y: 0 },
        ] + m.retiles_focused() + seq![Effect::Focus { target: Some(id) }] + m.opening_effects(
            id,
            opening,
        ) + seq![Effect::Emit { event: IpcEvent::WindowOpened { id: id.0, app_id, title } }]);
        (id, effects)
    }

    /// Takes a window out of the state.
    pub(crate) fn forget_window(&mut self, id: WindowId)
        requires
            old(self).wf(),
        ensures
            final(self).wf(),
            final(self)@ == old(self)@.without_window(id),
    {
        self.workspaces.remove_everywhere(id);
        self.floating.remove(&id.0);
        self.fullscreen.remove(&id.0);
        self.windows.remove(&id.0);
        proof {
            let after = old(self)@.without_window(id);
            assert(self@.orders =~= after.orders);
            assert(self@.saved_focus =~= after.saved_focus);
            assert(self@ =~= after);
        }
    }

    /// Moves the keyboard focus to the last window of the focused workspace, if it has any.
    pub(crate) fn focus_last(&mut self, effects: &mut Vec<Effect>)
        requires
            old(self).wf(),
        ensures
            final(self).wf(),
            match old(self)@.last_focused() {
                Some(id) => {
                    &&& final(self)@ == old(self)@.focusing(id)
                    &&& final(effects)@ == old(effects)@ + old(self)@.focus_effects(id)
                },
                None => {
                    &&& final(self)@ == old(self)@
                    &&& final(effects)@ == old(effects)@
                },
            },
    {
        let ws: usize = self.focused_workspace();
        let last: Option<WindowId> = {
            let order = self.workspaces.list(ws);
            if order.len() > 0 {
                Some(order[order.len() - 1])
            } else {
                None
            }
        };
        match last {
            Some(id) => self.give_focus(id, effects),
            None => {},
        }
    }

    /// A toplevel window is gone. The output that shows its workspace is arranged anew, and the
    /// last window of the focused workspace gets the focus.
    pub fn toplevel_destroyed(&mut self, id: WindowId) -> (effects: Vec<Effect>)
        requires
            old(self).wf(),
        ensures
            final(self).wf(),
            ({
                let m = old(self)@;
                let left = m.without_window(id);
                if m.windows.dom().contains(id.0) {
                    &&& final(self)@ == (match left.last_focused() {
                        Some(next) => left.focusing(next),
                        None => left,
                    })
                    &&& exists|retile: Seq<Effect>|
                        {
                            &&& #[trigger] window_home_retiled(m, id, retile)
                            &&& effects@ == seq![
                                Effect::Emit { event: IpcEvent::WindowClosed { id: id.0 } },
                                Effect::Unmap { id },
                            ] + retile + (match left.last_focused() {
                                Some(next) => left.focus_effects(next),
                                None => Seq::empty(),
                            })
                        }
                } else {
                    &&& final(self)@ == m
                    &&& effects@ == Seq::<Effect>::empty()
                }
            }),
    {
        let mut effects: Vec<Effect> = Vec::new();
        let ghost m = self@;
        let info: WindowInfo = match self.windows.get(&id.0) {
            Some(w) => *w,
            None => {
                return effects;
            },
        };
        effects.push(Effect::Emit { event: IpcEvent::WindowClosed { id: id.0 } });
        self.forget_window(id);
        effects.push(Effect::Unmap { id });
        let ghost unmapped = effects@;
        match info.workspace {
            Some(ws) => self.push_retile(ws, &mut effects),
            None => {},
        }
        let ghost retile = effects@.skip(2);
        proof {
            assert(unmapped.len() == 2);
            assert(effects@.take(2) =~= unmapped);
            assert(effects@ =~= unmapped + retile);
            if info.workspace is None {
                assert(retile =~= Seq::<Effect>::empty());
            } else {
                assert(self@.retiles_workspace(retile, info.workspace->0));
            }
            assert(window_home_retiled(m, id, retile));
        }
        let ghost retiled = effects@;
        self.focus_last(&mut effects);
        assert(effects@ =~= seq![
            Effect::Emit { event: IpcEvent::WindowClosed { id: id.0 } },
            Effect::Unmap { id },
        ] + retile + (match m.without_window(id).last_focused() {
            Some(next) => m.without_window(id).focus_effects(next),
            None => Seq::empty(),
        }));
        effects
    }

    /// A window asks to be fullscreen. It floats no more.
    pub fn fullscreen_request(&mut self, id: WindowId) -> (effects: Vec<Effect>)
        requires
            old(self).wf(),
        ensures
            final(self).wf(),
            ({
                let m = old(self)@;
                if m.windows.dom().contains(id.0) {
                    &&& final(self)@ == Model {
                        floating: m.floating.remove(id.0),
                        fullscreen: m.fullscreen.insert(id.0),
                        ..m
                    }
                    &&& effects@ == m.retiles_focused()
                } else {
                    &&& final(self)@ == m
                    &&& effects@ == Seq::<Effect>::empty()
                }
            }),
    {
        let mut effects: Vec<Effect> = Vec::new();
        if self.windows.contains_key(&id.0) {
            self.floating.remove(&id.0);
            self.fullscreen.insert(id.0);
            self.push_retile_focused(&mut effects);
            assert(self@.retiles_focused() == old(self)@.retiles_focused());
            assert(effects@ =~= old(self)@.retiles_focused());
        }
        effects
    }

    /// A window asks to be fullscreen no more.
    pub fn unfullscreen_request(&mut self, id: WindowId) -> (effects: Vec<Effect>)
        requires
            old(self).wf(),
        ensures
            final(self).wf(),
            ({
                let m = old(self)@;
                if m.windows.dom().contains(id.0) {
                    &&& final(self)@ == Model { fullscreen: m.fullscreen.remove(id.0), ..m }
                    &&& effects@ == m.retiles_focused()
                } else {
                    &&& final(self)@ == m
                    &&& effects@ == Seq::<Effect>::empty()
                }
            }),
    {
        let mut effects: Vec<Effect> = Vec::new();
        if self.windows.contains_key(&id.0) {
            self.fullscreen.remove(&id.0);
            self.push_retile_focused(&mut effects);
            assert(self@.retiles_focused() == old(self)@.retiles_focused());
            assert(effects@ =~= old(self)@.retiles_focused());
        }
        effects
    }

    /// A toplevel window committed its surface. A window with a parent, or without an application
    /// name after a few commits, starts to float in the middle of the focused output. A tiled
    /// window without a size is arranged, and one of the wrong size is asked for the right one.
    pub fn commit(
        &mut self,
        id: WindowId,
        has_parent: bool,
        has_app_id: bool,
        width: i32,
        height: i32,
        configured: Option<(i32, i32)>,
    ) -> (effects: Vec<Effect>)
        requires
            old(self).wf(),
            old(self)@.windows.dom().contains(id.0) ==> {
                &&& old(self)@.windows[id.0].commits < u32::MAX
                &&& old(self)@.focused_index() is Some ==> {
                    let origin = float_origin(
                        old(self)@.outputs[old(self)@.focused_index()->0].geometry,
                        width,
                        height,
                    );
                    in_i32(origin.0) && in_i32(origin.1)
                }
            },
        ensures
            final(self).wf(),
            ({
                let m = old(self)@;
                let floats = m.floats_itself(id, has_parent, has_app_id);
                if m.windows.dom().contains(id.0) {
                    &&& final(self)@ == Model {
                        windows: m.windows.insert(
                            id.0,
                            WindowInfo {
                                commits: (m.windows[id.0].commits + 1) as u32,
                                ..m.windows[id.0]
                            },
                        ),
                        floating: if floats {
                            m.floating.insert(id.0)
                        } else {
                            m.floating
                        },
                        ..m
                    }
                    &&& effects@ == commit_effects(m, id, floats, width, height, configured)
                } else {
                    &&& final(self)@ == m
                    &&& effects@ == Seq::<Effect>::empty()
                }
            }),
    {
        let ghost m = self@;
        let mut effects: Vec<Effect> = Vec::new();
        let info: WindowInfo = match self.windows.get(&id.0) {
            Some(w) => *w,
            None => {
                return effects;
            },
        };
        let count: u32 = info.commits + 1;
        self.windows.insert(id.0, WindowInfo { commits: count, ..info });
        let tiled: bool = !self.floating.contains(&id.0);
        let floats: bool = tiled && (has_parent || (count == NAMELESS_COMMITS && !has_app_id));
        assert(floats == m.floats_itself(id, has_parent, has_app_id));
        if floats {
            self.floating.insert(id.0);
            match self.focused_output_index() {
                Some(i) => {
                    let area: Rect = self.outputs[i].geometry;
                    let w: i64 = if width < MIN_FLOAT_EXTENT {
                        MIN_FLOAT_EXTENT as i64
                    } else {
                        width as i64
                    };
                    let h: i64 = if height < MIN_FLOAT_EXTENT {
                        MIN_FLOAT_EXTENT as i64
                    } else {
                        height as i64
                    };
                    let x: i64 = area.x as i64 + truncating_div(area.width as i64 - w, 2);
                    let y: i64 = area.y as i64 + truncating_div(area.height as i64 - h, 2);
                    assert(self@.focused_index() == m.focused_index());
                    effects.push(Effect::MoveTo { id, x: x as i32, y: y as i32 });
                    effects.push(Effect::Raise { id, activate: true });
                    self.push_retile_focused(&mut effects);
                },
                None => {},
            }
        } else if tiled {
            if width == 0 || height == 0 {
                self.push_retile_focused(&mut effects);
            } else {
                match configured {
                    Some((w, h)) => {
                        if w != width || h != height {
                            effects.push(Effect::Resize { id, width: w, height: h });
                        }
                    },
                    None => {},
                }
            }
        }
        assert(self@.retiles_focused() == m.retiles_focused());
        assert(effects@ =~= commit_effects(m, id, floats, width, height, configured));
        effects
    }

    /// A window is clicked: it is raised, and gets the focus unless it belongs to an X11
    /// application.
    pub fn raise_and_focus(&mut self, id: WindowId) -> (effects: Vec<Effect>)
        requires
            old(self).wf(),
        ensures
            final(self).wf(),
            ({
                let m = old(self)@;
                if !m.windows.dom().contains(id.0) {
                    final(self)@ == m && effects@ == Seq::<Effect>::empty()
                } else if m.windows[id.0].x11 {
                    final(self)@ == m && effects@ == seq![Effect::Raise { id, activate: true }]
                } else {
                    &&& final(self)@ == m.focusing(id)
                    &&& effects@ == seq![Effect::Raise { id, activate: true }] + m.focus_effects(id)
                }
            }),
    {
        let mut effects: Vec<Effect> = Vec::new();
        let info: WindowInfo = match self.windows.get(&id.0) {
            Some(w) => *w,
            None => {
                return effects;
            },
        };
        effects.push(Effect::Raise { id, activate: true });
        if !info.x11 {
            self.give_focus(id, &mut effects);
        }
        effects
    }

    /// A window asks to be activated by a token that was given some seconds ago. The pointer shows
    /// that something starts; then the window is raised and gets the focus, as if clicked. Old
    /// tokens do not count.
    pub fn request_activation(&mut self, id: WindowId, token_seconds: u64) -> (effects: Vec<Effect>)
        requires
            old(self).wf(),
        ensures
            final(self).wf(),
            ({
                let m = old(self)@;
                let shown = Effect::Cursor { icon: CursorIcon::Progress };
                let raised = Effect::Raise { id, activate: true };
                if token_seconds >= ACTIVATION_SECONDS || !m.windows.dom().contains(id.0) {
                    final(self)@ == m && effects@ == seq![shown]
                } else if m.windows[id.0].x11 {
                    final(self)@ == m && effects@ == seq![shown, raised]
                } else {
                    &&& final(self)@ == m.focusing(id)
                    &&& effects@ == seq![shown, raised] + m.focus_effects(id)
                }
            }),
    {
        let ghost m = self@;
        let mut effects: Vec<Effect> = Vec::new();
        effects.push(Effect::Cursor { icon: CursorIcon::Progress });
        if token_seconds < ACTIVATION_SECONDS {
            let mut rest = self.raise_and_focus(id);
            effects.append(&mut rest);
        }
        assert(seq![
            Effect::Cursor { icon: CursorIcon::Progress },
            Effect::Raise { id, activate: true },
        ] + m.focus_effects(id) =~= seq![Effect::Cursor { icon: CursorIcon::Progress }] + (seq![
            Effect::Raise { id, activate: true },
        ] + m.focus_effects(id)));
        effects
    }

    /// The keyboard focus has moved. Subscribers hear of it where it is on a window.
    pub fn focus_changed(&mut self, target: Option<WindowId>) -> (effects: Vec<Effect>)
        requires
            old(self).wf(),
        ensures
            final(self).wf(),
            final(self)@ == (Model { keyboard_focus: target, ..old(self)@ }),
            effects@ == (match final(self)@.focused_id() {
                Some(id) => seq![Effect::Emit { event: IpcEvent::WindowFocused { id: id.0 } }],
                None => Seq::empty(),
            }),
    {
        self.keyboard_focus = target;
        let mut effects: Vec<Effect> = Vec::new();
        match self.focused_window() {
            Some(id) => {
                effects.push(Effect::Emit { event: IpcEvent::WindowFocused { id: id.0 } });
            },
            None => {},
        }
        assert(effects@ =~= (match self@.focused_id() {
            Some(id) => seq![Effect::Emit { event: IpcEvent::WindowFocused { id: id.0 } }],
            None => Seq::empty(),
        }));
        effects
    }
}

/// The output that shows a window's workspace is arranged anew.
pub open spec fn window_home_retiled(m: Model, id: WindowId, retile: Seq<Effect>) -> bool {
    match m.windows[id.0].workspace {
        Some(ws) => m.retiles_workspace(retile, ws),
        None => retile == Seq::<Effect>::empty(),
    }
}

} // verus!
