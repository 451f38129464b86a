//! Title bars of the stacked layout.

use crate::compositor::layout::ActiveLayout;
use crate::compositor::seen::{find_seen, is_first_seen, SeenWindow};
use crate::compositor::state::{has_output, index_of, DinatorState, Model, OutputState};
use crate::text::{same, text3};
use crate::tiling::WindowId;
use vstd::prelude::*;
use vstd::string::*;

verus! {

broadcast use vstd::std_specs::hash::group_hash_axioms;

/// Height of a title bar where the layout does not tell.
pub const DEFAULT_TAB_HEIGHT: i32 = 24;

/// A title bar.
#[derive(Debug)]
pub struct Tab {
    pub app_id: String,
    pub title: String,
    pub focused: bool,
}

/// The title bars of an output.
#[derive(Debug)]
pub struct StackedTabs {
    pub tabs: Vec<Tab>,
    pub tab_height: i32,
    pub gap: i32,
}

/// A text, or none.
pub open spec fn or_empty(text: Option<String>) -> Seq<char> {
    match text {
        Some(s) => s@,
        None => Seq::empty(),
    }
}

/// The title bar of a window.
pub open spec fn is_tab(seen: Seq<SeenWindow>, id: WindowId, focused: bool, tab: Tab) -> bool {
    &&& tab.focused == focused
    &&& {
        ||| exists|k: int|
            {
                &&& #[trigger] is_first_seen(seen, id.0, k)
                &&& tab.app_id@ == or_empty(seen[k].app_id)
                &&& tab.title@ == or_empty(seen[k].title)
            }
        ||| {
            &&& forall|k: int| 0 <= k < seen.len() ==> (#[trigger] seen[k]).id != id.0
            &&& tab.app_id@.len() == 0
            &&& tab.title@.len() == 0
        }
    }
}

/// The windows of a list that exist, each with whether it is the first of the list.
pub open spec fn tab_windows(tiled: Seq<WindowId>, m: Model) -> Seq<(WindowId, bool)>
    decreases tiled.len(),
{
    if tiled.len() == 0 {
        Seq::empty()
    } else {
        let before = tab_windows(tiled.drop_last(), m);
        if m.windows.dom().contains(tiled.last().0) {
            before.push((tiled.last(), tiled.len() == 1))
        } else {
            before
        }
    }
}

/// Height of the title bars on an output.
pub open spec fn tab_height(o: OutputState) -> i32 {
    match o.layout {
        ActiveLayout::Stacked(l) => l.tab_height,
        _ => DEFAULT_TAB_HEIGHT,
    }
}

/// An output shows title bars: its layout is the stacked one, and at least two windows are tiled.
pub open spec fn shows_tabs(m: Model, output: Seq<char>) -> bool {
    let o = m.outputs[index_of(m.outputs, output)];
    &&& has_output(m.outputs, output)
    &&& o.layout.label() == "stacked"@
    &&& m.tiled(o.active_workspace).len() >= 2
}

fn text_or_empty(text: &Option<String>) -> (r: String)
    ensures
        r@ == or_empty(*text),
{
    match text {
        Some(s) => s.clone(),
        None => String::new(),
    }
}

impl DinatorState {
    /// The title bars of the stacked layout, one for each tiled window in order. None on other
    /// layouts and with fewer than two windows.
    pub fn stacked_tabs(&self, output: &str, seen: &[SeenWindow]) -> (r: Option<StackedTabs>)
        requires
            self.wf(),
        ensures
            match r {
                Some(t) => {
                    let o = self.outputs@[index_of(self.outputs@, output@)];
                    let windows = tab_windows(self@.tiled(o.active_workspace), self@);
                    &&& shows_tabs(self@, output@)
                    &&& t.tab_height == tab_height(o)
                    &&& t.gap == o.layout.gap_width()
                    &&& t.tabs@.len() == windows.len()
                    &&& forall|i: int|
                        0 <= i < windows.len() ==> is_tab(
                            seen@,
                            windows[i].0,
                            windows[i].1,
                            #[trigger] t.tabs@[i],
                        )
                },
                None => !shows_tabs(self@, output@),
            },
    {
        let index: usize = match self.output_index(output) {
            Some(i) => i,
            None => {
                return None;
            },
        };
        let o = &self.outputs[index];
        if !same(o.layout.name(), "stacked") {
            return None;
        }
        let tiled = self.tiled_windows(o.active_workspace);
        if tiled.len() < 2 {
            return None;
        }
        let tab_height: i32 = match &o.layout {
            ActiveLayout::Stacked(l) => l.tab_height,
            _ => DEFAULT_TAB_HEIGHT,
        };
        let mut tabs: Vec<Tab> = Vec::new();
        let mut i: usize = 0;
        assert(tiled@.take(0) =~= Seq::<WindowId>::empty());
        while i < tiled.len()
            invariant
                i <= tiled@.len(),
                ({
                    let windows = tab_windows(tiled@.take(i as int), self@);
                    &&& tabs@.len() == windows.len()
                    &&& forall|k: int|
                        0 <= k < windows.len() ==> is_tab(
                            seen@,
                            windows[k].0,
                            windows[k].1,
                            #[trigger] tabs@[k],
                        )
                }),
            decreases tiled@.len() - i,
        {
            assert(tiled@.take(i + 1).drop_last() =~= tiled@.take(i as int));
            let id: WindowId = tiled[i];
            if self.windows.contains_key(&id.0) {
                let tab = match find_seen(seen, id.0) {
                    Some(k) => {
                        assert(is_first_seen(seen@, id.0, k as int));
                        Tab {
                            app_id: text_or_empty(&seen[k].app_id),
                            title: text_or_empty(&seen[k].title),
                            focused: i == 0,
                        }
                    },
                    None => Tab { app_id: String::new(), title: String::new(), focused: i == 0 },
                };
                assert(is_tab(seen@, id, i == 0, tab));
                tabs.push(tab);
            }
            i = i + 1;
        }
        assert(tiled@.take(i as int) =~= tiled@);
        Some(StackedTabs { tabs, tab_height, gap: o.layout.gap() })
    }
}

/// What a title bar reads: the title and the application's name, as far as they are known.
pub open spec fn label_of(app_id: Seq<char>, title: Seq<char>) -> Seq<char> {
    if title.len() == 0 {
        app_id
    } else if app_id.len() == 0 {
        title
    } else {
        title + "  —  "@ + app_id
    }
}

impl Tab {
    /// What the title bar reads.
    pub fn label(&self) -> (r: String)
        ensures
            r@ == label_of(self.app_id@, self.title@),
    {
        if self.title.as_str().unicode_len() == 0 {
            self.app_id.clone()
        } else if self.app_id.as_str().unicode_len() == 0 {
            self.title.clone()
        } else {
            text3(self.title.as_str(), "  —  ", self.app_id.as_str())
        }
    }
}

} // verus!
