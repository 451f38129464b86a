//! The layout of an output.

use crate::text::same;
use crate::tiling::centered::CenteredMasterLayout;
use crate::tiling::column::ColumnLayout;
use crate::tiling::dwindle::DwindleLayout;
use crate::tiling::monocle::MonocleLayout;
use crate::tiling::ratio::{grown, shrunk, Ratio, RATIO_MAX, RATIO_MIN};
use crate::tiling::stacked::StackedLayout;
use crate::tiling::centered::centered_order;
use crate::tiling::{arranged, Layout, Placement, Rect, WindowId};
use vstd::prelude::*;

verus! {

/// A built-in layout, or one that a plugin provides under a name.
#[derive(Debug)]
pub enum ActiveLayout {
    Column(ColumnLayout),
    Monocle(MonocleLayout),
    Dwindle(DwindleLayout),
    Centered(CenteredMasterLayout),
    Stacked(StackedLayout),
    Plugin(String),
}

/// The built-in layout of a name, fresh.
pub open spec fn is_fresh_builtin(layout: ActiveLayout, name: Seq<char>) -> bool {
    match layout {
        ActiveLayout::Column(l) => name == "column"@ && l.main_ratio.units == 79263353441720736
            && l.gap == 4,
        ActiveLayout::Monocle(l) => name == "monocle"@ && l.gap == 0,
        ActiveLayout::Dwindle(l) => name == "dwindle"@ && l.main_ratio.units == 79263353441720736
            && l.gap == 4,
        ActiveLayout::Centered(l) => name == "centered"@ && l.main_ratio.units == 72057594037927936
            && l.gap == 4,
        ActiveLayout::Stacked(l) => name == "stacked"@ && l.tab_height == 24 && l.gap == 4,
        ActiveLayout::Plugin(_) => false,
    }
}

pub open spec fn is_builtin_name(name: Seq<char>) -> bool {
    ||| name == "column"@
    ||| name == "monocle"@
    ||| name == "dwindle"@
    ||| name == "centered"@
    ||| name == "stacked"@
}

impl ActiveLayout {
    pub open spec fn wf(&self) -> bool {
        match *self {
            ActiveLayout::Column(l) => l.wf(),
            ActiveLayout::Monocle(l) => l.wf(),
            ActiveLayout::Dwindle(l) => l.wf(),
            ActiveLayout::Centered(l) => l.wf(),
            ActiveLayout::Stacked(l) => l.wf(),
            ActiveLayout::Plugin(_) => true,
        }
    }

    pub open spec fn label(&self) -> Seq<char> {
        match *self {
            ActiveLayout::Column(_) => "column"@,
            ActiveLayout::Monocle(_) => "monocle"@,
            ActiveLayout::Dwindle(_) => "dwindle"@,
            ActiveLayout::Centered(_) => "centered"@,
            ActiveLayout::Stacked(_) => "stacked"@,
            ActiveLayout::Plugin(name) => name@,
        }
    }

    /// The windows cover each other, so that the first one is raised: stacked and monocle.
    pub open spec fn overlapping(&self) -> bool {
        self.label() == "stacked"@ || self.label() == "monocle"@
    }

    /// The gap between windows. A plugin's layout has none of its own.
    pub open spec fn gap_width(&self) -> i32 {
        match *self {
            ActiveLayout::Column(l) => l.gap,
            ActiveLayout::Monocle(l) => l.gap,
            ActiveLayout::Dwindle(l) => l.gap,
            ActiveLayout::Centered(l) => l.gap,
            ActiveLayout::Stacked(l) => l.gap,
            ActiveLayout::Plugin(_) => 0,
        }
    }

    /// The master area ratio of the layouts that have one.
    pub open spec fn ratio(&self) -> Option<Ratio> {
        match *self {
            ActiveLayout::Column(l) => Some(l.main_ratio),
            ActiveLayout::Dwindle(l) => Some(l.main_ratio),
            ActiveLayout::Centered(l) => Some(l.main_ratio),
            _ => None,
        }
    }

    /// The layout with another gap. A plugin's layout keeps its own.
    pub open spec fn with_gap(&self, gap: i32) -> ActiveLayout {
        match *self {
            ActiveLayout::Column(l) => ActiveLayout::Column(ColumnLayout { gap, ..l }),
            ActiveLayout::Monocle(_) => ActiveLayout::Monocle(MonocleLayout { gap }),
            ActiveLayout::Dwindle(l) => ActiveLayout::Dwindle(DwindleLayout { gap, ..l }),
            ActiveLayout::Centered(l) => ActiveLayout::Centered(
                CenteredMasterLayout { gap, ..l },
            ),
            ActiveLayout::Stacked(l) => ActiveLayout::Stacked(StackedLayout { gap, ..l }),
            ActiveLayout::Plugin(name) => ActiveLayout::Plugin(name),
        }
    }

    /// The layout with another master area ratio, where it has one.
    pub open spec fn with_ratio(&self, ratio: Ratio) -> ActiveLayout {
        match *self {
            ActiveLayout::Column(l) => ActiveLayout::Column(
                ColumnLayout { main_ratio: ratio, ..l },
            ),
            ActiveLayout::Dwindle(l) => ActiveLayout::Dwindle(
                DwindleLayout { main_ratio: ratio, ..l },
            ),
            ActiveLayout::Centered(l) => ActiveLayout::Centered(
                CenteredMasterLayout { main_ratio: ratio, ..l },
            ),
            other => other,
        }
    }

    /// The built-in layout of a name.
    pub fn builtin(name: &str) -> (r: Option<ActiveLayout>)
        ensures
            r is Some <==> is_builtin_name(name@),
            r is Some ==> is_fresh_builtin(r->0, name@) && r->0.wf() && r->0.label() == name@,
    {
        if same(name, "column") {
            Some(ActiveLayout::Column(ColumnLayout::default()))
        } else if same(name, "monocle") {
            Some(ActiveLayout::Monocle(MonocleLayout::default()))
        } else if same(name, "dwindle") {
            Some(ActiveLayout::Dwindle(DwindleLayout::default()))
        } else if same(name, "centered") {
            Some(ActiveLayout::Centered(CenteredMasterLayout::default()))
        } else if same(name, "stacked") {
            Some(ActiveLayout::Stacked(StackedLayout::default()))
        } else {
            None
        }
    }

    /// Layout name for IPC and display purposes.
    pub fn name(&self) -> (r: &str)
        ensures
            r@ == self.label(),
    {
        match self {
            ActiveLayout::Column(l) => l.name(),
            ActiveLayout::Monocle(l) => l.name(),
            ActiveLayout::Dwindle(l) => l.name(),
            ActiveLayout::Centered(l) => l.name(),
            ActiveLayout::Stacked(l) => l.name(),
            ActiveLayout::Plugin(name) => name.as_str(),
        }
    }

    /// Whether the windows cover each other.
    pub fn is_overlapping(&self) -> (r: bool)
        ensures
            r == self.overlapping(),
    {
        same(self.name(), "stacked") || same(self.name(), "monocle")
    }

    /// Current gap in pixels.
    pub fn gap(&self) -> (r: i32)
        ensures
            r == self.gap_width(),
    {
        match self {
            ActiveLayout::Column(l) => l.gap(),
            ActiveLayout::Monocle(l) => l.gap(),
            ActiveLayout::Dwindle(l) => l.gap(),
            ActiveLayout::Centered(l) => l.gap(),
            ActiveLayout::Stacked(l) => l.gap(),
            ActiveLayout::Plugin(_) => 0,
        }
    }

    /// Set the gap between windows. Returns true if changed.
    pub fn set_gap(&mut self, gap: i32) -> (changed: bool)
        requires
            old(self).wf(),
        ensures
            final(self).wf(),
            *final(self) == old(self).with_gap(gap),
            changed == (*old(self) !is Plugin && old(self).gap_width() != gap),
    {
        match self {
            ActiveLayout::Column(l) => l.set_gap(gap),
            ActiveLayout::Monocle(l) => l.set_gap(gap),
            ActiveLayout::Dwindle(l) => l.set_gap(gap),
            ActiveLayout::Centered(l) => l.set_gap(gap),
            ActiveLayout::Stacked(l) => l.set_gap(gap),
            ActiveLayout::Plugin(_) => false,
        }
    }

    /// Current master ratio, if applicable.
    pub fn master_ratio(&self) -> (r: Option<Ratio>)
        ensures
            r == self.ratio(),
    {
        match self {
            ActiveLayout::Column(l) => l.master_ratio(),
            ActiveLayout::Monocle(l) => l.master_ratio(),
            ActiveLayout::Dwindle(l) => l.master_ratio(),
            ActiveLayout::Centered(l) => l.master_ratio(),
            ActiveLayout::Stacked(l) => l.master_ratio(),
            ActiveLayout::Plugin(_) => None,
        }
    }

    /// Increase the master area ratio by a step. Returns true if changed.
    pub fn grow_master(&mut self) -> (changed: bool)
        requires
            old(self).wf(),
        ensures
            final(self).wf(),
            changed == (old(self).ratio() is Some && old(self).ratio()->0@ < RATIO_MAX),
            changed ==> {
                &&& final(self).ratio() is Some
                &&& final(self).ratio()->0@ == grown(old(self).ratio()->0@)
                &&& *final(self) == old(self).with_ratio(final(self).ratio()->0)
            },
            !changed ==> *final(self) == *old(self),
    {
        match self {
            ActiveLayout::Column(l) => l.grow_master(),
            ActiveLayout::Monocle(l) => l.grow_master(),
            ActiveLayout::Dwindle(l) => l.grow_master(),
            ActiveLayout::Centered(l) => l.grow_master(),
            ActiveLayout::Stacked(l) => l.grow_master(),
            ActiveLayout::Plugin(_) => false,
        }
    }

    /// Decrease the master area ratio by a step. Returns true if changed.
    pub fn shrink_master(&mut self) -> (changed: bool)
        requires
            old(self).wf(),
        ensures
            final(self).wf(),
            changed == (old(self).ratio() is Some && old(self).ratio()->0@ > RATIO_MIN),
            changed ==> {
                &&& final(self).ratio() is Some
                &&& final(self).ratio()->0@ == shrunk(old(self).ratio()->0@)
                &&& *final(self) == old(self).with_ratio(final(self).ratio()->0)
            },
            !changed ==> *final(self) == *old(self),
    {
        match self {
            ActiveLayout::Column(l) => l.shrink_master(),
            ActiveLayout::Monocle(l) => l.shrink_master(),
            ActiveLayout::Dwindle(l) => l.shrink_master(),
            ActiveLayout::Centered(l) => l.shrink_master(),
            ActiveLayout::Stacked(l) => l.shrink_master(),
            ActiveLayout::Plugin(_) => false,
        }
    }

    /// `arrange` may be called: the layout is a built-in one, and every place can be written down.
    pub open spec fn arrangeable(&self, count: nat, area: Rect) -> bool {
        match *self {
            ActiveLayout::Column(l) => l.arrangeable(count, area),
            ActiveLayout::Monocle(l) => l.arrangeable(count, area),
            ActiveLayout::Dwindle(l) => l.arrangeable(count, area),
            ActiveLayout::Centered(l) => l.arrangeable(count, area),
            ActiveLayout::Stacked(l) => l.arrangeable(count, area),
            ActiveLayout::Plugin(_) => false,
        }
    }

    /// The placements are what the built-in layout makes of the windows.
    pub open spec fn arranges(
        &self,
        windows: Seq<WindowId>,
        area: Rect,
        placements: Seq<Placement>,
    ) -> bool {
        let n = windows.len() as int;
        match *self {
            ActiveLayout::Column(l) => arranged(
                placements,
                windows,
                |k: int| k,
                |k: int| l.cell(n, area, k),
            ),
            ActiveLayout::Monocle(l) => arranged(
                placements,
                windows,
                |k: int| k,
                |k: int| l.cell(n, area, k),
            ),
            ActiveLayout::Dwindle(l) => arranged(
                placements,
                windows,
                |k: int| k,
                |k: int| l.cell(n, area, k),
            ),
            ActiveLayout::Centered(l) => arranged(
                placements,
                windows,
                |k: int| centered_order(n, k),
                |k: int| l.cell(n, area, k),
            ),
            ActiveLayout::Stacked(l) => arranged(
                placements,
                windows,
                |k: int| k,
                |k: int| l.cell(n, area, k),
            ),
            ActiveLayout::Plugin(_) => false,
        }
    }

    /// Whether `arrange` may be called for `count` windows in an area.
    pub fn can_arrange(&self, count: usize, area: Rect) -> (r: bool)
        requires
            self.wf(),
        ensures
            r == self.arrangeable(count as nat, area),
    {
        match self {
            ActiveLayout::Column(l) => l.can_arrange(count, area),
            ActiveLayout::Monocle(l) => l.can_arrange(count, area),
            ActiveLayout::Dwindle(l) => l.can_arrange(count, area),
            ActiveLayout::Centered(l) => l.can_arrange(count, area),
            ActiveLayout::Stacked(l) => l.can_arrange(count, area),
            ActiveLayout::Plugin(_) => false,
        }
    }

    /// Where a built-in layout puts each window.
    pub fn arrange(&self, windows: &[WindowId], area: Rect) -> (placements: Vec<Placement>)
        requires
            self.arrangeable(windows@.len(), area),
        ensures
            self.arranges(windows@, area, placements@),
    {
        match self {
            ActiveLayout::Column(l) => l.arrange(windows, area),
            ActiveLayout::Monocle(l) => l.arrange(windows, area),
            ActiveLayout::Dwindle(l) => l.arrange(windows, area),
            ActiveLayout::Centered(l) => l.arrange(windows, area),
            ActiveLayout::Stacked(l) => l.arrange(windows, area),
            ActiveLayout::Plugin(_) => Vec::new(),
        }
    }
}

} // verus!
