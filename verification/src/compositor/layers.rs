//! Panels, launchers and other surfaces outside the windows.

use crate::compositor::event::Effect;
use crate::compositor::state::{has_output, DinatorState};
use vstd::prelude::*;
use vstd::string::*;

verus! {

impl DinatorState {
    /// The output for a new layer surface: the one that it asks for, if there is one, else the
    /// focused output.
    pub fn layer_output(&self, requested: Option<&str>) -> (r: Option<usize>)
        requires
            self.wf(),
        ensures
            match requested {
                Some(name) if has_output(self.outputs@, name@) => {
                    &&& r is Some
                    &&& r->0 < self.outputs@.len()
                    &&& self.outputs@[r->0 as int].name@ == name@
                },
                _ => match r {
                    Some(i) => self@.focused_index() == Some(i as int),
                    None => self@.focused_index() is None,
                },
            },
    {
        match requested {
            Some(name) => match self.output_index(name) {
                Some(i) => Some(i),
                None => self.focused_output_index(),
            },
            None => self.focused_output_index(),
        }
    }

    /// A layer surface went: the keyboard goes back to the focused window.
    pub fn layer_destroyed(&mut self) -> (effects: Vec<Effect>)
        requires
            old(self).wf(),
        ensures
            final(self).wf(),
            match old(self)@.focused_id() {
                Some(id) => {
                    &&& final(self)@ == old(self)@.focusing(id)
                    &&& effects@ == old(self)@.focus_effects(id)
                },
                None => final(self)@ == old(self)@ && effects@ == Seq::<Effect>::empty(),
            },
    {
        let mut effects: Vec<Effect> = Vec::new();
        match self.focused_window() {
            Some(id) => {
                self.give_focus(id, &mut effects);
            },
            None => {},
        }
        effects
    }
}

} // verus!
