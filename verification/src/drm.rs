//! Outputs of graphics hardware: which monitors get which controller and mode.

use crate::compositor::state::{
    geometry_ok, has_output, index_of, named, output_added, DinatorState, Model, OutputState,
};
use crate::ipc::handle::{new_geometry, right_edge};
use crate::text::{decimal, decimal_text, text3};
use crate::tiling::Rect;
use vstd::prelude::*;

verus! {

/// A mode of a monitor.
#[derive(Debug, Clone, Copy, PartialEq, Eq, Structural)]
pub struct ModeInfo {
    pub width: u16,
    pub height: u16,
    /// Frames per second.
    pub vrefresh: u32,
    pub preferred: bool,
}

/// A connector of the hardware.
#[derive(Debug)]
pub struct Connector {
    /// Whether a monitor is connected.
    pub connected: bool,
    /// The display controller that drives it already.
    pub current_crtc: Option<u32>,
    /// Whether it has an encoder that can be used.
    pub has_encoder: bool,
    pub modes: Vec<ModeInfo>,
    /// Kind of plug.
    pub interface: String,
    pub interface_id: u32,
}

/// An output that was made for a connector.
#[derive(Debug)]
pub struct DrmOutput {
    pub name: String,
    pub crtc: u32,
    pub mode: ModeInfo,
    /// Refresh rate in thousandths of a frame per second.
    pub refresh: i32,
}

/// Controller `i` is the first that is not in use.
pub open spec fn first_free(crtcs: Seq<u32>, used: Seq<u32>, i: int) -> bool {
    &&& 0 <= i < crtcs.len()
    &&& !used.contains(crtcs[i])
    &&& forall|j: int| 0 <= j < i ==> used.contains(#[trigger] crtcs[j])
}

/// The controller of a connector: the one that drives it, else the first that is not in use.
pub open spec fn is_crtc_for(c: Connector, crtcs: Seq<u32>, used: Seq<u32>, crtc: u32) -> bool {
    match c.current_crtc {
        Some(n) => crtc == n,
        None => c.has_encoder && exists|i: int| #[trigger]
            first_free(crtcs, used, i) && crtc == crtcs[i],
    }
}

/// No controller can drive the connector.
pub open spec fn no_crtc(c: Connector, crtcs: Seq<u32>, used: Seq<u32>) -> bool {
    &&& c.current_crtc is None
    &&& !c.has_encoder || forall|i: int| 0 <= i < crtcs.len() ==> used.contains(#[trigger] crtcs[i])
}

/// The mode of a monitor: its first preferred one, else its first.
pub open spec fn is_mode_for(modes: Seq<ModeInfo>, m: ModeInfo) -> bool {
    ||| exists|i: int|
        {
            &&& 0 <= i < modes.len()
            &&& m == #[trigger] modes[i]
            &&& m.preferred
            &&& forall|j: int| 0 <= j < i ==> !(#[trigger] modes[j]).preferred
        }
    ||| {
        &&& modes.len() > 0
        &&& m == modes[0]
        &&& forall|j: int| 0 <= j < modes.len() ==> !(#[trigger] modes[j]).preferred
    }
}

/// Name of a connector.
pub open spec fn connector_name(c: Connector) -> Seq<char> {
    c.interface@ + "-"@ + decimal(c.interface_id as nat)
}

fn is_used(used: &[DrmOutput], crtc: u32) -> (r: bool)
    ensures
        r == crtcs_of(used@).contains(crtc),
{
    let mut i: usize = 0;
    while i < used.len()
        invariant
            i <= used@.len(),
            forall|j: int| 0 <= j < i ==> crtcs_of(used@)[j] != crtc,
        decreases used@.len() - i,
    {
        if used[i].crtc == crtc {
            assert(crtcs_of(used@)[i as int] == crtc);
            return true;
        }
        i = i + 1;
    }
    false
}

/// The controllers of outputs.
pub open spec fn crtcs_of(outputs: Seq<DrmOutput>) -> Seq<u32> {
    outputs.map_values(|o: DrmOutput| o.crtc)
}

fn choose_crtc(c: &Connector, crtcs: &[u32], used: &[DrmOutput]) -> (r: Option<u32>)
    ensures
        match r {
            Some(n) => is_crtc_for(*c, crtcs@, crtcs_of(used@), n),
            None => no_crtc(*c, crtcs@, crtcs_of(used@)),
        },
{
    match c.current_crtc {
        Some(n) => {
            return Some(n);
        },
        None => {},
    }
    if !c.has_encoder {
        return None;
    }
    let mut i: usize = 0;
    while i < crtcs.len()
        invariant
            c.current_crtc is None,
            c.has_encoder,
            i <= crtcs@.len(),
            forall|j: int| 0 <= j < i ==> crtcs_of(used@).contains(#[trigger] crtcs@[j]),
        decreases crtcs@.len() - i,
    {
        if !is_used(used, crtcs[i]) {
            assert(first_free(crtcs@, crtcs_of(used@), i as int));
            return Some(crtcs[i]);
        }
        i = i + 1;
    }
    None
}

fn choose_mode(modes: &[ModeInfo]) -> (r: Option<ModeInfo>)
    ensures
        match r {
            Some(m) => is_mode_for(modes@, m),
            None => modes@.len() == 0,
        },
{
    let mut i: usize = 0;
    while i < modes.len()
        invariant
            i <= modes@.len(),
            forall|j: int| 0 <= j < i ==> !(#[trigger] modes@[j]).preferred,
        decreases modes@.len() - i,
    {
        if modes[i].preferred {
            return Some(modes[i]);
        }
        i = i + 1;
    }
    if modes.len() > 0 {
        Some(modes[0])
    } else {
        None
    }
}

/// A connector gets no output: no monitor, no controller, or no mode.
pub open spec fn is_skipped(c: Connector, crtcs: Seq<u32>, used: Seq<u32>) -> bool {
    !c.connected || no_crtc(c, crtcs, used) || c.modes@.len() == 0
}

/// What a connector does to the state and to the list of outputs: it gets an output to the right
/// of the others, or is skipped.
pub open spec fn connector_done(
    before: Model,
    after: Model,
    c: Connector,
    crtcs: Seq<u32>,
    outputs: Seq<DrmOutput>,
    more: Seq<DrmOutput>,
) -> bool {
    let used = crtcs_of(outputs);
    if is_skipped(c, crtcs, used) {
        after == before && more == outputs
    } else {
        let o = more.last();
        &&& more.len() == outputs.len() + 1
        &&& more.drop_last() == outputs
        &&& o.name@ == connector_name(c)
        &&& is_crtc_for(c, crtcs, used, o.crtc)
        &&& is_mode_for(c.modes@, o.mode)
        &&& o.refresh == 1000 * o.mode.vrefresh
        &&& output_added(
            before,
            after,
            o.name,
            new_geometry(before.outputs, o.mode.width, o.mode.height),
        )
    }
}

/// What a list of connectors does, one after the other.
pub open spec fn connectors_done(
    before: Model,
    after: Model,
    connectors: Seq<Connector>,
    crtcs: Seq<u32>,
    outputs: Seq<DrmOutput>,
) -> bool
    decreases connectors.len(),
{
    if connectors.len() == 0 {
        after == before && outputs.len() == 0
    } else {
        exists|between: Model, fewer: Seq<DrmOutput>|
            {
                &&& #[trigger] connector_done(
                    between,
                    after,
                    connectors.last(),
                    crtcs,
                    fewer,
                    outputs,
                )
                &&& connectors_done(before, between, connectors.drop_last(), crtcs, fewer)
            }
    }
}

/// The right edge is at least that of each output.
proof fn lemma_edge_at_least(outputs: Seq<OutputState>, i: int)
    requires
        0 <= i < outputs.len(),
    ensures
        outputs[i].geometry.x + outputs[i].geometry.width <= right_edge(outputs),
    decreases outputs.len(),
{
    if i < outputs.len() - 1 {
        lemma_edge_at_least(outputs.drop_last(), i);
    }
}

/// A connector that nothing drives yet gets a controller that no output has.
pub proof fn lemma_controller_is_free(
    c: Connector,
    crtcs: Seq<u32>,
    outputs: Seq<DrmOutput>,
    crtc: u32,
)
    requires
        c.current_crtc is None,
        is_crtc_for(c, crtcs, crtcs_of(outputs), crtc),
    ensures
        crtcs.contains(crtc),
        forall|i: int| 0 <= i < outputs.len() ==> (#[trigger] outputs[i]).crtc != crtc,
{
    assert forall|i: int| 0 <= i < outputs.len() implies (#[trigger] outputs[i]).crtc != crtc by {
        assert(crtcs_of(outputs)[i] == outputs[i].crtc);
    }
}

/// An output that is made to the right of the others overlaps none of them.
pub proof fn lemma_new_output_is_apart(
    outputs: Seq<OutputState>,
    width: u16,
    height: u16,
    i: int,
)
    requires
        0 <= i < outputs.len(),
        i32::MIN <= right_edge(outputs) <= i32::MAX,
    ensures
        outputs[i].geometry@.disjoint(new_geometry(outputs, width, height)@),
{
    lemma_edge_at_least(outputs, i);
}

/// The right edge is at most a bound of all outputs.
proof fn lemma_edge_at_most(outputs: Seq<OutputState>, bound: int)
    requires
        0 <= bound,
        forall|i: int|
            0 <= i < outputs.len() ==> (#[trigger] outputs[i]).geometry.x
                + outputs[i].geometry.width <= bound,
    ensures
        right_edge(outputs) <= bound,
    decreases outputs.len(),
{
    if outputs.len() > 0 {
        let shorter = outputs.drop_last();
        assert forall|i: int| 0 <= i < shorter.len() implies (#[trigger] shorter[i]).geometry.x
            + shorter[i].geometry.width <= bound by {
            assert(outputs[i] == shorter[i]);
        }
        lemma_edge_at_most(shorter, bound);
        assert(outputs[outputs.len() - 1] == outputs.last());
    }
}

/// A new output to the right moves the right edge by its width at most.
proof fn lemma_edge_moves(before: Model, after: Model, name: String, width: u16, height: u16, bound: int)
    requires
        output_added(before, after, name, new_geometry(before.outputs, width, height)),
        right_edge(before.outputs) <= bound,
        0 <= bound,
        i32::MIN <= right_edge(before.outputs) <= i32::MAX,
    ensures
        right_edge(after.outputs) <= bound + width,
{
    assert forall|i: int| 0 <= i < after.outputs.len() implies (
    #[trigger] after.outputs[i]).geometry.x + after.outputs[i].geometry.width <= bound + width by {
        if i < before.outputs.len() {
            lemma_edge_at_least(before.outputs, i);
        }
        if has_output(before.outputs, name@) {
            assert(named(before.outputs, name@, index_of(before.outputs, name@)));
        }
    }
    lemma_edge_at_most(after.outputs, bound + width);
}

/// The right edge can be written down.
proof fn lemma_edge_in_range(outputs: Seq<OutputState>)
    requires
        forall|i: int| 0 <= i < outputs.len() ==> geometry_ok((#[trigger] outputs[i]).geometry),
    ensures
        i32::MIN <= right_edge(outputs) <= i32::MAX,
    decreases outputs.len(),
{
    if outputs.len() > 0 {
        let shorter = outputs.drop_last();
        assert forall|i: int| 0 <= i < shorter.len() implies geometry_ok(
            (#[trigger] shorter[i]).geometry,
        ) by {
            assert(outputs[i] == shorter[i]);
        }
        lemma_edge_in_range(shorter);
        assert(geometry_ok(outputs[outputs.len() - 1].geometry));
    }
}

impl DinatorState {
    /// Makes an output for a connector, to the right of the others.
    pub fn add_connector(
        &mut self,
        c: &Connector,
        crtcs: &[u32],
        outputs: &mut Vec<DrmOutput>,
    )
        requires
            old(self).wf(),
            forall|m: int|
                0 <= m < c.modes@.len() ==> {
                    &&& right_edge(old(self).outputs@) + (#[trigger] c.modes@[m]).width <= i32::MAX
                    &&& 1000 * c.modes@[m].vrefresh <= i32::MAX
                },
        ensures
            final(self).wf(),
            connector_done(
                old(self)@,
                final(self)@,
                *c,
                crtcs@,
                old(outputs)@,
                final(outputs)@,
            ),
    {
        if !c.connected {
            return;
        }
        let crtc: u32 = match choose_crtc(c, crtcs, outputs) {
            Some(n) => n,
            None => {
                return;
            },
        };
        proof {
            if c.current_crtc is None {
                let i = choose|i: int| #[trigger]
                    first_free(crtcs@, crtcs_of(outputs@), i) && crtc == crtcs@[i];
                assert(!crtcs_of(outputs@).contains(crtcs@[i]));
            }
        }
        let mode: ModeInfo = match choose_mode(&c.modes) {
            Some(m) => m,
            None => {
                return;
            },
        };
        let ghost before = self@;
        let ghost earlier = outputs@;
        let x: i32 = self.right_edge();
        let name = text3(
            c.interface.as_str(),
            "-",
            decimal_text(c.interface_id as u64).as_str(),
        );
        let geometry = Rect { x, y: 0, width: mode.width as i32, height: mode.height as i32 };
        self.register_output(name.clone(), geometry);
        outputs.push(DrmOutput { name, crtc, mode, refresh: mode.vrefresh as i32 * 1000 });
        assert(outputs@.drop_last() =~= earlier);
    }

    /// Makes outputs for the connectors of a graphics device, side by side.
    pub fn add_connectors(&mut self, connectors: &[Connector], crtcs: &[u32]) -> (r: Vec<DrmOutput>)
        requires
            old(self).wf(),
            right_edge(old(self).outputs@) + u16::MAX * connectors@.len() <= i32::MAX,
            u16::MAX * connectors@.len() <= i32::MAX,
            forall|i: int, m: int|
                0 <= i < connectors@.len() && 0 <= m < connectors@[i].modes@.len() ==> 1000 * (
                #[trigger] connectors@[i].modes@[m]).vrefresh <= i32::MAX,
        ensures
            final(self).wf(),
            connectors_done(old(self)@, final(self)@, connectors@, crtcs@, r@),
    {
        let mut outputs: Vec<DrmOutput> = Vec::new();
        let ghost start = self@;
        let ghost bound: int = if right_edge(start.outputs) > 0 {
            right_edge(start.outputs)
        } else {
            0
        };
        let mut i: usize = 0;
        assert(connectors@.take(0) =~= Seq::<Connector>::empty());
        while i < connectors.len()
            invariant
                self.wf(),
                i <= connectors@.len(),
                0 <= bound,
                bound + u16::MAX * connectors@.len() <= i32::MAX,
                right_edge(self.outputs@) <= bound + u16::MAX * i,
                forall|k: int, m: int|
                    0 <= k < connectors@.len() && 0 <= m < connectors@[k].modes@.len() ==> 1000 * (
                    #[trigger] connectors@[k].modes@[m]).vrefresh <= i32::MAX,
                connectors_done(start, self@, connectors@.take(i as int), crtcs@, outputs@),
            decreases connectors@.len() - i,
        {
            let ghost between = self@;
            let ghost fewer = outputs@;
            let ghost next = connectors@.take(i + 1);
            assert(next.drop_last() =~= connectors@.take(i as int));
            proof {
                lemma_edge_in_range(self.outputs@);
            }
            self.add_connector(&connectors[i], crtcs, &mut outputs);
            proof {
                let c = connectors@[i as int];
                assert(connector_done(between, self@, next.last(), crtcs@, fewer, outputs@));
                assert(connectors_done(start, between, next.drop_last(), crtcs@, fewer));
                if !is_skipped(c, crtcs@, crtcs_of(fewer)) {
                    let o = outputs@.last();
                    lemma_edge_moves(
                        between,
                        self@,
                        o.name,
                        o.mode.width,
                        o.mode.height,
                        bound + u16::MAX * i,
                    );
                }
            }
            i = i + 1;
        }
        assert(connectors@.take(i as int) =~= connectors@);
        outputs
    }
}

} // verus!
