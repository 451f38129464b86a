//! The display control channel: the client's monitors, and the outputs that they ask for.

use crate::wire::le32;
use ironrdp_core::{decode, encode_vec};
use ironrdp_displaycontrol::pdu::{DisplayControlCapabilities, DisplayControlPdu};
use vstd::prelude::*;
use vstd::string::*;

verus! {

/// Largest number of monitors that is advertised.
pub const MAX_MONITORS: u32 = 16;

/// Largest monitor area that is advertised, as two factors.
pub const MAX_AREA_FACTORS: (u32, u32) = (3840, 2400);

/// Largest width and height of an output.
pub const MAX_OUTPUT_EXTENT: u32 = 8192;

/// A monitor entry received from the client.
#[derive(Debug, Clone, Copy, PartialEq, Eq, Structural)]
pub struct MonitorEntry {
    pub is_primary: bool,
    pub left: i32,
    pub top: i32,
    pub width: u32,
    pub height: u32,
}

/// A monitor as the message describes it. The position may be invalid.
#[derive(Debug, Clone, Copy, PartialEq, Eq)]
pub struct ClientMonitor {
    pub is_primary: bool,
    pub position: Option<(i32, i32)>,
    pub width: u32,
    pub height: u32,
}

/// Why a message was refused.
#[derive(Debug, Clone, Copy, PartialEq, Eq, Structural)]
pub struct MalformedMessage;

/// State shared between the channel's handler and the compositor.
#[derive(Debug)]
pub struct DisplayControlState {
    /// Monitor layout from the client that waits to be applied.
    pub pending_layout: Option<Vec<MonitorEntry>>,
}

impl Default for DisplayControlState {
    fn default() -> (r: Self)
        ensures
            r.pending_layout is None,
    {
        DisplayControlState { pending_layout: None }
    }
}

/// Handler of the display control channel, for any number of monitors.
#[derive(Debug)]
pub struct DisplayControlDvc {
    pub state: DisplayControlState,
}

/// What `ironrdp_core::decode` makes of a display control message: nothing of a malformed one,
/// no monitors of the client's capabilities, and the monitors of a layout.
pub uninterp spec fn decoded_message(payload: Seq<u8>) -> Option<Option<Seq<ClientMonitor>>>;

/// `ironrdp_core::decode` of a `DisplayControlPdu`. The result rests on the bytes alone; what the
/// format accepts is left to that crate.
#[verifier::external_body]
fn decode_message(payload: &[u8]) -> (r: Option<Option<Vec<ClientMonitor>>>)
    ensures
        decoded_message(payload@) == match r {
            None => None,
            Some(None) => Some(None),
            Some(Some(monitors)) => Some(Some(monitors@)),
        },
{
    let item = |m: &ironrdp_displaycontrol::pdu::MonitorLayoutEntry| ClientMonitor {
        is_primary: m.is_primary(),
        position: m.position(),
        width: m.dimensions().0,
        height: m.dimensions().1,
    };
    match decode(payload).ok()? {
        DisplayControlPdu::MonitorLayout(layout) => Some(Some(layout.monitors().iter().map(item).collect())),
        DisplayControlPdu::Caps(_) => Some(None),
    }
}

/// A capabilities message: type, length, number of monitors and the two factors of their area.
pub open spec fn caps_bytes(monitors: int, factor_a: int, factor_b: int) -> Seq<u8> {
    le32(5) + le32(20) + le32(monitors) + le32(factor_a) + le32(factor_b)
}

/// `ironrdp_core::encode_vec` on the `DisplayControlCapabilities` that `new` makes. `new` refuses
/// more than 1024 monitors and factors over 16384; everything else is encoded.
#[verifier::external_body]
fn encode_caps(monitors: u32, factor_a: u32, factor_b: u32) -> (r: Option<Vec<u8>>)
    ensures
        match r {
            Some(v) => v@ == caps_bytes(monitors as int, factor_a as int, factor_b as int),
            None => monitors > 1024 || factor_a > 16384 || factor_b > 16384,
        },
{
    let caps = DisplayControlCapabilities::new(monitors, factor_a, factor_b).ok()?;
    encode_vec(&DisplayControlPdu::from(caps)).ok()
}

/// A monitor with an invalid position stands at the origin.
pub open spec fn monitor_entry(m: ClientMonitor) -> MonitorEntry {
    let position: (i32, i32) = match m.position {
        Some(p) => p,
        None => (0, 0),
    };
    MonitorEntry {
        is_primary: m.is_primary,
        left: position.0,
        top: position.1,
        width: m.width,
        height: m.height,
    }
}

impl DisplayControlDvc {
    pub fn new(state: DisplayControlState) -> (r: Self)
        ensures
            r.state == state,
    {
        DisplayControlDvc { state }
    }

    /// Name of the display control channel.
    pub fn channel_name(&self) -> (r: &str)
        ensures
            r@ == "Microsoft::Windows::RDS::DisplayControl"@,
    {
        "Microsoft::Windows::RDS::DisplayControl"
    }

    /// The channel opens: advertise how many monitors are supported, and how large.
    pub fn start(&mut self) -> (message: Vec<u8>)
        ensures
            message@ == caps_bytes(
                MAX_MONITORS as int,
                MAX_AREA_FACTORS.0 as int,
                MAX_AREA_FACTORS.1 as int,
            ),
            *final(self) == *old(self),
    {
        match encode_caps(MAX_MONITORS, MAX_AREA_FACTORS.0, MAX_AREA_FACTORS.1) {
            Some(message) => message,
            None => Vec::new(),
        }
    }

    /// Handle a message from the client: a layout waits to be applied, capabilities are ignored.
    pub fn process(&mut self, payload: &[u8]) -> (r: Result<(), MalformedMessage>)
        ensures
            r is Err <==> decoded_message(payload@) is None,
            match decoded_message(payload@) {
                Some(Some(monitors)) => {
                    &&& final(self).state.pending_layout is Some
                    &&& final(self).state.pending_layout->0@ == monitors.map_values(
                        |m: ClientMonitor| monitor_entry(m),
                    )
                },
                _ => *final(self) == *old(self),
            },
    {
        match decode_message(payload) {
            None => Err(MalformedMessage),
            Some(None) => Ok(()),
            Some(Some(monitors)) => {
                self.accept_layout(&monitors);
                Ok(())
            },
        }
    }

    /// A layout that waits to be applied. It replaces one that waited before.
    pub fn accept_layout(&mut self, monitors: &[ClientMonitor])
        ensures
            final(self).state.pending_layout is Some,
            final(self).state.pending_layout->0@ == monitors@.map_values(
                |m: ClientMonitor| monitor_entry(m),
            ),
    {
        let mut entries: Vec<MonitorEntry> = Vec::new();
        let mut i: usize = 0;
        while i < monitors.len()
            invariant
                i <= monitors@.len(),
                entries@.len() == i,
                forall|j: int| 0 <= j < i ==> entries@[j] == monitor_entry(#[trigger] monitors@[j]),
            decreases monitors@.len() - i,
        {
            let m: ClientMonitor = monitors[i];
            let position: (i32, i32) = match m.position {
                Some(p) => p,
                None => (0, 0),
            };
            entries.push(
                MonitorEntry {
                    is_primary: m.is_primary,
                    left: position.0,
                    top: position.1,
                    width: m.width,
                    height: m.height,
                },
            );
            i = i + 1;
        }
        assert(entries@ =~= monitors@.map_values(|m: ClientMonitor| monitor_entry(m)));
        self.state.pending_layout = Some(entries);
    }
}

/// `a` comes before `b`: the primary monitor first, then from left to right and top to bottom.
pub open spec fn ranks_before(a: MonitorEntry, b: MonitorEntry) -> bool {
    if a.is_primary != b.is_primary {
        a.is_primary
    } else if a.left != b.left {
        a.left < b.left
    } else {
        a.top < b.top
    }
}

/// Monitor `i` comes before monitor `j`; monitors of one rank keep their order.
pub open spec fn ordered(monitors: Seq<MonitorEntry>, i: int, j: int) -> bool {
    ranks_before(monitors[i], monitors[j]) || (!ranks_before(monitors[j], monitors[i]) && i < j)
}

/// `order` lists the monitors' indices, each once, in the order of the outputs.
pub open spec fn is_monitor_order(monitors: Seq<MonitorEntry>, order: Seq<usize>) -> bool {
    &&& order.len() == monitors.len()
    &&& forall|k: int| 0 <= k < order.len() ==> 0 <= #[trigger] order[k] < monitors.len()
    &&& forall|a: int, b: int|
        0 <= a < b < order.len() ==> ordered(
            monitors,
            #[trigger] order[a] as int,
            #[trigger] order[b] as int,
        )
}

fn comes_before(a: &MonitorEntry, b: &MonitorEntry) -> (r: bool)
    ensures
        r == ranks_before(*a, *b),
{
    if a.is_primary != b.is_primary {
        a.is_primary
    } else if a.left != b.left {
        a.left < b.left
    } else {
        a.top < b.top
    }
}

/// The order of the outputs: the primary monitor first, then by position.
pub fn monitor_order(monitors: &[MonitorEntry]) -> (order: Vec<usize>)
    ensures
        is_monitor_order(monitors@, order@),
{
    let mut order: Vec<usize> = Vec::new();
    let mut i: usize = 0;
    while i < monitors.len()
        invariant
            i <= monitors@.len(),
            is_monitor_order(monitors@.take(i as int), order@),
            order@.len() == i,
        decreases monitors@.len() - i,
    {
        let ghost known = monitors@.take(i as int);
        let ghost more = monitors@.take(i + 1);
        let ghost before = order@;
        let mut p: usize = order.len();
        while p > 0 && comes_before(&monitors[i], &monitors[order[p - 1]])
            invariant
                p <= order@.len(),
                i < monitors@.len(),
                order@ == before,
                known == monitors@.take(i as int),
                is_monitor_order(known, order@),
                forall|k: int|
                    p <= k < order@.len() ==> ranks_before(
                        monitors@[i as int],
                        monitors@[#[trigger] order@[k] as int],
                    ),
            decreases p,
        {
            p = p - 1;
        }
        order.insert(p, i);
        proof {
            assert(order@ =~= before.insert(p as int, i));
            assert(forall|k: int| 0 <= k < i ==> #[trigger] more[k] == known[k]);
            assert forall|a: int, b: int| 0 <= a < b < order@.len() implies ordered(
                more,
                #[trigger] order@[a] as int,
                #[trigger] order@[b] as int,
            ) by {
                let a0 = if a < p {
                    a
                } else {
                    a - 1
                };
                let b0 = if b < p {
                    b
                } else {
                    b - 1
                };
                if a != p && b != p {
                    assert(order@[a] == before[a0] && order@[b] == before[b0]);
                    assert(ordered(known, before[a0] as int, before[b0] as int));
                } else if b == p {
                    assert(order@[a] == before[a]);
                    if a < p - 1 {
                        assert(ordered(known, before[a] as int, before[p - 1] as int));
                    }
                } else {
                    assert(order@[b] == before[b0]);
                }
            }
        }
        i = i + 1;
    }
    assert(monitors@.take(i as int) =~= monitors@);
    order
}

/// Every monitor has a place in the order.
pub proof fn lemma_every_monitor_counts(monitors: Seq<MonitorEntry>, order: Seq<usize>, i: int)
    requires
        is_monitor_order(monitors, order),
        0 <= i < monitors.len(),
    ensures
        exists|k: int| 0 <= k < order.len() && #[trigger] order[k] == i,
{
    let ints = order.map_values(|v: usize| v as int);
    assert(ints.no_duplicates()) by {
        assert forall|a: int, b: int| 0 <= a < ints.len() && 0 <= b < ints.len() && a
            != b implies ints[a] != ints[b] by {
            if a < b {
                assert(ordered(monitors, order[a] as int, order[b] as int));
            } else {
                assert(ordered(monitors, order[b] as int, order[a] as int));
            }
        }
    }
    ints.unique_seq_to_set();
    let all = vstd::set_lib::set_int_range(0, monitors.len() as int);
    vstd::set_lib::lemma_int_range(0, monitors.len() as int);
    assert(ints.to_set().subset_of(all)) by {
        assert forall|x: int| ints.to_set().contains(x) implies all.contains(x) by {
            let k = choose|k: int| 0 <= k < ints.len() && ints[k] == x;
            assert(0 <= order[k] < monitors.len());
        }
    }
    vstd::set_lib::lemma_subset_equality(ints.to_set(), all);
    assert(all.contains(i));
    let k = choose|k: int| 0 <= k < ints.len() && ints[k] == i;
    assert(order[k] == i);
}

} // verus!
