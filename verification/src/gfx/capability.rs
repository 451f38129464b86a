//! Capability sets of the graphics pipeline: what a client advertises, and what is chosen of it.

use crate::wire::{get16, get32, le32, push_u32, read_u16, read_u32};
use vstd::prelude::*;

verus! {

/// Versions of the protocol.
#[derive(Debug, Clone, Copy, PartialEq, Eq, Structural)]
pub enum CapabilityVersion {
    V8,
    V8_1,
    V10,
    V10_1,
    V10_2,
    V10_3,
    V10_4,
    V10_5,
    V10_6,
    V10_7,
}

/// A version and the flags that it knows. Version 10.1 has none.
#[derive(Debug, Clone, Copy, PartialEq, Eq, Structural)]
pub struct Capability {
    pub version: CapabilityVersion,
    pub flags: u32,
}

/// Flag of version 8.1: the client takes AVC420.
pub const AVC420_ENABLED: u32 = 0x10;

/// Flag of the versions from 10 on: the client takes no AVC.
pub const AVC_DISABLED: u32 = 0x20;

/// The number of a version in messages.
pub open spec fn version_number(version: CapabilityVersion) -> int {
    match version {
        CapabilityVersion::V8 => 0x8_0004,
        CapabilityVersion::V8_1 => 0x8_0105,
        CapabilityVersion::V10 => 0xa_0002,
        CapabilityVersion::V10_1 => 0xa_0100,
        CapabilityVersion::V10_2 => 0xa_0200,
        CapabilityVersion::V10_3 => 0xa_0301,
        CapabilityVersion::V10_4 => 0xa_0400,
        CapabilityVersion::V10_5 => 0xa_0502,
        CapabilityVersion::V10_6 => 0xa_0600,
        CapabilityVersion::V10_7 => 0xa_0701,
    }
}

/// The version that a number stands for. Version 10.6 is known by a second, erroneous number.
pub open spec fn version_of_number(number: int) -> Option<CapabilityVersion> {
    if number == 0x8_0004 {
        Some(CapabilityVersion::V8)
    } else if number == 0x8_0105 {
        Some(CapabilityVersion::V8_1)
    } else if number == 0xa_0002 {
        Some(CapabilityVersion::V10)
    } else if number == 0xa_0100 {
        Some(CapabilityVersion::V10_1)
    } else if number == 0xa_0200 {
        Some(CapabilityVersion::V10_2)
    } else if number == 0xa_0301 {
        Some(CapabilityVersion::V10_3)
    } else if number == 0xa_0400 {
        Some(CapabilityVersion::V10_4)
    } else if number == 0xa_0502 {
        Some(CapabilityVersion::V10_5)
    } else if number == 0xa_0600 || number == 0xa_0601 {
        Some(CapabilityVersion::V10_6)
    } else if number == 0xa_0701 {
        Some(CapabilityVersion::V10_7)
    } else {
        None
    }
}

/// The flags that a version knows.
pub open spec fn known_flags(version: CapabilityVersion) -> u32 {
    match version {
        CapabilityVersion::V8 => 0x03,
        CapabilityVersion::V8_1 => 0x13,
        CapabilityVersion::V10 => 0x22,
        CapabilityVersion::V10_1 => 0x00,
        CapabilityVersion::V10_2 => 0x22,
        CapabilityVersion::V10_3 => 0x60,
        CapabilityVersion::V10_4 => 0x62,
        CapabilityVersion::V10_5 => 0x62,
        CapabilityVersion::V10_6 => 0x62,
        CapabilityVersion::V10_7 => 0xe2,
    }
}

/// Later versions come before earlier ones.
pub open spec fn version_rank(version: CapabilityVersion) -> int {
    match version {
        CapabilityVersion::V8 => 1,
        CapabilityVersion::V8_1 => 2,
        CapabilityVersion::V10 => 10,
        CapabilityVersion::V10_1 => 11,
        CapabilityVersion::V10_2 => 12,
        CapabilityVersion::V10_3 => 13,
        CapabilityVersion::V10_4 => 14,
        CapabilityVersion::V10_5 => 15,
        CapabilityVersion::V10_6 => 16,
        CapabilityVersion::V10_7 => 17,
    }
}

/// A capability set in a message: version, length of the data, data. Version 10.1 has sixteen
/// reserved bytes in place of flags.
pub open spec fn capability_bytes(capability: Capability) -> Seq<u8> {
    let version = le32(version_number(capability.version));
    if capability.version == CapabilityVersion::V10_1 {
        version + le32(16) + le32(0) + le32(0) + le32(0) + le32(0)
    } else {
        version + le32(4) + le32(capability.flags as int)
    }
}

impl CapabilityVersion {
    fn number(&self) -> (r: u32)
        ensures
            r == version_number(*self),
    {
        match self {
            CapabilityVersion::V8 => 0x8_0004,
            CapabilityVersion::V8_1 => 0x8_0105,
            CapabilityVersion::V10 => 0xa_0002,
            CapabilityVersion::V10_1 => 0xa_0100,
            CapabilityVersion::V10_2 => 0xa_0200,
            CapabilityVersion::V10_3 => 0xa_0301,
            CapabilityVersion::V10_4 => 0xa_0400,
            CapabilityVersion::V10_5 => 0xa_0502,
            CapabilityVersion::V10_6 => 0xa_0600,
            CapabilityVersion::V10_7 => 0xa_0701,
        }
    }

    fn of_number(number: u32) -> (r: Option<Self>)
        ensures
            r == version_of_number(number as int),
    {
        match number {
            0x8_0004 => Some(CapabilityVersion::V8),
            0x8_0105 => Some(CapabilityVersion::V8_1),
            0xa_0002 => Some(CapabilityVersion::V10),
            0xa_0100 => Some(CapabilityVersion::V10_1),
            0xa_0200 => Some(CapabilityVersion::V10_2),
            0xa_0301 => Some(CapabilityVersion::V10_3),
            0xa_0400 => Some(CapabilityVersion::V10_4),
            0xa_0502 => Some(CapabilityVersion::V10_5),
            0xa_0600 => Some(CapabilityVersion::V10_6),
            0xa_0601 => Some(CapabilityVersion::V10_6),
            0xa_0701 => Some(CapabilityVersion::V10_7),
            _ => None,
        }
    }

    fn flag_mask(&self) -> (r: u32)
        ensures
            r == known_flags(*self),
    {
        match self {
            CapabilityVersion::V8 => 0x03,
            CapabilityVersion::V8_1 => 0x13,
            CapabilityVersion::V10 => 0x22,
            CapabilityVersion::V10_1 => 0x00,
            CapabilityVersion::V10_2 => 0x22,
            CapabilityVersion::V10_3 => 0x60,
            CapabilityVersion::V10_4 => 0x62,
            CapabilityVersion::V10_5 => 0x62,
            CapabilityVersion::V10_6 => 0x62,
            CapabilityVersion::V10_7 => 0xe2,
        }
    }

    fn rank(&self) -> (r: u32)
        ensures
            r == version_rank(*self),
    {
        match self {
            CapabilityVersion::V8 => 1,
            CapabilityVersion::V8_1 => 2,
            CapabilityVersion::V10 => 10,
            CapabilityVersion::V10_1 => 11,
            CapabilityVersion::V10_2 => 12,
            CapabilityVersion::V10_3 => 13,
            CapabilityVersion::V10_4 => 14,
            CapabilityVersion::V10_5 => 15,
            CapabilityVersion::V10_6 => 16,
            CapabilityVersion::V10_7 => 17,
        }
    }
}

impl Capability {
    /// Only flags that the version knows are set.
    pub open spec fn wf(&self) -> bool {
        self.flags & known_flags(self.version) == self.flags
    }

    /// The client decodes AVC: version 8.1 says so, the versions from 10 on unless they deny it.
    pub open spec fn avc(&self) -> bool {
        match self.version {
            CapabilityVersion::V8 => false,
            CapabilityVersion::V10_1 => false,
            CapabilityVersion::V8_1 => self.flags & AVC420_ENABLED == AVC420_ENABLED,
            _ => self.flags & AVC_DISABLED != AVC_DISABLED,
        }
    }

    /// Whether the client decodes AVC.
    pub fn is_avc_supported(&self) -> (r: bool)
        ensures
            r == self.avc(),
    {
        match self.version {
            CapabilityVersion::V8 => false,
            CapabilityVersion::V10_1 => false,
            CapabilityVersion::V8_1 => self.flags & AVC420_ENABLED == AVC420_ENABLED,
            _ => self.flags & AVC_DISABLED != AVC_DISABLED,
        }
    }

    /// The capability set as it stands in messages.
    pub fn to_bytes(&self) -> (r: Vec<u8>)
        ensures
            r@ == capability_bytes(*self),
    {
        let mut r: Vec<u8> = Vec::new();
        push_u32(&mut r, self.version.number());
        if self.version == CapabilityVersion::V10_1 {
            push_u32(&mut r, 16);
            push_u32(&mut r, 0);
            push_u32(&mut r, 0);
            push_u32(&mut r, 0);
            push_u32(&mut r, 0);
        } else {
            push_u32(&mut r, 4);
            push_u32(&mut r, self.flags);
        }
        assert(r@ =~= capability_bytes(*self));
        r
    }
}

/// The capability that a set of this number and data stands for, if the version is known.
pub open spec fn capability_of(number: int, data: Seq<u8>) -> Option<Capability> {
    match version_of_number(number) {
        Some(version) => {
            let flags = if data.len() >= 4 {
                get32(data, 0) as u32
            } else {
                0u32
            };
            Some(Capability { version, flags: flags & known_flags(version) })
        },
        None => None,
    }
}

/// The known capabilities among the next `count` sets from `offset` on. Reading stops at a set
/// that is not there in full.
pub open spec fn advertised(data: Seq<u8>, offset: int, count: int) -> Seq<Capability>
    decreases count,
{
    if count <= 0 || offset + 8 > data.len() {
        Seq::empty()
    } else {
        let length = get32(data, offset + 4);
        let end = offset + 8 + length;
        if end > data.len() {
            Seq::empty()
        } else {
            let rest = advertised(data, end, count - 1);
            match capability_of(get32(data, offset), data.subrange(offset + 8, end)) {
                Some(capability) => seq![capability] + rest,
                None => rest,
            }
        }
    }
}

/// The capabilities in the body of a message: a count, then the sets.
pub open spec fn advertised_in(data: Seq<u8>) -> Seq<Capability> {
    if data.len() < 2 {
        Seq::empty()
    } else {
        advertised(data, 2, get16(data, 0))
    }
}

/// Parse the capability sets that a client advertises, skipping unknown versions.
///
/// Each capability set has a version, the length of its data, and its data. Clients commonly
/// advertise newer versions than these.
pub fn parse_capabilities_advertise(data: &[u8]) -> (caps: Vec<Capability>)
    ensures
        caps@ == advertised_in(data@),
        forall|i: int| 0 <= i < caps@.len() ==> (#[trigger] caps@[i]).wf(),
{
    let mut caps: Vec<Capability> = Vec::new();
    if data.len() < 2 {
        return caps;
    }
    let count: u16 = read_u16(data, 0);
    let mut offset: usize = 2;
    let mut i: u16 = 0;
    let ghost all = advertised(data@, 2, count as int);
    while i < count
        invariant
            i <= count,
            2 <= offset <= data@.len() <= usize::MAX,
            all == advertised_in(data@),
            all =~= caps@ + advertised(data@, offset as int, count - i),
            forall|i: int| 0 <= i < caps@.len() ==> (#[trigger] caps@[i]).wf(),
        ensures
            advertised(data@, offset as int, count - i) =~= Seq::<Capability>::empty(),
        decreases count - i,
    {
        if data.len() - offset < 8 {
            break;
        }
        let number: u32 = read_u32(data, offset);
        let length: u32 = read_u32(data, offset + 4);
        if data.len() - offset - 8 < length as usize {
            break;
        }
        let end: usize = offset + 8 + length as usize;
        let ghost body = data@.subrange(offset + 8, end as int);
        let flags: u32 = if length >= 4 {
            read_u32(data, offset + 8)
        } else {
            0
        };
        match CapabilityVersion::of_number(number) {
            Some(version) => {
                let mask: u32 = version.flag_mask();
                assert((flags & mask) & mask == flags & mask) by (bit_vector);
                let capability = Capability { version, flags: flags & mask };
                assert(capability_of(number as int, body) == Some(capability));
                caps.push(capability);
            },
            None => {},
        }
        offset = end;
        i = i + 1;
    }
    assert(caps@ =~= all);
    caps
}

/// The capability that is chosen: the last one of the latest version.
pub open spec fn is_best(caps: Seq<Capability>, i: int) -> bool {
    &&& 0 <= i < caps.len()
    &&& forall|j: int|
        0 <= j < caps.len() ==> version_rank((#[trigger] caps[j]).version) <= version_rank(
            caps[i].version,
        )
    &&& forall|j: int|
        i < j < caps.len() ==> version_rank((#[trigger] caps[j]).version) < version_rank(
            caps[i].version,
        )
}

/// Select the best capability set from the client's advertised list.
/// Returns the capability and whether it supports AVC. A client that advertises nothing known
/// gets version 8 without flags.
pub fn select_capability(advertised: &[Capability]) -> (r: (Capability, bool))
    ensures
        advertised@.len() == 0 ==> r.0 == (Capability {
            version: CapabilityVersion::V8,
            flags: 0,
        }),
        advertised@.len() > 0 ==> exists|i: int|
            is_best(advertised@, i) && r.0 == #[trigger] advertised@[i],
        r.1 == r.0.avc(),
{
    if advertised.len() == 0 {
        return (Capability { version: CapabilityVersion::V8, flags: 0 }, false);
    }
    let mut best: usize = 0;
    let mut i: usize = 1;
    while i < advertised.len()
        invariant
            1 <= i <= advertised@.len(),
            best < i,
            is_best(advertised@.take(i as int), best as int),
        decreases advertised@.len() - i,
    {
        let ghost shorter = advertised@.take(i as int);
        let ghost longer = advertised@.take(i + 1);
        assert(forall|j: int| 0 <= j < i ==> #[trigger] longer[j] == shorter[j]);
        if advertised[i].version.rank() >= advertised[best].version.rank() {
            best = i;
        }
        i = i + 1;
    }
    assert(advertised@.take(i as int) =~= advertised@);
    let chosen: Capability = advertised[best];
    assert(advertised@[best as int] == chosen);
    (chosen, chosen.is_avc_supported())
}

} // verus!
