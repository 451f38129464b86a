//! NAL units in an Annex B bitstream.

use vstd::prelude::*;

verus! {

/// A start code stands at `i`, and the unit behind it is of type 5.
pub open spec fn idr_at(data: Seq<u8>, i: int) -> bool {
    &&& 0 <= i
    &&& i + 3 < data.len()
    &&& data[i] == 0
    &&& data[i + 1] == 0
    &&& data[i + 2] == 1
    &&& (data[i + 3] & 0x1F) == 5
}

/// The bitstream holds an IDR unit.
pub open spec fn contains_idr(data: Seq<u8>) -> bool {
    exists|i: int| idr_at(data, i)
}

/// Check if an Annex B bitstream contains an IDR NAL unit (type 5).
pub fn has_idr_nal(data: &[u8]) -> (found: bool)
    ensures
        found == contains_idr(data@),
{
    let mut i: usize = 0;
    assert(data@.len() == data.len());
    while i < data.len() && data.len() - i > 3
        invariant
            i <= data@.len(),
            data@.len() == data.len(),
            forall|j: int| 0 <= j < i ==> !idr_at(data@, j),
        decreases data@.len() - i,
    {
        if data[i] == 0 && data[i + 1] == 0 {
            let start: usize = if data[i + 2] == 1 {
                i + 3
            } else if data[i + 2] == 0 && data[i + 3] == 1 {
                i + 4
            } else {
                i + 1
            };
            if start > i + 1 && start < data.len() && (data[start] & 0x1F) == 5 {
                assert(idr_at(data@, start - 3));
                return true;
            }
            i = start;
        } else {
            i = i + 1;
        }
    }
    false
}

} // verus!
