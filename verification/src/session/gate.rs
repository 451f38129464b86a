//! Which encoded frames go to the client.

use crate::gfx::channel::GfxSharedState;
use vstd::prelude::*;

verus! {

/// Bytes in a second after which delta frames wait.
pub const MAX_BYTES_PER_SECOND: u64 = 5_000_000;

/// Delta frames smaller than this hold no change.
pub const EMPTY_FRAME_BYTES: usize = 50;

/// Delta frames larger than this are dropped.
pub const MAX_GFX_FRAME_BYTES: usize = 512_000;

/// Microseconds between frames.
pub fn frame_interval_micros(fps: u32) -> (r: u64)
    requires
        fps > 0,
    ensures
        r == 1_000_000int / fps as int,
{
    1_000_000 / fps as u64
}

/// What becomes of an encoded frame.
#[derive(Debug, Clone, Copy, PartialEq, Eq, Structural)]
pub enum Decision {
    /// Dropped: too much has been sent within this second.
    Throttled,
    /// Dropped: nothing changed.
    Unchanged,
    /// Dropped: too large. The next frame is to be a keyframe, if the last one is long ago.
    Oversized { force_keyframe: bool },
    /// Sent under this number.
    Send { frame_id: u32 },
}

/// Counts what has been sent and dropped.
#[derive(Debug, Clone, Copy, PartialEq, Eq, Structural)]
pub struct FrameGate {
    /// Bytes sent within this second.
    pub bytes_in_window: u64,
    /// Oversized frames dropped since the last one sent.
    pub dropped: u64,
}

/// What becomes of a frame after `bytes` bytes of this second.
pub open spec fn decision(
    bytes: u64,
    size: usize,
    keyframe: bool,
    cooled: bool,
    frame_id: u32,
) -> Decision {
    if keyframe {
        Decision::Send { frame_id }
    } else if bytes > MAX_BYTES_PER_SECOND {
        Decision::Throttled
    } else if size < EMPTY_FRAME_BYTES {
        Decision::Unchanged
    } else if size > MAX_GFX_FRAME_BYTES {
        Decision::Oversized { force_keyframe: cooled }
    } else {
        Decision::Send { frame_id }
    }
}

impl FrameGate {
    pub fn new() -> (r: Self)
        ensures
            r.bytes_in_window == 0,
            r.dropped == 0,
    {
        FrameGate { bytes_in_window: 0, dropped: 0 }
    }

    /// Decides on a frame of `size` bytes. `new_second` tells that a second has passed since the
    /// count of bytes began, `cooled` that the last keyframe is longer ago than the cooldown.
    /// A dropped frame uses up its number, but for one without a change.
    pub fn decide(
        &mut self,
        gfx: &mut GfxSharedState,
        size: usize,
        keyframe: bool,
        new_second: bool,
        cooled: bool,
    ) -> (r: Decision)
        requires
            old(gfx).next_frame_id < u32::MAX,
            old(self).dropped < u64::MAX,
        ensures
            ({
                let bytes = if new_second {
                    0
                } else {
                    old(self).bytes_in_window
                };
                &&& r == decision(bytes, size, keyframe, cooled, old(gfx).next_frame_id)
                &&& final(self).bytes_in_window == bytes
                &&& final(self).dropped == old(self).dropped + (if r is Oversized {
                    1int
                } else {
                    0
                })
                &&& *final(gfx) == (GfxSharedState {
                    next_frame_id: (old(gfx).next_frame_id + (if r is Oversized || r is Throttled {
                        1int
                    } else {
                        0
                    })) as u32,
                    ..*old(gfx)
                })
            }),
    {
        if new_second {
            self.bytes_in_window = 0;
        }
        if self.bytes_in_window > MAX_BYTES_PER_SECOND && !keyframe {
            gfx.next_frame_id = gfx.next_frame_id + 1;
            Decision::Throttled
        } else if size < EMPTY_FRAME_BYTES && !keyframe {
            Decision::Unchanged
        } else if size > MAX_GFX_FRAME_BYTES && !keyframe {
            self.dropped = self.dropped + 1;
            gfx.next_frame_id = gfx.next_frame_id + 1;
            Decision::Oversized { force_keyframe: cooled }
        } else {
            Decision::Send { frame_id: gfx.next_frame_id }
        }
    }

    /// A frame was wrapped into a message; `bytes` is its size if it was handed to the channel.
    pub fn sent(&mut self, gfx: &mut GfxSharedState, frame_id: u32, bytes: Option<usize>)
        requires
            frame_id < u32::MAX,
            bytes is Some ==> old(self).bytes_in_window + bytes->0 <= u64::MAX,
        ensures
            *final(gfx) == (GfxSharedState { next_frame_id: (frame_id + 1) as u32, ..*old(gfx) }),
            *final(self) == (match bytes {
                Some(n) => FrameGate {
                    bytes_in_window: (old(self).bytes_in_window + n) as u64,
                    dropped: 0,
                },
                None => *old(self),
            }),
    {
        match bytes {
            Some(n) => {
                self.bytes_in_window = self.bytes_in_window + n as u64;
                self.dropped = 0;
            },
            None => {},
        }
        gfx.next_frame_id = frame_id + 1;
    }
}

/// Keyframes always pass, whatever has been sent and however large they are.
pub proof fn lemma_keyframes_pass(bytes: u64, size: usize, cooled: bool, frame_id: u32)
    ensures
        decision(bytes, size, true, cooled, frame_id) == (Decision::Send { frame_id }),
{
}

/// While less than the limit has been sent, a delta frame passes exactly if it holds a change and is
/// not too large.
pub proof fn lemma_deltas_pass(bytes: u64, size: usize, cooled: bool, frame_id: u32)
    ensures
        decision(bytes, size, false, cooled, frame_id) == (Decision::Send { frame_id }) <==> (bytes
            <= MAX_BYTES_PER_SECOND && EMPTY_FRAME_BYTES <= size <= MAX_GFX_FRAME_BYTES),
{
}

} // verus!
