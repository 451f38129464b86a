//! Sound for RDP clients: which format, and in which pieces.

use vstd::prelude::*;

verus! {

/// Tag of uncompressed samples.
pub const PCM: u16 = 1;

/// Pieces of sound in a second.
pub const CHUNKS_PER_SECOND: u32 = 50;

/// Bytes of a sample.
pub const SAMPLE_BYTES: u32 = 2;

/// A format of sound.
#[derive(Debug, Clone, Copy, PartialEq, Eq, Structural)]
pub struct SoundFormat {
    /// How samples are encoded.
    pub tag: u16,
    pub channels: u16,
    pub samples_per_second: u32,
    pub bytes_per_second: u32,
    pub block_align: u16,
    pub bits_per_sample: u16,
}

/// Stereo with sixteen bits a sample.
pub open spec fn stereo(rate: u32) -> SoundFormat {
    SoundFormat {
        tag: PCM,
        channels: 2,
        samples_per_second: rate,
        bytes_per_second: (4 * rate) as u32,
        block_align: 4,
        bits_per_sample: 16,
    }
}

/// Formats that clients are offered.
pub open spec fn offered() -> Seq<SoundFormat> {
    seq![stereo(44100), stereo(48000), stereo(22050)]
}

fn make_stereo(rate: u32) -> (r: SoundFormat)
    requires
        4 * rate <= u32::MAX,
    ensures
        r == stereo(rate),
{
    SoundFormat {
        tag: PCM,
        channels: 2,
        samples_per_second: rate,
        bytes_per_second: rate * 4,
        block_align: 4,
        bits_per_sample: 16,
    }
}

/// Supported audio formats we advertise to the RDP client.
pub fn supported_formats() -> (r: Vec<SoundFormat>)
    ensures
        r@ == offered(),
{
    let mut r: Vec<SoundFormat> = Vec::new();
    r.push(make_stereo(44100));
    r.push(make_stereo(48000));
    r.push(make_stereo(22050));
    assert(r@ =~= offered());
    r
}

/// Two formats hold the same samples.
pub open spec fn same_samples(a: SoundFormat, b: SoundFormat) -> bool {
    &&& a.tag == b.tag
    &&& a.channels == b.channels
    &&& a.samples_per_second == b.samples_per_second
    &&& a.bits_per_sample == b.bits_per_sample
}

/// Format `i` of ours is the first that a client's format matches.
pub open spec fn matches_at(client: SoundFormat, ours: Seq<SoundFormat>, i: int) -> bool {
    &&& 0 <= i < ours.len()
    &&& same_samples(client, ours[i])
    &&& forall|j: int| 0 <= j < i ==> !same_samples(client, #[trigger] ours[j])
}

/// No format of ours matches the client's.
pub open spec fn matches_none(client: SoundFormat, ours: Seq<SoundFormat>) -> bool {
    forall|j: int| 0 <= j < ours.len() ==> !same_samples(client, #[trigger] ours[j])
}

/// The client's first format that matches one of ours is its number `k`, and ours is number `i`.
pub open spec fn agreed(
    client: Seq<SoundFormat>,
    ours: Seq<SoundFormat>,
    k: int,
    i: int,
) -> bool {
    &&& 0 <= k < client.len()
    &&& matches_at(client[k], ours, i)
    &&& forall|j: int| 0 <= j < k ==> matches_none(#[trigger] client[j], ours)
}

/// Our format `i` is the one to play in.
pub open spec fn is_agreed(client: Seq<SoundFormat>, ours: Seq<SoundFormat>, i: int) -> bool {
    exists|k: int| agreed(client, ours, k, i)
}

/// None of the client's formats matches one of ours.
pub open spec fn none_agreed(client: Seq<SoundFormat>, ours: Seq<SoundFormat>) -> bool {
    forall|k: int| 0 <= k < client.len() ==> matches_none(#[trigger] client[k], ours)
}

fn find_match(client: SoundFormat, ours: &[SoundFormat]) -> (r: Option<usize>)
    ensures
        match r {
            Some(i) => matches_at(client, ours@, i as int),
            None => matches_none(client, ours@),
        },
{
    let mut i: usize = 0;
    while i < ours.len()
        invariant
            i <= ours@.len(),
            forall|j: int| 0 <= j < i ==> !same_samples(client, #[trigger] ours@[j]),
        decreases ours@.len() - i,
    {
        let o = ours[i];
        if client.tag == o.tag && client.channels == o.channels && client.samples_per_second
            == o.samples_per_second && client.bits_per_sample == o.bits_per_sample {
            return Some(i);
        }
        i = i + 1;
    }
    None
}

/// Picks the format to play in: the number of ours that the client's first matching format matches.
pub fn negotiate(client: &[SoundFormat]) -> (r: Option<u16>)
    ensures
        match r {
            Some(i) => is_agreed(client@, offered(), i as int),
            None => forall|k: int|
                0 <= k < client@.len() ==> matches_none(#[trigger] client@[k], offered()),
        },
        r is None ==> none_agreed(client@, offered()),
{
    let ours = supported_formats();
    let mut k: usize = 0;
    while k < client.len()
        invariant
            ours@ == offered(),
            k <= client@.len(),
            forall|j: int| 0 <= j < k ==> matches_none(#[trigger] client@[j], offered()),
        decreases client@.len() - k,
    {
        match find_match(client[k], &ours) {
            Some(i) => {
                assert(offered().len() == 3);
                assert(agreed(client@, offered(), k as int, i as int));
                assert(is_agreed(client@, offered(), i as int));
                assert(i == (i as u16) as int);
                return Some(i as u16);
            },
            None => {},
        }
        k = k + 1;
    }
    None
}

/// Bytes of a piece of sound: about 20 ms.
pub open spec fn chunk_size(rate: u32, channels: u16) -> int {
    rate / CHUNKS_PER_SECOND * (channels * SAMPLE_BYTES)
}

/// Collects captured bytes and hands them out in pieces of one size.
#[derive(Debug)]
pub struct Chunker {
    pub chunk_bytes: usize,
    pub pending: Vec<u8>,
}

/// Pieces one after the other.
pub open spec fn concatenated(chunks: Seq<Vec<u8>>) -> Seq<u8>
    decreases chunks.len(),
{
    if chunks.len() == 0 {
        Seq::empty()
    } else {
        concatenated(chunks.drop_last()) + chunks.last()@
    }
}

/// The part of a buffer that was filled: `size` bytes from `offset` on, as far as the buffer goes.
pub open spec fn filled(buffer: Seq<u8>, offset: int, size: int) -> Seq<u8> {
    let end = if offset + size < buffer.len() {
        offset + size
    } else {
        buffer.len() as int
    };
    if offset < end {
        buffer.subrange(offset, end)
    } else {
        Seq::empty()
    }
}

impl Chunker {
    /// Pieces are not empty, and less than one piece is pending.
    pub open spec fn wf(&self) -> bool {
        &&& 0 < self.chunk_bytes
        &&& self.pending@.len() < self.chunk_bytes
    }

    /// For sound of this rate and number of channels.
    pub fn new(rate: u32, channels: u16) -> (r: Self)
        requires
            0 < chunk_size(rate, channels) <= u32::MAX,
        ensures
            r.wf(),
            r.chunk_bytes == chunk_size(rate, channels),
            r.pending@.len() == 0,
    {
        assert(0 <= channels * SAMPLE_BYTES <= 0x1_fffe);
        let frame: u32 = channels as u32 * SAMPLE_BYTES;
        let per_chunk: u32 = rate / CHUNKS_PER_SECOND;
        Chunker { chunk_bytes: (per_chunk * frame) as usize, pending: Vec::new() }
    }

    /// Takes what was captured, and returns the pieces that are complete. What has come in is what
    /// has gone out and what is pending, in order.
    pub fn push(&mut self, buffer: &[u8], offset: usize, size: usize) -> (chunks: Vec<Vec<u8>>)
        requires
            old(self).wf(),
            offset + size <= usize::MAX,
        ensures
            final(self).wf(),
            final(self).chunk_bytes == old(self).chunk_bytes,
            forall|i: int|
                0 <= i < chunks@.len() ==> (#[trigger] chunks@[i])@.len() == old(self).chunk_bytes,
            concatenated(chunks@) + final(self).pending@ == old(self).pending@ + filled(
                buffer@,
                offset as int,
                size as int,
            ),
    {
        let end: usize = if offset + size < buffer.len() {
            offset + size
        } else {
            buffer.len()
        };
        let mut chunks: Vec<Vec<u8>> = Vec::new();
        let mut i: usize = offset;
        let ghost part = filled(buffer@, offset as int, size as int);
        assert(part.take(0) =~= Seq::<u8>::empty());
        assert(concatenated(chunks@) + self.pending@ =~= old(self).pending@ + part.take(0));
        while i < end
            invariant
                self.wf(),
                self.chunk_bytes == old(self).chunk_bytes,
                offset <= i,
                end <= buffer@.len(),
                offset < end ==> i <= end,
                offset >= end ==> i == offset,
                part == filled(buffer@, offset as int, size as int),
                offset < end ==> part =~= buffer@.subrange(offset as int, end as int),
                forall|k: int|
                    0 <= k < chunks@.len() ==> (#[trigger] chunks@[k])@.len()
                        == self.chunk_bytes,
                concatenated(chunks@) + self.pending@ == old(self).pending@ + part.take(i - offset),
            decreases end - i,
        {
            let ghost before = concatenated(chunks@) + self.pending@;
            self.pending.push(buffer[i]);
            proof {
                assert(part.take(i - offset + 1) =~= part.take(i - offset).push(buffer@[i as int]));
                assert(concatenated(chunks@) + self.pending@ =~= before.push(buffer@[i as int]));
                assert(old(self).pending@ + part.take(i - offset + 1) =~= before.push(
                    buffer@[i as int],
                ));
            }
            if self.pending.len() == self.chunk_bytes {
                let ghost held = self.pending@;
                let ghost earlier = chunks@;
                let mut chunk: Vec<u8> = Vec::new();
                chunk.append(&mut self.pending);
                chunks.push(chunk);
                proof {
                    assert(chunks@.drop_last() =~= earlier);
                    assert(concatenated(chunks@) + self.pending@ =~= concatenated(earlier) + held);
                }
            }
            i = i + 1;
        }
        proof {
            if offset < end {
                assert(part.take(i - offset) =~= part);
            } else {
                assert(part.take(0) =~= part);
            }
        }
        chunks
    }
}

} // verus!
