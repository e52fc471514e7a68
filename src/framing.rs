//! Cutting a byte stream into length-prefixed frames.
use vstd::prelude::*;

use crate::wire::{be32_bytes, be32_value, frame_bytes, lemma_be32_round_trip, read_be32};

verus! {

/// Whether `s` begins with a complete frame: a length prefix and all the
/// payload bytes it announces.
pub open spec fn has_frame(s: Seq<u8>) -> bool {
    s.len() >= 4 && s.len() >= 4 + be32_value(s)
}

/// Cuts the leading complete frames off a byte stream: the payloads of those
/// frames in order, and what is left, which holds no complete frame.
pub open spec fn split_frames(s: Seq<u8>) -> (Seq<Seq<u8>>, Seq<u8>)
    decreases s.len(),
{
    if has_frame(s) {
        let n = be32_value(s);
        let rest = split_frames(s.subrange(4 + n, s.len() as int));
        (seq![s.subrange(4, 4 + n)] + rest.0, rest.1)
    } else {
        (Seq::empty(), s)
    }
}

/// The bytes of a sequence of frames sent one after the other.
pub open spec fn encode_frames(frames: Seq<Seq<u8>>) -> Seq<u8>
    decreases frames.len(),
{
    if frames.len() == 0 {
        Seq::empty()
    } else {
        frame_bytes(frames[0]) + encode_frames(frames.drop_first())
    }
}

/// What an assembler holding `buffer` yields when the reads `chunks` arrive
/// one after the other: all payloads, in order, and the bytes it still holds.
pub open spec fn feed_chunks(buffer: Seq<u8>, chunks: Seq<Seq<u8>>) -> (Seq<Seq<u8>>, Seq<u8>)
    decreases chunks.len(),
{
    if chunks.len() == 0 {
        (Seq::empty(), buffer)
    } else {
        let first = split_frames(buffer + chunks[0]);
        let later = feed_chunks(first.1, chunks.drop_first());
        (first.0 + later.0, later.1)
    }
}

/// Turns the bytes of a stream, read in pieces of any size, into complete
/// frame payloads. A frame is handed out only once all its bytes have come.
pub struct FrameAssembler {
    buffer: Vec<u8>,
}

impl View for FrameAssembler {
    type V = Seq<u8>;

    /// The bytes received and not yet handed out as part of a frame.
    closed spec fn view(&self) -> Seq<u8> {
        self.buffer@
    }
}

impl FrameAssembler {
    /// An assembler that holds no bytes.
    pub fn new() -> (r: FrameAssembler)
        ensures
            r@ == Seq::<u8>::empty(),
    {
        FrameAssembler { buffer: Vec::new() }
    }

    /// Appends the bytes of one read.
    pub fn push(&mut self, bytes: &[u8])
        ensures
            final(self)@ == old(self)@ + bytes@,
    {
        self.buffer.extend_from_slice(bytes);
    }

    /// Removes and returns the payload of the first frame, if all of it has
    /// arrived.
    pub fn next_frame(&mut self) -> (r: Option<Vec<u8>>)
        ensures
            has_frame(old(self)@) ==> {
                let n = be32_value(old(self)@);
                &&& r matches Some(p) && p@ == old(self)@.subrange(4, 4 + n)
                &&& final(self)@ == old(self)@.subrange(4 + n, old(self)@.len() as int)
            },
            !has_frame(old(self)@) ==> r is None && final(self)@ == old(self)@,
            r matches Some(p) ==> split_frames(old(self)@) == (
                seq![p@] + split_frames(final(self)@).0,
                split_frames(final(self)@).1,
            ),
    {
        if self.buffer.len() < 4 {
            return None;
        }
        let n = read_be32(self.buffer.as_slice()) as usize;
        if self.buffer.len() - 4 < n {
            return None;
        }
        let mut head = self.buffer.split_off(4 + n);
        core::mem::swap(&mut self.buffer, &mut head);
        let payload = head.split_off(4);
        Some(payload)
    }

    /// Appends the bytes of one read and returns the payloads of all frames
    /// that are now complete, in order.
    pub fn feed(&mut self, bytes: &[u8]) -> (r: Vec<Vec<u8>>)
        ensures
            r@.map_values(|p: Vec<u8>| p@) == split_frames(old(self)@ + bytes@).0,
            final(self)@ == split_frames(old(self)@ + bytes@).1,
    {
        self.push(bytes);
        let ghost all = self.buffer@;
        let mut frames: Vec<Vec<u8>> = Vec::new();
        loop
            invariant
                split_frames(all).0 == frames@.map_values(|p: Vec<u8>| p@) + split_frames(
                    self.buffer@,
                ).0,
                split_frames(all).1 == split_frames(self.buffer@).1,
            ensures
                split_frames(all).0 == frames@.map_values(|p: Vec<u8>| p@),
                split_frames(all).1 == self.buffer@,
            decreases self.buffer@.len(),
        {
            match self.next_frame() {
                Some(p) => {
                    let ghost before = frames@.map_values(|p: Vec<u8>| p@);
                    frames.push(p);
                    assert(frames@.map_values(|p: Vec<u8>| p@) =~= before.push(p@));
                }
                None => {
                    assert(split_frames(self.buffer@).0 =~= Seq::<Seq<u8>>::empty());
                    break;
                }
            }
        }
        frames
    }
}

/// Splitting a stream that continues past `x` yields the frames of `x`, then
/// those of what `x` left over followed by the continuation.
proof fn lemma_split_append(x: Seq<u8>, y: Seq<u8>)
    ensures
        split_frames(x + y) == (
            split_frames(x).0 + split_frames(split_frames(x).1 + y).0,
            split_frames(split_frames(x).1 + y).1,
        ),
    decreases x.len(),
{
    if has_frame(x) {
        let n = be32_value(x);
        assert((x + y).subrange(0, 4) =~= x.subrange(0, 4));
        assert(be32_value(x + y) == n);
        assert((x + y).subrange(4, 4 + n) =~= x.subrange(4, 4 + n));
        let xr = x.subrange(4 + n, x.len() as int);
        assert((x + y).subrange(4 + n, (x + y).len() as int) =~= xr + y);
        lemma_split_append(xr, y);
        assert(split_frames(x).0 + split_frames(split_frames(x).1 + y).0 =~= seq![
            x.subrange(4, 4 + n),
        ] + (split_frames(xr).0 + split_frames(split_frames(xr).1 + y).0));
    } else {
        assert(split_frames(x).0 + split_frames(x + y).0 =~= split_frames(x + y).0);
    }
}

/// What splitting leaves over holds no complete frame.
proof fn lemma_split_rest_incomplete(s: Seq<u8>)
    ensures
        !has_frame(split_frames(s).1),
    decreases s.len(),
{
    if has_frame(s) {
        lemma_split_rest_incomplete(s.subrange(4 + be32_value(s), s.len() as int));
    }
}

/// Feeding reads one by one yields what splitting their concatenation yields.
proof fn lemma_feed_chunks_flatten(buffer: Seq<u8>, chunks: Seq<Seq<u8>>)
    requires
        !has_frame(buffer),
    ensures
        feed_chunks(buffer, chunks) == split_frames(buffer + chunks.flatten()),
    decreases chunks.len(),
{
    if chunks.len() == 0 {
        assert(buffer + chunks.flatten() =~= buffer);
    } else {
        let first = split_frames(buffer + chunks[0]);
        lemma_split_rest_incomplete(buffer + chunks[0]);
        lemma_feed_chunks_flatten(first.1, chunks.drop_first());
        lemma_split_append(buffer + chunks[0], chunks.drop_first().flatten());
        assert(buffer + chunks[0] + chunks.drop_first().flatten() =~= buffer + chunks.flatten());
    }
}

/// A stream made of whole frames splits back into exactly those frames.
pub(crate) proof fn lemma_split_encoded(frames: Seq<Seq<u8>>)
    requires
        forall|i: int| 0 <= i < frames.len() ==> #[trigger] frames[i].len() <= u32::MAX,
    ensures
        split_frames(encode_frames(frames)) == (frames, Seq::<u8>::empty()),
    decreases frames.len(),
{
    if frames.len() == 0 {
        assert(!has_frame(Seq::<u8>::empty()));
    } else {
        let f = frames[0];
        let s = encode_frames(frames);
        let tail = frames.drop_first();
        assert forall|i: int| 0 <= i < tail.len() implies #[trigger] tail[i].len() <= u32::MAX by {
            assert(tail[i] == frames[i + 1]);
        }
        lemma_split_encoded(tail);
        lemma_be32_round_trip(f.len() as u32);
        assert(s.subrange(0, 4) =~= be32_bytes(f.len() as u32));
        assert(be32_value(s) == f.len());
        assert(s.subrange(4, 4 + f.len() as int) =~= f);
        assert(s.subrange(4 + f.len() as int, s.len() as int) =~= encode_frames(tail));
        assert(split_frames(s).0 =~= seq![f] + tail);
        assert(seq![f] + tail =~= frames);
    }
}

/// Frames sent one after the other, and read back in pieces of any sizes
/// (single bytes, one piece for everything, or anything between), come out
/// of a fresh assembler as the same payloads in the same order, with nothing
/// left over.
pub proof fn lemma_framing_round_trip(frames: Seq<Seq<u8>>, chunks: Seq<Seq<u8>>)
    requires
        forall|i: int| 0 <= i < frames.len() ==> #[trigger] frames[i].len() <= u32::MAX,
        chunks.flatten() == encode_frames(frames),
    ensures
        feed_chunks(Seq::empty(), chunks) == (frames, Seq::<u8>::empty()),
{
    lemma_feed_chunks_flatten(Seq::empty(), chunks);
    assert(Seq::<u8>::empty() + chunks.flatten() =~= encode_frames(frames));
    lemma_split_encoded(frames);
}

} // verus!
