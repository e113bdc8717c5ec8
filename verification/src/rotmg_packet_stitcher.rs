//! Reassembly of length-prefixed frames from arbitrary payload fragments.
//!
//! On the wire a frame is a big-endian 32-bit length that counts the whole
//! frame, a one-byte type tag, and the payload.

use crate::byte_buffer::{be_read_u32, be_value, ByteBuffer};
use crate::rc4::{xor_from, Rc4};
use std::collections::VecDeque;
use vstd::prelude::*;

verus! {

/// The bytes of a frame before its payload: the length and the type tag.
pub const FRAME_HEADER_LEN: usize = 5;

/// The bytes of the length field alone.
pub const LENGTH_FIELD_LEN: usize = 4;

/// A frame declared a length too short to hold its own header.
#[derive(Clone, Copy, Debug, PartialEq, Eq, Structural)]
pub struct MalformedFrame;

/// A frame as a value: its type tag and its payload.
pub ghost struct FrameView {
    pub tag: u8,
    pub payload: Seq<u8>,
}

/// One application-layer frame after reassembly: the type tag, and the
/// payload in a buffer of its own.
#[derive(Debug, PartialEq, Eq)]
pub struct StitchedPacket {
    pub type_num: u8,
    pub buffer: ByteBuffer,
}

impl View for StitchedPacket {
    type V = FrameView;

    open spec fn view(&self) -> FrameView {
        FrameView { tag: self.type_num, payload: self.buffer@ }
    }
}

/// The frames of `packets` as values.
pub open spec fn frames_of(packets: Seq<StitchedPacket>) -> Seq<FrameView> {
    packets.map_values(|p: StitchedPacket| p@)
}

impl StitchedPacket {
    /// Make a frame from its bytes on the wire, length field included.
    /// Fails when there are fewer bytes than a header has.
    pub fn new(data: Vec<u8>) -> (r: Result<Self, MalformedFrame>)
        ensures
            match r {
                Ok(packet) => data@.len() >= FRAME_HEADER_LEN && packet@ == (FrameView {
                    tag: data@[4],
                    payload: data@.skip(5),
                }) && packet.buffer.spec_index() == 0,
                Err(_) => data@.len() < FRAME_HEADER_LEN,
            },
    {
        if data.len() < FRAME_HEADER_LEN {
            return Err(MalformedFrame);
        }
        let mut data = data;
        let payload: Vec<u8> = data.split_off(FRAME_HEADER_LEN);
        Ok(StitchedPacket { type_num: data[4], buffer: ByteBuffer::new(payload) })
    }

    /// The length of the payload.
    pub fn len(&self) -> (n: usize)
        ensures
            n == self@.payload.len(),
    {
        self.buffer.len()
    }

    /// Replace the payload by its exclusive or with the keystream, and
    /// advance the cipher past the keystream used.
    pub fn decrypt(&mut self, cipher: &mut Rc4)
        requires
            old(cipher).spec_offset() + old(self)@.payload.len() <= usize::MAX,
        ensures
            final(self)@ == (FrameView {
                tag: old(self)@.tag,
                payload: xor_from(
                    old(self)@.payload,
                    0,
                    old(cipher).spec_key(),
                    old(cipher).spec_offset(),
                ),
            }),
            final(self).buffer.spec_index() == 0,
            final(cipher).positioned(
                old(cipher).spec_key(),
                old(cipher).spec_offset() + old(self)@.payload.len(),
            ),
    {
        let plain: Vec<u8> = cipher.apply_keystream(0, &self.buffer.to_vec());
        self.buffer = ByteBuffer::new(plain);
    }
}

impl Clone for StitchedPacket {
    fn clone(&self) -> (copy: Self)
        ensures
            copy@ == self@,
            copy.buffer.spec_index() == self.buffer.spec_index(),
    {
        StitchedPacket { type_num: self.type_num, buffer: self.buffer.clone() }
    }
}

/// The frames that a queue of bytes holds in full, in order, and the bytes
/// that are left over.
///
/// A length below that of a header is malformed: its length field is
/// dropped and reassembly goes on behind it.
pub open spec fn stitch(queue: Seq<u8>) -> (Seq<FrameView>, Seq<u8>)
    decreases queue.len(),
{
    if queue.len() < LENGTH_FIELD_LEN {
        (Seq::empty(), queue)
    } else {
        let declared = be_value(queue.subrange(0, 4)) as int;
        if declared < FRAME_HEADER_LEN {
            stitch(queue.skip(4))
        } else if queue.len() < declared {
            (Seq::empty(), queue)
        } else {
            let (frames, rest) = stitch(queue.skip(declared));
            (seq![FrameView { tag: queue[4], payload: queue.subrange(5, declared) }] + frames, rest)
        }
    }
}

/// The four bytes that spell `n` most significant byte first.
pub open spec fn be_bytes_u32(n: int) -> Seq<u8> {
    seq![
        (n / 0x100_0000 % 256) as u8,
        (n / 0x1_0000 % 256) as u8,
        (n / 0x100 % 256) as u8,
        (n % 256) as u8,
    ]
}

/// A frame as it travels: its length, header included, then its tag, then
/// its payload.
pub open spec fn frame_bytes(frame: FrameView) -> Seq<u8> {
    be_bytes_u32(frame.payload.len() + FRAME_HEADER_LEN) + seq![frame.tag] + frame.payload
}

/// Frames as they travel, one behind the other.
pub open spec fn frames_bytes(frames: Seq<FrameView>) -> Seq<u8>
    decreases frames.len(),
{
    if frames.len() == 0 {
        Seq::empty()
    } else {
        frame_bytes(frames[0]) + frames_bytes(frames.drop_first())
    }
}

/// Whether the length of a frame, header included, fits its length field.
pub open spec fn well_formed(frame: FrameView) -> bool {
    frame.payload.len() + FRAME_HEADER_LEN <= u32::MAX
}

/// What a stitcher with queue `queue` emits in all, and is left with, when
/// `chunks` are inserted one after the other.
pub open spec fn insert_all(queue: Seq<u8>, chunks: Seq<Seq<u8>>) -> (Seq<FrameView>, Seq<u8>)
    decreases chunks.len(),
{
    if chunks.len() == 0 {
        (Seq::empty(), queue)
    } else {
        let (out, held) = insert_all(queue, chunks.drop_last());
        let (more, rest) = stitch(held + chunks.last());
        (out + more, rest)
    }
}

/// `chunks` joined in order.
pub open spec fn joined(chunks: Seq<Seq<u8>>) -> Seq<u8>
    decreases chunks.len(),
{
    if chunks.len() == 0 {
        Seq::empty()
    } else {
        joined(chunks.drop_last()) + chunks.last()
    }
}

/// The four bytes of a number spell it.
pub proof fn lemma_be_bytes_u32(n: int)
    requires
        0 <= n <= u32::MAX,
    ensures
        be_bytes_u32(n).len() == 4,
        be_value(be_bytes_u32(n)) == n,
{
    let s = be_bytes_u32(n);
    reveal_with_fuel(be_value, 5);
    assert(s.drop_last() =~= seq![s[0], s[1], s[2]]);
    assert(s.drop_last().drop_last() =~= seq![s[0], s[1]]);
    assert(s.drop_last().drop_last().drop_last() =~= seq![s[0]]);
    assert(s.drop_last().drop_last().drop_last().drop_last() =~= Seq::<u8>::empty());
}

/// Stitching bytes that come in two parts emits what stitching the first
/// part emits, then what stitching its leftover with the second part emits.
pub proof fn lemma_stitch_chunks(a: Seq<u8>, b: Seq<u8>)
    ensures
        stitch(a + b) == (stitch(a).0 + stitch(stitch(a).1 + b).0, stitch(stitch(a).1 + b).1),
    decreases a.len(),
{
    let whole = a + b;
    if a.len() < LENGTH_FIELD_LEN {
        assert(Seq::<FrameView>::empty() + stitch(whole).0 =~= stitch(whole).0);
    } else {
        assert(whole.subrange(0, 4) =~= a.subrange(0, 4));
        let declared = be_value(a.subrange(0, 4)) as int;
        if declared < FRAME_HEADER_LEN {
            assert(whole.skip(4) =~= a.skip(4) + b);
            lemma_stitch_chunks(a.skip(4), b);
        } else if a.len() < declared {
            assert(Seq::<FrameView>::empty() + stitch(whole).0 =~= stitch(whole).0);
        } else {
            assert(whole.skip(declared) =~= a.skip(declared) + b);
            assert(whole.subrange(5, declared) =~= a.subrange(5, declared));
            lemma_stitch_chunks(a.skip(declared), b);
            let frame = FrameView { tag: a[4], payload: a.subrange(5, declared) };
            let (frames, rest) = stitch(a.skip(declared));
            assert((seq![frame] + frames) + stitch(rest + b).0 =~= seq![frame] + (frames + stitch(
                rest + b,
            ).0));
        }
    }
}

/// What stitching leaves over holds no frame in full.
pub proof fn lemma_stitch_settles(queue: Seq<u8>)
    ensures
        stitch(stitch(queue).1) == (Seq::<FrameView>::empty(), stitch(queue).1),
    decreases queue.len(),
{
    if queue.len() >= LENGTH_FIELD_LEN {
        let declared = be_value(queue.subrange(0, 4)) as int;
        if declared < FRAME_HEADER_LEN {
            lemma_stitch_settles(queue.skip(4));
        } else if queue.len() >= declared {
            lemma_stitch_settles(queue.skip(declared));
        }
    }
}

/// However a stream of bytes is cut into chunks, inserting the chunks in
/// order emits the frames, and leaves the bytes, that stitching the whole
/// stream at once does.
pub proof fn lemma_chunking(queue: Seq<u8>, chunks: Seq<Seq<u8>>)
    requires
        stitch(queue) == (Seq::<FrameView>::empty(), queue),
    ensures
        insert_all(queue, chunks) == stitch(queue + joined(chunks)),
    decreases chunks.len(),
{
    if chunks.len() == 0 {
        assert(queue + joined(chunks) =~= queue);
    } else {
        let front = chunks.drop_last();
        lemma_chunking(queue, front);
        lemma_stitch_chunks(queue + joined(front), chunks.last());
        assert((queue + joined(front)) + chunks.last() =~= queue + joined(chunks));
    }
}

/// Well-formed frames followed by bytes that hold no frame in full are
/// stitched into exactly those frames, and those bytes are left.
pub proof fn lemma_stitch_whole_frames(frames: Seq<FrameView>, tail: Seq<u8>)
    requires
        forall|i: int| 0 <= i < frames.len() ==> well_formed(#[trigger] frames[i]),
        stitch(tail) == (Seq::<FrameView>::empty(), tail),
    ensures
        stitch(frames_bytes(frames) + tail) == (frames, tail),
    decreases frames.len(),
{
    if frames.len() == 0 {
        assert(frames_bytes(frames) + tail =~= tail);
        assert(frames =~= Seq::<FrameView>::empty());
    } else {
        let first = frames[0];
        let others = frames.drop_first();
        let declared = first.payload.len() + FRAME_HEADER_LEN;
        let queue = frames_bytes(frames) + tail;
        assert(well_formed(first));
        lemma_be_bytes_u32(declared);
        assert forall|i: int| 0 <= i < others.len() implies well_formed(#[trigger] others[i]) by {
            assert(others[i] == frames[i + 1]);
        }
        lemma_stitch_whole_frames(others, tail);
        assert(queue.subrange(0, 4) =~= be_bytes_u32(declared));
        assert(queue[4] == first.tag);
        assert(queue.subrange(5, declared) =~= first.payload);
        assert(queue.skip(declared) =~= frames_bytes(others) + tail);
        assert(seq![first] + others =~= frames);
    }
}

/// A well-formed frame of which not all bytes have arrived yields nothing
/// and stays queued.
pub proof fn lemma_partial_frame_waits(frame: FrameView, n: int)
    requires
        well_formed(frame),
        0 <= n < frame_bytes(frame).len(),
    ensures
        stitch(frame_bytes(frame).take(n)) == (
            Seq::<FrameView>::empty(),
            frame_bytes(frame).take(n),
        ),
{
    let declared = frame.payload.len() + FRAME_HEADER_LEN;
    let part = frame_bytes(frame).take(n);
    lemma_be_bytes_u32(declared);
    if n >= LENGTH_FIELD_LEN {
        assert(part.subrange(0, 4) =~= be_bytes_u32(declared));
    }
}

/// A stream of well-formed frames, cut off `n` bytes into a further frame
/// and split into chunks in any way, comes out of a fresh stitcher as
/// exactly those frames in order. The stitcher's queue is left empty just
/// when the stream ends on a frame boundary.
pub proof fn lemma_stitch_stream(
    chunks: Seq<Seq<u8>>,
    frames: Seq<FrameView>,
    partial: FrameView,
    n: int,
)
    requires
        forall|i: int| 0 <= i < frames.len() ==> well_formed(#[trigger] frames[i]),
        well_formed(partial),
        0 <= n < frame_bytes(partial).len(),
        joined(chunks) == frames_bytes(frames) + frame_bytes(partial).take(n),
    ensures
        insert_all(Seq::empty(), chunks) == (frames, frame_bytes(partial).take(n)),
        insert_all(Seq::empty(), chunks).1.len() == 0 <==> n == 0,
{
    lemma_chunking(Seq::empty(), chunks);
    lemma_partial_frame_waits(partial, n);
    lemma_stitch_whole_frames(frames, frame_bytes(partial).take(n));
    assert(Seq::<u8>::empty() + joined(chunks) =~= joined(chunks));
}

/// Detach the first `n` bytes of `queue`.
fn take_front(queue: &mut VecDeque<u8>, n: usize) -> (taken: Vec<u8>)
    requires
        n <= old(queue)@.len(),
    ensures
        taken@ == old(queue)@.take(n as int),
        final(queue)@ == old(queue)@.skip(n as int),
{
    let mut taken: Vec<u8> = Vec::new();
    let mut k: usize = 0;
    while k < n
        invariant
            k <= n <= old(queue)@.len(),
            taken@ == old(queue)@.take(k as int),
            queue@ == old(queue)@.skip(k as int),
        decreases n - k,
    {
        let byte: u8 = queue.pop_front().unwrap();
        taken.push(byte);
        proof {
            assert(queue@ =~= old(queue)@.skip(k + 1));
            assert(taken@ =~= old(queue)@.take(k + 1));
        }
        k = k + 1;
    }
    proof {
        assert(old(queue)@.skip(0) =~= old(queue)@);
    }
    taken
}

/// Accumulates payload bytes and emits the frames that have arrived in full.
#[derive(Debug)]
pub struct RotmgPacketStitcher {
    iqueue: VecDeque<u8>,
}

impl View for RotmgPacketStitcher {
    type V = Seq<u8>;

    /// The bytes received that no emitted frame has used.
    closed spec fn view(&self) -> Seq<u8> {
        self.iqueue@
    }
}

impl RotmgPacketStitcher {
    /// A stitcher with an empty queue.
    pub fn new() -> (stitcher: Self)
        ensures
            stitcher@ == Seq::<u8>::empty(),
    {
        RotmgPacketStitcher { iqueue: VecDeque::new() }
    }

    /// Append `data` to the queue and return the frames that the queue now
    /// holds in full, in order; what is left stays queued.
    pub fn insert_packet(&mut self, data: &[u8]) -> (out: Vec<StitchedPacket>)
        ensures
            frames_of(out@) == stitch(old(self)@ + data@).0,
            final(self)@ == stitch(old(self)@ + data@).1,
            forall|i: int| 0 <= i < out@.len() ==> (#[trigger] out@[i]).buffer.spec_index() == 0,
    {
        let mut n: usize = 0;
        while n < data.len()
            invariant
                n <= data@.len(),
                self.iqueue@ == old(self)@ + data@.take(n as int),
            decreases data@.len() - n,
        {
            self.iqueue.push_back(data[n]);
            proof {
                assert(self.iqueue@ =~= old(self)@ + data@.take(n + 1));
            }
            n = n + 1;
        }
        let ghost whole = self.iqueue@;
        proof {
            assert(data@.take(0) =~= Seq::<u8>::empty());
            assert(data@.take(data@.len() as int) =~= data@);
        }
        let mut out: Vec<StitchedPacket> = Vec::new();
        proof {
            assert(frames_of(out@) + stitch(whole).0 =~= stitch(whole).0);
        }
        loop
            invariant
                stitch(whole) == (
                    frames_of(out@) + stitch(self.iqueue@).0,
                    stitch(self.iqueue@).1,
                ),
                forall|i: int|
                    0 <= i < out@.len() ==> (#[trigger] out@[i]).buffer.spec_index() == 0,
            ensures
                stitch(whole) == (frames_of(out@), self.iqueue@),
                forall|i: int|
                    0 <= i < out@.len() ==> (#[trigger] out@[i]).buffer.spec_index() == 0,
            decreases self.iqueue@.len(),
        {
            let ghost queue = self.iqueue@;
            if self.iqueue.len() < LENGTH_FIELD_LEN {
                proof {
                    assert(frames_of(out@) + Seq::<FrameView>::empty() =~= frames_of(out@));
                }
                break ;
            }
            let field: [u8; 4] = [self.iqueue[0], self.iqueue[1], self.iqueue[2], self.iqueue[3]];
            proof {
                assert(field@.subrange(0, 4) =~= queue.subrange(0, 4));
            }
            let declared: usize = be_read_u32(field.as_slice()) as usize;
            if declared < FRAME_HEADER_LEN {
                let _ = take_front(&mut self.iqueue, LENGTH_FIELD_LEN);
            } else if self.iqueue.len() < declared {
                proof {
                    assert(frames_of(out@) + Seq::<FrameView>::empty() =~= frames_of(out@));
                }
                break ;
            } else {
                let mut wire: Vec<u8> = take_front(&mut self.iqueue, declared);
                let payload: Vec<u8> = wire.split_off(FRAME_HEADER_LEN);
                let packet = StitchedPacket { type_num: wire[4], buffer: ByteBuffer::new(payload) };
                let ghost before = out@;
                out.push(packet);
                proof {
                    let frame = FrameView {
                        tag: queue[4],
                        payload: queue.subrange(5, declared as int),
                    };
                    assert(packet@.payload =~= frame.payload);
                    assert(frames_of(out@) =~= frames_of(before) + seq![frame]);
                    assert(frames_of(before) + (seq![frame] + stitch(queue.skip(declared as int)).0)
                        =~= frames_of(out@) + stitch(queue.skip(declared as int)).0);
                }
            }
        }
        out
    }

    /// Empty the queue.
    pub fn reset(&mut self)
        ensures
            final(self)@ == Seq::<u8>::empty(),
    {
        self.iqueue.clear();
    }
}

} // verus!
