//! Grouping of stitched frames into runs that end in a tick.

use crate::rc4::{lemma_xor_from_twice, xor_from, Rc4};
use crate::rotmg_packet_decryptor::DecryptedTickFrame;
use crate::rotmg_packet_stitcher::{frames_of, FrameView, StitchedPacket};
use std::collections::VecDeque;
use vstd::prelude::*;

verus! {

/// The type tag of the periodic tick frame.
pub const NEW_TICK_TAG: u8 = 10;

/// The type tag of the frame that announces a new session, after which the
/// sender starts its keystream afresh.
pub const RECONNECT_TAG: u8 = 45;

/// A tick frame as a value.
pub ghost struct TickFrameView {
    pub prefix: Seq<FrameView>,
    pub tick: FrameView,
}

/// The sum of the payload lengths of `frames`.
pub open spec fn payload_total(frames: Seq<FrameView>) -> int
    decreases frames.len(),
{
    if frames.len() == 0 {
        0
    } else {
        payload_total(frames.drop_last()) + frames.last().payload.len()
    }
}

/// `frame` with its payload decrypted by the keystream of `key` from
/// position `pos` on.
pub open spec fn decrypted_frame(frame: FrameView, key: Seq<u8>, pos: int) -> FrameView {
    FrameView { tag: frame.tag, payload: xor_from(frame.payload, 0, key, pos) }
}

/// The keystream position after `frame` has been decrypted at `pos`: past
/// its payload, or at the start where the frame announces a new session.
pub open spec fn position_after(frame: FrameView, pos: int) -> int {
    if frame.tag == RECONNECT_TAG {
        0
    } else {
        pos + frame.payload.len()
    }
}

/// `frames` decrypted in order from keystream position `pos` on, and the
/// position that the cipher is left at.
pub open spec fn decrypt_frames(frames: Seq<FrameView>, key: Seq<u8>, pos: int) -> (
    Seq<FrameView>,
    int,
)
    decreases frames.len(),
{
    if frames.len() == 0 {
        (Seq::empty(), pos)
    } else {
        let (plain, at) = decrypt_frames(frames.drop_last(), key, pos);
        (plain.push(decrypted_frame(frames.last(), key, at)), position_after(frames.last(), at))
    }
}

/// Decrypting in order yields as many frames as went in, each with the tag
/// and the length of the frame in its place.
pub proof fn lemma_decrypt_frames_len(frames: Seq<FrameView>, key: Seq<u8>, pos: int)
    ensures
        decrypt_frames(frames, key, pos).0.len() == frames.len(),
        forall|i: int|
            0 <= i < frames.len() ==> (#[trigger] decrypt_frames(frames, key, pos).0[i]).tag
                == frames[i].tag && decrypt_frames(frames, key, pos).0[i].payload.len()
                == frames[i].payload.len(),
    decreases frames.len(),
{
    if frames.len() > 0 {
        lemma_decrypt_frames_len(frames.drop_last(), key, pos);
    }
}

/// Decrypting frames in order is decrypting the first of them and then the
/// rest from where the cipher has come to.
pub proof fn lemma_decrypt_frames_split(
    a: Seq<FrameView>,
    b: Seq<FrameView>,
    key: Seq<u8>,
    pos: int,
)
    ensures
        decrypt_frames(a + b, key, pos) == (
            decrypt_frames(a, key, pos).0 + decrypt_frames(
                b,
                key,
                decrypt_frames(a, key, pos).1,
            ).0,
            decrypt_frames(b, key, decrypt_frames(a, key, pos).1).1,
        ),
    decreases b.len(),
{
    let mid = decrypt_frames(a, key, pos).1;
    if b.len() == 0 {
        assert(a + b =~= a);
        assert(decrypt_frames(a, key, pos).0 + decrypt_frames(b, key, mid).0 =~= decrypt_frames(
            a,
            key,
            pos,
        ).0);
    } else {
        assert((a + b).drop_last() =~= a + b.drop_last());
        lemma_decrypt_frames_split(a, b.drop_last(), key, pos);
        let (front, at) = decrypt_frames(b.drop_last(), key, mid);
        assert((decrypt_frames(a, key, pos).0 + front).push(decrypted_frame(b.last(), key, at))
            =~= decrypt_frames(a, key, pos).0 + front.push(decrypted_frame(b.last(), key, at)));
    }
}

/// Behind the last frame that announces a new session the keystream runs
/// from its start: the frames up to and including that frame are decrypted
/// as they are without what follows, the frames behind it as they are from
/// keystream position 0, and the cipher is left at their total length.
pub proof fn lemma_decrypt_after_reconnect(
    frames: Seq<FrameView>,
    key: Seq<u8>,
    pos: int,
    last: int,
)
    requires
        0 <= last < frames.len(),
        frames[last].tag == RECONNECT_TAG,
        forall|i: int| last < i < frames.len() ==> (#[trigger] frames[i]).tag != RECONNECT_TAG,
    ensures
        decrypt_frames(frames.take(last + 1), key, pos).1 == 0,
        decrypt_frames(frames, key, pos).0 == decrypt_frames(frames.take(last + 1), key, pos).0
            + decrypt_frames(frames.skip(last + 1), key, 0).0,
        decrypt_frames(frames, key, pos).1 == payload_total(frames.skip(last + 1)),
{
    let head = frames.take(last + 1);
    let tail = frames.skip(last + 1);
    assert(head + tail =~= frames);
    assert(head.last() == frames[last]);
    lemma_decrypt_frames_split(head, tail, key, pos);
    assert forall|i: int| 0 <= i < tail.len() implies (#[trigger] tail[i]).tag
        != RECONNECT_TAG by {
        assert(tail[i] == frames[last + 1 + i]);
    }
    lemma_decrypt_frames_without_reconnect(tail, key, 0);
}

/// Decrypting in order what was encrypted in order, from the same
/// position, gives the frames back and leaves the cipher where encryption
/// left it: one operation does both.
pub proof fn lemma_decrypt_frames_twice(frames: Seq<FrameView>, key: Seq<u8>, pos: int)
    ensures
        decrypt_frames(decrypt_frames(frames, key, pos).0, key, pos) == (
            frames,
            decrypt_frames(frames, key, pos).1,
        ),
    decreases frames.len(),
{
    let (once, end) = decrypt_frames(frames, key, pos);
    if frames.len() == 0 {
        assert(once =~= frames);
    } else {
        let front = frames.drop_last();
        let (front_once, at) = decrypt_frames(front, key, pos);
        lemma_decrypt_frames_twice(front, key, pos);
        assert(once.drop_last() =~= front_once);
        lemma_xor_from_twice(frames.last().payload, 0, key, at);
        assert(decrypt_frames(once, key, pos).0 =~= frames);
    }
}

/// Where no frame announces a new session, decrypting in order leaves the
/// cipher further on by all payload lengths.
pub proof fn lemma_decrypt_frames_without_reconnect(
    frames: Seq<FrameView>,
    key: Seq<u8>,
    pos: int,
)
    requires
        forall|i: int| 0 <= i < frames.len() ==> (#[trigger] frames[i]).tag != RECONNECT_TAG,
    ensures
        decrypt_frames(frames, key, pos).1 == pos + payload_total(frames),
    decreases frames.len(),
{
    if frames.len() > 0 {
        let front = frames.drop_last();
        assert forall|i: int| 0 <= i < front.len() implies (#[trigger] front[i]).tag
            != RECONNECT_TAG by {
            assert(front[i] == frames[i]);
        }
        lemma_decrypt_frames_without_reconnect(front, key, pos);
    }
}

/// Decrypting in order never leaves the cipher further on than the start
/// plus all payload lengths, nor before the stream's start.
pub proof fn lemma_decrypt_frames_position(frames: Seq<FrameView>, key: Seq<u8>, pos: int)
    requires
        0 <= pos,
    ensures
        0 <= decrypt_frames(frames, key, pos).1 <= pos + payload_total(frames),
        decrypt_frames(frames, key, pos).0.len() == frames.len(),
        0 <= payload_total(frames),
    decreases frames.len(),
{
    if frames.len() > 0 {
        lemma_decrypt_frames_position(frames.drop_last(), key, pos);
    }
}

/// A run of encrypted frames and the tick that ended it.
#[derive(Debug, PartialEq, Eq)]
pub struct EncryptedTickFrame {
    pub packets: Vec<StitchedPacket>,
    pub terminating_tick: StitchedPacket,
}

impl View for EncryptedTickFrame {
    type V = TickFrameView;

    open spec fn view(&self) -> TickFrameView {
        TickFrameView { prefix: frames_of(self.packets@), tick: self.terminating_tick@ }
    }
}

impl EncryptedTickFrame {
    /// The total payload length of the frames before the tick.
    pub open spec fn spec_payload_len(&self) -> int {
        payload_total(self@.prefix)
    }

    /// The total payload length of all frames, the tick included.
    pub open spec fn spec_total_len(&self) -> int {
        payload_total(self@.prefix) + self@.tick.payload.len()
    }

    /// The total payload length of the frames before the tick, unless it
    /// exceeds what a `usize` holds.
    pub fn checked_payload_len(&self) -> (r: Option<usize>)
        ensures
            match r {
                Some(n) => n == self.spec_payload_len(),
                None => self.spec_payload_len() > usize::MAX,
            },
    {
        let mut sum: usize = 0;
        let mut i: usize = 0;
        while i < self.packets.len()
            invariant
                i <= self.packets@.len(),
                sum == payload_total(frames_of(self.packets@).take(i as int)),
            decreases self.packets@.len() - i,
        {
            let ghost upto = frames_of(self.packets@).take(i + 1);
            proof {
                assert(upto.drop_last() =~= frames_of(self.packets@).take(i as int));
                assert(upto.last() == self.packets@[i as int]@);
            }
            match sum.checked_add(self.packets[i].len()) {
                Some(next) => {
                    sum = next;
                },
                None => {
                    proof {
                        lemma_payload_total_prefix(frames_of(self.packets@), i + 1);
                    }
                    return None;
                },
            }
            i = i + 1;
        }
        proof {
            assert(frames_of(self.packets@).take(i as int) =~= frames_of(self.packets@));
        }
        Some(sum)
    }

    /// The total payload length of all frames, the tick included, unless it
    /// exceeds what a `usize` holds.
    pub fn checked_total_len(&self) -> (r: Option<usize>)
        ensures
            match r {
                Some(n) => n == self.spec_total_len(),
                None => self.spec_total_len() > usize::MAX,
            },
    {
        proof {
            lemma_decrypt_frames_position(self@.prefix, Seq::empty(), 0);
        }
        match self.checked_payload_len() {
            Some(n) => n.checked_add(self.terminating_tick.len()),
            None => None,
        }
    }

    /// The total payload length of the frames before the tick.
    pub fn payload_len(&self) -> (n: usize)
        requires
            self.spec_payload_len() <= usize::MAX,
        ensures
            n == self.spec_payload_len(),
    {
        match self.checked_payload_len() {
            Some(n) => n,
            None => 0,
        }
    }

    /// The total payload length of all frames, the tick included.
    pub fn total_len(&self) -> (n: usize)
        requires
            self.spec_total_len() <= usize::MAX,
        ensures
            n == self.spec_total_len(),
    {
        match self.checked_total_len() {
            Some(n) => n,
            None => 0,
        }
    }

    /// Decrypt the frames in order and then the tick, with one continuous
    /// keystream that starts afresh after every frame that announces a new
    /// session.
    pub fn decrypt(&self, cipher: &mut Rc4) -> (plain: DecryptedTickFrame)
        requires
            old(cipher).spec_offset() + self.spec_total_len() <= usize::MAX,
        ensures
            frames_of(plain.packets@) == decrypt_frames(
                self@.prefix,
                old(cipher).spec_key(),
                old(cipher).spec_offset(),
            ).0,
            plain.terminating_tick@ == decrypted_frame(
                self@.tick,
                old(cipher).spec_key(),
                decrypt_frames(self@.prefix, old(cipher).spec_key(), old(cipher).spec_offset()).1,
            ),
            final(cipher).positioned(
                old(cipher).spec_key(),
                decrypt_frames(self@.prefix, old(cipher).spec_key(), old(cipher).spec_offset()).1
                    + self@.tick.payload.len(),
            ),
            plain.unread(),
    {
        let ghost key = cipher.spec_key();
        let ghost start = cipher.spec_offset();
        let ghost prefix = self@.prefix;
        let mut packets: Vec<StitchedPacket> = Vec::new();
        let mut i: usize = 0;
        let at: usize = cipher.offset();
        while i < self.packets.len()
            invariant
                i <= self.packets@.len(),
                prefix == frames_of(self.packets@),
                0 <= start,
                start + payload_total(prefix) + self.terminating_tick@.payload.len() <= usize::MAX,
                cipher.positioned(key, decrypt_frames(prefix.take(i as int), key, start).1),
                frames_of(packets@) == decrypt_frames(prefix.take(i as int), key, start).0,
                forall|k: int|
                    0 <= k < packets@.len() ==> (#[trigger] packets@[k]).buffer.spec_index() == 0,
            decreases self.packets@.len() - i,
        {
            let ghost upto = prefix.take(i + 1);
            proof {
                assert(upto.drop_last() =~= prefix.take(i as int));
                assert(upto.last() == self.packets@[i as int]@);
                lemma_decrypt_frames_position(prefix.take(i as int), key, start);
                lemma_payload_total_prefix(prefix, i + 1);
                lemma_decrypt_frames_position(prefix, key, start);
            }
            let now: usize = cipher.offset();
            let mut packet: StitchedPacket = self.packets[i].clone();
            packet.decrypt(cipher);
            if packet.type_num == RECONNECT_TAG {
                cipher.reset();
            }
            let ghost before = packets@;
            packets.push(packet);
            proof {
                assert(frames_of(packets@) =~= frames_of(before).push(packet@));
            }
            i = i + 1;
        }
        proof {
            assert(prefix.take(i as int) =~= prefix);
            lemma_decrypt_frames_position(prefix, key, start);
        }
        let now: usize = cipher.offset();
        let mut terminating_tick: StitchedPacket = self.terminating_tick.clone();
        terminating_tick.decrypt(cipher);
        DecryptedTickFrame { packets, terminating_tick }
    }
}

impl Clone for EncryptedTickFrame {
    fn clone(&self) -> (copy: Self)
        ensures
            copy@ == self@,
    {
        let mut packets: Vec<StitchedPacket> = Vec::new();
        let mut i: usize = 0;
        while i < self.packets.len()
            invariant
                i <= self.packets@.len(),
                frames_of(packets@) == frames_of(self.packets@).take(i as int),
            decreases self.packets@.len() - i,
        {
            let ghost before = packets@;
            packets.push(self.packets[i].clone());
            proof {
                assert(frames_of(packets@) =~= frames_of(before).push(self.packets@[i as int]@));
                assert(frames_of(packets@) =~= frames_of(self.packets@).take(i + 1));
            }
            i = i + 1;
        }
        proof {
            assert(frames_of(self.packets@).take(i as int) =~= frames_of(self.packets@));
        }
        EncryptedTickFrame { packets, terminating_tick: self.terminating_tick.clone() }
    }
}

/// The payload total of the first `n` frames is at most that of all.
pub proof fn lemma_payload_total_prefix(frames: Seq<FrameView>, n: int)
    requires
        0 <= n <= frames.len(),
    ensures
        0 <= payload_total(frames.take(n)) <= payload_total(frames),
    decreases frames.len(),
{
    if n == frames.len() {
        assert(frames.take(n) =~= frames);
        lemma_decrypt_frames_position(frames, Seq::empty(), 0);
    } else {
        assert(frames.drop_last().take(n) =~= frames.take(n));
        lemma_payload_total_prefix(frames.drop_last(), n);
    }
}

/// What taking in one frame does to the frames held: a tick leaves with all
/// of them as one tick frame; any other frame joins them.
pub open spec fn insert_step(pending: Seq<FrameView>, frame: FrameView) -> (
    Option<TickFrameView>,
    Seq<FrameView>,
) {
    if frame.tag == NEW_TICK_TAG {
        (Some(TickFrameView { prefix: pending, tick: frame }), Seq::empty())
    } else {
        (None, pending.push(frame))
    }
}

/// The tick frames that leave while `stream` is taken in frame by frame,
/// and the frames held at the end.
pub open spec fn group(pending: Seq<FrameView>, stream: Seq<FrameView>) -> (
    Seq<TickFrameView>,
    Seq<FrameView>,
)
    decreases stream.len(),
{
    if stream.len() == 0 {
        (Seq::empty(), pending)
    } else {
        let (out, held) = group(pending, stream.drop_last());
        match insert_step(held, stream.last()).0 {
            Some(tick_frame) => (out.push(tick_frame), insert_step(held, stream.last()).1),
            None => (out, insert_step(held, stream.last()).1),
        }
    }
}

/// The number of ticks in `stream`.
pub open spec fn count_ticks(stream: Seq<FrameView>) -> nat
    decreases stream.len(),
{
    if stream.len() == 0 {
        0
    } else {
        count_ticks(stream.drop_last()) + if stream.last().tag == NEW_TICK_TAG {
            1nat
        } else {
            0nat
        }
    }
}

/// The frames of `tick_frames` in one row, each tick behind its prefix.
pub open spec fn flatten(tick_frames: Seq<TickFrameView>) -> Seq<FrameView>
    decreases tick_frames.len(),
{
    if tick_frames.len() == 0 {
        Seq::empty()
    } else {
        flatten(tick_frames.drop_last()) + tick_frames.last().prefix.push(tick_frames.last().tick)
    }
}

/// Whether no frame of `frames` is a tick.
pub open spec fn tick_free(frames: Seq<FrameView>) -> bool {
    forall|i: int| 0 <= i < frames.len() ==> (#[trigger] frames[i]).tag != NEW_TICK_TAG
}

/// Grouping emits one tick frame for every tick of the stream. The emitted
/// frames and the frames still held are, in order, the frames held before
/// and the stream; every emitted frame ends in a tick and holds no other;
/// and no held frame is a tick. So the prefix of every tick frame is the run
/// of frames between the tick before it and its own.
pub proof fn lemma_grouping(pending: Seq<FrameView>, stream: Seq<FrameView>)
    requires
        tick_free(pending),
    ensures
        group(pending, stream).0.len() == count_ticks(stream),
        flatten(group(pending, stream).0) + group(pending, stream).1 == pending + stream,
        tick_free(group(pending, stream).1),
        forall|k: int|
            0 <= k < group(pending, stream).0.len() ==> (#[trigger] group(
                pending,
                stream,
            ).0[k]).tick.tag == NEW_TICK_TAG && tick_free(group(pending, stream).0[k].prefix),
    decreases stream.len(),
{
    if stream.len() == 0 {
        assert(flatten(group(pending, stream).0) + group(pending, stream).1 =~= pending + stream);
    } else {
        let front = stream.drop_last();
        let last = stream.last();
        lemma_grouping(pending, front);
        let (out, held) = group(pending, front);
        assert(pending + stream =~= (pending + front).push(last));
        if last.tag == NEW_TICK_TAG {
            let emitted = out.push(TickFrameView { prefix: held, tick: last });
            assert(emitted.drop_last() =~= out);
            assert(flatten(emitted) + Seq::<FrameView>::empty() =~= (flatten(out) + held).push(
                last,
            ));
        } else {
            assert(flatten(out) + held.push(last) =~= (flatten(out) + held).push(last));
        }
    }
}

/// Collects stitched frames and hands them out, as one tick frame, when the
/// tick that ends the run arrives.
#[derive(Debug)]
pub struct TickFrameConstructor {
    iqueue: VecDeque<StitchedPacket>,
}

impl View for TickFrameConstructor {
    type V = Seq<FrameView>;

    /// The frames received since the last tick, in order of arrival.
    closed spec fn view(&self) -> Seq<FrameView> {
        frames_of(self.iqueue@)
    }
}

impl TickFrameConstructor {
    /// A constructor that holds no frames.
    pub fn new() -> (constructor: Self)
        ensures
            constructor@ == Seq::<FrameView>::empty(),
    {
        let constructor = TickFrameConstructor { iqueue: VecDeque::with_capacity(10) };
        assert(constructor@ =~= Seq::<FrameView>::empty());
        constructor
    }

    /// Take in one frame. A tick ends the run: all frames held so far leave
    /// with it as one tick frame. Any other frame is held back.
    pub fn insert_packet(&mut self, packet: StitchedPacket) -> (r: Option<EncryptedTickFrame>)
        ensures
            final(self)@ == insert_step(old(self)@, packet@).1,
            match insert_step(old(self)@, packet@).0 {
                Some(tick_frame) => r is Some && r->0@ == tick_frame,
                None => r is None,
            },
    {
        if packet.type_num == NEW_TICK_TAG {
            let mut packets: Vec<StitchedPacket> = Vec::new();
            while self.iqueue.len() > 0
                invariant
                    packets@ + self.iqueue@ == old(self).iqueue@,
                decreases self.iqueue@.len(),
            {
                let ghost held = self.iqueue@;
                let ghost taken = packets@;
                let first: StitchedPacket = self.iqueue.pop_front().unwrap();
                packets.push(first);
                proof {
                    assert(packets@ + self.iqueue@ =~= taken + held);
                }
            }
            proof {
                assert(packets@ =~= packets@ + self.iqueue@);
                assert(self@ =~= Seq::<FrameView>::empty());
            }
            Some(EncryptedTickFrame { packets, terminating_tick: packet })
        } else {
            self.iqueue.push_back(packet);
            assert(self@ =~= old(self)@.push(packet@));
            None
        }
    }

    /// Forget the frames held.
    pub fn reset(&mut self)
        ensures
            final(self)@ == Seq::<FrameView>::empty(),
    {
        self.iqueue.clear();
        assert(self@ =~= Seq::<FrameView>::empty());
    }
}

} // verus!
