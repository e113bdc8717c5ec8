//! The pipeline from payload bytes to typed frames: stitching, grouping by
//! tick, decryption and decoding, in that order.

use crate::rc4::DEFAULT_ALIGN_BOUND;
use crate::rotmg_packet::{PacketView, RotmgPacket};
use crate::rotmg_packet_decryptor::{
    decrypt_step, packets_view, typed_frames, DecryptError, DecryptorView, RotmgPacketDecryptor,
};
use crate::rotmg_packet_stitcher::{
    frames_of, stitch, FrameView, RotmgPacketStitcher, StitchedPacket,
};
use crate::tick_frame_constructor::{TickFrameConstructor, TickFrameView, NEW_TICK_TAG};
use std::collections::VecDeque;
use vstd::prelude::*;

verus! {

/// The pipeline as a value.
pub ghost struct FactoryView {
    /// The bytes that the stitcher holds back.
    pub queue: Seq<u8>,
    /// The frames that wait for their tick.
    pub pending: Seq<FrameView>,
    /// The decryptor.
    pub decryptor: DecryptorView,
    /// The typed frames that wait to be fetched.
    pub output: Seq<PacketView>,
}

/// The part of the pipeline behind the stitcher while it takes in frames:
/// once a tick frame has been refused, nothing more is taken in.
pub ghost struct FeedState {
    pub pending: Seq<FrameView>,
    pub decryptor: DecryptorView,
    pub output: Seq<PacketView>,
    pub error: Option<DecryptError>,
}

/// One stitched frame enters: a tick takes the frames that wait with it
/// through the decryptor, whose typed frames join the output; any other
/// frame waits.
pub open spec fn feed_one(st: FeedState, frame: FrameView) -> FeedState {
    if st.error is Some {
        st
    } else if frame.tag != NEW_TICK_TAG {
        FeedState { pending: st.pending.push(frame), ..st }
    } else {
        match decrypt_step(st.decryptor, TickFrameView { prefix: st.pending, tick: frame }) {
            Ok((next, delivery)) => FeedState {
                pending: Seq::empty(),
                decryptor: next,
                output: st.output + typed_frames(delivery.frames),
                error: None,
            },
            Err(e) => FeedState { pending: Seq::empty(), error: Some(e), ..st },
        }
    }
}

/// Stitched frames enter in order.
pub open spec fn feed(st: FeedState, frames: Seq<FrameView>) -> FeedState
    decreases frames.len(),
{
    if frames.len() == 0 {
        st
    } else {
        feed_one(feed(st, frames.drop_last()), frames.last())
    }
}

/// What the pipeline has become after `data` has gone in.
pub open spec fn factory_step(view: FactoryView, data: Seq<u8>) -> FeedState {
    feed(
        FeedState {
            pending: view.pending,
            decryptor: view.decryptor,
            output: view.output,
            error: None,
        },
        stitch(view.queue + data).0,
    )
}

/// Stitches payload bytes into frames, groups them by tick, decrypts them
/// and keeps the typed frames until they are fetched.
#[derive(Debug)]
pub struct RotmgPacketFactory {
    stitcher: RotmgPacketStitcher,
    tick_frame_constructor: TickFrameConstructor,
    decrypter: RotmgPacketDecryptor,
    oqueue: VecDeque<RotmgPacket>,
}

impl View for RotmgPacketFactory {
    type V = FactoryView;

    closed spec fn view(&self) -> FactoryView {
        FactoryView {
            queue: self.stitcher@,
            pending: self.tick_frame_constructor@,
            decryptor: self.decrypter@,
            output: packets_view(self.oqueue@),
        }
    }
}

impl RotmgPacketFactory {
    /// A pipeline that holds nothing and has seen no tick.
    pub fn new() -> (factory: Self)
        ensures
            factory@ == (FactoryView {
                queue: Seq::empty(),
                pending: Seq::empty(),
                decryptor: DecryptorView {
                    offset: 0,
                    record: None,
                    max_align_bytes: DEFAULT_ALIGN_BOUND as int,
                },
                output: Seq::empty(),
            }),
    {
        Self::with_decryptor(RotmgPacketDecryptor::new())
    }

    /// A pipeline that holds nothing and decrypts with `decrypter`.
    pub fn with_decryptor(decrypter: RotmgPacketDecryptor) -> (factory: Self)
        ensures
            factory@ == (FactoryView {
                queue: Seq::empty(),
                pending: Seq::empty(),
                decryptor: decrypter@,
                output: Seq::empty(),
            }),
    {
        let factory = RotmgPacketFactory {
            stitcher: RotmgPacketStitcher::new(),
            tick_frame_constructor: TickFrameConstructor::new(),
            decrypter,
            oqueue: VecDeque::new(),
        };
        assert(packets_view(factory.oqueue@) =~= Seq::<PacketView>::empty());
        factory
    }

    /// Take in the payload of one captured segment and run every frame that
    /// it completes through the pipeline. Stops at the first tick frame that
    /// the decryptor refuses; the frames stitched behind it are lost.
    pub fn insert_packet(&mut self, payload: &[u8]) -> (r: Result<(), DecryptError>)
        ensures
            final(self)@ == (FactoryView {
                queue: stitch(old(self)@.queue + payload@).1,
                pending: factory_step(old(self)@, payload@).pending,
                decryptor: factory_step(old(self)@, payload@).decryptor,
                output: factory_step(old(self)@, payload@).output,
            }),
            r == match factory_step(old(self)@, payload@).error {
                Some(e) => Err::<(), DecryptError>(e),
                None => Ok(()),
            },
    {
        let ghost start = FeedState {
            pending: self@.pending,
            decryptor: self@.decryptor,
            output: self@.output,
            error: None,
        };
        let mut stitched: Vec<StitchedPacket> = self.stitcher.insert_packet(payload);
        let ghost frames = frames_of(stitched@);
        let ghost queue = self.stitcher@;
        let count: usize = stitched.len();
        let mut i: usize = 0;
        while i < count
            invariant
                i <= count,
                count == frames.len(),
                stitched@.len() == count,
                self.stitcher@ == queue,
                queue == stitch(old(self)@.queue + payload@).1,
                frames == stitch(old(self)@.queue + payload@).0,
                start == (FeedState {
                    pending: old(self)@.pending,
                    decryptor: old(self)@.decryptor,
                    output: old(self)@.output,
                    error: None,
                }),
                forall|k: int| i <= k < count ==> (#[trigger] stitched@[k])@ == frames[k],
                feed(start, frames.take(i as int)) == (FeedState {
                    pending: self@.pending,
                    decryptor: self@.decryptor,
                    output: self@.output,
                    error: None,
                }),
            decreases count - i,
        {
            let mut packet = StitchedPacket {
                type_num: 0,
                buffer: crate::byte_buffer::ByteBuffer::new(Vec::new()),
            };
            std::mem::swap(&mut packet, &mut stitched[i]);
            let ghost before = feed(start, frames.take(i as int));
            proof {
                assert(frames.take(i + 1).drop_last() =~= frames.take(i as int));
                assert(frames.take(i + 1).last() == frames[i as int]);
            }
            match self.tick_frame_constructor.insert_packet(packet) {
                None => {},
                Some(tick_frame) => {
                    match self.decrypter.insert_frame(tick_frame) {
                        Ok(outcome) => {
                            let ghost waiting = self.oqueue@;
                            let mut packets: Vec<RotmgPacket> = outcome.packets;
                            let ghost added = packets@;
                            let n: usize = packets.len();
                            let mut j: usize = 0;
                            while j < n
                                invariant
                                    j <= n,
                                    packets@.len() == n,
                                    added.len() == n,
                                    forall|k: int|
                                        j <= k < n ==> (#[trigger] packets@[k])@ == added[k]@,
                                    packets_view(self.oqueue@) == packets_view(waiting)
                                        + packets_view(added.take(j as int)),
                                    self.stitcher@ == queue,
                                    self.tick_frame_constructor@ == Seq::<FrameView>::empty(),
                                    self.decrypter@ == feed(
                                        start,
                                        frames.take(i + 1),
                                    ).decryptor,
                                decreases n - j,
                            {
                                let mut typed = RotmgPacket::Other {
                                    type_num: 0,
                                    rem: crate::byte_buffer::ByteBuffer::new(Vec::new()),
                                };
                                std::mem::swap(&mut typed, &mut packets[j]);
                                let ghost held = self.oqueue@;
                                self.oqueue.push_back(typed);
                                proof {
                                    assert(packets_view(self.oqueue@) =~= packets_view(held).push(
                                        typed@,
                                    ));
                                    assert(packets_view(added.take(j + 1)) =~= packets_view(
                                        added.take(j as int),
                                    ).push(added[j as int]@));
                                }
                                j = j + 1;
                            }
                            proof {
                                assert(added.take(n as int) =~= added);
                            }
                        },
                        Err(e) => {
                            proof {
                                lemma_feed_stays_failed(
                                    feed(start, frames.take(i + 1)),
                                    frames.skip(i + 1),
                                );
                                lemma_feed_split(start, frames, i + 1);
                            }
                            return Err(e);
                        },
                    }
                },
            }
            i = i + 1;
        }
        proof {
            assert(frames.take(count as int) =~= frames);
        }
        Ok(())
    }

    /// Take the oldest typed frame that waits, if any.
    pub fn get_packet(&mut self) -> (r: Option<RotmgPacket>)
        ensures
            match r {
                Some(packet) => old(self)@.output.len() > 0 && packet@ == old(self)@.output[0]
                    && final(self)@ == (FactoryView {
                    output: old(self)@.output.skip(1),
                    ..old(self)@
                }),
                None => old(self)@.output.len() == 0 && final(self)@ == old(self)@,
            },
    {
        let ghost waiting = self.oqueue@;
        let r = self.oqueue.pop_front();
        proof {
            if r is Some {
                assert(packets_view(self.oqueue@) =~= packets_view(waiting).skip(1));
            }
        }
        r
    }

    /// Take all typed frames that wait, oldest first.
    pub fn get_packets(&mut self) -> (out: Vec<RotmgPacket>)
        ensures
            packets_view(out@) == old(self)@.output,
            final(self)@ == (FactoryView { output: Seq::empty(), ..old(self)@ }),
    {
        let mut out: Vec<RotmgPacket> = Vec::new();
        let ghost waiting = self.oqueue@;
        loop
            invariant
                self.stitcher@ == old(self).stitcher@,
                self.tick_frame_constructor@ == old(self).tick_frame_constructor@,
                self.decrypter@ == old(self).decrypter@,
                waiting == old(self).oqueue@,
                out@.len() <= waiting.len(),
                out@ + self.oqueue@ == waiting,
            ensures
                self.stitcher@ == old(self).stitcher@,
                self.tick_frame_constructor@ == old(self).tick_frame_constructor@,
                self.decrypter@ == old(self).decrypter@,
                out@ == old(self).oqueue@,
                self.oqueue@.len() == 0,
            decreases self.oqueue@.len(),
        {
            let ghost held = self.oqueue@;
            let ghost taken = out@;
            match self.oqueue.pop_front() {
                Some(packet) => {
                    out.push(packet);
                    proof {
                        assert(out@ + self.oqueue@ =~= taken + held);
                    }
                },
                None => {
                    proof {
                        assert(out@ =~= out@ + self.oqueue@);
                    }
                    break ;
                },
            }
        }
        proof {
            assert(packets_view(self.oqueue@) =~= Seq::<PacketView>::empty());
        }
        out
    }

    /// Empty every queue, put the cipher back to the start of its keystream
    /// and forget the last tick.
    pub fn reset(&mut self)
        ensures
            final(self)@.queue == Seq::<u8>::empty(),
            final(self)@.pending == Seq::<FrameView>::empty(),
            final(self)@.output == Seq::<PacketView>::empty(),
            final(self)@.decryptor == (DecryptorView {
                offset: 0,
                record: None,
                max_align_bytes: old(self)@.decryptor.max_align_bytes,
            }),
    {
        self.stitcher.reset();
        self.tick_frame_constructor.reset();
        self.decrypter.reset();
        self.oqueue.clear();
        proof {
            assert(packets_view(self.oqueue@) =~= Seq::<PacketView>::empty());
        }
    }
}

/// Once a tick frame has been refused, further frames change nothing.
pub proof fn lemma_feed_stays_failed(st: FeedState, frames: Seq<FrameView>)
    requires
        st.error is Some,
    ensures
        feed(st, frames) == st,
    decreases frames.len(),
{
    if frames.len() > 0 {
        lemma_feed_stays_failed(st, frames.drop_last());
    }
}

/// Feeding frames is feeding the first `n` of them and then the rest.
pub proof fn lemma_feed_split(st: FeedState, frames: Seq<FrameView>, n: int)
    requires
        0 <= n <= frames.len(),
    ensures
        feed(st, frames) == feed(feed(st, frames.take(n)), frames.skip(n)),
    decreases frames.len(),
{
    if n == frames.len() {
        assert(frames.take(n) =~= frames);
    } else {
        assert(frames.drop_last().take(n) =~= frames.take(n));
        assert(frames.drop_last().skip(n) =~= frames.skip(n).drop_last());
        lemma_feed_split(st, frames.drop_last(), n);
    }
}

} // verus!
