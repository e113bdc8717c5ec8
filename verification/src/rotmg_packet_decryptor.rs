//! Decryption of tick frames against a cipher kept in step with the sender.
//!
//! The decryptor looks ahead to the tick that ends a frame, checks that it
//! follows the last tick it has seen, and only then decrypts the run. Where
//! the check fails, or no tick has been seen yet, it finds the cipher's
//! position afresh from the tick's predictable bytes. A tick that it has
//! just seen is decrypted once more as it was, and changes nothing.

use crate::byte_buffer::{be_read_u32, be_value, ByteBuffer};
use crate::rc4::{
    first_match, lemma_first_match, lemma_xor_from_twice, window_matches, xor_from, Rc4,
    ALIGN_WINDOW, DEFAULT_ALIGN_BOUND,
};
use crate::rotmg_packet::{typed_frame, PacketView, RotmgPacket};
use crate::rotmg_packet_stitcher::{frames_of, FrameView, StitchedPacket};
use crate::tick_frame_constructor::{
    decrypt_frames, decrypted_frame, lemma_decrypt_after_reconnect, lemma_decrypt_frames_len,
    lemma_decrypt_frames_position, lemma_decrypt_frames_twice,
    lemma_decrypt_frames_without_reconnect, payload_total, EncryptedTickFrame, TickFrameView,
    NEW_TICK_TAG, RECONNECT_TAG,
};
use vstd::prelude::*;

verus! {

/// The key of the server-to-client direction.
pub const IKEY: [u8; 13] = [
    0xc9, 0x1d, 0x9e, 0xec, 0x42, 0x01, 0x60, 0x73, 0x0d, 0x82, 0x56, 0x04, 0xe0,
];

/// The key of the client-to-server direction, which is not decoded.
pub const OKEY: [u8; 13] = [
    0x5a, 0x4d, 0x20, 0x16, 0xbc, 0x16, 0xdc, 0x64, 0x88, 0x31, 0x94, 0xff, 0xd9,
];

/// How far a tick frame could be trusted.
#[derive(Clone, Copy, Debug, PartialEq, Eq, Structural)]
pub enum DecryptionIntegrity {
    /// The tick follows the last one seen.
    Intact,
    /// After realignment the cipher had advanced by this much less than the
    /// frame is long.
    MissingBytes(usize),
    /// After realignment the cipher had advanced by this much more than the
    /// frame is long.
    ExtraBytes(usize),
    /// The cipher was aligned without a tick to check against, or could not
    /// be aligned at all.
    Warn,
    /// The tick repeats the last one seen.
    Duplicate,
}

/// Why a tick frame could not be processed at all.
#[derive(Clone, Copy, Debug, PartialEq, Eq, Structural)]
pub enum DecryptError {
    /// The aligned position lies less far into the keystream than the frames
    /// before the tick are long.
    ReverseUnderflow,
    /// The frame is so long that a keystream position would not fit a `usize`.
    OffsetOverflow,
}

/// The last tick decrypted, as a value: its bytes before and after
/// decryption, and the keystream position right behind it.
pub ghost struct RecordView {
    pub encrypted: FrameView,
    pub decrypted: FrameView,
    pub offset: int,
}

/// The decryptor as a value.
pub ghost struct DecryptorView {
    /// The keystream position of the live cipher.
    pub offset: int,
    /// The last tick decrypted, if any.
    pub record: Option<RecordView>,
    /// The number of keystream positions that alignment searches.
    pub max_align_bytes: int,
}

/// What processing one tick frame hands on.
pub ghost struct Delivery {
    /// The decrypted frames that are delivered, in order.
    pub frames: Seq<FrameView>,
    pub integrity: DecryptionIntegrity,
}

/// The key under which frames are decrypted.
pub open spec fn server_key() -> Seq<u8> {
    IKEY@
}

/// The first four bytes of a payload, or four zeros where it is shorter.
pub open spec fn first_four(payload: Seq<u8>) -> Seq<u8> {
    if payload.len() >= 4 {
        payload.take(4)
    } else {
        seq![0u8, 0u8, 0u8, 0u8]
    }
}

/// The tick number at the start of a tick's payload, or zero where the
/// payload is too short to hold one.
pub open spec fn tick_id(payload: Seq<u8>) -> int {
    if payload.len() >= 4 {
        be_value(payload.take(4)) as int
    } else {
        0
    }
}

/// Whether the tick with plaintext `new` is the one right after the tick
/// with plaintext `old`.
pub open spec fn ticks_adjacent(old: Seq<u8>, new: Seq<u8>) -> bool {
    tick_id(old) + 1 == tick_id(new)
}

/// The total payload length of a tick frame.
pub open spec fn frame_total(frame: TickFrameView) -> int {
    payload_total(frame.prefix) + frame.tick.payload.len()
}

/// Whether every keystream position that processing `frame` may reach fits
/// a `usize`.
pub open spec fn frame_fits(view: DecryptorView, frame: TickFrameView) -> bool {
    &&& view.offset + frame_total(frame) <= usize::MAX
    &&& view.max_align_bytes + frame_total(frame) <= usize::MAX
    &&& view.record is Some ==> view.record->0.offset + frame_total(frame) <= usize::MAX
}

/// Where the decryption of a duplicate starts: as far before the position
/// behind the last tick as the duplicate is long, so that a frame that
/// arrives a second time is decrypted as it was the first time; or at the
/// start of the keystream where the cipher has not come that far.
pub open spec fn replay_start(offset: int, total: int) -> int {
    if total <= offset {
        offset - total
    } else {
        0
    }
}

/// Where alignment from the start of the keystream finds the tick of
/// `frame`. A tick shorter than the window is never found.
pub open spec fn aligned_position(view: DecryptorView, frame: TickFrameView) -> Option<int> {
    if frame.tick.payload.len() >= ALIGN_WINDOW {
        first_match(server_key(), 0, view.max_align_bytes, frame.tick.payload)
    } else {
        None
    }
}

/// All frames of `frame` decrypted in order from keystream position `pos`
/// on, the tick last, and the position right behind the tick.
pub open spec fn decrypt_run(frame: TickFrameView, pos: int) -> (Seq<FrameView>, int) {
    let (plain, at) = decrypt_frames(frame.prefix, server_key(), pos);
    (plain.push(decrypted_frame(frame.tick, server_key(), at)), at + frame.tick.payload.len())
}

/// The decryptor after it has decrypted `frame` from `pos` on and taken its
/// tick as the last one seen.
pub open spec fn committed(view: DecryptorView, frame: TickFrameView, pos: int) -> DecryptorView {
    let (plain, end) = decrypt_run(frame, pos);
    DecryptorView {
        offset: end,
        record: Some(RecordView { encrypted: frame.tick, decrypted: plain.last(), offset: end }),
        max_align_bytes: view.max_align_bytes,
    }
}

/// The cold path: the cipher is reset and aligned to the tick, and the
/// frame is decrypted from the position that lies the length of the frames
/// before the tick ahead of it. Yields the new state and all decrypted
/// frames. Where no position matches, nothing is produced and the live
/// cipher is left where the search ended.
pub open spec fn cold_step(view: DecryptorView, frame: TickFrameView) -> Result<
    (DecryptorView, Seq<FrameView>),
    DecryptError,
> {
    match aligned_position(view, frame) {
        None => Ok(
            (
                DecryptorView {
                    offset: if frame.tick.payload.len() >= ALIGN_WINDOW {
                        view.max_align_bytes
                    } else {
                        0
                    },
                    record: view.record,
                    max_align_bytes: view.max_align_bytes,
                },
                Seq::empty(),
            ),
        ),
        Some(found) => {
            let back = payload_total(frame.prefix);
            if back > found {
                Err(DecryptError::ReverseUnderflow)
            } else {
                Ok((committed(view, frame, found - back), decrypt_run(frame, found - back).0))
            }
        },
    }
}

/// How the cold path's outcome is tagged after a failed check: by how far
/// the cipher has come since the last tick, against the frame's length.
pub open spec fn drift_integrity(expected: int, actual: int) -> DecryptionIntegrity {
    if actual < expected {
        DecryptionIntegrity::MissingBytes((expected - actual) as usize)
    } else if actual > expected {
        DecryptionIntegrity::ExtraBytes((actual - expected) as usize)
    } else {
        DecryptionIntegrity::Warn
    }
}

/// What the decryptor does with one tick frame: its next state and what it
/// delivers.
pub open spec fn decrypt_step(view: DecryptorView, frame: TickFrameView) -> Result<
    (DecryptorView, Delivery),
    DecryptError,
> {
    if !frame_fits(view, frame) {
        Err(DecryptError::OffsetOverflow)
    } else {
        match view.record {
            Some(record) => {
                if first_four(frame.tick.payload) == first_four(record.encrypted.payload) {
                    Ok(
                        (
                            view,
                            Delivery {
                                frames: decrypt_run(
                                    frame,
                                    replay_start(record.offset, frame_total(frame)),
                                ).0,
                                integrity: DecryptionIntegrity::Duplicate,
                            },
                        ),
                    )
                } else if ticks_adjacent(
                    record.decrypted.payload,
                    decrypt_run(frame, view.offset).0.last().payload,
                ) {
                    Ok(
                        (
                            committed(view, frame, view.offset),
                            Delivery {
                                frames: decrypt_run(frame, view.offset).0,
                                integrity: DecryptionIntegrity::Intact,
                            },
                        ),
                    )
                } else {
                    match cold_step(view, frame) {
                        Err(e) => Err(e),
                        Ok((next, frames)) => Ok(
                            (
                                next,
                                Delivery {
                                    frames,
                                    integrity: if aligned_position(view, frame) is Some {
                                        drift_integrity(
                                            record.offset + frame_total(frame),
                                            next.offset,
                                        )
                                    } else {
                                        DecryptionIntegrity::Warn
                                    },
                                },
                            ),
                        ),
                    }
                }
            },
            None => match cold_step(view, frame) {
                Err(e) => Err(e),
                Ok((next, frames)) => Ok(
                    (
                        next,
                        Delivery {
                            frames: if frames.len() > 0 {
                                seq![frames.last()]
                            } else {
                                Seq::empty()
                            },
                            integrity: DecryptionIntegrity::Warn,
                        },
                    ),
                ),
            },
        }
    }
}

/// The typed frames that `frames` decode to, each read from the start of
/// its payload.
pub open spec fn typed_frames(frames: Seq<FrameView>) -> Seq<PacketView> {
    frames.map_values(|f: FrameView| typed_frame(f.tag, f.payload, 0))
}

/// The typed frame that `packet` decodes to when read from its cursor.
pub open spec fn typed_packet(packet: StitchedPacket) -> PacketView {
    typed_frame(packet@.tag, packet@.payload, packet.buffer.spec_index())
}

/// The values of `packets`.
pub open spec fn packets_view(packets: Seq<RotmgPacket>) -> Seq<PacketView> {
    packets.map_values(|p: RotmgPacket| p@)
}

/// A tick frame after decryption: the frames that came before the tick, in
/// order, and the tick that ended the run.
#[derive(Clone, Debug, PartialEq, Eq)]
pub struct DecryptedTickFrame {
    pub packets: Vec<StitchedPacket>,
    pub terminating_tick: StitchedPacket,
}

impl DecryptedTickFrame {
    /// All frames of the tick frame in order, the tick last.
    pub open spec fn frames(&self) -> Seq<FrameView> {
        frames_of(self.packets@).push(self.terminating_tick@)
    }

    /// Whether every buffer's cursor stands at the start of its payload.
    pub open spec fn unread(&self) -> bool {
        &&& self.terminating_tick.buffer.spec_index() == 0
        &&& forall|i: int|
            0 <= i < self.packets@.len() ==> (#[trigger] self.packets@[i]).buffer.spec_index() == 0
    }

    /// All frames of the tick frame with their buffers, the tick last.
    pub open spec fn all_packets(&self) -> Seq<StitchedPacket> {
        self.packets@.push(self.terminating_tick)
    }

    /// Decode every frame from the cursor of its buffer, the tick last. A
    /// frame whose fields cannot be read is kept as the catch-all.
    pub fn to_rotmg_packets(self) -> (out: Vec<RotmgPacket>)
        ensures
            packets_view(out@) == self.all_packets().map_values(
                |p: StitchedPacket| typed_packet(p),
            ),
            self.unread() ==> packets_view(out@) == typed_frames(self.frames()),
    {
        let ghost all = self.all_packets();
        let ghost prefix = self.packets@;
        let mut packets: Vec<StitchedPacket> = self.packets;
        let terminating_tick: StitchedPacket = self.terminating_tick;
        let count: usize = packets.len();
        let mut out: Vec<RotmgPacket> = Vec::new();
        let mut i: usize = 0;
        while i < count
            invariant
                i <= count,
                count == prefix.len(),
                packets@.len() == count,
                forall|k: int| i <= k < count ==> #[trigger] packets@[k] == prefix[k],
                packets_view(out@) == prefix.take(i as int).map_values(
                    |p: StitchedPacket| typed_packet(p),
                ),
            decreases count - i,
        {
            let mut taken = StitchedPacket { type_num: 0, buffer: ByteBuffer::new(Vec::new()) };
            std::mem::swap(&mut taken, &mut packets[i]);
            let ghost done = out@;
            out.push(RotmgPacket::from_stitched(taken));
            proof {
                assert(packets_view(out@) =~= packets_view(done).push(out@.last()@));
                assert(prefix.take(i + 1).map_values(|p: StitchedPacket| typed_packet(p))
                    =~= prefix.take(i as int).map_values(|p: StitchedPacket| typed_packet(p)).push(
                    typed_packet(prefix[i as int]),
                ));
            }
            i = i + 1;
        }
        let ghost done = out@;
        out.push(RotmgPacket::from_stitched(terminating_tick));
        proof {
            assert(prefix.take(count as int) =~= prefix);
            assert(packets_view(out@) =~= packets_view(done).push(out@.last()@));
            assert(all.map_values(|p: StitchedPacket| typed_packet(p)) =~= prefix.map_values(
                |p: StitchedPacket| typed_packet(p),
            ).push(typed_packet(terminating_tick)));
            if self.unread() {
                assert(all.map_values(|p: StitchedPacket| typed_packet(p)) =~= typed_frames(
                    self.frames(),
                ));
            }
        }
        out
    }
}

/// What the decryptor hands on for one tick frame.
#[derive(Clone, Debug, PartialEq, Eq)]
pub struct DecryptionOutcome {
    /// The typed frames delivered, in the order of their bytes.
    pub packets: Vec<RotmgPacket>,
    /// How far the tick frame could be trusted.
    pub integrity: DecryptionIntegrity,
}

/// The last tick decrypted: its bytes before and after decryption, and the
/// cipher as it stood right behind it.
#[derive(Debug)]
struct PrevTickData {
    encrypted_data: StitchedPacket,
    decrypted_data: StitchedPacket,
    cipher: Rc4,
}

impl View for PrevTickData {
    type V = RecordView;

    closed spec fn view(&self) -> RecordView {
        RecordView {
            encrypted: self.encrypted_data@,
            decrypted: self.decrypted_data@,
            offset: self.cipher.spec_offset(),
        }
    }
}

/// The decrypted frames that leave the decryptor for one tick frame.
enum Decrypted {
    All(DecryptedTickFrame),
    TickOnly(StitchedPacket),
    Nothing,
}

/// Where no buffer of a decrypted tick frame has been read, none of its
/// packets has.
proof fn lemma_all_unread(plain: DecryptedTickFrame)
    requires
        plain.unread(),
    ensures
        Decrypted::All(plain).unread(),
        frames_of(plain.all_packets()) == plain.frames(),
{
    assert forall|i: int| 0 <= i < plain.all_packets().len() implies (
    #[trigger] plain.all_packets()[i]).buffer.spec_index() == 0 by {
        if i < plain.packets@.len() {
            assert(plain.all_packets()[i] == plain.packets@[i]);
        }
    }
    assert(frames_of(plain.all_packets()) =~= plain.frames());
}

impl Decrypted {
    /// The frames that are delivered, in order.
    spec fn packets(self) -> Seq<StitchedPacket> {
        match self {
            Decrypted::All(plain) => plain.all_packets(),
            Decrypted::TickOnly(tick) => seq![tick],
            Decrypted::Nothing => Seq::empty(),
        }
    }

    /// Whether every buffer's cursor stands at the start of its payload.
    spec fn unread(self) -> bool {
        forall|i: int|
            0 <= i < self.packets().len() ==> (#[trigger] self.packets()[i]).buffer.spec_index()
                == 0
    }
}

/// The key of the server-to-client direction as a vector.
fn server_key_bytes() -> (key: Vec<u8>)
    ensures
        key@ == server_key(),
{
    vstd::slice::slice_to_vec(IKEY.as_slice())
}

/// The first four bytes of a frame's payload as a number, or zero where the
/// payload is shorter.
fn leading_word(packet: &StitchedPacket) -> (word: u32)
    ensures
        word == tick_id(packet@.payload),
        word as nat == be_value(first_four(packet@.payload)),
{
    let payload: &[u8] = packet.buffer.as_slice();
    proof {
        reveal_with_fuel(be_value, 5);
        assert(seq![0u8, 0u8, 0u8, 0u8].drop_last() =~= seq![0u8, 0u8, 0u8]);
        assert(seq![0u8, 0u8, 0u8].drop_last() =~= seq![0u8, 0u8]);
        assert(seq![0u8, 0u8].drop_last() =~= seq![0u8]);
        assert(seq![0u8].drop_last() =~= Seq::<u8>::empty());
    }
    if payload.len() >= 4 {
        assert(payload@.subrange(0, 4) =~= payload@.take(4));
        be_read_u32(payload)
    } else {
        0
    }
}

/// Consumes tick frames and decrypts them against a cipher that it keeps in
/// step with the sender, realigning where the stream has drifted.
#[derive(Debug)]
pub struct RotmgPacketDecryptor {
    cipher: Rc4,
    prev_tick: Option<PrevTickData>,
    max_align_bytes: usize,
}

impl View for RotmgPacketDecryptor {
    type V = DecryptorView;

    closed spec fn view(&self) -> DecryptorView {
        DecryptorView {
            offset: self.cipher.spec_offset(),
            record: match self.prev_tick {
                Some(data) => Some(data@),
                None => None,
            },
            max_align_bytes: self.max_align_bytes as int,
        }
    }
}

impl RotmgPacketDecryptor {
    /// Both ciphers run under the server's key.
    #[verifier::type_invariant]
    spec fn keyed(self) -> bool {
        &&& self.cipher.spec_key() == server_key()
        &&& self.prev_tick is Some ==> self.prev_tick->0.cipher.spec_key() == server_key()
    }

    /// A decryptor that has seen no tick, with the default search bound.
    pub fn new() -> (decryptor: Self)
        ensures
            decryptor@ == (DecryptorView {
                offset: 0,
                record: None,
                max_align_bytes: DEFAULT_ALIGN_BOUND as int,
            }),
    {
        Self::with_max_align_bytes(DEFAULT_ALIGN_BOUND)
    }

    /// A decryptor that has seen no tick and searches `max_align_bytes`
    /// keystream positions when it aligns.
    pub fn with_max_align_bytes(max_align_bytes: usize) -> (decryptor: Self)
        ensures
            decryptor@ == (DecryptorView {
                offset: 0,
                record: None,
                max_align_bytes: max_align_bytes as int,
            }),
    {
        RotmgPacketDecryptor {
            cipher: Rc4::new(server_key_bytes()),
            prev_tick: None,
            max_align_bytes,
        }
    }

    /// The keystream position of the live cipher.
    pub fn cipher_offset(&self) -> (n: usize)
        ensures
            n == self@.offset,
    {
        self.cipher.offset()
    }

    /// Whether a tick has been decrypted since the last reset.
    pub fn has_previous_tick(&self) -> (b: bool)
        ensures
            b == (self@.record is Some),
    {
        self.prev_tick.is_some()
    }

    /// Decrypt one tick frame and decode its frames. On an error the
    /// decryptor is left as it was.
    pub fn insert_frame(&mut self, frame: EncryptedTickFrame) -> (r: Result<
        DecryptionOutcome,
        DecryptError,
    >)
        ensures
            match decrypt_step(old(self)@, frame@) {
                Ok((next, delivery)) => r is Ok && final(self)@ == next && packets_view(
                    r->Ok_0.packets@,
                ) == typed_frames(delivery.frames) && r->Ok_0.integrity == delivery.integrity,
                Err(e) => r is Err && r->Err_0 == e && final(self)@ == old(self)@,
            },
    {
        let (decrypted, integrity) = match self.decrypt(frame) {
            Ok(pair) => pair,
            Err(e) => {
                return Err(e);
            },
        };
        let ghost frames = frames_of(decrypted.packets());
        let packets: Vec<RotmgPacket> = match decrypted {
            Decrypted::All(plain) => {
                proof {
                    assert forall|i: int| 0 <= i < plain.packets@.len() implies (
                    #[trigger] plain.packets@[i]).buffer.spec_index() == 0 by {
                        assert(plain.all_packets()[i] == plain.packets@[i]);
                    }
                    assert(plain.all_packets()[plain.packets@.len() as int]
                        == plain.terminating_tick);
                    assert(plain.frames() =~= frames);
                }
                plain.to_rotmg_packets()
            },
            Decrypted::TickOnly(tick) => {
                let mut only: Vec<RotmgPacket> = Vec::new();
                only.push(RotmgPacket::from_stitched(tick));
                proof {
                    assert(seq![tick][0] == tick);
                    assert(packets_view(only@) =~= typed_frames(frames));
                }
                only
            },
            Decrypted::Nothing => {
                let none: Vec<RotmgPacket> = Vec::new();
                proof {
                    assert(packets_view(none@) =~= typed_frames(frames));
                }
                none
            },
        };
        Ok(DecryptionOutcome { packets, integrity })
    }

    /// Whether every keystream position that processing `frame` may reach
    /// fits a `usize`.
    fn fits(&self, frame: &EncryptedTickFrame) -> (b: bool)
        ensures
            b == frame_fits(self@, frame@),
    {
        proof {
            lemma_decrypt_frames_position(frame@.prefix, server_key(), 0);
        }
        let total: usize = match frame.checked_total_len() {
            Some(n) => n,
            None => {
                return false;
            },
        };
        let record_fits: bool = match &self.prev_tick {
            Some(data) => data.cipher.offset().checked_add(total).is_some(),
            None => true,
        };
        record_fits && self.cipher.offset().checked_add(total).is_some()
            && self.max_align_bytes.checked_add(total).is_some()
    }

    /// Decrypt one tick frame, whichever path it takes.
    fn decrypt(&mut self, frame: EncryptedTickFrame) -> (r: Result<
        (Decrypted, DecryptionIntegrity),
        DecryptError,
    >)
        ensures
            match decrypt_step(old(self)@, frame@) {
                Ok((next, delivery)) => r is Ok && final(self)@ == next && frames_of(
                    r->Ok_0.0.packets(),
                ) == delivery.frames && r->Ok_0.0.unread() && r->Ok_0.1 == delivery.integrity,
                Err(e) => r is Err && r->Err_0 == e && final(self)@ == old(self)@,
            },
    {
        if !self.fits(&frame) {
            return Err(DecryptError::OffsetOverflow);
        }
        if self.prev_tick.is_some() {
            self.decrypt_with_prev_tick(frame)
        } else {
            match self.decrypt_without_prev_tick(&frame) {
                Err(e) => Err(e),
                Ok(None) => Ok((Decrypted::Nothing, DecryptionIntegrity::Warn)),
                Ok(Some(plain)) => {
                    let tick: StitchedPacket = plain.terminating_tick;
                    proof {
                        assert(frames_of(seq![tick]) =~= seq![plain.frames().last()]);
                    }
                    Ok((Decrypted::TickOnly(tick), DecryptionIntegrity::Warn))
                },
            }
        }
    }

    /// The cold path: find the cipher's position from the tick alone and
    /// decrypt the frame from there.
    fn decrypt_without_prev_tick(&mut self, frame: &EncryptedTickFrame) -> (r: Result<
        Option<DecryptedTickFrame>,
        DecryptError,
    >)
        requires
            frame_fits(old(self)@, frame@),
        ensures
            match cold_step(old(self)@, frame@) {
                Ok((next, frames)) => r is Ok && final(self)@ == next && match r->Ok_0 {
                    Some(plain) => aligned_position(old(self)@, frame@) is Some && plain.frames()
                        == frames && plain.unread(),
                    None => aligned_position(old(self)@, frame@) is None,
                },
                Err(e) => r is Err && r->Err_0 == e && final(self)@ == old(self)@,
            },
    {
        proof {
            use_type_invariant(&*self);
            lemma_decrypt_frames_position(frame@.prefix, server_key(), 0);
        }
        let mut cipher: Rc4 = self.cipher.clone();
        cipher.reset();
        let window: &[u8] = frame.terminating_tick.buffer.as_slice();
        if window.len() < ALIGN_WINDOW {
            self.cipher = cipher;
            return Ok(None);
        }
        match cipher.align_to_tick_within(window, self.max_align_bytes) {
            Err(_) => {
                self.cipher = cipher;
                Ok(None)
            },
            Ok(_) => {
                let ghost found = cipher.spec_offset();
                proof {
                    crate::rc4::lemma_first_match(
                        server_key(),
                        0,
                        self.max_align_bytes as int,
                        window@,
                    );
                }
                let back: usize = frame.payload_len();
                match cipher.reverse(back) {
                    Err(_) => Err(DecryptError::ReverseUnderflow),
                    Ok(_) => {
                        proof {
                            lemma_decrypt_frames_position(
                                frame@.prefix,
                                server_key(),
                                found - back,
                            );
                        }
                        let plain: DecryptedTickFrame = frame.decrypt(&mut cipher);
                        proof {
                            assert(plain.frames() =~= decrypt_run(frame@, found - back).0);
                        }
                        self.prev_tick = Some(
                            PrevTickData {
                                encrypted_data: frame.terminating_tick.clone(),
                                decrypted_data: plain.terminating_tick.clone(),
                                cipher: cipher.clone(),
                            },
                        );
                        self.cipher = cipher;
                        Ok(Some(plain))
                    },
                }
            },
        }
    }

    /// The paths that have a last tick to go by: a repeated tick, a tick
    /// that follows the last one, and drift.
    fn decrypt_with_prev_tick(&mut self, frame: EncryptedTickFrame) -> (r: Result<
        (Decrypted, DecryptionIntegrity),
        DecryptError,
    >)
        requires
            old(self)@.record is Some,
            frame_fits(old(self)@, frame@),
        ensures
            match decrypt_step(old(self)@, frame@) {
                Ok((next, delivery)) => r is Ok && final(self)@ == next && frames_of(
                    r->Ok_0.0.packets(),
                ) == delivery.frames && r->Ok_0.0.unread() && r->Ok_0.1 == delivery.integrity,
                Err(e) => r is Err && r->Err_0 == e && final(self)@ == old(self)@,
            },
    {
        proof {
            use_type_invariant(&*self);
            lemma_decrypt_frames_position(frame@.prefix, server_key(), 0);
        }
        let total: usize = frame.total_len();
        let (repeated, expected, mut saved, last_plain) = match &self.prev_tick {
            Some(data) => (
                Self::same_leading_bytes(&frame.terminating_tick, &data.encrypted_data),
                data.cipher.offset() + total,
                data.cipher.clone(),
                data.decrypted_data.clone(),
            ),
            None => (false, 0, self.cipher.clone(), frame.terminating_tick.clone()),
        };
        if repeated {
            if saved.reverse(total).is_err() {
                saved.reset();
            }
            let ghost start = saved.spec_offset();
            proof {
                lemma_decrypt_frames_position(frame@.prefix, server_key(), start);
            }
            let plain: DecryptedTickFrame = frame.decrypt(&mut saved);
            proof {
                assert(plain.frames() =~= decrypt_run(frame@, start).0);
                lemma_all_unread(plain);
            }
            return Ok((Decrypted::All(plain), DecryptionIntegrity::Duplicate));
        }
        let mut ahead: Rc4 = self.cipher.clone();
        let plain: DecryptedTickFrame = frame.decrypt(&mut ahead);
        proof {
            assert(plain.frames() =~= decrypt_run(frame@, old(self)@.offset).0);
            lemma_all_unread(plain);
        }
        if Self::validate_ticks(&last_plain, &plain.terminating_tick) {
            self.prev_tick = Some(
                PrevTickData {
                    encrypted_data: frame.terminating_tick,
                    decrypted_data: plain.terminating_tick.clone(),
                    cipher: ahead.clone(),
                },
            );
            self.cipher = ahead;
            return Ok((Decrypted::All(plain), DecryptionIntegrity::Intact));
        }
        match self.decrypt_without_prev_tick(&frame) {
            Err(e) => Err(e),
            Ok(None) => Ok((Decrypted::Nothing, DecryptionIntegrity::Warn)),
            Ok(Some(realigned)) => {
                let actual: usize = self.cipher.offset();
                let integrity = if actual < expected {
                    DecryptionIntegrity::MissingBytes(expected - actual)
                } else if actual > expected {
                    DecryptionIntegrity::ExtraBytes(actual - expected)
                } else {
                    DecryptionIntegrity::Warn
                };
                proof {
                    lemma_all_unread(realigned);
                }
                Ok((Decrypted::All(realigned), integrity))
            },
        }
    }

    /// Whether two ticks begin with the same four bytes, a shorter payload
    /// counting as four zeros.
    fn same_leading_bytes(a: &StitchedPacket, b: &StitchedPacket) -> (same: bool)
        ensures
            same == (first_four(a@.payload) == first_four(b@.payload)),
    {
        proof {
            lemma_be_value_injective(first_four(a@.payload), first_four(b@.payload));
        }
        leading_word(a) == leading_word(b)
    }

    /// Whether the tick with plaintext `tick2` is the one right after the
    /// tick with plaintext `tick1`.
    pub fn validate_ticks(tick1: &StitchedPacket, tick2: &StitchedPacket) -> (adjacent: bool)
        ensures
            adjacent == ticks_adjacent(tick1@.payload, tick2@.payload),
    {
        leading_word(tick1) as u64 + 1 == leading_word(tick2) as u64
    }

    /// Forget the last tick and put the cipher back to the start of its
    /// keystream.
    pub fn reset(&mut self)
        ensures
            final(self)@ == (DecryptorView {
                offset: 0,
                record: None,
                max_align_bytes: old(self)@.max_align_bytes,
            }),
    {
        proof {
            use_type_invariant(&*self);
        }
        self.prev_tick = None;
        let mut cipher: Rc4 = self.cipher.clone();
        cipher.reset();
        self.cipher = cipher;
    }
}

/// A tick frame as the sender makes it from the plaintext frames of `plain`
/// when its cipher stands at `pos`. Encryption is the operation that
/// decryption is.
pub open spec fn encrypted_at(plain: TickFrameView, pos: int) -> TickFrameView {
    let (prefix, at) = decrypt_frames(plain.prefix, server_key(), pos);
    TickFrameView { prefix, tick: decrypted_frame(plain.tick, server_key(), at) }
}

/// Whether the record of the last tick is what decrypting a tick leaves: the
/// plaintext is that of the encrypted bytes at the position that lies the
/// tick's length before the recorded one.
pub open spec fn record_sound(record: RecordView) -> bool {
    &&& record.encrypted.payload.len() <= record.offset
    &&& record.decrypted == decrypted_frame(
        record.encrypted,
        server_key(),
        record.offset - record.encrypted.payload.len(),
    )
}

/// Whether a decryptor is in a state that processing tick frames leads to.
pub open spec fn view_sound(view: DecryptorView) -> bool {
    &&& 0 <= view.offset
    &&& 0 <= view.max_align_bytes
    &&& view.record is Some ==> record_sound(view.record->0)
}

/// Decrypting from `pos` a tick frame that was encrypted from `pos` gives
/// the plaintext frames in order, the tick last.
pub proof fn lemma_encrypt_then_decrypt(plain: TickFrameView, pos: int)
    ensures
        decrypt_run(encrypted_at(plain, pos), pos).0 == plain.prefix.push(plain.tick),
        decrypt_run(encrypted_at(plain, pos), pos).1 == decrypt_frames(
            plain.prefix,
            server_key(),
            pos,
        ).1 + plain.tick.payload.len(),
        frame_total(encrypted_at(plain, pos)) == frame_total(plain),
{
    let (prefix, at) = decrypt_frames(plain.prefix, server_key(), pos);
    lemma_decrypt_frames_twice(plain.prefix, server_key(), pos);
    lemma_xor_from_twice(plain.tick.payload, 0, server_key(), at);
    lemma_decrypt_frames_len(plain.prefix, server_key(), pos);
    lemma_payload_total_by_lengths(prefix, plain.prefix);
}

/// Frames of the same lengths have the same total length.
pub proof fn lemma_payload_total_by_lengths(a: Seq<FrameView>, b: Seq<FrameView>)
    requires
        a.len() == b.len(),
        forall|i: int| 0 <= i < a.len() ==> (#[trigger] a[i]).payload.len() == b[i].payload.len(),
    ensures
        payload_total(a) == payload_total(b),
    decreases a.len(),
{
    if a.len() > 0 {
        assert forall|i: int| 0 <= i < a.drop_last().len() implies (
        #[trigger] a.drop_last()[i]).payload.len() == b.drop_last()[i].payload.len() by {
            assert(a.drop_last()[i] == a[i]);
            assert(b.drop_last()[i] == b[i]);
        }
        lemma_payload_total_by_lengths(a.drop_last(), b.drop_last());
        assert(a.last() == a[a.len() - 1]);
    }
}

/// A tick of at least fourteen bytes decodes to the typed tick whose number
/// is the one that adjacency goes by.
pub proof fn lemma_typed_tick(payload: Seq<u8>)
    requires
        payload.len() >= 14,
    ensures
        (typed_frame(NEW_TICK_TAG, payload, 0) matches PacketView::NewTick { tick_id: id, .. }
            && id == tick_id(payload)),
{
    reveal(typed_frame);
    reveal_with_fuel(be_value, 5);
    let word = payload.subrange(0, 4);
    assert(word =~= payload.take(4));
    assert(word.drop_last().drop_last().drop_last().drop_last().len() == 0);
}

/// The typed frames delivered are those of the decrypted frames, one for
/// one and in their order.
pub proof fn lemma_typed_frames_in_order(frames: Seq<FrameView>)
    ensures
        typed_frames(frames).len() == frames.len(),
        forall|i: int|
            0 <= i < frames.len() ==> #[trigger] typed_frames(frames)[i] == typed_frame(
                frames[i].tag,
                frames[i].payload,
                0,
            ),
{
}

/// Where the plaintext of a tick is zero in the five places that alignment
/// compares, the keystream matches the encrypted tick at the position at
/// which it was encrypted; so alignment finds that position or an earlier
/// one, where the search reaches that far.
pub proof fn lemma_tick_window_matches(plain: Seq<u8>, pos: int, from: int, bound: int)
    requires
        plain.len() >= ALIGN_WINDOW,
        plain[0] == 0 && plain[1] == 0 && plain[4] == 0 && plain[5] == 0 && plain[6] == 0,
        from <= pos < from + bound,
    ensures
        window_matches(server_key(), pos, xor_from(plain, 0, server_key(), pos)),
        first_match(server_key(), from, bound, xor_from(plain, 0, server_key(), pos)) is Some,
        first_match(server_key(), from, bound, xor_from(plain, 0, server_key(), pos))->0 <= pos,
{
    assert forall|k: u8| 0u8 ^ k == k by {
        assert(0u8 ^ k == k) by (bit_vector);
    }
    lemma_first_match(server_key(), from, bound, xor_from(plain, 0, server_key(), pos));
}

/// Every step leaves the decryptor in a sound state: positions do not go
/// below zero, and the record is that of a tick decrypted where it lay.
pub proof fn lemma_step_keeps_sound(view: DecryptorView, frame: TickFrameView)
    requires
        view_sound(view),
        decrypt_step(view, frame) is Ok,
    ensures
        view_sound(decrypt_step(view, frame)->Ok_0.0),
{
    lemma_decrypt_frames_position(frame.prefix, server_key(), view.offset);
    if aligned_position(view, frame) is Some {
        let found = aligned_position(view, frame)->0;
        lemma_first_match(server_key(), 0, view.max_align_bytes, frame.tick.payload);
        let back = payload_total(frame.prefix);
        if back <= found {
            lemma_decrypt_frames_position(frame.prefix, server_key(), found - back);
        }
    }
}

/// A tick frame whose tick begins with the four bytes of the last tick seen
/// is a duplicate: it is delivered once, all its frames in order, and the
/// decryptor, its record and its live cipher stay as they were.
pub proof fn lemma_repeated_tick_is_duplicate(view: DecryptorView, frame: TickFrameView)
    requires
        view.record is Some,
        frame_fits(view, frame),
        first_four(frame.tick.payload) == first_four(view.record->0.encrypted.payload),
    ensures
        decrypt_step(view, frame) is Ok,
        decrypt_step(view, frame)->Ok_0.0 == view,
        decrypt_step(view, frame)->Ok_0.1.integrity == DecryptionIntegrity::Duplicate,
        decrypt_step(view, frame)->Ok_0.1.frames.len() == frame.prefix.len() + 1,
        decrypt_step(view, frame)->Ok_0.1.frames.last().tag == frame.tick.tag,
{
    lemma_decrypt_frames_len(
        frame.prefix,
        server_key(),
        replay_start(view.record->0.offset, frame_total(frame)),
    );
}

/// The last tick seen, arriving once more on its own, is delivered with the
/// plaintext it had the first time, tagged as a duplicate, and changes
/// nothing; so the frame that truly comes next is judged as if the tick had
/// come once.
pub proof fn lemma_repeated_tick_alone(view: DecryptorView, next: TickFrameView)
    requires
        view_sound(view),
        view.record is Some,
        frame_fits(
            view,
            TickFrameView { prefix: Seq::empty(), tick: view.record->0.encrypted },
        ),
    ensures
        ({
            let again = TickFrameView { prefix: Seq::empty(), tick: view.record->0.encrypted };
            &&& decrypt_step(view, again) == Ok::<(DecryptorView, Delivery), DecryptError>(
                (
                    view,
                    Delivery {
                        frames: seq![view.record->0.decrypted],
                        integrity: DecryptionIntegrity::Duplicate,
                    },
                ),
            )
            &&& decrypt_step(decrypt_step(view, again)->Ok_0.0, next) == decrypt_step(view, next)
        }),
{
    let again = TickFrameView { prefix: Seq::<FrameView>::empty(), tick: view.record->0.encrypted };
    let start = replay_start(view.record->0.offset, frame_total(again));
    assert(decrypt_run(again, start).0 =~= seq![view.record->0.decrypted]);
}

/// Without a tick seen before, a tick frame is tagged with a warning and at
/// most its tick is delivered, never a frame before the tick. The tick is
/// delivered, and recorded, just where alignment finds a position that lies
/// at least as far into the keystream as the frames before the tick are
/// long; where it lies less far the step fails, and where there is none
/// nothing is delivered or recorded.
pub proof fn lemma_cold_start_delivers_at_most_the_tick(view: DecryptorView, frame: TickFrameView)
    requires
        view.record is None,
    ensures
        match decrypt_step(view, frame) {
            Ok((next, delivery)) => {
                &&& frame_fits(view, frame)
                &&& delivery.integrity == DecryptionIntegrity::Warn
                &&& match aligned_position(view, frame) {
                    Some(found) => {
                        &&& payload_total(frame.prefix) <= found
                        &&& next.record is Some
                        &&& next.record->0.encrypted == frame.tick
                        &&& delivery.frames == seq![next.record->0.decrypted]
                        &&& delivery.frames[0].tag == frame.tick.tag
                    },
                    None => next.record is None && delivery.frames.len() == 0,
                }
            },
            Err(e) => if frame_fits(view, frame) {
                e == DecryptError::ReverseUnderflow && aligned_position(view, frame) is Some
                    && aligned_position(view, frame)->0 < payload_total(frame.prefix)
            } else {
                e == DecryptError::OffsetOverflow
            },
        },
{
    if frame_fits(view, frame) && aligned_position(view, frame) is Some {
        let found = aligned_position(view, frame)->0;
        let back = payload_total(frame.prefix);
        if back <= found {
            let frames = decrypt_run(frame, found - back).0;
            let recorded = committed(view, frame, found - back).record->0.decrypted;
            assert(seq![frames.last()] =~= seq![recorded]);
        }
    }
}

/// A capture that begins mid-stream: where the first tick frame was
/// encrypted from position `pos` on, holds no frame that announces a new
/// session, and alignment finds its tick where it lies, the tick is
/// delivered with its plaintext and a warning, alone, and the decryptor
/// stands right behind it, in step with the sender.
pub proof fn lemma_cold_start_in_step(view: DecryptorView, plain: TickFrameView, pos: int)
    requires
        view.record is None,
        0 <= pos,
        forall|i: int| 0 <= i < plain.prefix.len() ==> (#[trigger] plain.prefix[i]).tag
            != RECONNECT_TAG,
        frame_fits(view, encrypted_at(plain, pos)),
        aligned_position(view, encrypted_at(plain, pos)) == Some(pos + payload_total(plain.prefix)),
    ensures
        decrypt_step(view, encrypted_at(plain, pos)) == Ok::<
            (DecryptorView, Delivery),
            DecryptError,
        >(
            (
                DecryptorView {
                    offset: pos + frame_total(plain),
                    record: Some(
                        RecordView {
                            encrypted: encrypted_at(plain, pos).tick,
                            decrypted: plain.tick,
                            offset: pos + frame_total(plain),
                        },
                    ),
                    max_align_bytes: view.max_align_bytes,
                },
                Delivery { frames: seq![plain.tick], integrity: DecryptionIntegrity::Warn },
            ),
        ),
{
    let frame = encrypted_at(plain, pos);
    lemma_encrypt_then_decrypt(plain, pos);
    lemma_decrypt_frames_without_reconnect(plain.prefix, server_key(), pos);
    lemma_decrypt_frames_len(plain.prefix, server_key(), pos);
    lemma_payload_total_by_lengths(frame.prefix, plain.prefix);
    let frames = decrypt_run(frame, pos).0;
    assert(seq![frames.last()] =~= seq![plain.tick]);
}

/// A stream without drift: the tick frame that the sender encrypted from
/// the position of the live cipher on, whose tick has the number after
/// that of the last tick seen and does not begin with the same four
/// encrypted bytes, is found intact. All its frames are delivered with
/// their plaintext, in order, the tick last; the tick becomes the last one
/// seen; and the live cipher stands right behind it. Where the tick has
/// the tag and the length of a tick, the typed frame delivered last is the
/// tick with that number.
pub proof fn lemma_next_frame_is_intact(view: DecryptorView, plain: TickFrameView)
    requires
        view.record is Some,
        frame_fits(view, encrypted_at(plain, view.offset)),
        first_four(encrypted_at(plain, view.offset).tick.payload) != first_four(
            view.record->0.encrypted.payload,
        ),
        tick_id(plain.tick.payload) == tick_id(view.record->0.decrypted.payload) + 1,
    ensures
        ({
            let frame = encrypted_at(plain, view.offset);
            let end = decrypt_frames(plain.prefix, server_key(), view.offset).1
                + plain.tick.payload.len();
            &&& decrypt_step(view, frame) == Ok::<(DecryptorView, Delivery), DecryptError>(
                (
                    DecryptorView {
                        offset: end,
                        record: Some(
                            RecordView {
                                encrypted: frame.tick,
                                decrypted: plain.tick,
                                offset: end,
                            },
                        ),
                        max_align_bytes: view.max_align_bytes,
                    },
                    Delivery {
                        frames: plain.prefix.push(plain.tick),
                        integrity: DecryptionIntegrity::Intact,
                    },
                ),
            )
            &&& (forall|i: int|
                0 <= i < plain.prefix.len() ==> (#[trigger] plain.prefix[i]).tag != RECONNECT_TAG)
                ==> end == view.offset + frame_total(frame)
            &&& plain.tick.tag == NEW_TICK_TAG && plain.tick.payload.len() >= 14 ==> (typed_frames(
                plain.prefix.push(plain.tick),
            ).last() matches PacketView::NewTick { tick_id: id, .. } && id == tick_id(
                view.record->0.decrypted.payload,
            ) + 1)
        }),
{
    let frame = encrypted_at(plain, view.offset);
    lemma_encrypt_then_decrypt(plain, view.offset);
    assert(plain.prefix.push(plain.tick).last() == plain.tick);
    if forall|i: int|
        0 <= i < plain.prefix.len() ==> (#[trigger] plain.prefix[i]).tag != RECONNECT_TAG {
        lemma_decrypt_frames_without_reconnect(plain.prefix, server_key(), view.offset);
    }
    if plain.tick.tag == NEW_TICK_TAG && plain.tick.payload.len() >= 14 {
        lemma_typed_tick(plain.tick.payload);
        lemma_typed_frames_in_order(plain.prefix.push(plain.tick));
    }
}

/// A frame that announces a new session, with the tick behind it: in a
/// stream without drift the frames up to and including that frame are
/// delivered as the running keystream decrypts them, that frame in its
/// place; the frames behind it and the tick were encrypted from the start
/// of the keystream and are delivered as such; and the live cipher ends
/// as far into the fresh keystream as those frames and the tick are long.
pub proof fn lemma_reconnect_restarts_keystream(
    view: DecryptorView,
    plain: TickFrameView,
    last: int,
)
    requires
        view.record is Some,
        frame_fits(view, encrypted_at(plain, view.offset)),
        first_four(encrypted_at(plain, view.offset).tick.payload) != first_four(
            view.record->0.encrypted.payload,
        ),
        tick_id(plain.tick.payload) == tick_id(view.record->0.decrypted.payload) + 1,
        0 <= last < plain.prefix.len(),
        plain.prefix[last].tag == RECONNECT_TAG,
        forall|i: int|
            last < i < plain.prefix.len() ==> (#[trigger] plain.prefix[i]).tag != RECONNECT_TAG,
    ensures
        ({
            let frame = encrypted_at(plain, view.offset);
            let behind = plain.prefix.skip(last + 1);
            &&& decrypt_step(view, frame) is Ok
            &&& decrypt_step(view, frame)->Ok_0.1 == (Delivery {
                frames: plain.prefix.push(plain.tick),
                integrity: DecryptionIntegrity::Intact,
            })
            &&& decrypt_step(view, frame)->Ok_0.1.frames[last] == plain.prefix[last]
            &&& decrypt_step(view, frame)->Ok_0.0.offset == payload_total(behind)
                + plain.tick.payload.len()
            &&& frame.prefix.skip(last + 1) == decrypt_frames(behind, server_key(), 0).0
            &&& frame.tick == decrypted_frame(plain.tick, server_key(), payload_total(behind))
        }),
{
    lemma_next_frame_is_intact(view, plain);
    lemma_decrypt_after_reconnect(plain.prefix, server_key(), view.offset, last);
    let head = decrypt_frames(plain.prefix.take(last + 1), server_key(), view.offset).0;
    let tail = decrypt_frames(plain.prefix.skip(last + 1), server_key(), 0).0;
    lemma_decrypt_frames_len(plain.prefix.take(last + 1), server_key(), view.offset);
    assert((head + tail).skip(last + 1) =~= tail);
}

/// Where a tick frame is found intact, a tick had been seen before, the
/// tick delivered last is the one recorded, and its number is one more than
/// that of the tick seen before.
pub proof fn lemma_intact_ticks_count_up(view: DecryptorView, frame: TickFrameView)
    requires
        decrypt_step(view, frame) is Ok,
        decrypt_step(view, frame)->Ok_0.1.integrity == DecryptionIntegrity::Intact,
    ensures
        view.record is Some,
        decrypt_step(view, frame)->Ok_0.0.record is Some,
        decrypt_step(view, frame)->Ok_0.1.frames.last() == decrypt_step(
            view,
            frame,
        )->Ok_0.0.record->0.decrypted,
        tick_id(decrypt_step(view, frame)->Ok_0.0.record->0.decrypted.payload) == tick_id(
            view.record->0.decrypted.payload,
        ) + 1,
{
}

/// A tick frame that comes a second time, right after it has been taken as
/// the last tick seen, is delivered once more, tagged as a duplicate, and
/// leaves the decryptor, its live cipher included, as it was.
pub proof fn lemma_duplicate_changes_nothing(view: DecryptorView, frame: TickFrameView)
    requires
        decrypt_step(view, frame) is Ok,
        decrypt_step(view, frame)->Ok_0.0.record is Some,
        decrypt_step(view, frame)->Ok_0.0.record->0.encrypted == frame.tick,
        frame_fits(decrypt_step(view, frame)->Ok_0.0, frame),
    ensures
        decrypt_step(decrypt_step(view, frame)->Ok_0.0, frame) is Ok,
        decrypt_step(decrypt_step(view, frame)->Ok_0.0, frame)->Ok_0.0 == decrypt_step(
            view,
            frame,
        )->Ok_0.0,
        decrypt_step(decrypt_step(view, frame)->Ok_0.0, frame)->Ok_0.1.integrity
            == DecryptionIntegrity::Duplicate,
        decrypt_step(decrypt_step(view, frame)->Ok_0.0, frame)->Ok_0.1.frames.len()
            == frame.prefix.len() + 1,
{
    let next = decrypt_step(view, frame)->Ok_0.0;
    lemma_decrypt_frames_len(
        frame.prefix,
        server_key(),
        replay_start(next.record->0.offset, frame_total(frame)),
    );
}

/// A tick frame without a frame that announces a new session, found
/// intact and arriving a second time right after, is delivered the second
/// time with the plaintext of the first.
pub proof fn lemma_duplicate_repeats_plaintext(view: DecryptorView, frame: TickFrameView)
    requires
        0 <= view.offset,
        forall|i: int| 0 <= i < frame.prefix.len() ==> (#[trigger] frame.prefix[i]).tag
            != RECONNECT_TAG,
        decrypt_step(view, frame) is Ok,
        decrypt_step(view, frame)->Ok_0.1.integrity == DecryptionIntegrity::Intact,
        frame_fits(decrypt_step(view, frame)->Ok_0.0, frame),
    ensures
        decrypt_step(decrypt_step(view, frame)->Ok_0.0, frame) is Ok,
        decrypt_step(decrypt_step(view, frame)->Ok_0.0, frame)->Ok_0.1 == (Delivery {
            frames: decrypt_step(view, frame)->Ok_0.1.frames,
            integrity: DecryptionIntegrity::Duplicate,
        }),
{
    lemma_decrypt_frames_without_reconnect(frame.prefix, server_key(), view.offset);
    lemma_decrypt_frames_position(frame.prefix, server_key(), view.offset);
}

/// Every tick frame that is decrypted, by whichever path, is recorded as the
/// last tick seen; only a frame that is dropped for want of a match, and a
/// duplicate, leave the record as it was.
pub proof fn lemma_record_follows_delivery(view: DecryptorView, frame: TickFrameView)
    requires
        decrypt_step(view, frame) is Ok,
    ensures
        ({
            let (next, delivery) = decrypt_step(view, frame)->Ok_0;
            if delivery.integrity == DecryptionIntegrity::Duplicate || delivery.frames.len() == 0 {
                next.record == view.record
            } else {
                next.record is Some && next.record->0.encrypted == frame.tick
                    && next.record->0.decrypted == delivery.frames.last() && next.offset
                    == next.record->0.offset
            }
        }),
{
}

/// The decryptor in the course of a stream of tick frames: its state, what
/// it has delivered so far, and the error that ended the run, if any.
pub ghost struct Run {
    pub view: DecryptorView,
    pub deliveries: Seq<Delivery>,
    pub error: Option<DecryptError>,
}

/// One more tick frame is processed, unless the run has ended.
pub open spec fn run_one(run: Run, frame: TickFrameView) -> Run {
    if run.error is Some {
        run
    } else {
        match decrypt_step(run.view, frame) {
            Ok((next, delivery)) => Run {
                view: next,
                deliveries: run.deliveries.push(delivery),
                error: None,
            },
            Err(e) => Run { error: Some(e), ..run },
        }
    }
}

/// Tick frames are processed in order.
pub open spec fn run_from(run: Run, frames: Seq<TickFrameView>) -> Run
    decreases frames.len(),
{
    if frames.len() == 0 {
        run
    } else {
        run_one(run_from(run, frames.drop_last()), frames.last())
    }
}

/// A decryptor in state `view` processes a stream of tick frames.
pub open spec fn run_all(view: DecryptorView, frames: Seq<TickFrameView>) -> Run {
    run_from(Run { view, deliveries: Seq::empty(), error: None }, frames)
}

/// Processing a stream is processing its first part and then the rest.
pub proof fn lemma_run_split(run: Run, a: Seq<TickFrameView>, b: Seq<TickFrameView>)
    ensures
        run_from(run, a + b) == run_from(run_from(run, a), b),
    decreases b.len(),
{
    if b.len() == 0 {
        assert(a + b =~= a);
    } else {
        assert((a + b).drop_last() =~= a + b.drop_last());
        lemma_run_split(run, a, b.drop_last());
    }
}

/// What has been delivered stays delivered, and what follows does not
/// depend on it: a run only adds to the deliveries it starts with.
pub proof fn lemma_run_adds(run: Run, frames: Seq<TickFrameView>)
    ensures
        run_from(run, frames).view == run_from(
            Run { deliveries: Seq::empty(), ..run },
            frames,
        ).view,
        run_from(run, frames).error == run_from(
            Run { deliveries: Seq::empty(), ..run },
            frames,
        ).error,
        run_from(run, frames).deliveries == run.deliveries + run_from(
            Run { deliveries: Seq::empty(), ..run },
            frames,
        ).deliveries,
    decreases frames.len(),
{
    let bare = Run { deliveries: Seq::empty(), ..run };
    if frames.len() == 0 {
        assert(run.deliveries + bare.deliveries =~= run.deliveries);
    } else {
        lemma_run_adds(run, frames.drop_last());
        let before = run_from(run, frames.drop_last());
        let bare_before = run_from(bare, frames.drop_last());
        if before.error is None {
            match decrypt_step(before.view, frames.last()) {
                Ok((next, delivery)) => {
                    assert(before.deliveries.push(delivery) =~= run.deliveries
                        + bare_before.deliveries.push(delivery));
                },
                Err(e) => {},
            }
        }
    }
}

/// The run up to the `n`-th delivery is a run of its own: it has met no
/// error, holds the first `n` deliveries, and the next delivery is what the
/// decryptor makes of the next frame in the state it has reached.
pub proof fn lemma_run_prefix(view: DecryptorView, frames: Seq<TickFrameView>, n: int)
    requires
        0 <= n < run_all(view, frames).deliveries.len(),
    ensures
        n < frames.len(),
        run_all(view, frames.take(n)).error is None,
        run_all(view, frames.take(n)).deliveries == run_all(view, frames).deliveries.take(n),
        decrypt_step(run_all(view, frames.take(n)).view, frames[n]) is Ok,
        decrypt_step(run_all(view, frames.take(n)).view, frames[n])->Ok_0.1 == run_all(
            view,
            frames,
        ).deliveries[n],
    decreases frames.len(),
{
    if frames.len() > 0 {
        let front = frames.drop_last();
        let before = run_all(view, front);
        lemma_run_count(view, front);
        lemma_run_count(view, frames);
        if n < before.deliveries.len() {
            lemma_run_prefix(view, front, n);
            assert(front.take(n) =~= frames.take(n));
        } else {
            assert(frames.take(n) =~= front);
        }
    }
}

/// A run delivers at most once for every frame, and once for every frame
/// where it has met no error.
pub proof fn lemma_run_count(view: DecryptorView, frames: Seq<TickFrameView>)
    ensures
        run_all(view, frames).deliveries.len() <= frames.len(),
        run_all(view, frames).error is None ==> run_all(view, frames).deliveries.len()
            == frames.len(),
    decreases frames.len(),
{
    if frames.len() > 0 {
        lemma_run_count(view, frames.drop_last());
    }
}

/// A decryptor that starts in a sound state, as a new one does, is in a
/// sound state after any stream of tick frames.
pub proof fn lemma_run_keeps_sound(view: DecryptorView, frames: Seq<TickFrameView>)
    requires
        view_sound(view),
    ensures
        view_sound(run_all(view, frames).view),
    decreases frames.len(),
{
    if frames.len() > 0 {
        lemma_run_keeps_sound(view, frames.drop_last());
        let before = run_all(view, frames.drop_last());
        if before.error is None && decrypt_step(before.view, frames.last()) is Ok {
            lemma_step_keeps_sound(before.view, frames.last());
        }
    }
}

/// In a stream without drift the tick numbers count up: where two tick
/// frames in a row are found intact, the tick delivered with the second has
/// the number after that of the tick delivered with the first.
pub proof fn lemma_run_without_drift(view: DecryptorView, frames: Seq<TickFrameView>, n: int)
    requires
        0 < n < run_all(view, frames).deliveries.len(),
        run_all(view, frames).deliveries[n - 1].integrity == DecryptionIntegrity::Intact,
        run_all(view, frames).deliveries[n].integrity == DecryptionIntegrity::Intact,
    ensures
        tick_id(run_all(view, frames).deliveries[n].frames.last().payload) == tick_id(
            run_all(view, frames).deliveries[n - 1].frames.last().payload,
        ) + 1,
{
    lemma_run_prefix(view, frames, n - 1);
    lemma_run_prefix(view, frames, n);
    let earlier = run_all(view, frames.take(n - 1));
    let later = run_all(view, frames.take(n));
    assert(frames.take(n).drop_last() =~= frames.take(n - 1));
    assert(frames.take(n).last() == frames[n - 1]);
    lemma_intact_ticks_count_up(earlier.view, frames[n - 1]);
    lemma_intact_ticks_count_up(later.view, frames[n]);
}

/// A tick frame that occurs twice in a row in a stream, where its first
/// occurrence is taken as the last tick seen, causes one delivery more, which
/// is tagged as a duplicate; every other delivery, the decryptor's final
/// state and with it the position of its live cipher are as they are
/// without the second occurrence.
pub proof fn lemma_duplicate_in_stream(
    view: DecryptorView,
    before: Seq<TickFrameView>,
    frame: TickFrameView,
    after: Seq<TickFrameView>,
)
    requires
        run_all(view, before.push(frame)).error is None,
        run_all(view, before.push(frame)).view.record is Some,
        run_all(view, before.push(frame)).view.record->0.encrypted == frame.tick,
        frame_fits(run_all(view, before.push(frame)).view, frame),
    ensures
        ({
            let once = run_all(view, before.push(frame) + after);
            let twice = run_all(view, before.push(frame).push(frame) + after);
            let upto = run_all(view, before.push(frame)).deliveries;
            let behind = once.deliveries.skip(upto.len() as int);
            &&& twice.view == once.view
            &&& twice.error == once.error
            &&& once.deliveries == upto + behind
            &&& twice.deliveries.len() == once.deliveries.len() + 1
            &&& twice.deliveries[upto.len() as int].integrity == DecryptionIntegrity::Duplicate
            &&& twice.deliveries == upto.push(twice.deliveries[upto.len() as int]) + behind
        }),
{
    let start = Run { view, deliveries: Seq::empty(), error: None };
    let first = run_all(view, before.push(frame));
    let second = run_all(view, before.push(frame).push(frame));
    assert(before.push(frame).push(frame).drop_last() =~= before.push(frame));
    assert(first.error is None);
    // the state in which the frame was first processed
    assert(before.push(frame).drop_last() =~= before);
    let earlier = run_all(view, before);
    assert(earlier.error is None);
    assert(decrypt_step(earlier.view, frame) is Ok);
    lemma_duplicate_changes_nothing(earlier.view, frame);
    let duplicate = decrypt_step(first.view, frame)->Ok_0.1;
    assert(second == Run {
        view: first.view,
        deliveries: first.deliveries.push(duplicate),
        error: None,
    });
    lemma_run_split(start, before.push(frame), after);
    lemma_run_split(start, before.push(frame).push(frame), after);
    lemma_run_adds(first, after);
    lemma_run_adds(second, after);
    let tail = run_from(Run { deliveries: Seq::empty(), ..first }, after).deliveries;
    assert((first.deliveries + tail).skip(first.deliveries.len() as int) =~= tail);
    assert((first.deliveries.push(duplicate) + tail)[first.deliveries.len() as int] == duplicate);
}

/// Two runs of four bytes that spell the same number are the same bytes.
pub proof fn lemma_be_value_injective(a: Seq<u8>, b: Seq<u8>)
    requires
        a.len() == 4,
        b.len() == 4,
    ensures
        be_value(a) == be_value(b) <==> a == b,
{
    reveal_with_fuel(be_value, 5);
    if be_value(a) == be_value(b) {
        assert(a.drop_last().drop_last().drop_last().drop_last().len() == 0);
        assert(b.drop_last().drop_last().drop_last().drop_last().len() == 0);
        assert(a =~= b);
    }
}

} // verus!
