use rotmg_sniffer::byte_buffer::ByteBuffer;
use rotmg_sniffer::rc4::Rc4;
use rotmg_sniffer::rotmg_packet::RotmgPacket;
use rotmg_sniffer::rotmg_packet_decryptor::{
    DecryptError, DecryptionIntegrity, RotmgPacketDecryptor, IKEY, OKEY,
};
use rotmg_sniffer::rotmg_packet_stitcher::StitchedPacket;
use rotmg_sniffer::tick_frame_constructor::EncryptedTickFrame;

const BOUND: usize = 50_000;

/// The sending side: encrypts payloads with one running keystream.
struct Sender {
    cipher: Rc4,
}

impl Sender {
    fn at(offset: usize) -> Sender {
        let mut cipher = Rc4::new(IKEY.to_vec());
        cipher.skip(offset);
        Sender { cipher }
    }

    fn frame(&mut self, tag: u8, plain: &[u8]) -> StitchedPacket {
        let bytes = self.cipher.apply_keystream(0, &plain.to_vec());
        StitchedPacket { type_num: tag, buffer: ByteBuffer::new(bytes) }
    }

    fn tick(&mut self, tick_id: u32) -> StitchedPacket {
        self.frame(10, &tick_payload(tick_id))
    }

    fn reconnect(&mut self) -> StitchedPacket {
        let packet = self.frame(45, &reconnect_payload());
        self.cipher.reset();
        packet
    }
}

fn tick_payload(tick_id: u32) -> Vec<u8> {
    let mut p = tick_id.to_be_bytes().to_vec();
    p.extend_from_slice(&200u32.to_be_bytes());
    p.extend_from_slice(&(1_000 + tick_id).to_be_bytes());
    p.extend_from_slice(&5u16.to_be_bytes());
    p.extend_from_slice(&[0, 0]);
    p
}

fn reconnect_payload() -> Vec<u8> {
    let mut p = vec![0x00, 0x05];
    p.extend_from_slice(b"Realm");
    p.extend_from_slice(&[0x00, 0x04]);
    p.extend_from_slice(b"host");
    p.extend_from_slice(&1u32.to_be_bytes());
    p.extend_from_slice(&2050u32.to_be_bytes());
    p.extend_from_slice(&7u32.to_be_bytes());
    p.extend_from_slice(&[1, 2, 3]);
    p
}

fn tick_frame(packets: Vec<StitchedPacket>, terminating_tick: StitchedPacket) -> EncryptedTickFrame {
    EncryptedTickFrame { packets, terminating_tick }
}

fn tick_id_of(packet: &RotmgPacket) -> u32 {
    match packet {
        RotmgPacket::NewTick { tick_id, .. } => *tick_id,
        other => panic!("not a tick: {other:?}"),
    }
}

fn payload_of(packet: &RotmgPacket) -> Vec<u8> {
    match packet {
        RotmgPacket::Ping { rem } | RotmgPacket::Pong { rem } | RotmgPacket::Update { rem } => {
            rem.to_vec()
        }
        RotmgPacket::Other { rem, .. } => rem.to_vec(),
        other => panic!("unexpected {other:?}"),
    }
}

/// A decryptor that has seen tick `tick_id`, and the sender at the same
/// position.
fn warmed_up(offset: usize, tick_id: u32) -> (RotmgPacketDecryptor, Sender) {
    let mut sender = Sender::at(offset);
    let mut decryptor = RotmgPacketDecryptor::with_max_align_bytes(BOUND);
    let out = decryptor.insert_frame(tick_frame(vec![], sender.tick(tick_id))).unwrap();
    assert_eq!(out.integrity, DecryptionIntegrity::Warn);
    assert_eq!(decryptor.cipher_offset(), sender.cipher.offset());
    (decryptor, sender)
}

#[test]
fn the_keys_are_those_of_the_protocol() {
    assert_eq!(
        IKEY,
        [0xc9, 0x1d, 0x9e, 0xec, 0x42, 0x01, 0x60, 0x73, 0x0d, 0x82, 0x56, 0x04, 0xe0]
    );
    assert_eq!(OKEY.len(), 13);
    assert_ne!(IKEY, OKEY);
}

#[test]
fn a_new_decryptor_has_seen_nothing() {
    let decryptor = RotmgPacketDecryptor::new();
    assert_eq!(decryptor.cipher_offset(), 0);
    assert!(!decryptor.has_previous_tick());
}

#[test]
fn cold_start_mid_stream_warns_then_runs_intact() {
    let mut sender = Sender::at(12_345);
    let mut decryptor = RotmgPacketDecryptor::with_max_align_bytes(BOUND);

    let a = sender.frame(8, b"ping one");
    let b = sender.frame(31, b"pong");
    let first = decryptor.insert_frame(tick_frame(vec![a, b], sender.tick(700))).unwrap();
    assert_eq!(first.integrity, DecryptionIntegrity::Warn);
    assert_eq!(first.packets.len(), 1);
    assert_eq!(tick_id_of(&first.packets[0]), 700);
    assert!(decryptor.has_previous_tick());
    assert_eq!(decryptor.cipher_offset(), sender.cipher.offset());

    let c = sender.frame(8, b"ping two");
    let second = decryptor.insert_frame(tick_frame(vec![c], sender.tick(701))).unwrap();
    assert_eq!(second.integrity, DecryptionIntegrity::Intact);
    assert_eq!(second.packets.len(), 2);
    assert_eq!(payload_of(&second.packets[0]), b"ping two".to_vec());
    assert_eq!(tick_id_of(&second.packets[1]), 701);
    assert_eq!(decryptor.cipher_offset(), sender.cipher.offset());
}

#[test]
fn cold_start_with_the_default_bound() {
    let mut sender = Sender::at(3_000);
    let mut decryptor = RotmgPacketDecryptor::new();
    let a = sender.frame(8, b"abc");
    let first = decryptor.insert_frame(tick_frame(vec![a], sender.tick(1))).unwrap();
    assert_eq!(first.integrity, DecryptionIntegrity::Warn);
    assert_eq!(tick_id_of(&first.packets[0]), 1);
    assert_eq!(decryptor.cipher_offset(), 3_000 + 3 + 16);
}

#[test]
fn intact_ticks_count_up_by_one() {
    let (mut decryptor, mut sender) = warmed_up(100, 41);
    let mut last = 41;
    for round in 0..20u32 {
        let mut prefix = Vec::new();
        for k in 0..(round % 4) {
            prefix.push(sender.frame(8, &vec![k as u8; (round * 3 + k) as usize]));
        }
        let n = prefix.len();
        let out = decryptor.insert_frame(tick_frame(prefix, sender.tick(42 + round))).unwrap();
        assert_eq!(out.integrity, DecryptionIntegrity::Intact);
        assert_eq!(out.packets.len(), n + 1);
        let id = tick_id_of(out.packets.last().unwrap());
        assert_eq!(id, last + 1);
        last = id;
        for (k, p) in out.packets[..n].iter().enumerate() {
            assert_eq!(payload_of(p), vec![k as u8; (round * 3) as usize + k]);
        }
        assert_eq!(decryptor.cipher_offset(), sender.cipher.offset());
    }
}

#[test]
fn a_repeated_tick_is_a_duplicate_and_moves_nothing() {
    let (mut decryptor, mut sender) = warmed_up(2_000, 9);
    let fa = sender.frame(8, b"a");
    let fb = sender.frame(31, b"bb");
    let out = decryptor.insert_frame(tick_frame(vec![fa, fb], sender.tick(10))).unwrap();
    assert_eq!(out.integrity, DecryptionIntegrity::Intact);
    assert_eq!(out.packets.len(), 3);
    assert_eq!(payload_of(&out.packets[0]), b"a".to_vec());
    assert_eq!(payload_of(&out.packets[1]), b"bb".to_vec());
    assert_eq!(tick_id_of(&out.packets[2]), 10);

    let fc = sender.frame(8, b"ccc");
    let tick11 = sender.tick(11);
    let out = decryptor.insert_frame(tick_frame(vec![fc.clone()], tick11.clone())).unwrap();
    assert_eq!(out.integrity, DecryptionIntegrity::Intact);
    assert_eq!(payload_of(&out.packets[0]), b"ccc".to_vec());
    assert_eq!(tick_id_of(&out.packets[1]), 11);
    let offset = decryptor.cipher_offset();

    // the tick alone a second time: the same tick once more
    let again = decryptor.insert_frame(tick_frame(vec![], tick11.clone())).unwrap();
    assert_eq!(again.integrity, DecryptionIntegrity::Duplicate);
    assert_eq!(again.packets.len(), 1);
    assert_eq!(tick_id_of(&again.packets[0]), 11);
    assert_eq!(decryptor.cipher_offset(), offset);

    // the whole tick frame a second time: the same frames once more
    let replay = decryptor.insert_frame(tick_frame(vec![fc], tick11)).unwrap();
    assert_eq!(replay.integrity, DecryptionIntegrity::Duplicate);
    assert_eq!(replay.packets.len(), 2);
    assert_eq!(payload_of(&replay.packets[0]), b"ccc".to_vec());
    assert_eq!(tick_id_of(&replay.packets[1]), 11);
    assert_eq!(decryptor.cipher_offset(), offset);

    // the stream goes on as if nothing had come twice
    let out = decryptor.insert_frame(tick_frame(vec![], sender.tick(12))).unwrap();
    assert_eq!(out.integrity, DecryptionIntegrity::Intact);
    assert_eq!(tick_id_of(&out.packets[0]), 12);
    assert_eq!(decryptor.cipher_offset(), sender.cipher.offset());
}

#[test]
fn a_duplicate_longer_than_the_keystream_is_decrypted_from_its_start() {
    let mut sender = Sender::at(0);
    let mut decryptor = RotmgPacketDecryptor::with_max_align_bytes(BOUND);
    let tick = sender.tick(1);
    decryptor.insert_frame(tick_frame(vec![], tick.clone())).unwrap();
    assert_eq!(decryptor.cipher_offset(), 16);
    let mut from_start = Sender::at(0);
    let stray = from_start.frame(8, &[7u8; 40]);
    let out = decryptor.insert_frame(tick_frame(vec![stray], tick)).unwrap();
    assert_eq!(out.integrity, DecryptionIntegrity::Duplicate);
    assert_eq!(out.packets.len(), 2);
    assert_eq!(payload_of(&out.packets[0]), vec![7u8; 40]);
    assert_eq!(decryptor.cipher_offset(), 16);
}

#[test]
fn ticks_are_compared_by_their_first_four_bytes() {
    let (mut decryptor, mut sender) = warmed_up(10, 1);
    let tick2 = sender.tick(2);
    decryptor.insert_frame(tick_frame(vec![], tick2.clone())).unwrap();
    let mut altered = tick2.buffer.to_vec();
    for b in altered[4..].iter_mut() {
        *b ^= 0x5a;
    }
    let out = decryptor
        .insert_frame(tick_frame(
            vec![],
            StitchedPacket { type_num: 10, buffer: ByteBuffer::new(altered) },
        ))
        .unwrap();
    assert_eq!(out.integrity, DecryptionIntegrity::Duplicate);
}

#[test]
fn lost_bytes_are_found_again_by_alignment() {
    let (mut decryptor, mut sender) = warmed_up(5_000, 30);
    let kept = sender.frame(8, b"kept");
    let _lost = sender.frame(8, &[0u8; 37]);
    let out = decryptor.insert_frame(tick_frame(vec![kept], sender.tick(31))).unwrap();
    assert_eq!(out.integrity, DecryptionIntegrity::ExtraBytes(37));
    assert_eq!(out.packets.len(), 2);
    assert_eq!(tick_id_of(&out.packets[1]), 31);
    assert_eq!(decryptor.cipher_offset(), sender.cipher.offset());

    let out = decryptor.insert_frame(tick_frame(vec![], sender.tick(32))).unwrap();
    assert_eq!(out.integrity, DecryptionIntegrity::Intact);
}

#[test]
fn bytes_seen_twice_are_counted_as_missing() {
    let (mut decryptor, mut sender) = warmed_up(5_000, 30);
    let once = sender.frame(8, &[3u8; 21]);
    let twice = once.clone();
    let out = decryptor.insert_frame(tick_frame(vec![once, twice], sender.tick(31))).unwrap();
    assert_eq!(out.integrity, DecryptionIntegrity::MissingBytes(21));
    assert_eq!(out.packets.len(), 3);
    assert_eq!(payload_of(&out.packets[1]), vec![3u8; 21]);
    assert_eq!(tick_id_of(&out.packets[2]), 31);
    assert_eq!(decryptor.cipher_offset(), sender.cipher.offset());
}

#[test]
fn a_skipped_tick_number_fails_the_check_without_drift() {
    let (mut decryptor, mut sender) = warmed_up(800, 5);
    let out = decryptor
        .insert_frame(tick_frame(vec![sender.frame(8, b"x")], sender.tick(7)))
        .unwrap();
    assert_eq!(out.integrity, DecryptionIntegrity::Warn);
    assert_eq!(out.packets.len(), 2);
    assert_eq!(tick_id_of(&out.packets[1]), 7);
    let out = decryptor.insert_frame(tick_frame(vec![], sender.tick(8))).unwrap();
    assert_eq!(out.integrity, DecryptionIntegrity::Intact);
}

#[test]
fn validation_wants_the_next_tick_number() {
    let tick = |id: u32| StitchedPacket { type_num: 10, buffer: ByteBuffer::new(tick_payload(id)) };
    assert!(RotmgPacketDecryptor::validate_ticks(&tick(0), &tick(1)));
    assert!(RotmgPacketDecryptor::validate_ticks(&tick(65_535), &tick(65_536)));
    assert!(!RotmgPacketDecryptor::validate_ticks(&tick(1), &tick(1)));
    assert!(!RotmgPacketDecryptor::validate_ticks(&tick(1), &tick(3)));
    assert!(!RotmgPacketDecryptor::validate_ticks(&tick(2), &tick(1)));
    assert!(!RotmgPacketDecryptor::validate_ticks(&tick(u32::MAX), &tick(0)));
    let short = StitchedPacket { type_num: 10, buffer: ByteBuffer::new(vec![0, 0, 1]) };
    assert!(RotmgPacketDecryptor::validate_ticks(&short, &tick(1)));
    assert!(!RotmgPacketDecryptor::validate_ticks(&tick(1), &short));
}

#[test]
fn a_tick_that_cannot_be_aligned_is_dropped_with_a_warning() {
    let mut sender = Sender::at(5_000);
    let mut decryptor = RotmgPacketDecryptor::with_max_align_bytes(1_000);
    let out = decryptor
        .insert_frame(tick_frame(vec![sender.frame(8, b"x")], sender.tick(3)))
        .unwrap();
    assert_eq!(out.integrity, DecryptionIntegrity::Warn);
    assert!(out.packets.is_empty());
    assert!(!decryptor.has_previous_tick());
    assert_eq!(decryptor.cipher_offset(), 1_000);

    let short_tick = StitchedPacket { type_num: 10, buffer: ByteBuffer::new(vec![1, 2, 3, 4, 5, 6]) };
    let out = decryptor.insert_frame(tick_frame(vec![], short_tick)).unwrap();
    assert_eq!(out.integrity, DecryptionIntegrity::Warn);
    assert!(out.packets.is_empty());
    assert_eq!(decryptor.cipher_offset(), 0);
}

#[test]
fn failed_realignment_keeps_the_last_tick() {
    let mut sender = Sender::at(100);
    let mut decryptor = RotmgPacketDecryptor::with_max_align_bytes(1_000);
    let tick1 = sender.tick(1);
    decryptor.insert_frame(tick_frame(vec![], tick1.clone())).unwrap();
    sender.cipher.skip(5_000);
    let out = decryptor.insert_frame(tick_frame(vec![], sender.tick(2))).unwrap();
    assert_eq!(out.integrity, DecryptionIntegrity::Warn);
    assert!(out.packets.is_empty());
    assert!(decryptor.has_previous_tick());
    let out = decryptor.insert_frame(tick_frame(vec![], tick1)).unwrap();
    assert_eq!(out.integrity, DecryptionIntegrity::Duplicate);
}

#[test]
fn alignment_before_the_frames_start_is_an_underflow() {
    let mut sender = Sender::at(0);
    let tick = sender.tick(1);
    let stray = StitchedPacket { type_num: 8, buffer: ByteBuffer::new(vec![0u8; 10]) };
    let mut decryptor = RotmgPacketDecryptor::with_max_align_bytes(BOUND);
    let r = decryptor.insert_frame(tick_frame(vec![stray], tick.clone()));
    assert_eq!(r.err(), Some(DecryptError::ReverseUnderflow));
    assert!(!decryptor.has_previous_tick());
    assert_eq!(decryptor.cipher_offset(), 0);
    // the decryptor is as it was: the same tick alone is taken
    let out = decryptor.insert_frame(tick_frame(vec![], tick)).unwrap();
    assert_eq!(out.integrity, DecryptionIntegrity::Warn);
    assert_eq!(tick_id_of(&out.packets[0]), 1);
}

#[test]
fn a_reconnect_restarts_the_keystream_on_the_fast_path() {
    let (mut decryptor, mut sender) = warmed_up(7_000, 50);
    let before = sender.frame(8, b"old session");
    let reconnect = sender.reconnect();
    let after = sender.frame(8, b"new session");
    let tick = sender.tick(51);
    let out = decryptor.insert_frame(tick_frame(vec![before, reconnect, after], tick)).unwrap();
    assert_eq!(out.integrity, DecryptionIntegrity::Intact);
    assert_eq!(out.packets.len(), 4);
    assert_eq!(payload_of(&out.packets[0]), b"old session".to_vec());
    match &out.packets[1] {
        RotmgPacket::Reconnect { name, host, port, game_id, key, .. } => {
            assert_eq!(name, "Realm");
            assert_eq!(host, "host");
            assert_eq!(*port, 2050);
            assert_eq!(*game_id, 7);
            assert_eq!(key, &vec![1, 2, 3]);
        }
        other => panic!("decoded as {other:?}"),
    }
    assert_eq!(payload_of(&out.packets[2]), b"new session".to_vec());
    assert_eq!(tick_id_of(&out.packets[3]), 51);
    assert_eq!(decryptor.cipher_offset(), 11 + 16);
    assert_eq!(decryptor.cipher_offset(), sender.cipher.offset());

    let out = decryptor.insert_frame(tick_frame(vec![], sender.tick(52))).unwrap();
    assert_eq!(out.integrity, DecryptionIntegrity::Intact);
}

#[test]
fn a_reconnect_right_before_the_tick() {
    let (mut decryptor, mut sender) = warmed_up(300, 1);
    let reconnect = sender.reconnect();
    let tick = sender.tick(2);
    let out = decryptor.insert_frame(tick_frame(vec![reconnect], tick)).unwrap();
    assert_eq!(out.integrity, DecryptionIntegrity::Intact);
    assert!(matches!(out.packets[0], RotmgPacket::Reconnect { .. }));
    assert_eq!(tick_id_of(&out.packets[1]), 2);
    assert_eq!(decryptor.cipher_offset(), 16);
}

#[test]
fn reset_forgets_the_last_tick() {
    let (mut decryptor, mut sender) = warmed_up(400, 6);
    decryptor.reset();
    assert_eq!(decryptor.cipher_offset(), 0);
    assert!(!decryptor.has_previous_tick());
    let out = decryptor.insert_frame(tick_frame(vec![], sender.tick(7))).unwrap();
    assert_eq!(out.integrity, DecryptionIntegrity::Warn);
    assert_eq!(tick_id_of(&out.packets[0]), 7);
}

#[test]
fn the_default_search_gives_up_after_a_hundred_million_positions() {
    let mut decryptor = RotmgPacketDecryptor::new();
    // a window that the keystream does not show within the bound
    let tick = StitchedPacket { type_num: 10, buffer: ByteBuffer::new(vec![0xa5; 16]) };
    let out = decryptor.insert_frame(tick_frame(vec![], tick.clone())).unwrap();
    assert_eq!(out.integrity, DecryptionIntegrity::Warn);
    assert!(out.packets.is_empty());
    assert_eq!(decryptor.cipher_offset(), 100_000_000);
    assert!(!decryptor.has_previous_tick());
}
