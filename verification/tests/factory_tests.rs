use rotmg_sniffer::packet_factory::RotmgPacketFactory;
use rotmg_sniffer::rc4::Rc4;
use rotmg_sniffer::rotmg_packet::RotmgPacket;
use rotmg_sniffer::rotmg_packet_decryptor::{DecryptError, RotmgPacketDecryptor, IKEY};

fn wire(cipher: &mut Rc4, tag: u8, plain: &[u8]) -> Vec<u8> {
    let mut out = ((plain.len() + 5) as u32).to_be_bytes().to_vec();
    out.push(tag);
    out.extend(cipher.apply_keystream(0, &plain.to_vec()));
    out
}

fn tick_payload(tick_id: u32) -> Vec<u8> {
    let mut p = tick_id.to_be_bytes().to_vec();
    p.extend_from_slice(&100u32.to_be_bytes());
    p.extend_from_slice(&5_000u32.to_be_bytes());
    p.extend_from_slice(&1u16.to_be_bytes());
    p
}

fn text(s: &str) -> Vec<u8> {
    let mut out = (s.len() as u16).to_be_bytes().to_vec();
    out.extend_from_slice(s.as_bytes());
    out
}

fn map_info_payload() -> Vec<u8> {
    let mut p = Vec::new();
    p.extend_from_slice(&80u32.to_be_bytes());
    p.extend_from_slice(&80u32.to_be_bytes());
    p.extend(text("nexus"));
    p.extend(text(""));
    p.extend(text(""));
    p.extend_from_slice(&0.0f32.to_be_bytes());
    p.extend_from_slice(&0u32.to_be_bytes());
    p.extend_from_slice(&0u32.to_be_bytes());
    p.push(1);
    p.push(0);
    p.push(0);
    p.extend_from_slice(&0u16.to_be_bytes());
    p.extend_from_slice(&0u32.to_be_bytes());
    p.extend(text(""));
    p.extend_from_slice(&0u32.to_be_bytes());
    p.extend(text(""));
    p
}

fn factory() -> RotmgPacketFactory {
    RotmgPacketFactory::with_decryptor(RotmgPacketDecryptor::with_max_align_bytes(20_000))
}

fn names(packets: &[RotmgPacket]) -> Vec<String> {
    packets
        .iter()
        .map(|p| {
            let s = format!("{p:?}");
            s.split(|c: char| !c.is_alphanumeric()).next().unwrap().to_string()
        })
        .collect()
}

#[test]
fn bytes_in_typed_frames_out() {
    let mut cipher = Rc4::new(IKEY.to_vec());
    cipher.skip(1_500);
    let mut stream = Vec::new();
    stream.extend(wire(&mut cipher, 8, b"garbled on a cold start"));
    stream.extend(wire(&mut cipher, 10, &tick_payload(90)));
    stream.extend(wire(&mut cipher, 92, &map_info_payload()));
    stream.extend(wire(&mut cipher, 250, b"who knows"));
    stream.extend(wire(&mut cipher, 10, &tick_payload(91)));
    stream.extend(wire(&mut cipher, 8, b"waits for its tick"));

    let mut factory = factory();
    for chunk in stream.chunks(13) {
        assert_eq!(factory.insert_packet(chunk), Ok(()));
    }
    let packets = factory.get_packets();
    assert_eq!(names(&packets), vec!["NewTick", "MapInfo", "Other", "NewTick"]);
    assert!(matches!(&packets[0], RotmgPacket::NewTick { tick_id: 90, .. }));
    match &packets[1] {
        RotmgPacket::MapInfo { width, height, name, difficulty, allow_teleport, rem, .. } => {
            assert_eq!(*width, 80);
            assert_eq!(*height, 80);
            assert_eq!(name, "nexus");
            assert_eq!(f32::from_bits(*difficulty), 0.0);
            assert!(*allow_teleport);
            assert_eq!(rem.rem_len(), 0);
        }
        other => panic!("decoded as {other:?}"),
    }
    assert!(matches!(&packets[2], RotmgPacket::Other { type_num: 250, rem } if rem.to_vec() == b"who knows".to_vec()));
    assert!(matches!(&packets[3], RotmgPacket::NewTick { tick_id: 91, .. }));
    assert!(factory.get_packets().is_empty());
    assert!(factory.get_packet().is_none());

    assert_eq!(factory.insert_packet(&wire(&mut cipher, 10, &tick_payload(92))), Ok(()));
    let first = factory.get_packet().unwrap();
    assert!(matches!(first, RotmgPacket::Ping { rem } if rem.to_vec() == b"waits for its tick".to_vec()));
    assert!(matches!(factory.get_packet(), Some(RotmgPacket::NewTick { tick_id: 92, .. })));
    assert!(factory.get_packet().is_none());
}

#[test]
fn frames_leave_in_the_order_of_their_bytes() {
    let mut cipher = Rc4::new(IKEY.to_vec());
    let mut stream = wire(&mut cipher, 10, &tick_payload(0));
    for tick in 1u32..6 {
        for k in 0..tick {
            stream.extend(wire(&mut cipher, 8, &[tick as u8, k as u8]));
        }
        stream.extend(wire(&mut cipher, 10, &tick_payload(tick)));
    }
    let mut factory = factory();
    assert_eq!(factory.insert_packet(&stream), Ok(()));
    let packets = factory.get_packets();
    let mut expected = vec![(10u8, 0u8, 0u8)];
    for tick in 1u8..6 {
        for k in 0..tick {
            expected.push((8, tick, k));
        }
        expected.push((10, tick, 0));
    }
    let got: Vec<(u8, u8, u8)> = packets
        .iter()
        .map(|p| match p {
            RotmgPacket::Ping { rem } => (8, rem.to_vec()[0], rem.to_vec()[1]),
            RotmgPacket::NewTick { tick_id, .. } => (10, *tick_id as u8, 0),
            other => panic!("unexpected {other:?}"),
        })
        .collect();
    assert_eq!(got, expected);
}

#[test]
fn reset_starts_over() {
    let mut cipher = Rc4::new(IKEY.to_vec());
    cipher.skip(100);
    let mut factory = factory();
    let tick = wire(&mut cipher, 10, &tick_payload(5));
    assert_eq!(factory.insert_packet(&tick), Ok(()));
    assert_eq!(factory.insert_packet(&wire(&mut cipher, 8, b"held")), Ok(()));
    assert_eq!(factory.insert_packet(&[0, 0]), Ok(()));
    factory.reset();
    assert!(factory.get_packets().is_empty());
    // nothing is left of the half frame or of the frame held: a tick alone
    // comes out alone, from a cold start
    cipher.skip(64);
    assert_eq!(factory.insert_packet(&wire(&mut cipher, 10, &tick_payload(9))), Ok(()));
    let packets = factory.get_packets();
    assert_eq!(packets.len(), 1);
    assert!(matches!(&packets[0], RotmgPacket::NewTick { tick_id: 9, .. }));
}

#[test]
fn a_refused_tick_frame_stops_the_batch() {
    let mut cipher = Rc4::new(IKEY.to_vec());
    let mut stream = Vec::new();
    let mut stray = 15u32.to_be_bytes().to_vec();
    stray.push(8);
    stray.extend_from_slice(&[0u8; 10]);
    stream.extend(stray);
    stream.extend(wire(&mut cipher, 10, &tick_payload(1)));
    stream.extend(wire(&mut cipher, 10, &tick_payload(2)));
    let mut factory = factory();
    assert_eq!(factory.insert_packet(&stream), Err(DecryptError::ReverseUnderflow));
    assert!(factory.get_packets().is_empty());
    // the second tick of the batch was dropped with it
    assert_eq!(factory.insert_packet(&wire(&mut cipher, 10, &tick_payload(3))), Ok(()));
    let packets = factory.get_packets();
    assert_eq!(packets.len(), 1);
    assert!(matches!(&packets[0], RotmgPacket::NewTick { tick_id: 3, .. }));
}

#[test]
fn a_new_factory_is_empty() {
    let mut factory = RotmgPacketFactory::new();
    assert!(factory.get_packet().is_none());
    assert!(factory.get_packets().is_empty());
    assert_eq!(factory.insert_packet(&[]), Ok(()));
    assert!(factory.get_packets().is_empty());
}
