use rotmg_sniffer::rotmg_packet_stitcher::{MalformedFrame, RotmgPacketStitcher, StitchedPacket};

fn wire(tag: u8, payload: &[u8]) -> Vec<u8> {
    let mut out = ((payload.len() + 5) as u32).to_be_bytes().to_vec();
    out.push(tag);
    out.extend_from_slice(payload);
    out
}

fn seen(packets: &[StitchedPacket]) -> Vec<(u8, Vec<u8>)> {
    packets.iter().map(|p| (p.type_num, p.buffer.to_vec())).collect()
}

#[test]
fn stitched_packet_splits_header_and_payload() {
    let packet = StitchedPacket::new(vec![0, 0, 0, 8, 42, 1, 2, 3]).unwrap();
    assert_eq!(packet.type_num, 42);
    assert_eq!(packet.buffer.to_vec(), vec![1, 2, 3]);
    assert_eq!(packet.buffer.index(), 0);
    assert_eq!(packet.len(), 3);
    let bare = StitchedPacket::new(vec![0, 0, 0, 5, 9]).unwrap();
    assert_eq!(bare.type_num, 9);
    assert_eq!(bare.len(), 0);
    let copy = packet.clone();
    assert_eq!(copy.type_num, 42);
    assert_eq!(copy.buffer.to_vec(), vec![1, 2, 3]);
}

#[test]
fn stitched_packet_needs_a_header() {
    for n in 0..5usize {
        assert_eq!(StitchedPacket::new(vec![0u8; n]).err(), Some(MalformedFrame));
    }
}

#[test]
fn whole_frames_come_out_in_order() {
    let mut stream = wire(1, b"abc");
    stream.extend(wire(10, b""));
    stream.extend(wire(200, &[7u8; 300]));
    let mut stitcher = RotmgPacketStitcher::new();
    let out = stitcher.insert_packet(&stream);
    assert_eq!(
        seen(&out),
        vec![(1, b"abc".to_vec()), (10, vec![]), (200, vec![7u8; 300])]
    );
    assert!(out.iter().all(|p| p.buffer.index() == 0));
    assert!(stitcher.insert_packet(&[]).is_empty());
}

#[test]
fn any_chunking_gives_the_same_frames() {
    let frames: Vec<(u8, Vec<u8>)> = vec![
        (3, vec![1, 2, 3, 4, 5]),
        (10, vec![]),
        (45, (0u8..40).collect()),
        (0, vec![9]),
    ];
    let mut stream = Vec::new();
    for (tag, payload) in &frames {
        stream.extend(wire(*tag, payload));
    }
    for a in 0..=stream.len() {
        for b in [a, (a + 1).min(stream.len()), (a + 7).min(stream.len()), stream.len()] {
            let mut stitcher = RotmgPacketStitcher::new();
            let mut out = seen(&stitcher.insert_packet(&stream[..a]));
            out.extend(seen(&stitcher.insert_packet(&stream[a..b])));
            out.extend(seen(&stitcher.insert_packet(&stream[b..])));
            assert_eq!(out, frames);
            assert!(stitcher.insert_packet(&[]).is_empty());
        }
    }
    let mut stitcher = RotmgPacketStitcher::new();
    let mut out = Vec::new();
    for byte in &stream {
        out.extend(seen(&stitcher.insert_packet(std::slice::from_ref(byte))));
    }
    assert_eq!(out, frames);
}

#[test]
fn a_partial_frame_waits_for_its_rest() {
    let frame = wire(7, b"payload");
    for cut in 0..frame.len() {
        let mut stitcher = RotmgPacketStitcher::new();
        let mut stream = wire(1, b"x");
        stream.extend_from_slice(&frame[..cut]);
        let out = stitcher.insert_packet(&stream);
        assert_eq!(seen(&out), vec![(1, b"x".to_vec())]);
        let rest = stitcher.insert_packet(&frame[cut..]);
        assert_eq!(seen(&rest), vec![(7, b"payload".to_vec())]);
    }
}

#[test]
fn a_length_below_the_header_is_dropped() {
    for declared in 0u32..5 {
        let mut stream = declared.to_be_bytes().to_vec();
        stream.extend(wire(4, b"ok"));
        let mut stitcher = RotmgPacketStitcher::new();
        let out = stitcher.insert_packet(&stream);
        assert_eq!(seen(&out), vec![(4, b"ok".to_vec())], "declared {declared}");
    }
    let mut stitcher = RotmgPacketStitcher::new();
    let mut stream = wire(4, b"first");
    stream.extend_from_slice(&[0, 0, 0, 0, 0, 0, 0, 3]);
    stream.extend(wire(5, b"second"));
    let out = stitcher.insert_packet(&stream);
    assert_eq!(seen(&out), vec![(4, b"first".to_vec()), (5, b"second".to_vec())]);
}

#[test]
fn reset_empties_the_queue() {
    let frame = wire(7, b"payload");
    let mut stitcher = RotmgPacketStitcher::new();
    assert!(stitcher.insert_packet(&frame[..6]).is_empty());
    stitcher.reset();
    let out = stitcher.insert_packet(&frame);
    assert_eq!(seen(&out), vec![(7, b"payload".to_vec())]);
}
