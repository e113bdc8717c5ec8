use rotmg_sniffer::rc4::{CipherError, Rc4, DEFAULT_ALIGN_BOUND};

fn cipher(key: &str) -> Rc4 {
    Rc4::new(key.as_bytes().to_vec())
}

#[test]
fn known_ciphertexts() {
    let mut c = cipher("Key");
    assert_eq!(
        c.apply_keystream(0, &b"Plaintext".to_vec()),
        vec![0xbb, 0xf3, 0x16, 0xe8, 0xd9, 0x40, 0xaf, 0x0a, 0xd3]
    );
    let mut c = cipher("Wiki");
    assert_eq!(c.apply_keystream(0, &b"pedia".to_vec()), vec![0x10, 0x21, 0xbf, 0x04, 0x20]);
    let mut c = cipher("Secret");
    assert_eq!(
        c.apply_keystream(0, &b"Attack at dawn".to_vec()),
        vec![0x45, 0xa0, 0x1f, 0x64, 0x5f, 0xc3, 0x5b, 0x38, 0x35, 0x52, 0x54, 0x4b, 0x9b, 0xf5]
    );
}

#[test]
fn known_keystreams() {
    assert_eq!(
        cipher("Key").peek_keystream(10),
        vec![0xeb, 0x9f, 0x77, 0x81, 0xb7, 0x34, 0xca, 0x72, 0xa7, 0x19]
    );
    assert_eq!(cipher("Wiki").peek_keystream(6), vec![0x60, 0x44, 0xdb, 0x6d, 0x41, 0xb7]);
    assert_eq!(
        cipher("Secret").peek_keystream(8),
        vec![0x04, 0xd4, 0x6b, 0x05, 0x3c, 0xa8, 0x7b, 0x59]
    );
}

#[test]
fn applying_to_zeros_yields_the_keystream_and_reverse_restores() {
    for n in [0usize, 1, 7, 256, 1000] {
        let mut c = cipher("Secret");
        let fresh = c.peek_keystream(n + 16);
        let out = c.apply_keystream(0, &vec![0u8; n]);
        assert_eq!(out, fresh[..n].to_vec());
        assert_eq!(c.offset(), n);
        assert_eq!(c.reverse(n), Ok(()));
        assert_eq!(c.offset(), 0);
        assert_eq!(c.peek_keystream(n + 16), fresh);
    }
}

#[test]
fn skip_counts_and_lands_on_the_next_byte() {
    for n in [0usize, 1, 2, 255, 256, 257, 5000] {
        let mut c = cipher("Wiki");
        let ahead = c.peek_keystream(n + 1);
        c.skip(n);
        assert_eq!(c.offset(), n);
        assert_eq!(c.peek_keystream(1), vec![ahead[n]]);
        assert_eq!(c.apply_keystream(0, &vec![0u8]), vec![ahead[n]]);
        assert_eq!(c.offset(), n + 1);
    }
}

#[test]
fn apply_leaves_the_bytes_before_the_offset() {
    let data: Vec<u8> = (1u8..=10).collect();
    let mut whole = cipher("Key");
    let ks = whole.peek_keystream(10);
    let mut c = cipher("Key");
    let out = c.apply_keystream(4, &data);
    assert_eq!(&out[..4], &data[..4]);
    for k in 4..10 {
        assert_eq!(out[k], data[k] ^ ks[k - 4]);
    }
    assert_eq!(c.offset(), 6);
    let mut c = cipher("Key");
    assert_eq!(c.apply_keystream(10, &data), data);
    assert_eq!(c.apply_keystream(25, &data), data);
    assert_eq!(c.offset(), 0);
    assert_eq!(whole.apply_keystream(0, &Vec::new()), Vec::<u8>::new());
}

#[test]
fn static_application_does_not_advance() {
    let data = b"Attack at dawn".to_vec();
    let mut c = cipher("Secret");
    c.skip(3);
    let first = c.apply_keystream_static(2, &data);
    assert_eq!(c.offset(), 3);
    let again = c.apply_keystream_static(2, &data);
    assert_eq!(first, again);
    let moved = c.apply_keystream(2, &data);
    assert_eq!(first, moved);
    assert_eq!(c.offset(), 15);
    assert_eq!(c.peek_keystream(4), c.peek_keystream(4));
    assert_eq!(c.offset(), 15);
}

#[test]
fn reset_restores_the_scheduled_state() {
    let mut c = cipher("Key");
    let fresh = c.peek_keystream(32);
    c.skip(777);
    assert_ne!(c.peek_keystream(32), fresh);
    c.reset();
    assert_eq!(c.offset(), 0);
    assert_eq!(c.peek_keystream(32), fresh);
    let copy = c.clone();
    assert_eq!(copy.offset(), 0);
    assert_eq!(copy.peek_keystream(32), fresh);
}

#[test]
fn reverse_goes_back_and_refuses_to_underflow() {
    let mut c = cipher("Wiki");
    c.skip(100);
    let at_100 = c.peek_keystream(8);
    c.skip(50);
    assert_eq!(c.reverse(50), Ok(()));
    assert_eq!(c.offset(), 100);
    assert_eq!(c.peek_keystream(8), at_100);
    assert_eq!(c.reverse(101), Err(CipherError::ReverseUnderflow));
    assert_eq!(c.offset(), 100);
    assert_eq!(c.peek_keystream(8), at_100);
    assert_eq!(c.reverse(0), Ok(()));
    assert_eq!(c.offset(), 100);
    assert_eq!(c.reverse(100), Ok(()));
    assert_eq!(c.offset(), 0);
    assert_eq!(c.reverse(1), Err(CipherError::ReverseUnderflow));
}

fn tick_window(c: &Rc4, at: usize, tick_id: u16, tick_time: u8) -> Vec<u8> {
    let mut probe = c.clone();
    probe.reset();
    probe.skip(at);
    let plain = vec![0, 0, (tick_id >> 8) as u8, tick_id as u8, 0, 0, 0, tick_time, 9, 9];
    probe.apply_keystream(0, &plain)
}

#[test]
fn align_finds_the_window() {
    for at in [0usize, 1, 300, 4097] {
        let mut c = cipher("Secret");
        let window = tick_window(&c, at, 513, 200);
        assert_eq!(c.align_to_tick_within(&window, 10_000), Ok(()));
        assert_eq!(c.offset(), at);
        let plain = c.apply_keystream(0, &window);
        assert_eq!(&plain[..8], &[0, 0, 2, 1, 0, 0, 0, 200]);
    }
}

#[test]
fn align_searches_from_the_current_position() {
    let mut c = cipher("Secret");
    let window = tick_window(&c, 50, 7, 1);
    c.skip(20);
    assert_eq!(c.align_to_tick_within(&window, 31), Ok(()));
    assert_eq!(c.offset(), 50);
    c.reset();
    c.skip(51);
    assert_eq!(c.align_to_tick_within(&window, 500), Err(CipherError::NotFound));
    assert_eq!(c.offset(), 551);
}

#[test]
fn align_gives_up_at_the_bound() {
    let mut c = cipher("Secret");
    let window = tick_window(&c, 100, 7, 1);
    assert_eq!(c.align_to_tick_within(&window, 100), Err(CipherError::NotFound));
    assert_eq!(c.offset(), 100);
    c.reset();
    assert_eq!(c.align_to_tick_within(&window, 101), Ok(()));
    assert_eq!(c.offset(), 100);
    c.reset();
    assert_eq!(c.align_to_tick_within(&window, 0), Err(CipherError::NotFound));
    assert_eq!(c.offset(), 0);
}

#[test]
fn align_with_the_default_bound() {
    assert_eq!(DEFAULT_ALIGN_BOUND, 100_000_000);
    let mut c = cipher("Key");
    let window = tick_window(&c, 2_000, 65_535, 255);
    assert_eq!(c.align_to_tick(&window), Ok(()));
    assert_eq!(c.offset(), 2_000);
}

#[test]
fn align_ignores_the_bytes_it_does_not_compare() {
    let mut c = cipher("Key");
    let mut window = tick_window(&c, 40, 1, 1);
    window[2] ^= 0xff;
    window[3] ^= 0x55;
    window[7] ^= 0x0f;
    assert_eq!(c.align_to_tick_within(&window, 1000), Ok(()));
    assert_eq!(c.offset(), 40);
}

#[test]
fn a_key_spelled_in_hexadecimal() {
    let spelled = Rc4::from_string_key("c91d9eec420160730d825604e0".to_string()).unwrap();
    let given = Rc4::new(vec![
        0xc9, 0x1d, 0x9e, 0xec, 0x42, 0x01, 0x60, 0x73, 0x0d, 0x82, 0x56, 0x04, 0xe0,
    ]);
    assert_eq!(spelled.offset(), 0);
    assert_eq!(spelled.peek_keystream(64), given.peek_keystream(64));
    let upper = Rc4::from_string_key("4B6579".to_string()).unwrap();
    assert_eq!(upper.peek_keystream(10), cipher("Key").peek_keystream(10));
    let mixed = Rc4::from_string_key("4b6579".to_string()).unwrap();
    assert_eq!(mixed.peek_keystream(10), cipher("Key").peek_keystream(10));
}

#[test]
fn a_key_that_is_not_hexadecimal() {
    for text in ["", "4", "4b657", "4g", "zz", "4b 65", "0x4b", "4b6\u{e9}"] {
        assert!(Rc4::from_string_key(text.to_string()).is_none(), "{text:?}");
    }
}

fn encrypted_word(c: &Rc4, at: usize, value: u32, trail: &[u8]) -> Vec<u8> {
    let mut probe = c.clone();
    probe.reset();
    probe.skip(at);
    let mut plain = value.to_be_bytes().to_vec();
    plain.extend_from_slice(trail);
    probe.apply_keystream(0, &plain)
}

#[test]
fn align_to_a_known_tick_number() {
    let mut c = cipher("Secret");
    let encrypted = encrypted_word(&c, 4_000, 0xdead_beef, &[1, 2]);
    c.skip(10);
    assert!(c.align_to_real_tick(0xdead_beef, &encrypted));
    assert_eq!(c.offset(), 4_000);
    assert_eq!(&c.apply_keystream_static(0, &encrypted)[..4], &[0xde, 0xad, 0xbe, 0xef]);
    // already there: found at once
    assert!(c.align_to_real_tick(0xdead_beef, &encrypted));
    assert_eq!(c.offset(), 4_000);
}

#[test]
fn align_to_a_known_tick_number_gives_up_in_place() {
    let mut c = cipher("Secret");
    let encrypted = encrypted_word(&c, 100_000, 77, &[]);
    assert!(!c.align_to_real_tick(77, &encrypted));
    assert_eq!(c.offset(), 0);
    c.skip(1);
    assert!(c.align_to_real_tick(77, &encrypted));
    assert_eq!(c.offset(), 100_000);
    assert!(!c.align_to_real_tick(78, &encrypted));
    assert_eq!(c.offset(), 100_000);
}

#[test]
fn align_to_two_adjacent_ticks() {
    let mut c = cipher("Wiki");
    let first = encrypted_word(&c, 1_000, 500, &[9, 9, 9]);
    let second = encrypted_word(&c, 1_000 + 7 + 40, 501, &[]);
    assert_eq!(c.align_to(&first, &second, 40), 501);
    assert_eq!(c.offset(), 1_000);
    let plain = c.apply_keystream(0, &first);
    assert_eq!(&plain[..4], &500u32.to_be_bytes());
    c.skip(40);
    assert_eq!(c.apply_keystream(0, &second), 501u32.to_be_bytes().to_vec());
}

#[test]
fn align_to_two_ticks_gives_up_in_place() {
    let mut c = cipher("Wiki");
    c.skip(3);
    let first = encrypted_word(&c, 50, u32::MAX, &[]);
    let second = encrypted_word(&c, 54, 0, &[]);
    // the largest number has no successor: these two are never adjacent
    assert_eq!(c.align_to(&first, &second, 0), u32::MAX);
    assert_eq!(c.offset(), 3);
}
