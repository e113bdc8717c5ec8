use rotmg_sniffer::byte_buffer::{ByteBuffer, ReadError};
use rotmg_sniffer::varint::{encode_varint, scan_varint};

#[test]
fn to_vec_returns_the_bytes_given() {
    let bytes = vec![1u8, 2, 3, 4, 5];
    let buf = ByteBuffer::new(bytes.clone());
    assert_eq!(buf.to_vec(), bytes);
    assert_eq!(buf.as_slice(), &bytes[..]);
    assert_eq!(buf.len(), 5);
    assert_eq!(buf.index(), 0);
    let empty = ByteBuffer::new(Vec::new());
    assert_eq!(empty.to_vec(), Vec::<u8>::new());
    assert_eq!(empty.rem_len(), 0);
}

#[test]
fn read_then_peek_sees_what_one_longer_peek_sees() {
    let bytes: Vec<u8> = (0u8..20).collect();
    for n in 0..=20usize {
        for m in 0..=(21 - n) {
            let whole = ByteBuffer::new(bytes.clone());
            let long = whole.read_n_bytes_static(n + m).map(|s| s.to_vec());
            let mut buf = ByteBuffer::new(bytes.clone());
            let first = buf.read_n_bytes(n).map(|s| s.to_vec());
            let second = buf.read_n_bytes_static(m).map(|s| s.to_vec());
            match long {
                Ok(window) => {
                    assert_eq!(first, Ok(window[..n].to_vec()));
                    assert_eq!(second, Ok(window[n..].to_vec()));
                }
                Err(e) => {
                    assert_eq!(e, ReadError::ShortRead);
                    assert!(first.is_err() || second.is_err());
                }
            }
        }
    }
}

#[test]
fn read_n_bytes_moves_the_cursor_only_on_success() {
    let mut buf = ByteBuffer::new(vec![10, 20, 30]);
    assert_eq!(buf.read_n_bytes(2).map(|s| s.to_vec()), Ok(vec![10, 20]));
    assert_eq!(buf.index(), 2);
    assert_eq!(buf.read_n_bytes(2).map(|s| s.to_vec()), Err(ReadError::ShortRead));
    assert_eq!(buf.index(), 2);
    assert_eq!(buf.read_n_bytes(0).map(|s| s.to_vec()), Ok(vec![]));
    assert_eq!(buf.read_n_bytes(1).map(|s| s.to_vec()), Ok(vec![30]));
    assert_eq!(buf.index(), 3);
    assert_eq!(buf.read_n_bytes(usize::MAX).map(|s| s.to_vec()), Err(ReadError::ShortRead));
    assert_eq!(buf.index(), 3);
}

#[test]
fn scalars_are_read_big_endian() {
    let mut buf = ByteBuffer::new(vec![
        0xab, 0x01, 0x02, 0x01, 0x02, 0x03, 0x04, 0x01, 0x02, 0x03, 0x04, 0x05, 0x06, 0x07, 0x08,
    ]);
    assert_eq!(buf.read_u8_static(), Ok(0xab));
    assert_eq!(buf.read_u8(), Ok(0xab));
    assert_eq!(buf.read_u16_static(), Ok(0x0102));
    assert_eq!(buf.read_u16(), Ok(0x0102));
    assert_eq!(buf.read_u32_static(), Ok(0x0102_0304));
    assert_eq!(buf.read_u32(), Ok(0x0102_0304));
    assert_eq!(buf.read_u64_static(), Ok(0x0102_0304_0506_0708));
    assert_eq!(buf.read_u64(), Ok(0x0102_0304_0506_0708));
    assert_eq!(buf.index(), 15);
    assert_eq!(buf.rem_len(), 0);
}

#[test]
fn short_reads_leave_the_cursor() {
    let mut buf = ByteBuffer::new(vec![1, 2, 3]);
    assert_eq!(buf.read_u32(), Err(ReadError::ShortRead));
    assert_eq!(buf.read_u32_static(), Err(ReadError::ShortRead));
    assert_eq!(buf.read_u64(), Err(ReadError::ShortRead));
    assert_eq!(buf.read_u64_static(), Err(ReadError::ShortRead));
    assert_eq!(buf.read_f32(), Err(ReadError::ShortRead));
    assert_eq!(buf.index(), 0);
    assert_eq!(buf.read_u16(), Ok(0x0102));
    assert_eq!(buf.read_u16(), Err(ReadError::ShortRead));
    assert_eq!(buf.read_u16_static(), Err(ReadError::ShortRead));
    assert_eq!(buf.index(), 2);
    assert_eq!(buf.read_u8(), Ok(3));
    assert_eq!(buf.read_u8(), Err(ReadError::ShortRead));
    assert_eq!(buf.read_u8_static(), Err(ReadError::ShortRead));
    assert_eq!(buf.read_bool(), Err(ReadError::ShortRead));
    assert_eq!(buf.read_bool_static(), Err(ReadError::ShortRead));
    assert_eq!(buf.index(), 3);
}

#[test]
fn any_byte_but_zero_is_true() {
    let mut buf = ByteBuffer::new(vec![0, 1, 2, 0xff]);
    assert_eq!(buf.read_bool_static(), Ok(false));
    assert_eq!(buf.read_bool(), Ok(false));
    assert_eq!(buf.read_bool(), Ok(true));
    assert_eq!(buf.read_bool(), Ok(true));
    assert_eq!(buf.read_bool(), Ok(true));
    assert_eq!(buf.index(), 4);
}

#[test]
fn read_f32_yields_the_bits_of_the_single() {
    let mut buf = ByteBuffer::new(vec![0x3f, 0x80, 0x00, 0x00, 0xc0, 0x20, 0x00, 0x00]);
    assert_eq!(buf.read_f32_static().map(f32::from_bits), Ok(1.0f32));
    assert_eq!(buf.read_f32().map(f32::from_bits), Ok(1.0f32));
    assert_eq!(buf.read_f32().map(f32::from_bits), Ok(-2.5f32));
    assert_eq!(buf.index(), 8);
}

#[test]
fn read_string_takes_a_counted_utf8_string() {
    let mut bytes = vec![0x00, 0x05];
    bytes.extend_from_slice("nexus".as_bytes());
    bytes.extend_from_slice(&[0x00, 0x02, 0xc3, 0xa9, 0x00, 0x00, 0x77]);
    let mut buf = ByteBuffer::new(bytes);
    assert_eq!(buf.read_string(), Ok("nexus".to_string()));
    assert_eq!(buf.index(), 7);
    assert_eq!(buf.read_string(), Ok("\u{e9}".to_string()));
    assert_eq!(buf.index(), 11);
    assert_eq!(buf.read_string(), Ok(String::new()));
    assert_eq!(buf.index(), 13);
    assert_eq!(buf.read_string(), Err(ReadError::ShortRead));
    assert_eq!(buf.index(), 13);
}

#[test]
fn read_string_fails_without_moving() {
    let mut cut = ByteBuffer::new(vec![0x00, 0x05, b'a', b'b']);
    assert_eq!(cut.read_string(), Err(ReadError::ShortRead));
    assert_eq!(cut.index(), 0);
    let mut bad = ByteBuffer::new(vec![0x00, 0x02, 0xff, 0xfe, 0x01]);
    assert_eq!(bad.read_string(), Err(ReadError::InvalidUtf8));
    assert_eq!(bad.index(), 0);
    let mut truncated_char = ByteBuffer::new(vec![0x00, 0x01, 0xc3, 0xa9]);
    assert_eq!(truncated_char.read_string(), Err(ReadError::InvalidUtf8));
    assert_eq!(truncated_char.index(), 0);
}

#[test]
fn rest_and_reset() {
    let mut buf = ByteBuffer::new(vec![1, 2, 3, 4]);
    assert_eq!(buf.read_u8(), Ok(1));
    assert_eq!(buf.rem_to_vec(), vec![2, 3, 4]);
    assert_eq!(buf.rem_len(), 3);
    assert_eq!(buf.to_vec(), vec![1, 2, 3, 4]);
    let copy = buf.clone();
    assert_eq!(copy.index(), 1);
    assert_eq!(copy.to_vec(), vec![1, 2, 3, 4]);
    let buf = buf.reset();
    assert_eq!(buf.index(), 0);
    assert_eq!(buf.rem_to_vec(), vec![1, 2, 3, 4]);
}

#[test]
fn seek_stays_within_the_buffer() {
    let mut buf = ByteBuffer::new(vec![1, 2, 3, 4]);
    assert_eq!(buf.seek(4), Ok(()));
    assert_eq!(buf.index(), 4);
    assert_eq!(buf.seek(5), Err(ReadError::ShortRead));
    assert_eq!(buf.index(), 4);
    assert_eq!(buf.seek(1), Ok(()));
    assert_eq!(buf.read_u8(), Ok(2));
}

fn decode64(bytes: &[u8]) -> Result<(i64, usize), ReadError> {
    let mut buf = ByteBuffer::new(bytes.to_vec());
    let v = buf.read_compressed_i64()?;
    Ok((v, buf.index()))
}

#[test]
fn varint_round_trip_at_the_boundaries() {
    let cases: [(i64, usize); 17] = [
        (0, 1),
        (1, 1),
        (-1, 1),
        (63, 1),
        (-63, 1),
        (64, 2),
        (-64, 2),
        (8191, 2),
        (-8191, 2),
        (8192, 3),
        (-8192, 3),
        (i32::MAX as i64, 5),
        (i32::MIN as i64, 5),
        (i64::MAX, 10),
        (i64::MIN, 10),
        (i64::MAX - 1, 10),
        (i64::MIN + 1, 10),
    ];
    for (v, width) in cases {
        let bytes = encode_varint(v);
        assert_eq!(bytes.len(), width, "width of {v}");
        assert_eq!(decode64(&bytes), Ok((v, width)), "round trip of {v}");
        assert_eq!(scan_varint(&bytes), Ok((v, width)));
        let mut followed = bytes.clone();
        followed.extend_from_slice(&[0xff, 0x00]);
        assert_eq!(decode64(&followed), Ok((v, width)));
    }
}

#[test]
fn varint_round_trip_over_a_range() {
    for v in -70_000i64..70_000 {
        let bytes = encode_varint(v);
        assert_eq!(scan_varint(&bytes), Ok((v, bytes.len())));
    }
    let mut v: i64 = 1;
    for _ in 0..62 {
        v *= 2;
        for d in [-1i64, 0, 1] {
            for s in [-1i64, 1] {
                let x = s * (v + d);
                let bytes = encode_varint(x);
                assert_eq!(scan_varint(&bytes), Ok((x, bytes.len())));
            }
        }
    }
}

#[test]
fn varint_encodings_are_as_laid_out() {
    assert_eq!(encode_varint(0), vec![0x00]);
    assert_eq!(encode_varint(63), vec![0x3f]);
    assert_eq!(encode_varint(-63), vec![0x7f]);
    assert_eq!(encode_varint(64), vec![0x80, 0x01]);
    assert_eq!(encode_varint(-64), vec![0xc0, 0x01]);
    assert_eq!(encode_varint(8191), vec![0xbf, 0x7f]);
    assert_eq!(encode_varint(-8191), vec![0xff, 0x7f]);
    assert_eq!(encode_varint(8192), vec![0x80, 0x80, 0x01]);
    assert_eq!(encode_varint(-8192), vec![0xc0, 0x80, 0x01]);
    assert_eq!(encode_varint(-1), vec![0x41]);
}

#[test]
fn varint_of_three_bytes_advances_by_three() {
    let mut buf = ByteBuffer::new(vec![0x80, 0x80, 0x01, 0x55]);
    assert_eq!(buf.read_compressed_i32(), Ok(8192));
    assert_eq!(buf.index(), 3);
    let mut buf = ByteBuffer::new(vec![0x80, 0x80, 0x02, 0x55]);
    assert_eq!(buf.read_compressed_i32(), Ok(16384));
    assert_eq!(buf.index(), 3);
    assert_eq!(encode_varint(16384), vec![0x80, 0x80, 0x02]);
}

#[test]
fn varint_that_runs_out_is_a_short_read() {
    for bytes in [vec![], vec![0x80], vec![0xff, 0xff], vec![0x80, 0x80, 0x80]] {
        let mut buf = ByteBuffer::new(bytes.clone());
        assert_eq!(buf.read_compressed_i32(), Err(ReadError::ShortRead));
        assert_eq!(buf.read_compressed_i64(), Err(ReadError::ShortRead));
        assert_eq!(buf.index(), 0);
        assert_eq!(scan_varint(&bytes), Err(ReadError::ShortRead));
    }
    let mut huge = vec![0xffu8; 40];
    assert_eq!(scan_varint(&huge), Err(ReadError::ShortRead));
    huge.push(0x01);
    assert_eq!(scan_varint(&huge), Err(ReadError::BadVarint));
}

#[test]
fn varint_beyond_the_type_is_ill_formed() {
    let above_i32 = encode_varint(i32::MAX as i64 + 1);
    let mut buf = ByteBuffer::new(above_i32.clone());
    assert_eq!(buf.read_compressed_i32(), Err(ReadError::BadVarint));
    assert_eq!(buf.index(), 0);
    assert_eq!(buf.read_compressed_i64(), Ok(i32::MAX as i64 + 1));
    let below_i32 = encode_varint(i32::MIN as i64 - 1);
    let mut buf = ByteBuffer::new(below_i32);
    assert_eq!(buf.read_compressed_i32(), Err(ReadError::BadVarint));
    assert_eq!(buf.index(), 0);
    // magnitude 2^63 with the sign clear is one more than the largest value
    let mut above_i64 = encode_varint(i64::MIN);
    above_i64[0] &= !0x40;
    let mut buf = ByteBuffer::new(above_i64);
    assert_eq!(buf.read_compressed_i64(), Err(ReadError::BadVarint));
    assert_eq!(buf.index(), 0);
    let mut buf = ByteBuffer::new(vec![0xff, 0xff, 0xff, 0xff, 0xff, 0xff, 0xff, 0xff, 0xff, 0xff, 0x01]);
    assert_eq!(buf.read_compressed_i64(), Err(ReadError::BadVarint));
    assert_eq!(buf.index(), 0);
}

#[test]
fn varint_with_idle_groups_keeps_its_value() {
    let mut buf = ByteBuffer::new(vec![0x85, 0x80, 0x80, 0x80, 0x80, 0x80, 0x80, 0x80, 0x80, 0x80, 0x80, 0x80, 0x00, 0x09]);
    assert_eq!(buf.read_compressed_i32(), Ok(5));
    assert_eq!(buf.index(), 13);
    let mut zero = ByteBuffer::new(vec![0x40]);
    assert_eq!(zero.read_compressed_i32(), Ok(0));
}

#[test]
fn varint_vec_reads_count_then_values() {
    let mut bytes = encode_varint(3);
    bytes.extend(encode_varint(-5));
    bytes.extend(encode_varint(8192));
    bytes.extend(encode_varint(0));
    bytes.push(0x7e);
    let total = bytes.len();
    let mut buf = ByteBuffer::new(bytes);
    assert_eq!(buf.read_compressed_i32_vec(), Ok(vec![-5, 8192, 0]));
    assert_eq!(buf.index(), total - 1);

    let mut none = ByteBuffer::new(vec![0x00, 0x01]);
    assert_eq!(none.read_compressed_i32_vec(), Ok(vec![]));
    assert_eq!(none.index(), 1);

    let mut negative = ByteBuffer::new(encode_varint(-2));
    assert_eq!(negative.read_compressed_i32_vec(), Ok(vec![]));
    assert_eq!(negative.index(), 1);
}

#[test]
fn varint_vec_fails_without_moving() {
    let mut bytes = encode_varint(3);
    bytes.extend(encode_varint(1));
    bytes.extend(encode_varint(2));
    let mut cut = ByteBuffer::new(bytes.clone());
    assert_eq!(cut.read_u8_static(), Ok(3));
    assert_eq!(cut.read_compressed_i32_vec(), Err(ReadError::ShortRead));
    assert_eq!(cut.index(), 0);

    bytes.extend(encode_varint(1i64 << 40));
    let mut wide = ByteBuffer::new(bytes);
    assert_eq!(wide.read_compressed_i32_vec(), Err(ReadError::BadVarint));
    assert_eq!(wide.index(), 0);

    let mut empty = ByteBuffer::new(vec![]);
    assert_eq!(empty.read_compressed_i32_vec(), Err(ReadError::ShortRead));
}

#[test]
fn static_variants_of_the_longer_reads_do_not_move() {
    let mut bytes = vec![0x00, 0x03];
    bytes.extend_from_slice(b"abc");
    let text = ByteBuffer::new(bytes);
    assert_eq!(text.read_string_static(), Ok("abc".to_string()));
    assert_eq!(text.index(), 0);
    assert_eq!(ByteBuffer::new(vec![0, 9, b'x']).read_string_static(), Err(ReadError::ShortRead));
    assert_eq!(ByteBuffer::new(vec![0, 1, 0x80]).read_string_static(), Err(ReadError::InvalidUtf8));

    let mut number = ByteBuffer::new(encode_varint(-8192));
    assert_eq!(number.read_compressed_i32_static(), Ok(-8192));
    assert_eq!(number.read_compressed_i64_static(), Ok(-8192));
    assert_eq!(number.index(), 0);
    assert_eq!(number.read_compressed_i32(), Ok(-8192));
    assert_eq!(number.read_compressed_i32_static(), Err(ReadError::ShortRead));
    let wide = ByteBuffer::new(encode_varint(1 << 35));
    assert_eq!(wide.read_compressed_i32_static(), Err(ReadError::BadVarint));
    assert_eq!(wide.read_compressed_i64_static(), Ok(1 << 35));

    let mut run = encode_varint(2);
    run.extend(encode_varint(7));
    run.extend(encode_varint(-7));
    let mut counted = ByteBuffer::new(run);
    assert_eq!(counted.read_compressed_i32_vec_static(), Ok(vec![7, -7]));
    assert_eq!(counted.index(), 0);
    assert_eq!(counted.read_compressed_i32_vec(), Ok(vec![7, -7]));
    assert_eq!(counted.index(), 3);
    assert_eq!(counted.read_compressed_i32_vec_static(), Err(ReadError::ShortRead));
}
