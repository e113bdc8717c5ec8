use rotmg_sniffer::byte_buffer::{ByteBuffer, ReadError};
use rotmg_sniffer::data_types::{
    GroundTileData, ObjectData, ObjectStatusData, PositionData, StatData, StatType, StatValue,
};
use rotmg_sniffer::varint::encode_varint;

fn text(s: &str) -> Vec<u8> {
    let mut out = (s.len() as u16).to_be_bytes().to_vec();
    out.extend_from_slice(s.as_bytes());
    out
}

fn stat(code: u8, value: &[u8], two: i64) -> Vec<u8> {
    let mut out = vec![code];
    out.extend_from_slice(value);
    out.extend(encode_varint(two));
    out
}

fn status(object_id: i64, stats: &[Vec<u8>]) -> Vec<u8> {
    let mut out = encode_varint(object_id);
    out.extend_from_slice(&1.5f32.to_be_bytes());
    out.extend_from_slice(&(-3.0f32).to_be_bytes());
    out.extend(encode_varint(stats.len() as i64));
    for s in stats {
        out.extend_from_slice(s);
    }
    out
}

#[test]
fn position_is_two_singles() {
    let mut bytes = 1.5f32.to_be_bytes().to_vec();
    bytes.extend_from_slice(&(-3.0f32).to_be_bytes());
    bytes.push(0xee);
    let mut buf = ByteBuffer::new(bytes);
    let p = PositionData::deserialize_from_buf(&mut buf).unwrap();
    assert_eq!(f32::from_bits(p.x), 1.5);
    assert_eq!(f32::from_bits(p.y), -3.0);
    assert_eq!(buf.index(), 8);
    let mut short = ByteBuffer::new(vec![0; 7]);
    assert_eq!(PositionData::deserialize_from_buf(&mut short).err(), Some(ReadError::ShortRead));
    assert_eq!(short.index(), 0);
}

#[test]
fn ground_tiles() {
    let mut buf = ByteBuffer::new(vec![0, 1, 0, 2, 1, 0, 0xff]);
    assert_eq!(
        GroundTileData::deserialize_from_buf(&mut buf),
        Ok(GroundTileData { x: 1, y: 2, type_num: 256 })
    );
    assert_eq!(buf.index(), 6);
    assert_eq!(GroundTileData::deserialize_from_buf(&mut buf), Err(ReadError::ShortRead));
    assert_eq!(buf.index(), 6);
    let mut short = ByteBuffer::new(vec![0, 1, 0, 2, 1]);
    assert_eq!(GroundTileData::deserialize_from_buf(&mut short), Err(ReadError::ShortRead));
    assert_eq!(short.index(), 0);
}

#[test]
fn ground_tile_runs_and_arrays() {
    let tiles = vec![0, 1, 0, 2, 0, 3, 0, 4, 0, 5, 0, 6];
    let mut buf = ByteBuffer::new(tiles.clone());
    assert_eq!(
        GroundTileData::deserialize_n_from_buf(&mut buf, 2),
        Ok(vec![
            GroundTileData { x: 1, y: 2, type_num: 3 },
            GroundTileData { x: 4, y: 5, type_num: 6 }
        ])
    );
    assert_eq!(buf.index(), 12);
    let mut buf = ByteBuffer::new(tiles.clone());
    assert_eq!(GroundTileData::deserialize_n_from_buf(&mut buf, 0), Ok(vec![]));
    assert_eq!(buf.index(), 0);
    assert_eq!(GroundTileData::deserialize_n_from_buf(&mut buf, 3), Err(ReadError::ShortRead));
    assert_eq!(buf.index(), 0);

    let mut counted = encode_varint(2);
    counted.extend_from_slice(&tiles);
    let mut buf = ByteBuffer::new(counted);
    assert_eq!(GroundTileData::deserialize_arr_from_buf(&mut buf).map(|v| v.len()), Ok(2));
    assert_eq!(buf.index(), 13);

    let mut too_many = encode_varint(3);
    too_many.extend_from_slice(&tiles);
    let mut buf = ByteBuffer::new(too_many);
    assert_eq!(GroundTileData::deserialize_arr_from_buf(&mut buf), Err(ReadError::ShortRead));
    assert_eq!(buf.index(), 0);

    let mut negative = encode_varint(-1);
    negative.extend_from_slice(&tiles);
    let mut buf = ByteBuffer::new(negative);
    assert_eq!(GroundTileData::deserialize_arr_from_buf(&mut buf), Err(ReadError::BadVarint));
    assert_eq!(buf.index(), 0);
}

#[test]
fn stat_kinds_by_their_wire_code() {
    assert_eq!(StatType::from_u8(0), StatType::MaxHp);
    assert_eq!(StatType::from_u8(1), StatType::Hp);
    assert_eq!(StatType::from_u8(6), StatType::Exp);
    assert_eq!(StatType::from_u8(31), StatType::Name);
    assert_eq!(StatType::from_u8(53), StatType::DesterityBoost);
    assert_eq!(StatType::from_u8(100), StatType::ChallengerStarBG);
    assert_eq!(StatType::from_u8(127), StatType::Enchantment);
    assert_eq!(StatType::from_u8(128), StatType::Unknown(128));
    assert_eq!(StatType::from_u8(255), StatType::Unknown(255));
    let mut seen = Vec::new();
    for code in 0u8..=255 {
        let kind = StatType::from_u8(code);
        assert!(!seen.contains(&kind));
        assert_eq!(matches!(kind, StatType::Unknown(_)), code >= 128);
        seen.push(kind);
    }
}

#[test]
fn stat_values_are_text_or_numbers() {
    let mut buf = ByteBuffer::new(text("Alice"));
    match StatValue::deserialize_from_buf(&mut buf, StatType::Name) {
        Ok(StatValue::StringValue(s)) => assert_eq!(s, "Alice"),
        other => panic!("read as {other:?}"),
    }
    assert_eq!(buf.index(), 7);
    let mut buf = ByteBuffer::new(encode_varint(-770));
    match StatValue::deserialize_from_buf(&mut buf, StatType::Hp) {
        Ok(StatValue::IntValue(n)) => assert_eq!(n, -770),
        other => panic!("read as {other:?}"),
    }
    let mut buf = ByteBuffer::new(encode_varint(6));
    match StatValue::deserialize_from_buf(&mut buf, StatType::Unknown(6)) {
        Ok(StatValue::IntValue(n)) => assert_eq!(n, 6),
        other => panic!("read as {other:?}"),
    }
    for kind in [
        StatType::Exp,
        StatType::Name,
        StatType::AccountId,
        StatType::OwnerAccountId,
        StatType::GuildName,
        StatType::Texture,
        StatType::PetName,
        StatType::GraveAccountId,
        StatType::Unknown121,
        StatType::Enchantment,
    ] {
        let mut buf = ByteBuffer::new(text("x"));
        assert!(matches!(
            StatValue::deserialize_from_buf(&mut buf, kind),
            Ok(StatValue::StringValue(_))
        ));
    }
    let mut bad = ByteBuffer::new(vec![0, 1, 0xff]);
    assert_eq!(
        StatValue::deserialize_from_buf(&mut bad, StatType::Name).err(),
        Some(ReadError::InvalidUtf8)
    );
    assert_eq!(bad.index(), 0);
}

#[test]
fn stats() {
    let mut bytes = stat(1, &encode_varint(700), -1);
    bytes.extend(stat(31, &text("Bob"), 0));
    bytes.extend(stat(200, &encode_varint(5), 9));
    let mut buf = ByteBuffer::new(bytes);
    let all = StatData::deserialize_n_from_buf(&mut buf, 3).unwrap();
    assert_eq!(all[0].stat_type, StatType::Hp);
    assert!(matches!(all[0].stat_value, StatValue::IntValue(700)));
    assert_eq!(all[0].stat_value_two, -1);
    assert_eq!(all[1].stat_type, StatType::Name);
    assert!(matches!(&all[1].stat_value, StatValue::StringValue(s) if s == "Bob"));
    assert_eq!(all[2].stat_type, StatType::Unknown(200));
    assert!(matches!(all[2].stat_value, StatValue::IntValue(5)));
    assert_eq!(all[2].stat_value_two, 9);
    assert_eq!(buf.rem_len(), 0);

    let mut cut = stat(1, &encode_varint(700), -1);
    cut.pop();
    let mut buf = ByteBuffer::new(cut);
    assert_eq!(StatData::deserialize_from_buf(&mut buf).err(), Some(ReadError::ShortRead));
    assert_eq!(buf.index(), 0);

    let mut counted = encode_varint(1);
    counted.extend(stat(4, &encode_varint(1i64 << 33), 0));
    let mut buf = ByteBuffer::new(counted);
    assert_eq!(StatData::deserialize_arr_from_buf(&mut buf).err(), Some(ReadError::BadVarint));
    assert_eq!(buf.index(), 0);
}

#[test]
fn object_states_and_objects() {
    let one = status(-12, &[stat(1, &encode_varint(700), 0), stat(31, &text("Bob"), 0)]);
    let mut buf = ByteBuffer::new(one.clone());
    let s = ObjectStatusData::deserialize_from_buf(&mut buf).unwrap();
    assert_eq!(s.object_id, -12);
    assert_eq!(f32::from_bits(s.position.x), 1.5);
    assert_eq!(f32::from_bits(s.position.y), -3.0);
    assert_eq!(s.stats.len(), 2);
    assert_eq!(buf.rem_len(), 0);

    let mut object = 0x0301u16.to_be_bytes().to_vec();
    object.extend_from_slice(&one);
    let mut two = encode_varint(2);
    two.extend_from_slice(&object);
    two.extend_from_slice(&object);
    let mut buf = ByteBuffer::new(two.clone());
    let objects = ObjectData::deserialize_arr_from_buf(&mut buf).unwrap();
    assert_eq!(objects.len(), 2);
    assert_eq!(objects[1].type_num, 0x0301);
    assert_eq!(objects[1].status_data.object_id, -12);
    assert_eq!(objects[1].status_data.stats[1].stat_type, StatType::Name);
    assert_eq!(buf.rem_len(), 0);

    two.pop();
    let mut buf = ByteBuffer::new(two);
    assert_eq!(ObjectData::deserialize_arr_from_buf(&mut buf).err(), Some(ReadError::ShortRead));
    assert_eq!(buf.index(), 0);

    let mut states = encode_varint(1);
    states.extend_from_slice(&one);
    let mut buf = ByteBuffer::new(states);
    assert_eq!(ObjectStatusData::deserialize_arr_from_buf(&mut buf).map(|v| v.len()), Ok(1));
    let mut buf = ByteBuffer::new(object.clone());
    assert_eq!(ObjectData::deserialize_n_from_buf(&mut buf, 1).map(|v| v.len()), Ok(1));
    let mut buf = ByteBuffer::new(one);
    assert_eq!(ObjectStatusData::deserialize_n_from_buf(&mut buf, 2).err(), Some(ReadError::ShortRead));
    assert_eq!(buf.index(), 0);
    let mut buf = ByteBuffer::new(object[..1].to_vec());
    assert_eq!(ObjectData::deserialize_from_buf(&mut buf).err(), Some(ReadError::ShortRead));
}
