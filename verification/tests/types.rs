use anchordb::types::{AnchorData, DataType, MemoryRecord, Priority, MAGIC_BYTES};

#[test]
fn priority_bytes_round_trip() {
    for (p, b) in [
        (Priority::Ephemeral, 0u8),
        (Priority::Normal, 1),
        (Priority::Important, 2),
        (Priority::Critical, 3),
    ] {
        assert_eq!(p.to_u8(), b);
        assert_eq!(Priority::from_u8(b), Some(p));
        assert_eq!(Priority::try_from(b), Ok(p));
    }
    assert_eq!(Priority::from_u8(4), None);
    assert_eq!(Priority::try_from(0xff), Err(()));
}

#[test]
fn priority_default_is_normal() {
    assert_eq!(Priority::default(), Priority::Normal);
}

#[test]
fn data_type_bytes_round_trip() {
    for (d, b) in [(DataType::Bytes, 0u8), (DataType::Str, 1), (DataType::Json, 2)] {
        assert_eq!(d.to_u8(), b);
        assert_eq!(DataType::from_u8(b), Some(d));
        assert_eq!(DataType::try_from(b), Ok(d));
    }
    assert_eq!(DataType::try_from(3), Err(()));
}

#[test]
fn anchor_data_kind_and_bytes() {
    let b = AnchorData::Bytes(vec![0, 1, 2]);
    assert_eq!(b.data_type(), DataType::Bytes);
    assert_eq!(b.as_bytes(), &[0, 1, 2]);
    let s = AnchorData::Str("héllo".to_string());
    assert_eq!(s.data_type(), DataType::Str);
    assert_eq!(s.as_bytes(), "héllo".as_bytes());
    let j = AnchorData::Json("{\"a\":1}".to_string());
    assert_eq!(j.data_type(), DataType::Json);
    assert_eq!(j.as_bytes(), b"{\"a\":1}");
}

#[test]
fn memory_record_from_parts_keeps_fields() {
    let r = MemoryRecord::from_parts(
        7,
        vec!["t".to_string()],
        AnchorData::Str("x".to_string()),
        Priority::Critical,
        42,
    );
    assert_eq!(r.id, 7);
    assert_eq!(r.tags, vec!["t".to_string()]);
    assert_eq!(r.data, AnchorData::Str("x".to_string()));
    assert_eq!(r.priority, Priority::Critical);
    assert_eq!(r.timestamp, 42);
}

#[test]
fn magic_is_acdb() {
    assert_eq!(&MAGIC_BYTES, b"ACDB");
}
