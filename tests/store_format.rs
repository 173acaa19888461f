use gompei::codec::{parse_i64, parse_u32, push_decimal, push_signed_decimal};
use gompei::record::{decode_record, encode_record, store_key, LevelData, RecordField, StoredFields};

fn text(bytes: &[u8]) -> String {
    String::from_utf8(bytes.to_vec()).unwrap()
}

#[test]
fn keys_are_namespaced_by_user_id() {
    assert_eq!(text(&store_key(1234, RecordField::Count)), "1234:count");
    assert_eq!(text(&store_key(1234, RecordField::Exp)), "1234:exp");
    assert_eq!(text(&store_key(0, RecordField::Last)), "0:last");
    assert_eq!(
        text(&store_key(u64::MAX, RecordField::Exp)),
        "18446744073709551615:exp"
    );
}

#[test]
fn decimal_text() {
    let mut out = Vec::new();
    push_decimal(&mut out, 0);
    assert_eq!(text(&out), "0");
    let mut out = b"x".to_vec();
    push_decimal(&mut out, 9_870_012);
    assert_eq!(text(&out), "x9870012");
    let mut out = Vec::new();
    push_signed_decimal(&mut out, -1_700_000_000);
    assert_eq!(text(&out), "-1700000000");
    let mut out = Vec::new();
    push_signed_decimal(&mut out, i64::MIN);
    assert_eq!(text(&out), "-9223372036854775808");
}

#[test]
fn parsing_follows_std() {
    for s in ["0", "42", "+42", "007", "4294967295", "4294967296", "", "+", "-1", "1a", " 1", "99999999999999999999"] {
        assert_eq!(parse_u32(s.as_bytes()), s.parse::<u32>().ok(), "{:?}", s);
    }
    for s in ["0", "-0", "+5", "-5", "9223372036854775807", "9223372036854775808", "-9223372036854775808", "-9223372036854775809", "-", "--1", "-+1", "1.5", ""] {
        assert_eq!(parse_i64(s.as_bytes()), s.parse::<i64>().ok(), "{:?}", s);
    }
}

#[test]
fn absent_record_reads_as_zero() {
    let fields = StoredFields { count: None, exp: None, last: None };
    assert_eq!(decode_record(&fields), LevelData::empty());
    assert_eq!(LevelData::empty(), LevelData { msg_count: 0, xp: 0, level: 0, last_msg: 0 });
}

#[test]
fn corrupt_values_read_as_zero() {
    let fields = StoredFields {
        count: Some(b"twelve".to_vec()),
        exp: Some(b"2757".to_vec()),
        last: Some(b"12:00".to_vec()),
    };
    let record = decode_record(&fields);
    assert_eq!(record, LevelData { msg_count: 0, xp: 2757, level: 3, last_msg: 0 });
}

#[test]
fn written_record_reads_back() {
    let record = LevelData::new(17, 149818, 1_600_000_000);
    assert_eq!(record.level, 14);
    let entries = encode_record(99, &record);
    assert_eq!(entries.len(), 3);
    assert_eq!(text(&entries[0].0), "99:count");
    assert_eq!(text(&entries[0].1), "17");
    assert_eq!(text(&entries[1].0), "99:exp");
    assert_eq!(text(&entries[1].1), "149818");
    assert_eq!(text(&entries[2].0), "99:last");
    assert_eq!(text(&entries[2].1), "1600000000");
    let fields = StoredFields {
        count: Some(entries[0].1.clone()),
        exp: Some(entries[1].1.clone()),
        last: Some(entries[2].1.clone()),
    };
    assert_eq!(decode_record(&fields), record);
}
