use bytes::BytesMut;
use pg_codecs::error::CodecError;
use pg_codecs::pg_interval::{format_pg_interval, PgInterval};
use pg_codecs::pg_lsn::MyPgLsn;
use pg_codecs::pg_macaddr8::{macaddr8_from_sql, macaddr8_to_sql, PgMacAddr8};
use pg_codecs::pg_snapshot::PgSnapshot;
use pg_codecs::pg_xid::PgXid;
use pg_codecs::pg_xml::PgXml;

fn interval(months: i32, days: i32, microseconds: i64) -> PgInterval {
    PgInterval { months, days, microseconds }
}

#[test]
fn macaddr8_reads_exactly_eight_bytes() {
    assert_eq!(macaddr8_from_sql(&[1, 2, 3, 4, 5, 6, 7, 8]), Ok([1, 2, 3, 4, 5, 6, 7, 8]));
    assert_eq!(macaddr8_from_sql(&[1, 2, 3, 4, 5, 6, 7]), Err(CodecError::LengthMismatch));
    assert_eq!(macaddr8_from_sql(&[1, 2, 3, 4, 5, 6, 7, 8, 9]), Err(CodecError::LengthMismatch));
    assert_eq!(macaddr8_from_sql(&[]), Err(CodecError::LengthMismatch));
}

#[test]
fn macaddr8_writes_its_bytes() {
    let mut out = BytesMut::new();
    out.extend_from_slice(&[0xaa]);
    macaddr8_to_sql([8, 7, 6, 5, 4, 3, 2, 1], &mut out);
    assert_eq!(out.to_vec(), vec![0xaa, 8, 7, 6, 5, 4, 3, 2, 1]);
    let mut out = BytesMut::new();
    assert_eq!(PgMacAddr8([1, 2, 3, 4, 5, 6, 7, 8]).to_sql(&mut out), Ok(()));
    assert_eq!(out.to_vec(), vec![1, 2, 3, 4, 5, 6, 7, 8]);
    assert_eq!(PgMacAddr8::from_sql(&out), Ok(PgMacAddr8([1, 2, 3, 4, 5, 6, 7, 8])));
    assert!(PgMacAddr8::accepts("macaddr8"));
    assert!(!PgMacAddr8::accepts("macaddr"));
}

#[test]
fn xid_is_big_endian() {
    assert_eq!(PgXid::from_sql(&[0, 0, 1, 2]), Ok(PgXid(258)));
    assert_eq!(PgXid::from_sql(&[0xff, 0xff, 0xff, 0xff]), Ok(PgXid(u32::MAX)));
    assert_eq!(PgXid::from_sql(&[0x12, 0x34, 0x56, 0x78]), Ok(PgXid(0x12345678)));
    assert_eq!(PgXid::from_sql(&[0, 0, 1]), Err(CodecError::LengthMismatch));
    assert_eq!(PgXid::from_sql(&[0, 0, 1, 2, 3]), Err(CodecError::LengthMismatch));
    let mut out = BytesMut::new();
    assert_eq!(PgXid(0x12345678).to_sql(&mut out), Ok(()));
    assert_eq!(out.to_vec(), vec![0x12, 0x34, 0x56, 0x78]);
}

#[test]
fn xid_renders_in_decimal() {
    assert_eq!(PgXid(0).to_string(), "0");
    assert_eq!(PgXid(7).to_string(), "7");
    assert_eq!(PgXid(10).to_string(), "10");
    assert_eq!(PgXid(4294967295).to_string(), "4294967295");
    assert!(PgXid::accepts("xid"));
    assert!(!PgXid::accepts("xid8"));
}

#[test]
fn lsn_is_big_endian() {
    let v = MyPgLsn::from_sql(&[0x01, 0x02, 0x03, 0x04, 0x05, 0x06, 0x07, 0x08, 0xff]).unwrap();
    assert_eq!(v.lsn, 0x0102030405060708);
    assert_eq!(MyPgLsn::from_sql(&[0; 7]).err(), Some(CodecError::TruncatedInput));
    let mut out = BytesMut::new();
    assert_eq!(MyPgLsn { lsn: 0x0102030405060708 }.to_sql("pg_lsn", &mut out), Ok(()));
    assert_eq!(out.to_vec(), vec![1, 2, 3, 4, 5, 6, 7, 8]);
    let v = MyPgLsn::from_sql(&[0xff; 8]).unwrap();
    assert_eq!(v.lsn, u64::MAX);
}

#[test]
fn lsn_refuses_other_types() {
    let mut out = BytesMut::new();
    assert_eq!(MyPgLsn { lsn: 1 }.to_sql("int8", &mut out), Err(CodecError::UnexpectedType));
    assert!(out.is_empty());
    assert!(MyPgLsn::accepts("pg_lsn"));
    assert!(!MyPgLsn::accepts("lsn"));
}

#[test]
fn lsn_renders_high_half_and_whole() {
    assert_eq!(MyPgLsn { lsn: 0 }.to_string(), "0/0");
    assert_eq!(MyPgLsn { lsn: 0x16B3748 }.to_string(), "0/16B3748");
    assert_eq!(MyPgLsn { lsn: 0xAB_0000_00CD }.to_string(), "AB/AB000000CD");
    assert_eq!(MyPgLsn { lsn: u64::MAX }.to_string(), "FFFFFFFF/FFFFFFFFFFFFFFFF");
}

#[test]
fn xml_is_utf8_text() {
    let v = PgXml::from_sql("xml", b"<a>\xc3\xa4</a>").unwrap();
    assert_eq!(v.0, "<a>\u{e4}</a>");
    assert_eq!(v.to_string(), "<a>\u{e4}</a>");
    let mut out = BytesMut::new();
    assert_eq!(v.to_sql("xml", &mut out), Ok(()));
    assert_eq!(out.to_vec(), b"<a>\xc3\xa4</a>".to_vec());
}

#[test]
fn xml_errors() {
    assert_eq!(PgXml::from_sql("text", b"<a/>").err(), Some(CodecError::UnexpectedType));
    assert_eq!(PgXml::from_sql("xml", b"<a>\xff</a>").err(), Some(CodecError::InvalidUtf8));
    assert_eq!(PgXml::from_sql("text", b"\xff").err(), Some(CodecError::UnexpectedType));
    let mut out = BytesMut::new();
    let v = PgXml("<a/>".to_string());
    assert_eq!(v.to_sql("text", &mut out), Err(CodecError::UnexpectedType));
    assert!(out.is_empty());
    assert!(PgXml::accepts("xml"));
    assert!(!PgXml::accepts("XML"));
}

#[test]
fn interval_decodes_microseconds_days_months() {
    let mut raw = Vec::new();
    raw.extend_from_slice(&1_500_000i64.to_be_bytes());
    raw.extend_from_slice(&(-3i32).to_be_bytes());
    raw.extend_from_slice(&14i32.to_be_bytes());
    assert_eq!(PgInterval::from_sql("interval", &raw), Ok(interval(14, -3, 1_500_000)));
    raw.push(0);
    assert_eq!(PgInterval::from_sql("interval", &raw), Ok(interval(14, -3, 1_500_000)));
}

#[test]
fn interval_errors() {
    let raw = [0u8; 16];
    assert_eq!(PgInterval::from_sql("timetz", &raw), Err(CodecError::UnexpectedType));
    assert_eq!(PgInterval::from_sql("interval", &raw[..15]), Err(CodecError::TruncatedInput));
    assert_eq!(PgInterval::from_sql("interval", &raw[..8]), Err(CodecError::TruncatedInput));
    assert_eq!(PgInterval::from_sql("interval", &raw[..0]), Err(CodecError::TruncatedInput));
    assert_eq!(PgInterval::from_sql("other", &raw[..0]), Err(CodecError::UnexpectedType));
    let mut out = BytesMut::new();
    assert_eq!(interval(1, 2, 3).to_sql("date", &mut out), Err(CodecError::UnexpectedType));
    assert!(out.is_empty());
}

#[test]
fn interval_encodes_and_round_trips() {
    let v = interval(-1, i32::MAX, i64::MIN);
    let mut out = BytesMut::new();
    assert_eq!(v.to_sql("interval", &mut out), Ok(()));
    let mut expected = Vec::new();
    expected.extend_from_slice(&i64::MIN.to_be_bytes());
    expected.extend_from_slice(&i32::MAX.to_be_bytes());
    expected.extend_from_slice(&(-1i32).to_be_bytes());
    assert_eq!(out.to_vec(), expected);
    assert_eq!(PgInterval::from_sql("interval", &out), Ok(v));
}

#[test]
fn interval_text() {
    assert_eq!(format_pg_interval(&interval(0, 0, 0)), "0 seconds");
    assert_eq!(format_pg_interval(&interval(1, 0, 0)), "1 month");
    assert_eq!(format_pg_interval(&interval(2, 0, 0)), "2 months");
    assert_eq!(format_pg_interval(&interval(-1, 0, 0)), "-1 months");
    assert_eq!(format_pg_interval(&interval(0, 1, 0)), "1 day");
    assert_eq!(format_pg_interval(&interval(0, 30, 0)), "30 days");
    assert_eq!(format_pg_interval(&interval(0, 0, 1_000_000)), "1 second");
    assert_eq!(format_pg_interval(&interval(0, 0, 1)), "1 microsecond");
    assert_eq!(format_pg_interval(&interval(0, 0, 2_000_001)), "2 seconds, 1 microsecond");
    assert_eq!(
        format_pg_interval(&interval(14, 3, 3_723_000_500)),
        "14 months, 3 days, 3723 seconds, 500 microseconds"
    );
    assert_eq!(interval(1, 1, 1_000_001).to_string(), "1 month, 1 day, 1 second, 1 microsecond");
}

#[test]
fn interval_text_rounds_towards_zero() {
    assert_eq!(
        format_pg_interval(&interval(0, 0, -1_500_000)),
        "-1 seconds, -500000 microseconds"
    );
    assert_eq!(format_pg_interval(&interval(0, 0, -999_999)), "-999999 microseconds");
    assert_eq!(
        format_pg_interval(&interval(0, 0, i64::MIN)),
        "-9223372036854 seconds, -775808 microseconds"
    );
    assert_eq!(
        format_pg_interval(&interval(i32::MIN, i32::MAX, i64::MAX)),
        "-2147483648 months, 2147483647 days, 9223372036854 seconds, 775807 microseconds"
    );
}

fn snapshot_bytes(count: i32, xmin: i64, xmax: i64, xips: &[i64]) -> Vec<u8> {
    let mut raw = Vec::new();
    raw.extend_from_slice(&count.to_be_bytes());
    raw.extend_from_slice(&xmin.to_be_bytes());
    raw.extend_from_slice(&xmax.to_be_bytes());
    for xip in xips {
        raw.extend_from_slice(&xip.to_be_bytes());
    }
    raw
}

#[test]
fn snapshot_decodes() {
    let raw = snapshot_bytes(2, 10, 20, &[12, -15]);
    assert_eq!(
        PgSnapshot::from_sql(&raw),
        Ok(PgSnapshot { xmin: 10, xmax: 20, xip_list: vec![12, -15] })
    );
    let raw = snapshot_bytes(0, i64::MIN, i64::MAX, &[]);
    assert_eq!(
        PgSnapshot::from_sql(&raw),
        Ok(PgSnapshot { xmin: i64::MIN, xmax: i64::MAX, xip_list: vec![] })
    );
    // what follows the list is not looked at
    let raw = snapshot_bytes(1, 1, 2, &[3, 4]);
    assert_eq!(PgSnapshot::from_sql(&raw), Ok(PgSnapshot { xmin: 1, xmax: 2, xip_list: vec![3] }));
}

#[test]
fn snapshot_errors() {
    let raw = snapshot_bytes(2, 10, 20, &[12]);
    assert_eq!(PgSnapshot::from_sql(&raw), Err(CodecError::TruncatedInput));
    assert_eq!(PgSnapshot::from_sql(&raw[..27]), Err(CodecError::TruncatedInput));
    assert_eq!(PgSnapshot::from_sql(&raw[..19]), Err(CodecError::TruncatedInput));
    assert_eq!(PgSnapshot::from_sql(&raw[..3]), Err(CodecError::TruncatedInput));
    let raw = snapshot_bytes(-1, 10, 20, &[]);
    assert_eq!(PgSnapshot::from_sql(&raw), Err(CodecError::LengthOutOfRange));
    assert_eq!(PgSnapshot::from_sql(&raw[..19]), Err(CodecError::TruncatedInput));
}

#[test]
fn snapshot_encodes_and_round_trips() {
    let v = PgSnapshot { xmin: 100, xmax: 200, xip_list: vec![150, 160, i64::MIN] };
    let mut out = BytesMut::new();
    assert_eq!(v.to_sql(&mut out), Ok(()));
    assert_eq!(out.to_vec(), snapshot_bytes(3, 100, 200, &[150, 160, i64::MIN]));
    assert_eq!(PgSnapshot::from_sql(&out), Ok(v));
}

#[test]
fn snapshot_text() {
    let v = PgSnapshot { xmin: 10, xmax: 20, xip_list: vec![12, 15] };
    assert_eq!(v.to_string(), "10:20:12,15");
    let v = PgSnapshot { xmin: 10, xmax: 20, xip_list: vec![] };
    assert_eq!(v.to_string(), "10:20:");
    let v = PgSnapshot { xmin: -1, xmax: 0, xip_list: vec![7] };
    assert_eq!(v.to_string(), "-1:0:7");
    assert!(PgSnapshot::accepts("pg_snapshot"));
    assert!(!PgSnapshot::accepts("txid_snapshot"));
}
