use bytes::BytesMut;
use pg_codecs::error::CodecError;
use pg_codecs::pg_geometry::{
    fixed_from_sql, fixed_to_sql, path_from_sql, path_to_sql, polygon_from_sql, polygon_to_sql,
    render_box, render_circle, render_line, render_path, render_point, render_polygon,
};
use pg_codecs::pg_macaddr8::PgMacAddr8;
use pg_codecs::pg_time_tz::{join_time_and_offset, PgTimeWithTz};

fn words_bytes(words: &[f64]) -> Vec<u8> {
    words.iter().flat_map(|w| w.to_be_bytes()).collect()
}

#[test]
fn point_coordinates_are_carried_bit_for_bit() {
    let raw = words_bytes(&[1.5, -2.25]);
    let words = fixed_from_sql("point", "point", &raw, 2).unwrap();
    assert_eq!(words, vec![1.5f64.to_bits(), (-2.25f64).to_bits()]);
    let mut out = BytesMut::new();
    assert_eq!(fixed_to_sql("point", "point", &words, &mut out), Ok(()));
    assert_eq!(out.to_vec(), raw);
}

#[test]
fn fixed_values_errors() {
    let raw = words_bytes(&[1.0, 2.0, 3.0]);
    assert_eq!(fixed_from_sql("point", "line", &raw, 3), Err(CodecError::UnexpectedType));
    assert_eq!(fixed_from_sql("line", "line", &raw[..23], 3), Err(CodecError::TruncatedInput));
    assert_eq!(fixed_from_sql("line", "line", &raw, 4), Err(CodecError::TruncatedInput));
    assert!(fixed_from_sql("line", "line", &raw, 3).is_ok());
    assert_eq!(fixed_from_sql("line", "line", &raw, 0), Ok(vec![]));
    let mut out = BytesMut::new();
    assert_eq!(fixed_to_sql("box", "circle", &vec![1, 2, 3], &mut out), Err(CodecError::UnexpectedType));
    assert!(out.is_empty());
}

#[test]
fn path_decodes_flag_count_and_points() {
    let mut raw = vec![1u8, 0, 0, 0, 2];
    raw.extend(words_bytes(&[1.0, 2.0, 3.0, 4.0]));
    let (closed, words) = path_from_sql("path", &raw).unwrap();
    assert!(closed);
    assert_eq!(words, vec![1.0f64.to_bits(), 2.0f64.to_bits(), 3.0f64.to_bits(), 4.0f64.to_bits()]);
    let mut out = BytesMut::new();
    assert_eq!(path_to_sql("path", true, &words, &mut out), Ok(()));
    assert_eq!(out.to_vec(), raw);
    raw[0] = 0;
    let (closed, _) = path_from_sql("path", &raw).unwrap();
    assert!(!closed);
}

#[test]
fn path_and_polygon_errors() {
    let mut raw = vec![1u8, 0, 0, 0, 2];
    raw.extend(words_bytes(&[1.0, 2.0, 3.0]));
    assert_eq!(path_from_sql("path", &raw), Err(CodecError::TruncatedInput));
    assert_eq!(path_from_sql("path", &raw[..4]), Err(CodecError::TruncatedInput));
    assert_eq!(path_from_sql("path", &[]), Err(CodecError::TruncatedInput));
    assert_eq!(path_from_sql("polygon", &raw), Err(CodecError::UnexpectedType));
    assert_eq!(path_from_sql("path", &[0, 0xff, 0xff, 0xff, 0xff]), Err(CodecError::LengthOutOfRange));
    assert_eq!(polygon_from_sql("polygon", &[0xff, 0xff, 0xff, 0xff]), Err(CodecError::LengthOutOfRange));
    assert_eq!(polygon_from_sql("polygon", &[0, 0, 0, 1]), Err(CodecError::TruncatedInput));
    assert_eq!(polygon_from_sql("path", &[0, 0, 0, 0]), Err(CodecError::UnexpectedType));
    let mut out = BytesMut::new();
    assert_eq!(polygon_to_sql("path", &vec![], &mut out), Err(CodecError::UnexpectedType));
    assert_eq!(path_to_sql("polygon", false, &vec![], &mut out), Err(CodecError::UnexpectedType));
}

#[test]
fn polygon_decodes_count_and_points() {
    let mut raw = vec![0u8, 0, 0, 1];
    raw.extend(words_bytes(&[0.5, -0.5]));
    let words = polygon_from_sql("polygon", &raw).unwrap();
    assert_eq!(words, vec![0.5f64.to_bits(), (-0.5f64).to_bits()]);
    let mut out = BytesMut::new();
    assert_eq!(polygon_to_sql("polygon", &words, &mut out), Ok(()));
    assert_eq!(out.to_vec(), raw);
    assert_eq!(polygon_from_sql("polygon", &[0, 0, 0, 0]), Ok(vec![]));
}

#[test]
fn geometric_texts() {
    assert_eq!(render_point("1", "2.5"), "(1,2.5)");
    assert_eq!(render_line("1", "2", "3"), "{1,2,3}");
    assert_eq!(render_box("(3,4)", "(1,2)"), "(3,4),(1,2)");
    assert_eq!(render_circle("(1,2)", "3"), "<(1,2),3>");
    let points = vec!["(1,2)".to_string(), "(3,4)".to_string()];
    assert_eq!(render_path(true, &points), "((1,2),(3,4)))");
    assert_eq!(render_path(false, &points), "[(1,2),(3,4)])");
    assert_eq!(render_polygon(&points), "((1,2),(3,4))");
    assert_eq!(render_polygon(&vec![]), "()");
}

#[test]
fn macaddr8_text_is_lower_case_pairs() {
    let v = PgMacAddr8([0xAB, 0x0D, 0xEF, 0x12, 0x34, 0x56, 0x78, 0x9A]);
    assert_eq!(v.to_string(), "ab:0d:ef:12:34:56:78:9a");
    assert_eq!(PgMacAddr8([0; 8]).to_string(), "00:00:00:00:00:00:00:00");
    assert_eq!(PgMacAddr8([0xff; 8]).to_string(), "ff:ff:ff:ff:ff:ff:ff:ff");
}

fn timetz_bytes(us: i64, west: i32) -> Vec<u8> {
    let mut raw = us.to_be_bytes().to_vec();
    raw.extend_from_slice(&west.to_be_bytes());
    raw
}

fn parts(v: &PgTimeWithTz) -> (u32, u32, i32) {
    (v.seconds(), v.nanosecond(), v.offset_east())
}

#[test]
fn timetz_decodes_time_and_offset() {
    let v = PgTimeWithTz::from_sql("timetz", &timetz_bytes(3_723_000_500, -7200)).unwrap();
    assert_eq!(parts(&v), (3723, 500_000, 7200));
    let v = PgTimeWithTz::from_sql("timetz", &timetz_bytes(0, 0)).unwrap();
    assert_eq!(parts(&v), (0, 0, 0));
    let v = PgTimeWithTz::from_sql("timetz", &timetz_bytes(86_399_999_999, 86_399)).unwrap();
    assert_eq!(parts(&v), (86_399, 999_999_000, -86_399));
}

#[test]
fn timetz_wraps_around_the_day() {
    let v = PgTimeWithTz::from_sql("timetz", &timetz_bytes(86_400_000_000, 0)).unwrap();
    assert_eq!(parts(&v), (0, 0, 0));
    let v = PgTimeWithTz::from_sql("timetz", &timetz_bytes(-1, 0)).unwrap();
    assert_eq!(parts(&v), (86_399, 999_999_000, 0));
    let v = PgTimeWithTz::from_sql("timetz", &timetz_bytes(-1_000_000, 0)).unwrap();
    assert_eq!(parts(&v), (86_399, 0, 0));
    let v = PgTimeWithTz::from_sql("timetz", &timetz_bytes(i64::MIN, 0)).unwrap();
    assert_eq!(parts(&v), (71_945, 224_192_000, 0));
    let v = PgTimeWithTz::from_sql("timetz", &timetz_bytes(i64::MAX, 0)).unwrap();
    assert_eq!(parts(&v), (14_454, 775_807_000, 0));
}

#[test]
fn timetz_errors() {
    let raw = timetz_bytes(0, 0);
    assert_eq!(PgTimeWithTz::from_sql("time", &raw).err(), Some(CodecError::UnexpectedType));
    assert_eq!(PgTimeWithTz::from_sql("timetz", &raw[..11]).err(), Some(CodecError::TruncatedInput));
    assert_eq!(PgTimeWithTz::from_sql("timetz", &raw[..7]).err(), Some(CodecError::TruncatedInput));
    for west in [86_400, -86_400, i32::MIN, i32::MAX] {
        assert_eq!(
            PgTimeWithTz::from_sql("timetz", &timetz_bytes(0, west)).err(),
            Some(CodecError::OffsetOutOfRange)
        );
    }
}

#[test]
fn timetz_encodes_and_round_trips() {
    let v = PgTimeWithTz::new(3723, 500_000, 7200).unwrap();
    let mut out = BytesMut::new();
    assert_eq!(v.to_sql("timetz", &mut out), Ok(()));
    assert_eq!(out.to_vec(), timetz_bytes(3_723_000_500, -7200));
    assert_eq!(PgTimeWithTz::from_sql("timetz", &out), Ok(v));
    let v = PgTimeWithTz::new(1, 999, 0).unwrap();
    let mut out = BytesMut::new();
    assert_eq!(v.to_sql("timetz", &mut out), Ok(()));
    assert_eq!(out.to_vec(), timetz_bytes(1_000_000, 0));
    let mut out = BytesMut::new();
    assert_eq!(v.to_sql("time", &mut out), Err(CodecError::UnexpectedType));
    assert!(out.is_empty());
}

#[test]
fn timetz_parts_must_make_a_time() {
    assert!(PgTimeWithTz::new(86_399, 999_999_999, 86_399).is_some());
    assert!(PgTimeWithTz::new(86_400, 0, 0).is_none());
    assert!(PgTimeWithTz::new(0, 1_000_000_000, 0).is_none());
    assert!(PgTimeWithTz::new(59, 1_999_999_999, 0).is_some());
    assert!(PgTimeWithTz::new(59, 2_000_000_000, 0).is_none());
    assert!(PgTimeWithTz::new(0, 0, 86_400).is_none());
    assert!(PgTimeWithTz::new(0, 0, -86_400).is_none());
}

#[test]
fn timetz_text_within_a_leap_second() {
    let v = PgTimeWithTz::new(59, 1_000_000_000, 0).unwrap();
    assert_eq!(v.to_string(), "00:00:60+00:00");
    let v = PgTimeWithTz::new(86_399, 1_500_000_000, 0).unwrap();
    assert_eq!(v.to_string(), "23:59:60.500+00:00");
    let v = PgTimeWithTz::new(119, 1_999_999_999, -1).unwrap();
    assert_eq!(v.to_string(), "00:01:60.999999999-00:00:01");
}

#[test]
fn timetz_text_of_what_decodes() {
    let v = PgTimeWithTz::from_sql("timetz", &timetz_bytes(45_296_007_000, -3_600)).unwrap();
    assert_eq!(v.to_string(), "12:34:56.007+01:00");
    let v = PgTimeWithTz::from_sql("timetz", &timetz_bytes(-1, 19_800)).unwrap();
    assert_eq!(v.to_string(), "23:59:59.999999-05:30");
}

#[test]
fn timetz_text() {
    let v = PgTimeWithTz::new(3723, 0, 7200).unwrap();
    assert_eq!(v.to_string(), "01:02:03+02:00");
    let v = PgTimeWithTz::new(3723, 500_000_000, -19_800).unwrap();
    assert_eq!(v.to_string(), "01:02:03.500-05:30");
    let v = PgTimeWithTz::new(0, 1_000, 1).unwrap();
    assert_eq!(v.to_string(), "00:00:00.000001+00:00:01");
    let v = PgTimeWithTz::new(86_399, 999_999_999, -86_399).unwrap();
    assert_eq!(v.to_string(), "23:59:59.999999999-23:59:59");
    let v = PgTimeWithTz::new(0, 0, 0).unwrap();
    assert_eq!(v.to_string(), "00:00:00+00:00");
    let v = PgTimeWithTz::new(45_296, 7_000_000, 3_600).unwrap();
    assert_eq!(v.to_string(), "12:34:56.007+01:00");
    let v = PgTimeWithTz::new(45_296, 120_000, -60).unwrap();
    assert_eq!(v.to_string(), "12:34:56.000120-00:01");
    let v = PgTimeWithTz::new(45_296, 1, 86_399).unwrap();
    assert_eq!(v.to_string(), "12:34:56.000000001+23:59:59");
    assert_eq!(join_time_and_offset("12:00:00", "+01:00"), "12:00:00+01:00");
    assert!(PgTimeWithTz::accepts("timetz"));
    assert!(!PgTimeWithTz::accepts("time"));
}
