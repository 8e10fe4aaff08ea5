use bytes::BytesMut;
use pg_codecs::error::CodecError;
use pg_codecs::pg_hstore::{read_length, read_string, PgHstore};
use pg_codecs::pg_range_formatter::{_parse_bound, PgRange};
use pg_codecs::pg_tsvector::{Lexeme, PgTsVector};
use std::ops::Bound;

fn lexeme(word: &str, positions: &[i32]) -> Lexeme {
    Lexeme { word: word.to_string(), positions: positions.to_vec() }
}

const VECTOR: [u8; 25] = [
    0, 0, 0, 2, b'c', b'a', b't', 0, 0, 2, 0, 1, 0, 5, b'd', b'o', b'g', 0, 0, 1, 0xff, 0xff, 9, 9,
    9,
];

#[test]
fn tsvector_decodes() {
    let v = PgTsVector::from_sql(&VECTOR).unwrap();
    assert_eq!(v.words, vec![lexeme("cat", &[1, 5]), lexeme("dog", &[65535])]);
    let v = PgTsVector::from_sql(&[0, 0, 0, 0]).unwrap();
    assert_eq!(v.words, vec![]);
    let v = PgTsVector::from_sql(&[0, 0, 0, 1, 0, 0, 0]).unwrap();
    assert_eq!(v.words, vec![lexeme("", &[])]);
}

#[test]
fn tsvector_errors() {
    assert_eq!(PgTsVector::from_sql(&VECTOR[..3]), Err(CodecError::TruncatedInput));
    assert_eq!(PgTsVector::from_sql(&VECTOR[..4]), Err(CodecError::TruncatedInput));
    // no terminator
    assert_eq!(PgTsVector::from_sql(&VECTOR[..7]), Err(CodecError::TruncatedInput));
    // no count of positions
    assert_eq!(PgTsVector::from_sql(&VECTOR[..9]), Err(CodecError::TruncatedInput));
    // a position cut short
    assert_eq!(PgTsVector::from_sql(&VECTOR[..13]), Err(CodecError::TruncatedInput));
    assert_eq!(PgTsVector::from_sql(&VECTOR[..21]), Err(CodecError::TruncatedInput));
    assert_eq!(
        PgTsVector::from_sql(&[0, 0, 0, 1, 0xff, 0, 0, 0]),
        Err(CodecError::InvalidUtf8)
    );
    // positions are looked for before the text is checked
    assert_eq!(
        PgTsVector::from_sql(&[0, 0, 0, 1, 0xff, 0, 0, 1]),
        Err(CodecError::TruncatedInput)
    );
}

#[test]
fn tsvector_encodes_and_round_trips() {
    let v = PgTsVector { words: vec![lexeme("cat", &[1, 5]), lexeme("dog", &[65535])] };
    let mut out = BytesMut::new();
    assert_eq!(v.to_sql(&mut out), Ok(()));
    assert_eq!(out.to_vec(), VECTOR[..22].to_vec());
    assert_eq!(PgTsVector::from_sql(&out), Ok(v));
}

#[test]
fn tsvector_positions_are_written_in_sixteen_bits() {
    let v = PgTsVector { words: vec![lexeme("a", &[65536 + 7, -1])] };
    let mut out = BytesMut::new();
    assert_eq!(v.to_sql(&mut out), Ok(()));
    assert_eq!(out.to_vec(), vec![0, 0, 0, 1, b'a', 0, 0, 2, 0, 7, 0xff, 0xff]);
}

#[test]
fn tsvector_text() {
    let v = PgTsVector { words: vec![lexeme("cat", &[1, 5]), lexeme("dog", &[65535])] };
    assert_eq!(v.to_string(), "'cat':1,5 'dog':65535");
    let v = PgTsVector { words: vec![lexeme("cat", &[])] };
    assert_eq!(v.to_string(), "'cat':");
    let v = PgTsVector { words: vec![] };
    assert_eq!(v.to_string(), "");
    assert!(PgTsVector::accepts("tsvector"));
    assert!(!PgTsVector::accepts("tsquery"));
}

fn text(s: &str) -> Vec<u8> {
    let mut raw = (s.len() as i32).to_be_bytes().to_vec();
    raw.extend_from_slice(s.as_bytes());
    raw
}

fn hstore_bytes(count: i32, fields: &[Option<&str>]) -> Vec<u8> {
    let mut raw = count.to_be_bytes().to_vec();
    for field in fields {
        match field {
            Some(s) => raw.extend(text(s)),
            None => raw.extend_from_slice(&(-1i32).to_be_bytes()),
        }
    }
    raw
}

fn pairs(h: &PgHstore) -> Vec<(String, Option<String>)> {
    h.pairs().clone()
}

fn pair(key: &str, value: Option<&str>) -> (String, Option<String>) {
    (key.to_string(), value.map(|v| v.to_string()))
}

#[test]
fn read_length_takes_four_bytes() {
    let raw = [0u8, 0, 1, 2, 9];
    let mut buf = &raw[..];
    assert_eq!(read_length(&mut buf), Ok(258));
    assert_eq!(buf, &[9]);
    assert_eq!(read_length(&mut buf), Err(CodecError::TruncatedInput));
    assert_eq!(buf, &[9]);
    let raw = [0xffu8, 0xff, 0xff, 0xfe];
    let mut buf = &raw[..];
    assert_eq!(read_length(&mut buf), Ok(-2));
    assert!(buf.is_empty());
}

#[test]
fn read_string_takes_length_and_text() {
    let mut raw = text("key");
    raw.extend_from_slice(&(-1i32).to_be_bytes());
    raw.push(7);
    let mut buf = &raw[..];
    assert_eq!(read_string(&mut buf), Ok(Some("key".to_string())));
    assert_eq!(read_string(&mut buf), Ok(None));
    assert_eq!(buf, &[7]);
    assert_eq!(read_string(&mut buf), Err(CodecError::TruncatedInput));
    let raw = text("");
    let mut buf = &raw[..];
    assert_eq!(read_string(&mut buf), Ok(Some(String::new())));
}

#[test]
fn read_string_errors() {
    let raw = (-2i32).to_be_bytes();
    let mut buf = &raw[..];
    assert_eq!(read_string(&mut buf), Err(CodecError::LengthOutOfRange));
    let raw = [0u8, 0, 0, 3, b'a', b'b'];
    let mut buf = &raw[..];
    assert_eq!(read_string(&mut buf), Err(CodecError::TruncatedInput));
    let raw = [0u8, 0, 0, 1, 0xff];
    let mut buf = &raw[..];
    assert_eq!(read_string(&mut buf), Err(CodecError::InvalidUtf8));
}

#[test]
fn hstore_decodes_in_key_order() {
    let raw = hstore_bytes(3, &[Some("b"), Some("2"), Some("a"), None, Some("c"), Some("")]);
    let h = PgHstore::from_sql(&raw).unwrap();
    assert_eq!(pairs(&h), vec![pair("a", None), pair("b", Some("2")), pair("c", Some(""))]);
    assert_eq!(h.len(), 3);
}

#[test]
fn hstore_key_read_again_takes_the_last_value() {
    let raw = hstore_bytes(3, &[Some("k"), Some("1"), Some("j"), Some("x"), Some("k"), Some("2")]);
    let h = PgHstore::from_sql(&raw).unwrap();
    assert_eq!(pairs(&h), vec![pair("j", Some("x")), pair("k", Some("2"))]);
}

#[test]
fn hstore_keys_are_ordered_by_their_bytes() {
    let mut h = PgHstore::new();
    for key in ["b", "ab", "a", "", "B", "\u{e4}", "aa", "z"] {
        h.insert(key.to_string(), None);
    }
    let keys: Vec<String> = h.pairs().iter().map(|p| p.0.clone()).collect();
    assert_eq!(keys, vec!["", "B", "a", "aa", "ab", "b", "z", "\u{e4}"]);
}

#[test]
fn hstore_errors() {
    assert_eq!(PgHstore::from_sql(&[0, 0, 0]).err(), Some(CodecError::TruncatedInput));
    assert_eq!(
        PgHstore::from_sql(&hstore_bytes(-1, &[])).err(),
        Some(CodecError::LengthOutOfRange)
    );
    assert_eq!(
        PgHstore::from_sql(&hstore_bytes(1, &[None, Some("v")])).err(),
        Some(CodecError::MissingKey)
    );
    assert_eq!(
        PgHstore::from_sql(&hstore_bytes(1, &[Some("k")])).err(),
        Some(CodecError::TruncatedInput)
    );
    assert_eq!(
        PgHstore::from_sql(&hstore_bytes(2, &[Some("k"), Some("v")])).err(),
        Some(CodecError::TruncatedInput)
    );
    let mut raw = hstore_bytes(1, &[Some("k")]);
    raw.extend_from_slice(&[0, 0, 0, 1, 0xff]);
    assert_eq!(PgHstore::from_sql(&raw).err(), Some(CodecError::InvalidUtf8));
    let mut raw = hstore_bytes(1, &[Some("k")]);
    raw.extend_from_slice(&(-7i32).to_be_bytes());
    assert_eq!(PgHstore::from_sql(&raw).err(), Some(CodecError::LengthOutOfRange));
}

#[test]
fn hstore_encodes_and_round_trips() {
    let mut h = PgHstore::new();
    h.insert("b".to_string(), Some("2".to_string()));
    h.insert("a".to_string(), None);
    let mut out = BytesMut::new();
    assert_eq!(h.to_sql("hstore", &mut out), Ok(()));
    assert_eq!(out.to_vec(), hstore_bytes(2, &[Some("a"), None, Some("b"), Some("2")]));
    assert_eq!(PgHstore::from_sql(&out), Ok(h));
    let mut out = BytesMut::new();
    assert_eq!(PgHstore::default().to_sql("hstore", &mut out), Ok(()));
    assert_eq!(out.to_vec(), vec![0, 0, 0, 0]);
}

#[test]
fn hstore_refuses_other_types() {
    let mut out = BytesMut::new();
    assert_eq!(PgHstore::new().to_sql("json", &mut out), Err(CodecError::UnexpectedType));
    assert!(out.is_empty());
    assert!(PgHstore::accepts("hstore"));
    assert!(!PgHstore::accepts("json"));
}

#[test]
fn hstore_text_leaves_out_null_values() {
    let mut h = PgHstore::new();
    h.insert("b".to_string(), Some("2".to_string()));
    h.insert("a".to_string(), None);
    h.insert("c".to_string(), Some("x y".to_string()));
    assert_eq!(h.to_string(), "\"b\"=>\"2\", \"c\"=>\"x y\"");
    assert_eq!(PgHstore::new().to_string(), "");
    let mut h = PgHstore::new();
    h.insert("a".to_string(), None);
    assert_eq!(h.to_string(), "");
}

#[test]
fn parse_bound_goes_by_the_bracket() {
    assert_eq!(_parse_bound('(', Some(1)), Ok(Bound::Excluded(1)));
    assert_eq!(_parse_bound(')', Some(1)), Ok(Bound::Excluded(1)));
    assert_eq!(_parse_bound('[', Some(1)), Ok(Bound::Included(1)));
    assert_eq!(_parse_bound(']', Some(1)), Ok(Bound::Included(1)));
    assert_eq!(_parse_bound('x', Some(1)), Err(CodecError::InvalidBound));
    assert_eq!(_parse_bound('x', None::<i32>), Ok(Bound::Unbounded));
    assert_eq!(_parse_bound('[', None::<i32>), Ok(Bound::Unbounded));
}

#[test]
fn range_flags() {
    let r = |start, end| PgRange::<i32>::new(start, end).flags();
    assert_eq!(r(Bound::Included(1), Bound::Excluded(2)), 0x02);
    assert_eq!(r(Bound::Excluded(1), Bound::Included(2)), 0x04);
    assert_eq!(r(Bound::Included(1), Bound::Included(2)), 0x06);
    assert_eq!(r(Bound::Excluded(1), Bound::Excluded(2)), 0x00);
    assert_eq!(r(Bound::Unbounded, Bound::Excluded(2)), 0x08);
    assert_eq!(r(Bound::Included(1), Bound::Unbounded), 0x12);
    assert_eq!(r(Bound::Unbounded, Bound::Unbounded), 0x18);
}

#[test]
fn range_from_std_range_and_bounds() {
    let r = PgRange::from(1..5);
    assert_eq!(r, PgRange { start: Bound::Included(1), end: Bound::Excluded(5) });
    assert_eq!(r.start_bound(), Bound::Included(&1));
    assert_eq!(r.end_bound(), Bound::Excluded(&5));
    let r: PgRange<i32> = PgRange::new(Bound::Unbounded, Bound::Included(3));
    assert_eq!(r.start_bound(), Bound::Unbounded);
    assert_eq!(r.end_bound(), Bound::Included(&3));
    assert_eq!(r.clone(), r);
}

#[test]
fn range_encodes_flags_then_bounds() {
    let r = PgRange::new(Bound::Included(vec![0, 0, 0, 1]), Bound::Excluded(vec![0, 0, 0, 9]));
    let mut out = BytesMut::new();
    assert_eq!(r.to_sql(&mut out), Ok(()));
    assert_eq!(out.to_vec(), vec![0x02, 0, 0, 0, 1, 0, 0, 0, 9]);
    let r = PgRange::new(Bound::Unbounded, Bound::Included(vec![7]));
    let mut out = BytesMut::new();
    assert_eq!(r.to_sql(&mut out), Ok(()));
    assert_eq!(out.to_vec(), vec![0x0c, 7]);
    let r: PgRange<Vec<u8>> = PgRange::new(Bound::Unbounded, Bound::Unbounded);
    let mut out = BytesMut::new();
    assert_eq!(r.to_sql(&mut out), Ok(()));
    assert_eq!(out.to_vec(), vec![0x18]);
}

#[test]
fn range_decodes_where_the_bounds_stand() {
    let raw = [0x02u8, 0, 0, 0, 1, 0, 0, 0, 9];
    let r = PgRange::from_sql(&raw, 4).unwrap();
    assert_eq!(r.start, Bound::Included(&raw[1..]));
    assert_eq!(r.end, Bound::Excluded(&raw[5..]));
    let raw = [0x0cu8, 7];
    let r = PgRange::from_sql(&raw, 4).unwrap();
    assert_eq!(r.start, Bound::Unbounded);
    assert_eq!(r.end, Bound::Included(&raw[1..]));
    let raw = [0x10u8, 1, 2, 3, 4];
    let r = PgRange::from_sql(&raw, 4).unwrap();
    assert_eq!(r.start, Bound::Excluded(&raw[1..]));
    assert_eq!(r.end, Bound::Unbounded);
    // the empty flag wins over all others
    let raw = [0x07u8, 1, 2, 3, 4];
    let r = PgRange::from_sql(&raw, 4).unwrap();
    assert_eq!(r, PgRange { start: Bound::Unbounded, end: Bound::Unbounded });
}

#[test]
fn range_decode_errors() {
    assert_eq!(PgRange::from_sql(&[], 4), Err(CodecError::TruncatedInput));
    assert_eq!(PgRange::from_sql(&[0x02, 1, 2, 3], 4), Err(CodecError::TruncatedInput));
    assert!(PgRange::from_sql(&[0x02, 1, 2, 3, 4], 4).is_ok());
}

#[test]
fn range_text() {
    let t = |start: Bound<&str>, end: Bound<&str>| {
        PgRange::new(start.map(|s| s.to_string()), end.map(|s| s.to_string())).to_string()
    };
    assert_eq!(t(Bound::Included("1"), Bound::Excluded("5")), "[1,5)");
    assert_eq!(t(Bound::Excluded("1"), Bound::Included("5")), "(1,5]");
    assert_eq!(t(Bound::Unbounded, Bound::Included("5")), "(,5]");
    assert_eq!(t(Bound::Included("1"), Bound::Unbounded), "[1,)");
    assert_eq!(t(Bound::Unbounded, Bound::Unbounded), "(,)");
}

#[test]
fn range_from_the_other_std_ranges() {
    assert_eq!(PgRange::from(1..), PgRange { start: Bound::Included(1), end: Bound::Unbounded });
    assert_eq!(PgRange::from(..5), PgRange { start: Bound::Unbounded, end: Bound::Excluded(5) });
    assert_eq!(PgRange::from(..=5), PgRange { start: Bound::Unbounded, end: Bound::Included(5) });
    assert_eq!(
        PgRange::from(1..=5),
        PgRange { start: Bound::Included(1), end: Bound::Included(5) }
    );
}

#[test]
fn hstore_clone_keeps_the_pairs() {
    let mut h = PgHstore::new();
    h.insert("k".to_string(), Some("v".to_string()));
    h.insert("j".to_string(), None);
    let copy = h.clone();
    assert_eq!(copy, h);
    assert_eq!(pairs(&copy), vec![pair("j", None), pair("k", Some("v"))]);
}
