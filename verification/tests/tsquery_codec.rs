use bytes::BytesMut;
use pg_codecs::pg_tsquery::{Entry, Operator, Operators, PgTsQuery, TsQueryError, Value};

fn value(text: &str) -> Entry {
    Entry::Value(Value { weight: 0, text: text.to_string(), prefix: false })
}

fn operator(kind: Operators) -> Entry {
    Entry::Operator(Operator { operator: kind, distance: None })
}

fn phrase(distance: i16) -> Entry {
    Entry::Operator(Operator { operator: Operators::Phrase, distance: Some(distance) })
}

fn encode(q: &PgTsQuery) -> Vec<u8> {
    let mut out = BytesMut::new();
    assert_eq!(q.to_sql(&mut out), Ok(()));
    out.to_vec()
}

const FAT_RAT_CAT: [u8; 29] = [
    0, 0, 0, 5, 2, 3, 1, 0, 0, 99, 97, 116, 0, 2, 2, 1, 0, 0, 114, 97, 116, 0, 1, 0, 0, 102, 97,
    116, 0,
];

#[test]
fn decodes_documented_example() {
    let q = PgTsQuery::try_from(&FAT_RAT_CAT[..]).unwrap();
    assert_eq!(
        q.entries,
        vec![
            operator(Operators::Or),
            value("cat"),
            operator(Operators::And),
            value("rat"),
            value("fat"),
        ]
    );
}

#[test]
fn encodes_documented_example() {
    let q = PgTsQuery {
        entries: vec![
            operator(Operators::Or),
            value("cat"),
            operator(Operators::And),
            value("rat"),
            value("fat"),
        ],
    };
    assert_eq!(encode(&q), FAT_RAT_CAT.to_vec());
}

#[test]
fn encode_appends_to_what_the_buffer_holds() {
    let q = PgTsQuery { entries: vec![operator(Operators::Not), value("a")] };
    let mut out = BytesMut::new();
    out.extend_from_slice(&[9, 9]);
    assert_eq!(q.to_sql(&mut out), Ok(()));
    assert_eq!(out.to_vec(), vec![9, 9, 0, 0, 0, 2, 2, 1, 1, 0, 0, 97, 0]);
}

#[test]
fn round_trip_of_mixed_query() {
    let q = PgTsQuery {
        entries: vec![
            operator(Operators::And),
            phrase(3),
            Entry::Value(Value { weight: 12, text: "dog".to_string(), prefix: false }),
            Entry::Value(Value { weight: 0, text: "l\u{e4}zi".to_string(), prefix: true }),
            phrase(-2),
            value(""),
            operator(Operators::Not),
            Entry::Value(Value { weight: 15, text: "x".repeat(2047), prefix: false }),
        ],
    };
    let bytes = encode(&q);
    assert_eq!(PgTsQuery::try_from(&bytes[..]), Ok(q));
}

#[test]
fn round_trip_of_empty_query() {
    let q = PgTsQuery { entries: vec![] };
    let bytes = encode(&q);
    assert_eq!(bytes, vec![0, 0, 0, 0]);
    assert_eq!(PgTsQuery::from_sql(&bytes), Ok(q));
}

#[test]
fn phrase_distance_is_big_endian_and_signed() {
    let bytes = [0, 0, 0, 2, 2, 4, 0xff, 0xfe, 1, 0, 0, 97, 0];
    let q = PgTsQuery::try_from(&bytes[..]).unwrap();
    assert_eq!(q.entries, vec![phrase(-2), value("a")]);
    let bytes = [0, 0, 0, 2, 2, 4, 0x01, 0x02, 1, 0, 0, 97, 0];
    let q = PgTsQuery::try_from(&bytes[..]).unwrap();
    assert_eq!(q.entries, vec![phrase(258), value("a")]);
}

#[test]
fn phrase_without_distance_is_written_with_one() {
    let q = PgTsQuery {
        entries: vec![
            Entry::Operator(Operator { operator: Operators::Phrase, distance: None }),
            value("a"),
            value("b"),
        ],
    };
    let bytes = encode(&q);
    assert_eq!(&bytes[..8], &[0, 0, 0, 3, 2, 4, 0, 1]);
    let back = PgTsQuery::try_from(&bytes[..]).unwrap();
    assert_eq!(back.entries[0], phrase(1));
}

#[test]
fn prefix_flag_is_any_nonzero_byte() {
    let bytes = [0, 0, 0, 1, 1, 3, 7, 97, 0];
    let q = PgTsQuery::try_from(&bytes[..]).unwrap();
    assert_eq!(
        q.entries,
        vec![Entry::Value(Value { weight: 3, text: "a".to_string(), prefix: true })]
    );
}

#[test]
fn unknown_tags_are_stepped_over() {
    let bytes = [0, 0, 0, 3, 7, 1, 0, 0, 97, 0, 0];
    let q = PgTsQuery::try_from(&bytes[..]).unwrap();
    assert_eq!(q.entries, vec![value("a")]);
}

#[test]
fn bytes_behind_the_last_entry_are_ignored() {
    let bytes = [0, 0, 0, 1, 1, 0, 0, 97, 0, 1, 2, 3, 4, 5];
    let q = PgTsQuery::try_from(&bytes[..]).unwrap();
    assert_eq!(q.entries, vec![value("a")]);
}

#[test]
fn truncated_count_fails() {
    assert_eq!(PgTsQuery::try_from(&[][..]), Err(TsQueryError::TruncatedInput));
    assert_eq!(PgTsQuery::try_from(&[0, 0, 0][..]), Err(TsQueryError::TruncatedInput));
}

#[test]
fn truncated_entries_fail() {
    // count says one entry, none follows
    assert_eq!(PgTsQuery::try_from(&[0, 0, 0, 1][..]), Err(TsQueryError::TruncatedInput));
    // operator tag without a code
    assert_eq!(PgTsQuery::try_from(&[0, 0, 0, 1, 2][..]), Err(TsQueryError::TruncatedInput));
    // phrase without its distance
    assert_eq!(PgTsQuery::try_from(&[0, 0, 0, 1, 2, 4][..]), Err(TsQueryError::TruncatedInput));
    // operand without weight, without flag, without terminator
    assert_eq!(PgTsQuery::try_from(&[0, 0, 0, 1, 1][..]), Err(TsQueryError::TruncatedInput));
    assert_eq!(PgTsQuery::try_from(&[0, 0, 0, 1, 1, 0][..]), Err(TsQueryError::TruncatedInput));
    assert_eq!(
        PgTsQuery::try_from(&[0, 0, 0, 1, 1, 0, 0, 97, 98][..]),
        Err(TsQueryError::TruncatedInput)
    );
}

#[test]
fn every_cut_of_an_encoding_fails() {
    for k in 0..FAT_RAT_CAT.len() {
        let r = PgTsQuery::try_from(&FAT_RAT_CAT[..k]);
        let expected = if k == 7 || k == 16 {
            TsQueryError::TrailingOperator
        } else {
            TsQueryError::TruncatedInput
        };
        assert_eq!(r, Err(expected), "cut at {}", k);
    }
}

#[test]
fn invalid_operator_codes_fail() {
    for code in [0u8, 5, 6, 100, 127, 128, 255] {
        let bytes = [0, 0, 0, 2, 2, code, 1, 0, 0, 97, 0];
        assert_eq!(PgTsQuery::try_from(&bytes[..]), Err(TsQueryError::InvalidOperator));
    }
}

#[test]
fn valid_operator_codes_decode() {
    let kinds = [Operators::Not, Operators::And, Operators::Or];
    for (i, kind) in kinds.iter().enumerate() {
        let bytes = [0, 0, 0, 2, 2, (i + 1) as u8, 1, 0, 0, 97, 0];
        let q = PgTsQuery::try_from(&bytes[..]).unwrap();
        assert_eq!(q.entries[0], operator(*kind));
    }
}

#[test]
fn weight_above_fifteen_fails() {
    for weight in [16u8, 17, 128, 255] {
        let bytes = [0, 0, 0, 1, 1, weight, 0, 97, 0];
        assert_eq!(PgTsQuery::try_from(&bytes[..]), Err(TsQueryError::InvalidWeight));
    }
    let bytes = [0, 0, 0, 1, 1, 15, 0, 97, 0];
    assert!(PgTsQuery::try_from(&bytes[..]).is_ok());
}

#[test]
fn malformed_text_is_reported_before_the_weight() {
    let bytes = [0, 0, 0, 1, 1, 16, 0, 0xff, 0];
    assert_eq!(PgTsQuery::try_from(&bytes[..]), Err(TsQueryError::Utf8Error));
}

#[test]
fn invalid_utf8_fails() {
    let bytes = [0, 0, 0, 1, 1, 0, 0, 0xc3, 0];
    assert_eq!(PgTsQuery::try_from(&bytes[..]), Err(TsQueryError::Utf8Error));
    let bytes = [0, 0, 0, 1, 1, 0, 0, 0xed, 0xa0, 0x80, 0];
    assert_eq!(PgTsQuery::try_from(&bytes[..]), Err(TsQueryError::Utf8Error));
}

#[test]
fn operand_longer_than_2047_bytes_fails() {
    let mut bytes = vec![0, 0, 0, 1, 1, 0, 0];
    bytes.extend(std::iter::repeat(b'a').take(2048));
    bytes.push(0);
    assert_eq!(PgTsQuery::try_from(&bytes[..]), Err(TsQueryError::OperandTooLong));
    let mut bytes = vec![0, 0, 0, 1, 1, 0, 0];
    bytes.extend(std::iter::repeat(b'a').take(2047));
    bytes.push(0);
    let q = PgTsQuery::try_from(&bytes[..]).unwrap();
    match &q.entries[0] {
        Entry::Value(v) => assert_eq!(v.length(), 2047),
        Entry::Operator(_) => panic!("operand expected"),
    }
}

#[test]
fn operator_one_byte_before_the_end_fails() {
    let bytes = [0, 0, 0, 2, 2, 1, 9];
    assert_eq!(PgTsQuery::try_from(&bytes[..]), Err(TsQueryError::TrailingOperator));
    // at the very end it is accepted
    let bytes = [0, 0, 0, 1, 2, 1];
    let q = PgTsQuery::try_from(&bytes[..]).unwrap();
    assert_eq!(q.entries, vec![operator(Operators::Not)]);
}

#[test]
fn accepts_only_its_own_type() {
    assert!(PgTsQuery::accepts("tsquery"));
    assert!(!PgTsQuery::accepts("tsvector"));
    assert!(!PgTsQuery::accepts("tsquer"));
    assert!(!PgTsQuery::accepts(""));
}

#[test]
fn operator_codes_map_both_ways() {
    assert_eq!(i8::from(Operators::Not), 1);
    assert_eq!(i8::from(Operators::And), 2);
    assert_eq!(i8::from(Operators::Or), 3);
    assert_eq!(i8::from(Operators::Phrase), 4);
    assert_eq!(Operators::try_from(1i8), Ok(Operators::Not));
    assert_eq!(Operators::try_from(2i8), Ok(Operators::And));
    assert_eq!(Operators::try_from(3i8), Ok(Operators::Or));
    assert_eq!(Operators::try_from(4i8), Ok(Operators::Phrase));
    assert_eq!(Operators::try_from(0i8), Err(TsQueryError::InvalidOperator));
    assert_eq!(Operators::try_from(5i8), Err(TsQueryError::InvalidOperator));
    assert_eq!(Operators::try_from(-1i8), Err(TsQueryError::InvalidOperator));
}

#[test]
fn well_formed_values() {
    assert!(Value::new(15, "x".repeat(2047), true).is_some());
    assert!(Value::new(16, "x".to_string(), false).is_none());
    assert!(Value::new(0, "x".repeat(2048), false).is_none());
    assert!(Value::new(0, "a\0b".to_string(), false).is_none());
    let v = Value::new(3, "\u{e4}".to_string(), false).unwrap();
    assert_eq!(v, Value { weight: 3, text: "\u{e4}".to_string(), prefix: false });
    assert_eq!(v.length(), 2);
    assert!(v.is_well_formed());
}

#[test]
fn well_formed_queries() {
    let q = PgTsQuery { entries: vec![phrase(2), value("a"), operator(Operators::And)] };
    assert!(q.is_well_formed());
    let q = PgTsQuery {
        entries: vec![Entry::Operator(Operator { operator: Operators::Phrase, distance: None })],
    };
    assert!(!q.is_well_formed());
    let q = PgTsQuery {
        entries: vec![Entry::Operator(Operator { operator: Operators::And, distance: Some(1) })],
    };
    assert!(!q.is_well_formed());
    let q = PgTsQuery {
        entries: vec![Entry::Value(Value { weight: 16, text: String::new(), prefix: false })],
    };
    assert!(!q.is_well_formed());
    assert!(PgTsQuery { entries: vec![] }.is_well_formed());
}

#[test]
fn what_decodes_is_well_formed_and_round_trips() {
    let q = PgTsQuery::try_from(&FAT_RAT_CAT[..]).unwrap();
    assert!(q.is_well_formed());
    assert_eq!(encode(&q), FAT_RAT_CAT.to_vec());
    let cloned = q.clone();
    assert_eq!(cloned, q);
}

#[test]
fn a_query_that_is_not_well_formed_may_come_back_changed() {
    let q = PgTsQuery {
        entries: vec![Entry::Operator(Operator { operator: Operators::And, distance: Some(9) })],
    };
    let back = PgTsQuery::try_from(&encode(&q)[..]).unwrap();
    assert_eq!(back.entries, vec![operator(Operators::And)]);
    let q = PgTsQuery {
        entries: vec![Entry::Value(Value { weight: 1, text: "a\0b".to_string(), prefix: false })],
    };
    let back = PgTsQuery::try_from(&encode(&q)[..]).unwrap();
    assert_eq!(
        back.entries,
        vec![Entry::Value(Value { weight: 1, text: "a".to_string(), prefix: false })]
    );
}
