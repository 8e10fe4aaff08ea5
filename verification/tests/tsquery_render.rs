use pg_codecs::pg_tsquery::render::{infix_string, render_phrase_link, render_value};
use pg_codecs::pg_tsquery::{
    weight_to_string, Entry, EntryType, Operator, Operators, PgTsQuery, TsQueryError, Value,
};

fn value(text: &str) -> Entry {
    Entry::Value(Value { weight: 0, text: text.to_string(), prefix: false })
}

fn operator(kind: Operators) -> Entry {
    Entry::Operator(Operator { operator: kind, distance: None })
}

fn phrase(distance: Option<i16>) -> Entry {
    Entry::Operator(Operator { operator: Operators::Phrase, distance })
}

#[test]
fn weight_labels() {
    let expected = [
        None,
        Some("D"),
        Some("C"),
        Some("CD"),
        Some("B"),
        Some("BD"),
        Some("BC"),
        Some("BCD"),
        Some("A"),
        Some("AD"),
        Some("AC"),
        Some("ACD"),
        Some("AB"),
        Some("ABD"),
        Some("ABC"),
        Some("ABCD"),
    ];
    for weight in 0..16u8 {
        assert_eq!(weight_to_string(weight), expected[weight as usize]);
    }
}

#[test]
fn weights_beyond_four_bits_have_no_label() {
    for weight in 16..=255u8 {
        assert_eq!(weight_to_string(weight), None);
    }
}

#[test]
fn entry_tags() {
    assert_eq!(u8::from(EntryType::Value), 1);
    assert_eq!(u8::from(EntryType::Operator), 2);
    assert_eq!(EntryType::try_from(1u8), Ok(EntryType::Value));
    assert_eq!(EntryType::try_from(2u8), Ok(EntryType::Operator));
    assert_eq!(EntryType::try_from(0u8), Err(TsQueryError::InvalidEntryType));
    assert_eq!(EntryType::try_from(3u8), Err(TsQueryError::InvalidEntryType));
    assert_eq!(EntryType::try_from(255u8), Err(TsQueryError::InvalidEntryType));
}

#[test]
fn entry_tags_map_both_ways() {
    for kind in [EntryType::Value, EntryType::Operator] {
        assert_eq!(EntryType::try_from(u8::from(kind)), Ok(kind));
    }
    for tag in 0..=255u8 {
        if let Ok(kind) = EntryType::try_from(tag) {
            assert_eq!(u8::from(kind), tag);
        }
    }
}

#[test]
fn empty_query_renders_empty() {
    assert_eq!(PgTsQuery { entries: vec![] }.to_string(), "");
    assert_eq!(infix_string(vec![]), "");
}

#[test]
fn single_operand() {
    assert_eq!(infix_string(vec![value("cat")]), "'cat'");
}

#[test]
fn not_before_its_operand() {
    let q = PgTsQuery { entries: vec![operator(Operators::Not), value("bird")] };
    assert_eq!(q.to_string(), "!'bird'");
}

#[test]
fn not_stored_behind_its_operand_finds_nothing_to_negate() {
    let q = PgTsQuery { entries: vec![value("bird"), operator(Operators::Not)] };
    assert_eq!(q.to_string(), "'bird'");
}

#[test]
fn or_of_and_walked_as_cat_rat_and_fat_or() {
    let q = PgTsQuery {
        entries: vec![
            operator(Operators::Or),
            value("fat"),
            operator(Operators::And),
            value("rat"),
            value("cat"),
        ],
    };
    assert_eq!(q.to_string(), "('cat' & 'rat') | 'fat'");
}

#[test]
fn operators_stored_behind_their_operands_find_none() {
    let q = PgTsQuery {
        entries: vec![
            value("cat"),
            value("rat"),
            operator(Operators::And),
            value("fat"),
            operator(Operators::Or),
        ],
    };
    assert_eq!(q.to_string(), "'rat' 'cat'");
}

#[test]
fn documented_example_renders() {
    let q = PgTsQuery {
        entries: vec![
            operator(Operators::Or),
            value("cat"),
            operator(Operators::And),
            value("rat"),
            value("fat"),
        ],
    };
    assert_eq!(q.to_string(), "('fat' & 'rat') | 'cat'");
}

#[test]
fn outermost_operator_is_never_wrapped() {
    let q = PgTsQuery { entries: vec![operator(Operators::And), value("b"), value("a")] };
    assert_eq!(q.to_string(), "'a' & 'b'");
    let q = PgTsQuery { entries: vec![operator(Operators::Or), value("b"), value("a")] };
    assert_eq!(q.to_string(), "'a' | 'b'");
}

#[test]
fn lower_tier_after_higher_is_not_wrapped() {
    // walked: a b | c d & |
    let q = PgTsQuery {
        entries: vec![
            operator(Operators::Or),
            operator(Operators::And),
            value("d"),
            value("c"),
            operator(Operators::Or),
            value("b"),
            value("a"),
        ],
    };
    assert_eq!(q.to_string(), "('a' | 'b') | 'c' & 'd'");
}

#[test]
fn same_tier_is_not_wrapped() {
    // walked: a b & c d & &
    let q = PgTsQuery {
        entries: vec![
            operator(Operators::And),
            operator(Operators::And),
            value("d"),
            value("c"),
            operator(Operators::And),
            value("b"),
            value("a"),
        ],
    };
    assert_eq!(q.to_string(), "('a' & 'b') & 'c' & 'd'");
}

#[test]
fn not_sets_the_tier_to_one() {
    // walked: a ! b c & &
    let q = PgTsQuery {
        entries: vec![
            operator(Operators::And),
            operator(Operators::And),
            value("c"),
            value("b"),
            operator(Operators::Not),
            value("a"),
        ],
    };
    assert_eq!(q.to_string(), "!'a' & ('b' & 'c')");
}

#[test]
fn phrase_with_distance_three() {
    let q = PgTsQuery { entries: vec![phrase(Some(3)), value("b"), value("a")] };
    assert_eq!(q.to_string(), "'a' <3> 'b'");
}

#[test]
fn phrase_with_distance_one_or_none() {
    let q = PgTsQuery { entries: vec![phrase(Some(1)), value("b"), value("a")] };
    assert_eq!(q.to_string(), "'a' <-> 'b'");
    let q = PgTsQuery { entries: vec![phrase(None), value("b"), value("a")] };
    assert_eq!(q.to_string(), "'a' <-> 'b'");
}

#[test]
fn phrase_links() {
    assert_eq!(render_phrase_link(None), "<->");
    assert_eq!(render_phrase_link(Some(1)), "<->");
    assert_eq!(render_phrase_link(Some(0)), "<0>");
    assert_eq!(render_phrase_link(Some(2)), "<2>");
    assert_eq!(render_phrase_link(Some(10)), "<10>");
    assert_eq!(render_phrase_link(Some(16384)), "<16384>");
    assert_eq!(render_phrase_link(Some(32767)), "<32767>");
    assert_eq!(render_phrase_link(Some(-1)), "<-1>");
    assert_eq!(render_phrase_link(Some(-32768)), "<-32768>");
}

#[test]
fn inner_phrase_is_wrapped_like_any_higher_tier() {
    // walked: quick fox <2> lazi dog <3> &
    let q = PgTsQuery {
        entries: vec![
            operator(Operators::And),
            phrase(Some(3)),
            value("dog"),
            value("lazi"),
            phrase(Some(2)),
            value("fox"),
            value("quick"),
        ],
    };
    assert_eq!(q.to_string(), "('quick' <2> 'fox') & 'lazi' <3> 'dog'");
}

#[test]
fn prefix_flag_hides_the_weight() {
    let v = Value { weight: 12, text: "postgr".to_string(), prefix: true };
    assert_eq!(render_value(&v), "'postgr':*");
    let v = Value { weight: 0, text: "postgr".to_string(), prefix: true };
    assert_eq!(render_value(&v), "'postgr':*");
}

#[test]
fn weight_is_shown_as_rank_letters() {
    let v = Value { weight: 12, text: "fat".to_string(), prefix: false };
    assert_eq!(render_value(&v), "'fat':AB");
    let v = Value { weight: 4, text: "rat".to_string(), prefix: false };
    assert_eq!(render_value(&v), "'rat':B");
    let v = Value { weight: 16, text: "rat".to_string(), prefix: false };
    assert_eq!(render_value(&v), "'rat'");
}

#[test]
fn missing_operands_are_skipped() {
    // a lone operator
    assert_eq!(infix_string(vec![operator(Operators::And)]), "");
    // one operand where two are asked for: it is used up
    assert_eq!(infix_string(vec![operator(Operators::And), value("a")]), "");
    // what is left over is joined with spaces
    assert_eq!(infix_string(vec![value("c"), value("b"), value("a")]), "'a' 'b' 'c'");
}

#[test]
fn rendering_leaves_the_query_usable() {
    let q = PgTsQuery { entries: vec![operator(Operators::Not), value("bird")] };
    assert_eq!(q.to_string(), "!'bird'");
    assert_eq!(q.to_string(), "!'bird'");
    assert_eq!(q.entries.len(), 2);
}
