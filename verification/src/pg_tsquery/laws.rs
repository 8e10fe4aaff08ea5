//! What holds of the wire format as a whole: decoding undoes encoding, and
//! damaged encodings are refused with the error that names the damage.

use crate::pg_tsquery::codec::{
    entries_wire, entry_wire, lemma_entries_wire_concat, operator_wire, parse_entries,
    parse_entry, parse_operator, parse_query, parse_value, prepend, query_wire, value_wire,
    wire_distance,
};
use crate::pg_tsquery::{
    entries_well_formed, entry_well_formed, lemma_operator_codes, operator_code,
    operator_well_formed, query_well_formed, value_well_formed, EntryView, Operator, Operators,
    TsQueryError, ValueView, MAX_WEIGHT,
};
use crate::wire::{
    as_i8, bits_i16, i16_at, lemma_nul_at, lemma_nul_at_is, lemma_pattern_round_trip,
    lemma_signed_round_trip, lemma_u16_bytes_round_trip, lemma_u16_round_trip,
    lemma_u32_bytes_round_trip, lemma_u32_round_trip, nul_at, u16_be, u32_at, u32_be,
};
use vstd::prelude::*;
use vstd::utf8::{
    decode_utf8_encode_utf8, encode_utf8, encode_utf8_decode_utf8, encode_utf8_valid_utf8,
    valid_utf8,
};

verus! {

/// The bytes `piece` stand in `bytes` from `pos` on.
pub open spec fn placed(bytes: Seq<u8>, pos: int, piece: Seq<u8>) -> bool {
    0 <= pos && pos + piece.len() <= bytes.len() && bytes.subrange(pos, pos + piece.len())
        == piece
}

proof fn lemma_placed_index(bytes: Seq<u8>, pos: int, piece: Seq<u8>, i: int)
    requires
        placed(bytes, pos, piece),
        0 <= i < piece.len(),
    ensures
        bytes[pos + i] == piece[i],
{
    assert(bytes.subrange(pos, pos + piece.len())[i] == bytes[pos + i]);
}

/// An entry is at least two bytes long.
pub proof fn lemma_entry_wire_len(e: EntryView)
    ensures
        entry_wire(e).len() >= 2,
        e matches EntryView::Operator(op) ==> entry_wire(e).len() == (if op.operator
            == Operators::Phrase {
            4int
        } else {
            2int
        }),
        e matches EntryView::Value(v) ==> entry_wire(e).len() == 4 + encode_utf8(v.text).len(),
{
}

proof fn lemma_operator_decodes(bytes: Seq<u8>, pos: int, op: Operator)
    requires
        operator_well_formed(op),
        placed(bytes, pos, operator_wire(op)),
        bytes.len() != pos + 3,
    ensures
        parse_entry(bytes, pos) == Ok::<(Option<EntryView>, int), TsQueryError>(
            (Some(EntryView::Operator(op)), pos + operator_wire(op).len()),
        ),
{
    let piece = operator_wire(op);
    lemma_placed_index(bytes, pos, piece, 0);
    lemma_placed_index(bytes, pos, piece, 1);
    lemma_operator_codes(op.operator, 0);
    lemma_signed_round_trip(operator_code(op.operator), wire_distance(op), 0, 0);
    if op.operator == Operators::Phrase {
        let d = wire_distance(op);
        lemma_placed_index(bytes, pos, piece, 2);
        lemma_placed_index(bytes, pos, piece, 3);
        lemma_u16_round_trip(bits_i16(d));
        assert(bytes.subrange(pos + 2, pos + 4) =~= u16_be(bits_i16(d)));
        assert(i16_at(bytes, pos + 2) == Some(d));
    }
}

proof fn lemma_value_decodes(bytes: Seq<u8>, pos: int, v: ValueView)
    requires
        value_well_formed(v),
        placed(bytes, pos, value_wire(v)),
    ensures
        parse_entry(bytes, pos) == Ok::<(Option<EntryView>, int), TsQueryError>(
            (Some(EntryView::Value(v)), pos + value_wire(v).len()),
        ),
{
    let piece = value_wire(v);
    let text = encode_utf8(v.text);
    let end = pos + 3 + text.len();
    lemma_placed_index(bytes, pos, piece, 0);
    lemma_placed_index(bytes, pos, piece, 1);
    lemma_placed_index(bytes, pos, piece, 2);
    lemma_placed_index(bytes, pos, piece, 3 + text.len() as int);
    assert forall|i: int| pos + 3 <= i < end implies bytes[i] != 0 by {
        lemma_placed_index(bytes, pos, piece, i - pos);
    }
    lemma_nul_at_is(bytes, pos + 3, end);
    assert(bytes.subrange(pos + 3, end) =~= text) by {
        assert forall|i: int| 0 <= i < text.len() implies bytes.subrange(pos + 3, end)[i]
            == text[i] by {
            lemma_placed_index(bytes, pos, piece, 3 + i);
        }
    }
    encode_utf8_valid_utf8(v.text);
    encode_utf8_decode_utf8(v.text);
    assert(parse_value(bytes, pos + 1) == Ok::<(Option<EntryView>, int), TsQueryError>(
        (Some(EntryView::Value(v)), end + 1),
    ));
}

/// A well-formed entry that stands whole in the buffer decodes to its token,
/// unless it is an operator with exactly one byte behind its code.
pub proof fn lemma_entry_decodes(bytes: Seq<u8>, pos: int, e: EntryView)
    requires
        entry_well_formed(e),
        placed(bytes, pos, entry_wire(e)),
        e is Operator ==> bytes.len() != pos + 3,
    ensures
        parse_entry(bytes, pos) == Ok::<(Option<EntryView>, int), TsQueryError>(
            (Some(e), pos + entry_wire(e).len()),
        ),
{
    match e {
        EntryView::Operator(op) => lemma_operator_decodes(bytes, pos, op),
        EntryView::Value(v) => lemma_value_decodes(bytes, pos, v),
    }
}

proof fn lemma_entries_wire_front(entries: Seq<EntryView>)
    requires
        entries.len() > 0,
    ensures
        entries_wire(entries) == entry_wire(entries[0]) + entries_wire(entries.drop_first()),
        entries.drop_first().len() > 0 ==> entries_wire(entries.drop_first()).len() >= 2,
{
    let head = seq![entries[0]];
    let tail = entries.drop_first();
    assert(entries =~= head + tail);
    lemma_entries_wire_concat(head, tail);
    assert(head.drop_last() =~= Seq::<EntryView>::empty());
    assert(entries_wire(Seq::<EntryView>::empty()) =~= Seq::<u8>::empty());
    assert(entries_wire(head) =~= entry_wire(entries[0]));
    if tail.len() > 0 {
        lemma_entry_wire_len(tail.last());
    }
}

/// Well-formed entries that stand whole in the buffer decode to their
/// tokens, and decoding goes on behind them. The buffer ends with the
/// entries or goes on for two bytes or more.
pub proof fn lemma_entries_decode(bytes: Seq<u8>, pos: int, entries: Seq<EntryView>, count: nat)
    requires
        entries_well_formed(entries),
        placed(bytes, pos, entries_wire(entries)),
        count >= entries.len(),
        bytes.len() == pos + entries_wire(entries).len() || bytes.len() >= pos + entries_wire(
            entries,
        ).len() + 2,
    ensures
        parse_entries(bytes, pos, count) == prepend(
            entries,
            parse_entries(
                bytes,
                pos + entries_wire(entries).len(),
                (count - entries.len()) as nat,
            ),
        ),
    decreases entries.len(),
{
    let behind = parse_entries(
        bytes,
        pos + entries_wire(entries).len(),
        (count - entries.len()) as nat,
    );
    if entries.len() == 0 {
        if let Ok(tail) = behind {
            assert(entries + tail =~= tail);
        }
    } else {
        let e = entries[0];
        let rest = entries.drop_first();
        let piece = entry_wire(e);
        let next = pos + piece.len();
        lemma_entries_wire_front(entries);
        lemma_entry_wire_len(e);
        let whole = entries_wire(entries);
        assert(bytes.subrange(pos, pos + whole.len()) == piece + entries_wire(rest));
        assert(placed(bytes, pos, piece)) by {
            assert(bytes.subrange(pos, pos + piece.len()) =~= bytes.subrange(
                pos,
                pos + whole.len(),
            ).subrange(0, piece.len() as int));
            assert((piece + entries_wire(rest)).subrange(0, piece.len() as int) =~= piece);
        }
        assert(placed(bytes, next, entries_wire(rest))) by {
            assert(bytes.subrange(next, next + entries_wire(rest).len()) =~= bytes.subrange(
                pos,
                pos + whole.len(),
            ).subrange(piece.len() as int, whole.len() as int));
            assert((piece + entries_wire(rest)).subrange(piece.len() as int, whole.len() as int)
                =~= entries_wire(rest));
        }
        lemma_entry_decodes(bytes, pos, e);
        assert(entries_well_formed(rest)) by {
            assert forall|i: int| 0 <= i < rest.len() implies entry_well_formed(
                #[trigger] rest[i],
            ) by {
                assert(rest[i] == entries[i + 1]);
            }
        }
        lemma_entries_decode(bytes, next, rest, (count - 1) as nat);
        if let Ok(tail) = behind {
            assert(seq![e] + (rest + tail) =~= entries + tail);
        }
    }
}

/// Decoding undoes encoding: the wire bytes of a well-formed query decode to
/// that query.
pub proof fn lemma_decode_inverts_encode(entries: Seq<EntryView>)
    requires
        query_well_formed(entries),
    ensures
        parse_query(query_wire(entries)) == Ok::<Seq<EntryView>, TsQueryError>(entries),
{
    let count = entries.len() as u32;
    let bytes = query_wire(entries);
    lemma_u32_round_trip(count);
    assert(bytes.subrange(0, 4) =~= u32_be(count));
    assert(bytes.subrange(4, 4 + entries_wire(entries).len() as int) =~= entries_wire(entries));
    lemma_entries_decode(bytes, 4, entries, entries.len());
    assert(entries + Seq::<EntryView>::empty() =~= entries);
}

/// Bytes behind a well-formed query change nothing, as long as there are two
/// or more of them: the decoder stops behind the last entry.
pub proof fn lemma_trailing_bytes_ignored(entries: Seq<EntryView>, extra: Seq<u8>)
    requires
        query_well_formed(entries),
        extra.len() >= 2,
    ensures
        parse_query(query_wire(entries) + extra) == Ok::<Seq<EntryView>, TsQueryError>(entries),
{
    let count = entries.len() as u32;
    let bytes = query_wire(entries) + extra;
    lemma_u32_round_trip(count);
    assert(bytes.subrange(0, 4) =~= u32_be(count));
    assert(bytes.subrange(4, 4 + entries_wire(entries).len() as int) =~= entries_wire(entries));
    lemma_entries_decode(bytes, 4, entries, entries.len());
    assert(entries + Seq::<EntryView>::empty() =~= entries);
}

/// An operator code outside 1 to 4 is refused as such, wherever it stands
/// behind well-formed entries.
pub proof fn lemma_invalid_operator_rejected(
    front: Seq<EntryView>,
    count: u32,
    code: u8,
    rest: Seq<u8>,
)
    requires
        entries_well_formed(front),
        front.len() < count,
        !(1 <= as_i8(code) <= 4),
    ensures
        parse_query(u32_be(count) + entries_wire(front) + seq![2u8, code] + rest) == Err::<
            Seq<EntryView>,
            TsQueryError,
        >(TsQueryError::InvalidOperator),
{
    let bytes = u32_be(count) + entries_wire(front) + seq![2u8, code] + rest;
    let pos = 4 + entries_wire(front).len() as int;
    lemma_u32_round_trip(count);
    assert(bytes.subrange(0, 4) =~= u32_be(count));
    assert(bytes.subrange(4, pos) =~= entries_wire(front));
    lemma_entries_decode(bytes, 4, front, count as nat);
    assert(bytes[pos] == 2);
    assert(bytes[pos + 1] == code);
    lemma_operator_codes(Operators::Not, as_i8(code));
    assert(parse_operator(bytes, pos + 1) == Err::<(Option<EntryView>, int), TsQueryError>(
        TsQueryError::InvalidOperator,
    ));
}

/// An operand weight above 15 is refused as such, wherever the operand
/// stands behind well-formed entries, provided its text is closed by a zero
/// byte and is well-formed UTF-8.
pub proof fn lemma_invalid_weight_rejected(
    front: Seq<EntryView>,
    count: u32,
    weight: u8,
    flag: u8,
    text: Seq<u8>,
    rest: Seq<u8>,
)
    requires
        entries_well_formed(front),
        front.len() < count,
        weight > MAX_WEIGHT,
        valid_utf8(text),
        forall|i: int| 0 <= i < text.len() ==> text[i] != 0,
    ensures
        parse_query(
            u32_be(count) + entries_wire(front) + seq![1u8, weight, flag] + text + seq![0u8] + rest,
        ) == Err::<Seq<EntryView>, TsQueryError>(TsQueryError::InvalidWeight),
{
    let bytes = u32_be(count) + entries_wire(front) + seq![1u8, weight, flag] + text + seq![0u8]
        + rest;
    let pos = 4 + entries_wire(front).len() as int;
    let end = pos + 3 + text.len();
    lemma_u32_round_trip(count);
    assert(bytes.subrange(0, 4) =~= u32_be(count));
    assert(bytes.subrange(4, pos) =~= entries_wire(front));
    lemma_entries_decode(bytes, 4, front, count as nat);
    assert(bytes[pos] == 1);
    assert(bytes[pos + 1] == weight);
    assert(bytes[end] == 0);
    assert forall|i: int| pos + 3 <= i < end implies bytes[i] != 0 by {
        assert(bytes[i] == text[i - pos - 3]);
    }
    lemma_nul_at_is(bytes, pos + 3, end);
    assert(bytes.subrange(pos + 3, end) =~= text);
    assert(parse_value(bytes, pos + 1) == Err::<(Option<EntryView>, int), TsQueryError>(
        TsQueryError::InvalidWeight,
    ));
}

/// Whether a cut `m` bytes into the entries leaves exactly one byte behind
/// the code of an operator: the cut is three bytes into an operator entry.
pub open spec fn cut_behind_operator_code(entries: Seq<EntryView>, m: int) -> bool {
    exists|j: int|
        #![trigger entries[j]]
        0 <= j < entries.len() && entries[j] is Operator && m == entries_wire(entries.take(j)).len()
            + 3
}

/// The error that a cut `m` bytes into the entries is refused with.
pub open spec fn cut_error(entries: Seq<EntryView>, m: int) -> TsQueryError {
    if cut_behind_operator_code(entries, m) {
        TsQueryError::TrailingOperator
    } else {
        TsQueryError::TruncatedInput
    }
}

proof fn lemma_cut_shifts(entries: Seq<EntryView>, m: int)
    requires
        entries.len() > 0,
        !(entries[0] is Operator && m == 3),
    ensures
        cut_behind_operator_code(entries, m) == cut_behind_operator_code(
            entries.drop_first(),
            m - entry_wire(entries[0]).len(),
        ),
{
    let rest = entries.drop_first();
    let len = entry_wire(entries[0]).len();
    assert(entries_wire(Seq::<EntryView>::empty()) =~= Seq::<u8>::empty());
    if cut_behind_operator_code(entries, m) {
        let j = choose|j: int|
            #![trigger entries[j]]
            0 <= j < entries.len() && entries[j] is Operator && m == entries_wire(
                entries.take(j),
            ).len() + 3;
        if j == 0 {
            assert(entries.take(0) =~= Seq::<EntryView>::empty());
        } else {
            lemma_entries_wire_front(entries.take(j));
            assert(entries.take(j).drop_first() =~= rest.take(j - 1));
            assert(rest[j - 1] == entries[j]);
        }
    }
    if cut_behind_operator_code(rest, m - len) {
        let j = choose|j: int|
            #![trigger rest[j]]
            0 <= j < rest.len() && rest[j] is Operator && m - len == entries_wire(rest.take(j)).len()
                + 3;
        lemma_entries_wire_front(entries.take(j + 1));
        assert(entries.take(j + 1).drop_first() =~= rest.take(j));
        assert(entries[j + 1] == rest[j]);
    }
}

proof fn lemma_cut_in_first(entries: Seq<EntryView>, m: int)
    requires
        entries.len() > 0,
        m < entry_wire(entries[0]).len(),
    ensures
        cut_behind_operator_code(entries, m) == (entries[0] is Operator && m == 3),
{
    assert(entries_wire(Seq::<EntryView>::empty()) =~= Seq::<u8>::empty());
    assert(entries.take(0) =~= Seq::<EntryView>::empty());
    if cut_behind_operator_code(entries, m) {
        let j = choose|j: int|
            #![trigger entries[j]]
            0 <= j < entries.len() && entries[j] is Operator && m == entries_wire(
                entries.take(j),
            ).len() + 3;
        if j > 0 {
            lemma_entries_wire_front(entries.take(j));
        }
    }
}

proof fn lemma_cut_operator(bytes: Seq<u8>, pos: int, op: Operator)
    requires
        operator_well_formed(op),
        0 <= pos <= bytes.len() < pos + operator_wire(op).len(),
        bytes.subrange(pos, bytes.len() as int) == operator_wire(op).take(bytes.len() - pos),
    ensures
        parse_entry(bytes, pos) == Err::<(Option<EntryView>, int), TsQueryError>(
            if bytes.len() - pos == 3 {
                TsQueryError::TrailingOperator
            } else {
                TsQueryError::TruncatedInput
            },
        ),
{
    let m = bytes.len() - pos;
    let piece = operator_wire(op);
    let have = bytes.subrange(pos, bytes.len() as int);
    if m >= 1 {
        assert(bytes[pos] == have[0]);
    }
    if m >= 2 {
        assert(bytes[pos + 1] == have[1]);
        lemma_operator_codes(op.operator, 0);
        lemma_signed_round_trip(operator_code(op.operator), 0, 0, 0);
    }
}

proof fn lemma_cut_value(bytes: Seq<u8>, pos: int, v: ValueView)
    requires
        value_well_formed(v),
        0 <= pos <= bytes.len() < pos + value_wire(v).len(),
        bytes.subrange(pos, bytes.len() as int) == value_wire(v).take(bytes.len() - pos),
    ensures
        parse_entry(bytes, pos) == Err::<(Option<EntryView>, int), TsQueryError>(
            TsQueryError::TruncatedInput,
        ),
{
    let m = bytes.len() - pos;
    let piece = value_wire(v);
    let have = bytes.subrange(pos, bytes.len() as int);
    if m >= 1 {
        assert(bytes[pos] == have[0]);
    }
    if m >= 3 {
        assert forall|i: int| pos + 3 <= i < bytes.len() implies bytes[i] != 0 by {
            assert(bytes[i] == have[i - pos]);
            assert(piece[i - pos] == encode_utf8(v.text)[i - pos - 3]);
        }
        lemma_nul_at(bytes, pos + 3);
        assert(nul_at(bytes, pos + 3) is None);
    }
}

/// Entries cut short are refused: with `TrailingOperator` where the cut
/// leaves one byte behind an operator code, with `TruncatedInput` elsewhere.
pub proof fn lemma_cut_entries(bytes: Seq<u8>, pos: int, entries: Seq<EntryView>, count: nat)
    requires
        entries_well_formed(entries),
        count >= entries.len(),
        0 <= pos <= bytes.len() < pos + entries_wire(entries).len(),
        bytes.subrange(pos, bytes.len() as int) == entries_wire(entries).take(bytes.len() - pos),
    ensures
        parse_entries(bytes, pos, count) == Err::<Seq<EntryView>, TsQueryError>(
            cut_error(entries, bytes.len() - pos),
        ),
    decreases entries.len(),
{
    assert(entries_wire(Seq::<EntryView>::empty()) =~= Seq::<u8>::empty());
    let m = bytes.len() - pos;
    let e = entries[0];
    let rest = entries.drop_first();
    let piece = entry_wire(e);
    let whole = entries_wire(entries);
    let have = bytes.subrange(pos, bytes.len() as int);
    lemma_entries_wire_front(entries);
    lemma_entry_wire_len(e);
    if m >= piece.len() {
        assert(placed(bytes, pos, piece)) by {
            assert(bytes.subrange(pos, pos + piece.len()) =~= have.subrange(
                0,
                piece.len() as int,
            ));
            assert(whole.take(m).subrange(0, piece.len() as int) =~= piece);
        }
        if e is Operator && m == 3 {
            lemma_placed_index(bytes, pos, piece, 0);
            lemma_placed_index(bytes, pos, piece, 1);
            lemma_operator_codes(e->Operator_0.operator, 0);
            lemma_signed_round_trip(operator_code(e->Operator_0.operator), 0, 0, 0);
            assert(entries.take(0) =~= Seq::<EntryView>::empty());
            assert(cut_behind_operator_code(entries, m));
        } else {
            lemma_entry_decodes(bytes, pos, e);
            let next = pos + piece.len();
            assert(bytes.subrange(next, bytes.len() as int) =~= entries_wire(rest).take(
                bytes.len() - next,
            )) by {
                assert forall|i: int| 0 <= i < bytes.len() - next implies bytes.subrange(
                    next,
                    bytes.len() as int,
                )[i] == entries_wire(rest)[i] by {
                    assert(bytes[next + i] == have[piece.len() + i]);
                    assert(whole[piece.len() + i] == entries_wire(rest)[i]);
                }
            }
            assert(entries_well_formed(rest)) by {
                assert forall|i: int| 0 <= i < rest.len() implies entry_well_formed(
                    #[trigger] rest[i],
                ) by {
                    assert(rest[i] == entries[i + 1]);
                }
            }
            lemma_cut_entries(bytes, next, rest, (count - 1) as nat);
            lemma_cut_shifts(entries, m);
        }
    } else {
        assert(have =~= piece.take(m)) by {
            assert forall|i: int| 0 <= i < m implies have[i] == piece[i] by {
                assert(whole[i] == piece[i]);
            }
        }
        lemma_cut_in_first(entries, m);
        match e {
            EntryView::Operator(op) => lemma_cut_operator(bytes, pos, op),
            EntryView::Value(v) => lemma_cut_value(bytes, pos, v),
        }
    }
}

/// A well-formed query cut short anywhere is refused: with `TruncatedInput`,
/// except where the cut leaves exactly one byte behind an operator code,
/// which is refused with `TrailingOperator`.
pub proof fn lemma_truncation_rejected(entries: Seq<EntryView>, k: int)
    requires
        query_well_formed(entries),
        0 <= k < query_wire(entries).len(),
    ensures
        parse_query(query_wire(entries).take(k)) == Err::<Seq<EntryView>, TsQueryError>(
            cut_error(entries, k - 4),
        ),
{
    let count = entries.len() as u32;
    let full = query_wire(entries);
    let bytes = full.take(k);
    lemma_u32_round_trip(count);
    if k < 4 {
        assert(!cut_behind_operator_code(entries, k - 4));
    } else {
        assert(bytes.subrange(0, 4) =~= u32_be(count));
        assert(bytes.subrange(4, k) =~= entries_wire(entries).take(k - 4));
        lemma_cut_entries(bytes, 4, entries, entries.len());
    }
}

/// What decodes as one entry is a well-formed token, where it is a token.
pub proof fn lemma_decoded_entry_well_formed(bytes: Seq<u8>, pos: int)
    requires
        0 <= pos,
    ensures
        parse_entry(bytes, pos) matches Ok((Some(e), _)) ==> entry_well_formed(e),
{
    if pos < bytes.len() && bytes[pos] == 1 && pos + 2 < bytes.len() {
        lemma_nul_at(bytes, pos + 3);
        if let Some(end) = nul_at(bytes, pos + 3) {
            let text = bytes.subrange(pos + 3, end);
            if valid_utf8(text) {
                decode_utf8_encode_utf8(text);
                assert forall|i: int| 0 <= i < text.len() implies text[i] != 0 by {
                    assert(text[i] == bytes[pos + 3 + i]);
                }
            }
        }
    }
}

/// What decodes as a run of entries is a run of well-formed tokens, no more
/// of them than entries.
pub proof fn lemma_decoded_entries_well_formed(bytes: Seq<u8>, pos: int, count: nat)
    requires
        0 <= pos,
    ensures
        parse_entries(bytes, pos, count) matches Ok(entries) ==> entries_well_formed(entries)
            && entries.len() <= count,
    decreases count,
{
    if count > 0 {
        lemma_decoded_entry_well_formed(bytes, pos);
        if let Ok((token, next)) = parse_entry(bytes, pos) {
            assert(next > pos) by {
                if bytes[pos] == 1 {
                    lemma_nul_at(bytes, pos + 3);
                }
            }
            lemma_decoded_entries_well_formed(bytes, next, (count - 1) as nat);
        }
    }
}

/// Every query that decodes is well-formed, so that encoding it and decoding
/// the bytes gives it back.
pub proof fn lemma_decoded_is_well_formed(bytes: Seq<u8>)
    ensures
        parse_query(bytes) matches Ok(entries) ==> query_well_formed(entries),
{
    if let Some(count) = u32_at(bytes, 0) {
        lemma_decoded_entries_well_formed(bytes, 4, count as nat);
    }
}

/// The offset behind the `count` entries that start at `pos`, as far as they
/// decode.
pub open spec fn entries_end(bytes: Seq<u8>, pos: int, count: nat) -> int
    decreases count,
{
    if count == 0 {
        pos
    } else {
        match parse_entry(bytes, pos) {
            Ok((_, next)) => entries_end(bytes, next, (count - 1) as nat),
            Err(_) => pos,
        }
    }
}

/// Whether the `count` entries that start at `pos` are written the one way
/// that the encoder writes them: each stands for a token, and the prefix
/// flag of an operand is 0 or 1.
pub open spec fn entries_strict(bytes: Seq<u8>, pos: int, count: nat) -> bool
    decreases count,
{
    count == 0 || match parse_entry(bytes, pos) {
        Ok((token, next)) => token is Some && (token->0 is Value ==> bytes[pos + 2] <= 1)
            && entries_strict(bytes, next, (count - 1) as nat),
        Err(_) => false,
    }
}

/// An entry that decodes to a token and is written the encoder's way is the
/// bytes of that token.
pub proof fn lemma_entry_reencodes(bytes: Seq<u8>, pos: int)
    requires
        0 <= pos,
        parse_entry(bytes, pos) matches Ok((Some(e), _)) && (e is Value ==> bytes[pos + 2] <= 1),
    ensures
        parse_entry(bytes, pos) matches Ok((Some(e), next)) && pos < next <= bytes.len()
            && bytes.subrange(pos, next) == entry_wire(e),
{
    let (token, next) = parse_entry(bytes, pos)->Ok_0;
    let e = token->0;
    match e {
        EntryView::Operator(op) => {
            let code = as_i8(bytes[pos + 1]);
            lemma_operator_codes(op.operator, code);
            lemma_pattern_round_trip(bytes[pos + 1], 0, 0, 0);
            if op.operator == Operators::Phrase {
                let field = bytes.subrange(pos + 2, pos + 4);
                lemma_u16_bytes_round_trip(field);
                lemma_pattern_round_trip(0, crate::wire::be_u16(field), 0, 0);
                assert(bytes.subrange(pos, next) =~= entry_wire(e));
            } else {
                assert(bytes.subrange(pos, next) =~= entry_wire(e));
            }
        },
        EntryView::Value(v) => {
            lemma_nul_at(bytes, pos + 3);
            let end = nul_at(bytes, pos + 3)->0;
            let text = bytes.subrange(pos + 3, end);
            decode_utf8_encode_utf8(text);
            assert(bytes.subrange(pos, next) =~= entry_wire(e));
        },
    }
}

/// Entries that decode and are written the encoder's way are the bytes of
/// their tokens, one token for each entry.
pub proof fn lemma_entries_reencode(bytes: Seq<u8>, pos: int, count: nat)
    requires
        0 <= pos <= bytes.len(),
        parse_entries(bytes, pos, count) is Ok,
        entries_strict(bytes, pos, count),
    ensures
        parse_entries(bytes, pos, count) matches Ok(entries) && entries.len() == count && pos
            <= entries_end(bytes, pos, count) <= bytes.len() && bytes.subrange(
            pos,
            entries_end(bytes, pos, count),
        ) == entries_wire(entries),
    decreases count,
{
    let entries = parse_entries(bytes, pos, count)->Ok_0;
    if count == 0 {
        assert(bytes.subrange(pos, pos) =~= entries_wire(entries));
    } else {
        lemma_entry_reencodes(bytes, pos);
        let (token, next) = parse_entry(bytes, pos)->Ok_0;
        lemma_entries_reencode(bytes, next, (count - 1) as nat);
        let rest = parse_entries(bytes, next, (count - 1) as nat)->Ok_0;
        let end = entries_end(bytes, pos, count);
        assert(entries =~= seq![token->0] + rest);
        assert(entries.drop_first() =~= rest);
        lemma_entries_wire_front(entries);
        assert(bytes.subrange(pos, end) =~= bytes.subrange(pos, next) + bytes.subrange(next, end));
    }
}

/// Encoding undoes decoding up to what the decoder does not keep: where a
/// buffer decodes and its entries are written the encoder's way, the bytes
/// of the decoded query are the buffer as far as its last entry. What may
/// differ otherwise are bytes behind the last entry, entries that stand for
/// nothing, and prefix flags above 1.
pub proof fn lemma_encode_inverts_decode(bytes: Seq<u8>)
    requires
        parse_query(bytes) is Ok,
        entries_strict(bytes, 4, u32_at(bytes, 0)->0 as nat),
    ensures
        parse_query(bytes) matches Ok(entries) && query_wire(entries) == bytes.subrange(
            0,
            entries_end(bytes, 4, u32_at(bytes, 0)->0 as nat),
        ),
{
    let count = u32_at(bytes, 0)->0;
    let entries = parse_query(bytes)->Ok_0;
    lemma_entries_reencode(bytes, 4, count as nat);
    lemma_u32_bytes_round_trip(bytes.subrange(0, 4));
    let end = entries_end(bytes, 4, count as nat);
    assert(bytes.subrange(0, end) =~= bytes.subrange(0, 4) + bytes.subrange(4, end));
}

proof fn lemma_placed_entries_strict(bytes: Seq<u8>, pos: int, entries: Seq<EntryView>)
    requires
        entries_well_formed(entries),
        placed(bytes, pos, entries_wire(entries)),
        bytes.len() == pos + entries_wire(entries).len() || bytes.len() >= pos + entries_wire(
            entries,
        ).len() + 2,
    ensures
        entries_strict(bytes, pos, entries.len()),
        entries_end(bytes, pos, entries.len()) == pos + entries_wire(entries).len(),
    decreases entries.len(),
{
    if entries.len() == 0 {
        assert(entries_wire(entries) =~= Seq::<u8>::empty());
    } else {
        let e = entries[0];
        let rest = entries.drop_first();
        let piece = entry_wire(e);
        let next = pos + piece.len();
        let whole = entries_wire(entries);
        lemma_entries_wire_front(entries);
        lemma_entry_wire_len(e);
        assert(bytes.subrange(pos, pos + whole.len()) == piece + entries_wire(rest));
        assert(placed(bytes, pos, piece)) by {
            assert(bytes.subrange(pos, pos + piece.len()) =~= bytes.subrange(
                pos,
                pos + whole.len(),
            ).subrange(0, piece.len() as int));
            assert((piece + entries_wire(rest)).subrange(0, piece.len() as int) =~= piece);
        }
        assert(placed(bytes, next, entries_wire(rest))) by {
            assert(bytes.subrange(next, next + entries_wire(rest).len()) =~= bytes.subrange(
                pos,
                pos + whole.len(),
            ).subrange(piece.len() as int, whole.len() as int));
            assert((piece + entries_wire(rest)).subrange(piece.len() as int, whole.len() as int)
                =~= entries_wire(rest));
        }
        lemma_entry_decodes(bytes, pos, e);
        if e is Value {
            lemma_placed_index(bytes, pos, piece, 2);
        }
        assert(entries_well_formed(rest)) by {
            assert forall|i: int| 0 <= i < rest.len() implies entry_well_formed(
                #[trigger] rest[i],
            ) by {
                assert(rest[i] == entries[i + 1]);
            }
        }
        lemma_placed_entries_strict(bytes, next, rest);
    }
}

/// The bytes of a well-formed query are written the encoder's way, to their
/// end.
pub proof fn lemma_encoding_is_strict(entries: Seq<EntryView>)
    requires
        query_well_formed(entries),
    ensures
        entries_strict(query_wire(entries), 4, entries.len()),
        entries_end(query_wire(entries), 4, entries.len()) == query_wire(entries).len(),
        u32_at(query_wire(entries), 0) == Some(entries.len() as u32),
{
    let count = entries.len() as u32;
    let bytes = query_wire(entries);
    lemma_u32_round_trip(count);
    assert(bytes.subrange(0, 4) =~= u32_be(count));
    assert(bytes.subrange(4, 4 + entries_wire(entries).len() as int) =~= entries_wire(entries));
    lemma_placed_entries_strict(bytes, 4, entries);
}

} // verus!
