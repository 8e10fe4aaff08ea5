//! The wire format of a text search query: what a byte string decodes to,
//! which bytes a query is written as, and the decoder and encoder themselves.
//!
//! A query travels as a big-endian `u32` count followed by that many
//! entries. An entry opens with a tag byte. Tag 2 is an operator: a signed
//! code byte and, for `Phrase`, a big-endian `i16` distance. Tag 1 is an
//! operand: a weight byte, a prefix flag byte and the text, closed by a zero
//! byte. An entry with any other tag is that one byte and stands for nothing.

use crate::buffer::{buffer_len, fits, put_i16, put_i8, put_slice, put_u32, put_u8, written};
use crate::pg_tsquery::{
    entry_tag, entry_type_of_tag, entry_views, operator_code, operator_of_code, Entry, EntryType,
    EntryView, Operator, Operators, PgTsQuery, TsQueryError, Value, ValueView, MAX_OPERAND_LEN,
    MAX_WEIGHT,
};
use crate::text::{str_eq, str_from_utf8};
use crate::wire::{bits_i16, bits_i8, i16_at, i8_at, nul_at, u16_be, u32_at, u32_be, u8_at, Reader};
use bytes::BytesMut;
use vstd::prelude::*;
use vstd::std_specs::convert::TryFromSpecImpl;
use vstd::string::*;
use vstd::utf8::{decode_utf8, encode_utf8, encode_utf8_decode_utf8, valid_utf8};

verus! {

/// What reading one entry gives: the token, if the entry stands for one, and
/// the offset just behind the entry.
pub type Parsed = Result<(Option<EntryView>, int), TsQueryError>;

/// The operator entry whose code byte is at `pos`.
pub open spec fn parse_operator(bytes: Seq<u8>, pos: int) -> Parsed {
    match i8_at(bytes, pos) {
        None => Err(TsQueryError::TruncatedInput),
        Some(code) => match operator_of_code(code) {
            None => Err(TsQueryError::InvalidOperator),
            Some(kind) => if pos + 1 == bytes.len() - 1 {
                Err(TsQueryError::TrailingOperator)
            } else if kind == Operators::Phrase {
                match i16_at(bytes, pos + 1) {
                    None => Err(TsQueryError::TruncatedInput),
                    Some(d) => Ok(
                        (
                            Some(
                                EntryView::Operator(
                                    Operator { operator: kind, distance: Some(d) },
                                ),
                            ),
                            pos + 3,
                        ),
                    ),
                }
            } else {
                Ok((Some(EntryView::Operator(Operator { operator: kind, distance: None })), pos + 1))
            },
        },
    }
}

/// The operand entry whose weight byte is at `pos`.
pub open spec fn parse_value(bytes: Seq<u8>, pos: int) -> Parsed {
    if u8_at(bytes, pos) is None || u8_at(bytes, pos + 1) is None {
        Err(TsQueryError::TruncatedInput)
    } else {
        match nul_at(bytes, pos + 2) {
            None => Err(TsQueryError::TruncatedInput),
            Some(end) => {
                let text = bytes.subrange(pos + 2, end);
                if !valid_utf8(text) {
                    Err(TsQueryError::Utf8Error)
                } else if bytes[pos] > MAX_WEIGHT {
                    Err(TsQueryError::InvalidWeight)
                } else if text.len() > MAX_OPERAND_LEN {
                    Err(TsQueryError::OperandTooLong)
                } else {
                    Ok(
                        (
                            Some(
                                EntryView::Value(
                                    ValueView {
                                        weight: bytes[pos],
                                        text: decode_utf8(text),
                                        prefix: bytes[pos + 1] != 0,
                                    },
                                ),
                            ),
                            end + 1,
                        ),
                    )
                }
            },
        }
    }
}

/// The entry whose tag byte is at `pos`. A tag that names no kind of entry
/// is an entry of that one byte, which stands for nothing.
pub open spec fn parse_entry(bytes: Seq<u8>, pos: int) -> Parsed {
    match u8_at(bytes, pos) {
        None => Err(TsQueryError::TruncatedInput),
        Some(tag) => match entry_type_of_tag(tag) {
            Some(EntryType::Operator) => parse_operator(bytes, pos + 1),
            Some(EntryType::Value) => parse_value(bytes, pos + 1),
            None => Ok((None, pos + 1)),
        },
    }
}

/// `front`, followed by what `rest` holds where `rest` is no error.
pub open spec fn prepend(front: Seq<EntryView>, rest: Result<Seq<EntryView>, TsQueryError>) -> Result<
    Seq<EntryView>,
    TsQueryError,
> {
    match rest {
        Ok(tail) => Ok(front + tail),
        Err(e) => Err(e),
    }
}

/// The token of an entry as a sequence of one or none.
pub open spec fn token_seq(token: Option<EntryView>) -> Seq<EntryView> {
    match token {
        Some(e) => seq![e],
        None => Seq::empty(),
    }
}

/// The tokens of the `count` entries that start at `pos`.
pub open spec fn parse_entries(bytes: Seq<u8>, pos: int, count: nat) -> Result<
    Seq<EntryView>,
    TsQueryError,
>
    decreases count,
{
    if count == 0 {
        Ok(Seq::empty())
    } else {
        match parse_entry(bytes, pos) {
            Err(e) => Err(e),
            Ok((token, next)) => prepend(
                token_seq(token),
                parse_entries(bytes, next, (count - 1) as nat),
            ),
        }
    }
}

/// What a byte string decodes to: the tokens of a query, or the first error
/// met. Bytes behind the last entry are not looked at.
pub open spec fn parse_query(bytes: Seq<u8>) -> Result<Seq<EntryView>, TsQueryError> {
    match u32_at(bytes, 0) {
        None => Err(TsQueryError::TruncatedInput),
        Some(count) => parse_entries(bytes, 4, count as nat),
    }
}

/// The distance that a phrase operator is written with: 1 where it has none.
pub open spec fn wire_distance(op: Operator) -> i16 {
    match op.distance {
        Some(d) => d,
        None => 1,
    }
}

/// The bytes of an operator entry.
pub open spec fn operator_wire(op: Operator) -> Seq<u8> {
    seq![entry_tag(EntryType::Operator), bits_i8(operator_code(op.operator))] + (if op.operator
        == Operators::Phrase {
        u16_be(bits_i16(wire_distance(op)))
    } else {
        Seq::empty()
    })
}

/// The bytes of an operand entry.
pub open spec fn value_wire(v: ValueView) -> Seq<u8> {
    seq![entry_tag(EntryType::Value), v.weight, if v.prefix { 1u8 } else { 0u8 }] + encode_utf8(
        v.text,
    ) + seq![0u8]
}

/// The bytes of an entry.
pub open spec fn entry_wire(e: EntryView) -> Seq<u8> {
    match e {
        EntryView::Operator(op) => operator_wire(op),
        EntryView::Value(v) => value_wire(v),
    }
}

/// The bytes of a run of entries, one after another.
pub open spec fn entries_wire(entries: Seq<EntryView>) -> Seq<u8>
    decreases entries.len(),
{
    if entries.len() == 0 {
        Seq::empty()
    } else {
        entries_wire(entries.drop_last()) + entry_wire(entries.last())
    }
}

/// The bytes of a query: the count, then the entries.
pub open spec fn query_wire(entries: Seq<EntryView>) -> Seq<u8> {
    u32_be(entries.len() as u32) + entries_wire(entries)
}

/// The token that `entry` holds, where it holds one.
pub open spec fn token_view(entry: Option<Entry>) -> Option<EntryView> {
    match entry {
        Some(e) => Some(e@),
        None => None,
    }
}

/// The query that `r` holds, as a mathematical value.
pub open spec fn decoded_view(r: Result<PgTsQuery, TsQueryError>) -> Result<
    Seq<EntryView>,
    TsQueryError,
> {
    match r {
        Ok(q) => Ok(q@),
        Err(e) => Err(e),
    }
}

fn read_operator<'a>(reader: &mut Reader<'a>) -> (r: Result<Option<Entry>, TsQueryError>)
    requires
        old(reader).wf(),
    ensures
        final(reader).wf(),
        final(reader).bytes == old(reader).bytes,
        match parse_operator(old(reader).bytes@, old(reader).pos as int) {
            Ok((token, next)) => r matches Ok(e) && token_view(e) == token && final(reader).pos
                == next,
            Err(e) => r == Err::<Option<Entry>, TsQueryError>(e),
        },
{
    let code = match reader.read_i8() {
        Some(code) => code,
        None => {
            return Err(TsQueryError::TruncatedInput);
        },
    };
    let kind = match Operators::try_from(code) {
        Ok(kind) => kind,
        Err(e) => {
            return Err(e);
        },
    };
    if reader.remaining() == 1 {
        return Err(TsQueryError::TrailingOperator);
    }
    if kind == Operators::Phrase {
        match reader.read_i16() {
            Some(d) => Ok(Some(Entry::Operator(Operator { operator: kind, distance: Some(d) }))),
            None => Err(TsQueryError::TruncatedInput),
        }
    } else {
        Ok(Some(Entry::Operator(Operator { operator: kind, distance: None })))
    }
}

fn read_value<'a>(reader: &mut Reader<'a>) -> (r: Result<Option<Entry>, TsQueryError>)
    requires
        old(reader).wf(),
    ensures
        final(reader).wf(),
        final(reader).bytes == old(reader).bytes,
        match parse_value(old(reader).bytes@, old(reader).pos as int) {
            Ok((token, next)) => r matches Ok(e) && token_view(e) == token && final(reader).pos
                == next,
            Err(e) => r == Err::<Option<Entry>, TsQueryError>(e),
        },
{
    let weight = match reader.read_u8() {
        Some(weight) => weight,
        None => {
            return Err(TsQueryError::TruncatedInput);
        },
    };
    let prefix = match reader.read_u8() {
        Some(prefix) => prefix,
        None => {
            return Err(TsQueryError::TruncatedInput);
        },
    };
    let raw = match reader.read_until_nul() {
        Some(raw) => raw,
        None => {
            return Err(TsQueryError::TruncatedInput);
        },
    };
    let text = match str_from_utf8(raw) {
        Some(text) => text,
        None => {
            return Err(TsQueryError::Utf8Error);
        },
    };
    if weight > MAX_WEIGHT {
        return Err(TsQueryError::InvalidWeight);
    }
    if raw.len() > MAX_OPERAND_LEN {
        return Err(TsQueryError::OperandTooLong);
    }
    proof {
        encode_utf8_decode_utf8(text@);
    }
    Ok(Some(Entry::Value(Value { weight, text: String::from_str(text), prefix: prefix != 0 })))
}

fn read_entry<'a>(reader: &mut Reader<'a>) -> (r: Result<Option<Entry>, TsQueryError>)
    requires
        old(reader).wf(),
    ensures
        final(reader).wf(),
        final(reader).bytes == old(reader).bytes,
        match parse_entry(old(reader).bytes@, old(reader).pos as int) {
            Ok((token, next)) => r matches Ok(e) && token_view(e) == token && final(reader).pos
                == next,
            Err(e) => r == Err::<Option<Entry>, TsQueryError>(e),
        },
{
    let tag = match reader.read_u8() {
        Some(tag) => tag,
        None => {
            return Err(TsQueryError::TruncatedInput);
        },
    };
    match EntryType::try_from(tag) {
        Ok(EntryType::Operator) => read_operator(reader),
        Ok(EntryType::Value) => read_value(reader),
        Err(_) => Ok(None),
    }
}

impl<'a> TryFrom<&'a [u8]> for PgTsQuery {
    type Error = TsQueryError;

    /// Decodes a query from its wire bytes.
    fn try_from(bytes: &'a [u8]) -> (r: Result<Self, TsQueryError>)
        ensures
            decoded_view(r) == parse_query(bytes@),
    {
        let mut reader = Reader::new(bytes);
        let count = match reader.read_u32() {
            Some(count) => count,
            None => {
                return Err(TsQueryError::TruncatedInput);
            },
        };
        let mut entries: Vec<Entry> = Vec::new();
        let mut done: u32 = 0;
        while done < count
            invariant
                reader.wf(),
                reader.bytes@ == bytes@,
                done <= count,
                parse_query(bytes@) == prepend(
                    entry_views(entries@),
                    parse_entries(bytes@, reader.pos as int, (count - done) as nat),
                ),
            decreases count - done,
        {
            let ghost before = entry_views(entries@);
            let ghost pos = reader.pos as int;
            match read_entry(&mut reader) {
                Err(e) => {
                    return Err(e);
                },
                Ok(Some(entry)) => {
                    entries.push(entry);
                    proof {
                        let rest = parse_entries(bytes@, reader.pos as int, (count - done - 1) as nat);
                        assert(entry_views(entries@) =~= before + seq![entry@]);
                        if let Ok(tail) = rest {
                            assert(before + (seq![entry@] + tail) =~= (before + seq![entry@])
                                + tail);
                        }
                    }
                },
                Ok(None) => {
                    proof {
                        let rest = parse_entries(bytes@, reader.pos as int, (count - done - 1) as nat);
                        if let Ok(tail) = rest {
                            assert(Seq::<EntryView>::empty() + tail =~= tail);
                        }
                    }
                },
            }
            done = done + 1;
        }
        proof {
            assert(entry_views(entries@) + Seq::<EntryView>::empty() =~= entry_views(entries@));
        }
        Ok(PgTsQuery { entries })
    }
}

/// Two queries with the same tokens need not be the same value in memory, so
/// the conversion is specified up to the view of its result: the contract of
/// `try_from` is the exact statement.
impl<'a> TryFromSpecImpl<&'a [u8]> for PgTsQuery {
    open spec fn obeys_try_from_spec() -> bool {
        false
    }

    open spec fn try_from_spec(v: &'a [u8]) -> Result<Self, TsQueryError> {
        match parse_query(v@) {
            Ok(tokens) => Ok(choose|q: PgTsQuery| q@ == tokens),
            Err(e) => Err(e),
        }
    }
}

/// The bytes of a run of entries are those of its front followed by those of
/// its back.
pub proof fn lemma_entries_wire_concat(front: Seq<EntryView>, back: Seq<EntryView>)
    ensures
        entries_wire(front + back) == entries_wire(front) + entries_wire(back),
    decreases back.len(),
{
    if back.len() == 0 {
        assert(front + back =~= front);
        assert(entries_wire(front) + entries_wire(back) =~= entries_wire(front));
    } else {
        lemma_entries_wire_concat(front, back.drop_last());
        assert((front + back).drop_last() =~= front + back.drop_last());
        assert((front + back).last() == back.last());
        assert(entries_wire(front + back) =~= entries_wire(front) + entries_wire(back));
    }
}

/// The bytes of the first `k + 1` entries are those of the first `k`
/// followed by those of entry `k`, and no longer than those of all entries.
pub proof fn lemma_entries_wire_step(entries: Seq<EntryView>, k: int)
    requires
        0 <= k < entries.len(),
    ensures
        entries_wire(entries.take(k + 1)) == entries_wire(entries.take(k)) + entry_wire(entries[k]),
        entries_wire(entries.take(k + 1)).len() <= entries_wire(entries).len(),
{
    assert(entries.take(k + 1).drop_last() =~= entries.take(k));
    assert(entries.take(k + 1).last() == entries[k]);
    assert(entries =~= entries.take(k + 1) + entries.skip(k + 1));
    lemma_entries_wire_concat(entries.take(k + 1), entries.skip(k + 1));
}

fn entry_len_within(entry: &Entry, room: usize) -> (r: Option<usize>)
    ensures
        r == (if entry_wire(entry@).len() <= room {
            Some(entry_wire(entry@).len() as usize)
        } else {
            None
        }),
{
    match entry {
        Entry::Operator(op) => {
            let n: usize = if op.operator == Operators::Phrase { 4 } else { 2 };
            if n <= room {
                Some(n)
            } else {
                None
            }
        },
        Entry::Value(v) => {
            let text_len = v.length();
            if room < 4 || text_len > room - 4 {
                None
            } else {
                Some(text_len + 4)
            }
        },
    }
}

fn write_entry(entry: &Entry, out: &mut BytesMut)
    requires
        fits(*old(out), entry_wire(entry@).len() as int),
    ensures
        written(*final(out)) == written(*old(out)) + entry_wire(entry@),
{
    match entry {
        Entry::Operator(op) => {
            put_u8(out, u8::from(EntryType::Operator));
            put_i8(out, i8::from(op.operator));
            if op.operator == Operators::Phrase {
                let distance = match op.distance {
                    Some(d) => d,
                    None => 1,
                };
                put_i16(out, distance);
            }
            assert(written(*out) =~= written(*old(out)) + entry_wire(entry@));
        },
        Entry::Value(v) => {
            put_u8(out, u8::from(EntryType::Value));
            put_u8(out, v.weight);
            put_u8(out, if v.prefix { 1 } else { 0 });
            put_slice(out, v.text.as_str().as_bytes());
            put_u8(out, 0);
            assert(written(*out) =~= written(*old(out)) + entry_wire(entry@));
        },
    }
}

impl PgTsQuery {
    /// Decodes a query from its wire bytes.
    pub fn from_sql(raw: &[u8]) -> (r: Result<Self, TsQueryError>)
        ensures
            decoded_view(r) == parse_query(raw@),
    {
        PgTsQuery::try_from(raw)
    }

    /// Whether a wire type of this name carries text search queries.
    pub fn accepts(wire_type: &str) -> (r: bool)
        ensures
            r == (wire_type@ == "tsquery"@),
    {
        str_eq(wire_type, "tsquery")
    }

    /// The length of the wire bytes, where it is at most `room`.
    fn wire_len_within(&self, room: usize) -> (r: Option<usize>)
        ensures
            r == (if query_wire(self@).len() <= room {
                Some(query_wire(self@).len() as usize)
            } else {
                None
            }),
    {
        if room < 4 {
            return None;
        }
        let mut total: usize = 4;
        let mut i: usize = 0;
        while i < self.entries.len()
            invariant
                i <= self.entries@.len(),
                4 <= total <= room,
                total == 4 + entries_wire(self@.take(i as int)).len(),
            decreases self.entries@.len() - i,
        {
            proof {
                lemma_entries_wire_step(self@, i as int);
            }
            match entry_len_within(&self.entries[i], room - total) {
                Some(n) => {
                    total = total + n;
                },
                None => {
                    return None;
                },
            }
            i += 1;
        }
        proof {
            assert(self@.take(i as int) =~= self@);
        }
        Some(total)
    }

    /// Appends the wire bytes of the query to `out`, or leaves `out` as it is
    /// where they do not fit.
    pub fn to_sql(&self, out: &mut BytesMut) -> (r: Result<(), TsQueryError>)
        ensures
            match r {
                Ok(_) => written(*final(out)) == written(*old(out)) + query_wire(self@),
                Err(e) => e == TsQueryError::BufferFull && written(*final(out)) == written(
                    *old(out),
                ),
            },
            r is Ok <==> fits(*old(out), query_wire(self@).len() as int),
    {
        let held = buffer_len(out);
        let limit = isize::MAX as usize;
        if held > limit {
            return Err(TsQueryError::BufferFull);
        }
        if self.wire_len_within(limit - held).is_none() {
            return Err(TsQueryError::BufferFull);
        }
        put_u32(out, self.entries.len() as u32);
        let mut i: usize = 0;
        while i < self.entries.len()
            invariant
                i <= self.entries@.len(),
                fits(*old(out), query_wire(self@).len() as int),
                written(*out) == written(*old(out)) + u32_be(self@.len() as u32) + entries_wire(
                    self@.take(i as int),
                ),
            decreases self.entries@.len() - i,
        {
            proof {
                lemma_entries_wire_step(self@, i as int);
            }
            write_entry(&self.entries[i], out);
            proof {
                let head = written(*old(out)) + u32_be(self@.len() as u32);
                let before = entries_wire(self@.take(i as int));
                let piece = entry_wire(self@[i as int]);
                assert((head + before) + piece =~= head + (before + piece));
            }
            i += 1;
        }
        proof {
            assert(self@.take(i as int) =~= self@);
            let head = written(*old(out));
            assert((head + u32_be(self@.len() as u32)) + entries_wire(self@) =~= head + query_wire(
                self@,
            ));
        }
        Ok(())
    }
}

} // verus!
