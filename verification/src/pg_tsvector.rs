//! Text search vectors: lexemes in order, each with the positions at which
//! it occurs.
//!
//! A vector travels as a big-endian `u32` count followed by that many
//! lexemes. A lexeme is its text closed by a zero byte, a big-endian `u16`
//! count of positions and that many big-endian `u16` positions.

use crate::buffer::{fits, has_room, put_slice, put_u16, put_u32, put_u8, written};
use crate::error::CodecError;
use crate::text::{decimal, join, joined, push_decimal_i64, str_eq, str_from_utf8, views};
use crate::wire::{
    add_len, be_u16, holds, lemma_run_wire_step, nul_at, prepended, run_wire, u16_at, u16_be,
    u32_at, u32_be, Reader,
};
use bytes::BytesMut;
use vstd::prelude::*;
use vstd::string::*;
use vstd::utf8::{decode_utf8, encode_utf8, encode_utf8_decode_utf8, valid_utf8};

verus! {

/// A lexeme and the positions at which it occurs.
#[derive(Debug, Clone, PartialEq)]
pub struct Lexeme {
    pub word: String,
    pub positions: Vec<i32>,
}

/// A text search vector.
#[derive(Debug, Clone, PartialEq)]
pub struct PgTsVector {
    pub words: Vec<Lexeme>,
}

/// A lexeme as a mathematical value.
pub struct LexemeView {
    pub word: Seq<char>,
    pub positions: Seq<i32>,
}

impl View for Lexeme {
    type V = LexemeView;

    open spec fn view(&self) -> LexemeView {
        LexemeView { word: self.word@, positions: self.positions@ }
    }
}

/// The lexemes of a vector of lexemes, as mathematical values.
pub open spec fn lexeme_views(words: Seq<Lexeme>) -> Seq<LexemeView> {
    Seq::new(words.len(), |i: int| words[i]@)
}

impl View for PgTsVector {
    type V = Seq<LexemeView>;

    open spec fn view(&self) -> Seq<LexemeView> {
        lexeme_views(self.words@)
    }
}

/// The `n` big-endian `u16` that start at `pos`, widened.
pub open spec fn position_run(bytes: Seq<u8>, pos: int, n: nat) -> Seq<i32> {
    Seq::new(n, |i: int| be_u16(bytes.subrange(pos + 2 * i, pos + 2 * i + 2)) as i32)
}

/// The lexeme that starts at `pos`, and the offset just behind it. The text
/// is checked only once the positions have been found whole.
pub open spec fn parse_lexeme(bytes: Seq<u8>, pos: int) -> Result<(LexemeView, int), CodecError> {
    match nul_at(bytes, pos) {
        None => Err(CodecError::TruncatedInput),
        Some(end) => match u16_at(bytes, end + 1) {
            None => Err(CodecError::TruncatedInput),
            Some(n) => if !holds(bytes, end + 3, 2 * n) {
                Err(CodecError::TruncatedInput)
            } else if !valid_utf8(bytes.subrange(pos, end)) {
                Err(CodecError::InvalidUtf8)
            } else {
                Ok(
                    (
                        LexemeView {
                            word: decode_utf8(bytes.subrange(pos, end)),
                            positions: position_run(bytes, end + 3, n as nat),
                        },
                        end + 3 + 2 * n,
                    ),
                )
            },
        },
    }
}

/// The `count` lexemes that start at `pos`.
pub open spec fn parse_lexemes(bytes: Seq<u8>, pos: int, count: nat) -> Result<
    Seq<LexemeView>,
    CodecError,
>
    decreases count,
{
    if count == 0 {
        Ok(Seq::empty())
    } else {
        match parse_lexeme(bytes, pos) {
            Err(e) => Err(e),
            Ok((lexeme, next)) => prepended(
                seq![lexeme],
                parse_lexemes(bytes, next, (count - 1) as nat),
            ),
        }
    }
}

/// What a byte string decodes to. Bytes behind the last lexeme are not
/// looked at.
pub open spec fn parse_tsvector(bytes: Seq<u8>) -> Result<Seq<LexemeView>, CodecError> {
    match u32_at(bytes, 0) {
        None => Err(CodecError::TruncatedInput),
        Some(count) => parse_lexemes(bytes, 4, count as nat),
    }
}

/// The bytes of one position: its low sixteen bits.
pub open spec fn position_wire(p: i32) -> Seq<u8> {
    u16_be(p as u16)
}

/// The bytes of a lexeme. The count of positions is written as it fits in
/// sixteen bits.
pub open spec fn lexeme_wire(l: LexemeView) -> Seq<u8> {
    encode_utf8(l.word) + seq![0u8] + u16_be(l.positions.len() as u16) + run_wire(
        l.positions,
        |p: i32| position_wire(p),
    )
}

/// The bytes of a vector. The count of lexemes is written as it fits in 32
/// bits.
pub open spec fn tsvector_wire(v: Seq<LexemeView>) -> Seq<u8> {
    u32_be(v.len() as u32) + run_wire(v, |l: LexemeView| lexeme_wire(l))
}

/// The numerals of the positions.
pub open spec fn position_texts(positions: Seq<i32>) -> Seq<Seq<char>> {
    Seq::new(positions.len(), |i: int| decimal(positions[i] as int))
}

/// The text of a lexeme: quoted, a colon, the positions joined with commas.
pub open spec fn lexeme_text(l: LexemeView) -> Seq<char> {
    "'"@ + l.word + "':"@ + joined(position_texts(l.positions), ","@)
}

/// The texts of the lexemes.
pub open spec fn lexeme_texts(v: Seq<LexemeView>) -> Seq<Seq<char>> {
    Seq::new(v.len(), |i: int| lexeme_text(v[i]))
}

/// The text of a vector: its lexemes joined with spaces.
pub open spec fn tsvector_text(v: Seq<LexemeView>) -> Seq<char> {
    joined(lexeme_texts(v), " "@)
}

/// The vector that `r` holds, as a mathematical value.
pub open spec fn tsvector_view(r: Result<PgTsVector, CodecError>) -> Result<
    Seq<LexemeView>,
    CodecError,
> {
    match r {
        Ok(v) => Ok(v@),
        Err(e) => Err(e),
    }
}

fn read_lexeme<'a>(reader: &mut Reader<'a>) -> (r: Result<Lexeme, CodecError>)
    requires
        old(reader).wf(),
    ensures
        final(reader).wf(),
        final(reader).bytes == old(reader).bytes,
        match parse_lexeme(old(reader).bytes@, old(reader).pos as int) {
            Ok((lexeme, next)) => r matches Ok(l) && l@ == lexeme && final(reader).pos == next,
            Err(e) => r == Err::<Lexeme, CodecError>(e),
        },
{
    let ghost bytes = reader.bytes@;
    let ghost slice = reader.bytes;
    let ghost first = reader.pos as int;
    let raw = match reader.read_until_nul() {
        Some(raw) => raw,
        None => {
            return Err(CodecError::TruncatedInput);
        },
    };
    let count = match reader.read_u16() {
        Some(count) => count,
        None => {
            return Err(CodecError::TruncatedInput);
        },
    };
    let ghost start = reader.pos as int;
    let mut positions: Vec<i32> = Vec::new();
    let mut i: u16 = 0;
    while i < count
        invariant
            i <= count,
            reader.wf(),
            reader.bytes == slice,
            slice == old(reader).bytes,
            first == old(reader).pos,
            slice@ == bytes,
            nul_at(bytes, first) == Some(start - 3),
            u16_at(bytes, start - 2) == Some(count),
            reader.pos == start + 2 * i,
            positions@ == position_run(bytes, start, i as nat),
        decreases count - i,
    {
        match reader.read_u16() {
            Some(position) => {
                positions.push(position as i32);
                assert(positions@ =~= position_run(bytes, start, (i + 1) as nat));
            },
            None => {
                return Err(CodecError::TruncatedInput);
            },
        }
        i = i + 1;
    }
    let word = match str_from_utf8(raw) {
        Some(word) => word,
        None => {
            return Err(CodecError::InvalidUtf8);
        },
    };
    proof {
        encode_utf8_decode_utf8(word@);
    }
    Ok(Lexeme { word: String::from_str(word), positions })
}

fn lexeme_len(lexeme: &Lexeme) -> (r: Option<usize>)
    ensures
        r == (if lexeme_wire(lexeme@).len() <= isize::MAX {
            Some(lexeme_wire(lexeme@).len() as usize)
        } else {
            None
        }),
{
    proof {
        lemma_positions_len(lexeme.positions@);
    }
    let n = lexeme.positions.len();
    if n > (isize::MAX as usize) / 2 {
        return None;
    }
    match add_len(lexeme.word.as_str().as_bytes().len(), 3) {
        Some(head) => add_len(head, 2 * n),
        None => None,
    }
}

/// A run of `n` positions takes `2 * n` bytes.
pub proof fn lemma_positions_len(positions: Seq<i32>)
    ensures
        run_wire(positions, |p: i32| position_wire(p)).len() == 2 * positions.len(),
    decreases positions.len(),
{
    if positions.len() > 0 {
        lemma_positions_len(positions.drop_last());
    }
}

fn write_lexeme(lexeme: &Lexeme, out: &mut BytesMut)
    requires
        fits(*old(out), lexeme_wire(lexeme@).len() as int),
    ensures
        written(*final(out)) == written(*old(out)) + lexeme_wire(lexeme@),
{
    let ghost one = |p: i32| position_wire(p);
    proof {
        lemma_positions_len(lexeme.positions@);
    }
    put_slice(out, lexeme.word.as_str().as_bytes());
    put_u8(out, 0);
    put_u16(out, lexeme.positions.len() as u16);
    let ghost head = written(*out);
    assert(head =~= written(*old(out)) + encode_utf8(lexeme.word@) + seq![0u8] + u16_be(
        lexeme.positions@.len() as u16,
    ));
    let mut i: usize = 0;
    while i < lexeme.positions.len()
        invariant
            i <= lexeme.positions@.len(),
            one == |p: i32| position_wire(p),
            head.len() == written(*old(out)).len() + encode_utf8(lexeme.word@).len() + 3,
            fits(*old(out), lexeme_wire(lexeme@).len() as int),
            run_wire(lexeme.positions@, one).len() == 2 * lexeme.positions@.len(),
            written(*out) == head + run_wire(lexeme.positions@.take(i as int), one),
        decreases lexeme.positions@.len() - i,
    {
        proof {
            lemma_run_wire_step(lexeme.positions@, one, i as int);
            lemma_positions_len(lexeme.positions@.take(i as int));
        }
        put_u16(out, lexeme.positions[i] as u16);
        assert(written(*out) =~= head + run_wire(lexeme.positions@.take(i + 1), one));
        i += 1;
    }
    proof {
        assert(lexeme.positions@.take(i as int) =~= lexeme.positions@);
        assert(written(*out) =~= written(*old(out)) + lexeme_wire(lexeme@));
    }
}

fn render_lexeme(lexeme: &Lexeme) -> (r: String)
    ensures
        r@ == lexeme_text(lexeme@),
{
    let mut numerals: Vec<String> = Vec::new();
    let mut i: usize = 0;
    while i < lexeme.positions.len()
        invariant
            i <= lexeme.positions@.len(),
            views(numerals@) == position_texts(lexeme.positions@.take(i as int)),
        decreases lexeme.positions@.len() - i,
    {
        let ghost before = views(numerals@);
        let mut numeral = String::new();
        push_decimal_i64(&mut numeral, lexeme.positions[i] as i64);
        assert(numeral@ =~= decimal(lexeme.positions@[i as int] as int));
        numerals.push(numeral);
        assert(views(numerals@) =~= before.push(decimal(lexeme.positions@[i as int] as int)));
        assert(views(numerals@) =~= position_texts(lexeme.positions@.take(i + 1)));
        i += 1;
    }
    proof {
        assert(lexeme.positions@.take(i as int) =~= lexeme.positions@);
    }
    let mut out = String::from_str("'");
    out.append(lexeme.word.as_str());
    out.append("':");
    out.append(join(&numerals, ",").as_str());
    out
}

impl PgTsVector {
    /// Whether a wire type of this name carries text search vectors.
    pub fn accepts(wire_type: &str) -> (r: bool)
        ensures
            r == (wire_type@ == "tsvector"@),
    {
        str_eq(wire_type, "tsvector")
    }

    /// Decodes a vector from its wire bytes.
    pub fn from_sql(raw: &[u8]) -> (r: Result<Self, CodecError>)
        ensures
            tsvector_view(r) == parse_tsvector(raw@),
    {
        let mut reader = Reader::new(raw);
        let count = match reader.read_u32() {
            Some(count) => count,
            None => {
                return Err(CodecError::TruncatedInput);
            },
        };
        let mut words: Vec<Lexeme> = Vec::new();
        let mut done: u32 = 0;
        while done < count
            invariant
                reader.wf(),
                reader.bytes@ == raw@,
                done <= count,
                parse_tsvector(raw@) == prepended(
                    lexeme_views(words@),
                    parse_lexemes(raw@, reader.pos as int, (count - done) as nat),
                ),
            decreases count - done,
        {
            let ghost before = lexeme_views(words@);
            match read_lexeme(&mut reader) {
                Err(e) => {
                    return Err(e);
                },
                Ok(lexeme) => {
                    let ghost view = lexeme@;
                    words.push(lexeme);
                    proof {
                        let rest = parse_lexemes(raw@, reader.pos as int, (count - done - 1) as nat);
                        assert(lexeme_views(words@) =~= before + seq![view]);
                        if let Ok(tail) = rest {
                            assert(before + (seq![view] + tail) =~= (before + seq![view]) + tail);
                        }
                    }
                },
            }
            done = done + 1;
        }
        proof {
            assert(lexeme_views(words@) + Seq::<LexemeView>::empty() =~= lexeme_views(words@));
        }
        Ok(PgTsVector { words })
    }

    /// The length of the wire bytes, where a buffer can be that long.
    fn wire_len(&self) -> (r: Option<usize>)
        ensures
            r == (if tsvector_wire(self@).len() <= isize::MAX {
                Some(tsvector_wire(self@).len() as usize)
            } else {
                None
            }),
    {
        let ghost one = |l: LexemeView| lexeme_wire(l);
        let mut total: usize = 4;
        let mut i: usize = 0;
        while i < self.words.len()
            invariant
                i <= self.words@.len(),
                one == |l: LexemeView| lexeme_wire(l),
                total <= isize::MAX,
                total == 4 + run_wire(self@.take(i as int), one).len(),
            decreases self.words@.len() - i,
        {
            proof {
                lemma_run_wire_step(self@, one, i as int);
            }
            let n = match lexeme_len(&self.words[i]) {
                Some(n) => n,
                None => {
                    return None;
                },
            };
            total = match add_len(total, n) {
                Some(sum) => sum,
                None => {
                    return None;
                },
            };
            i += 1;
        }
        proof {
            assert(self@.take(i as int) =~= self@);
        }
        Some(total)
    }

    /// Appends the wire bytes of the vector to `out`, or leaves `out` as it
    /// is where they do not fit.
    pub fn to_sql(&self, out: &mut BytesMut) -> (r: Result<(), CodecError>)
        ensures
            r is Ok <==> fits(*old(out), tsvector_wire(self@).len() as int),
            match r {
                Ok(_) => written(*final(out)) == written(*old(out)) + tsvector_wire(self@),
                Err(e) => e == CodecError::BufferFull && written(*final(out)) == written(*old(out)),
            },
    {
        let ghost one = |l: LexemeView| lexeme_wire(l);
        match self.wire_len() {
            Some(n) => {
                if !has_room(out, n) {
                    return Err(CodecError::BufferFull);
                }
            },
            None => {
                return Err(CodecError::BufferFull);
            },
        }
        put_u32(out, self.words.len() as u32);
        let mut i: usize = 0;
        while i < self.words.len()
            invariant
                i <= self.words@.len(),
                one == |l: LexemeView| lexeme_wire(l),
                fits(*old(out), tsvector_wire(self@).len() as int),
                written(*out) == written(*old(out)) + u32_be(self@.len() as u32) + run_wire(
                    self@.take(i as int),
                    one,
                ),
            decreases self.words@.len() - i,
        {
            proof {
                lemma_run_wire_step(self@, one, i as int);
            }
            write_lexeme(&self.words[i], out);
            proof {
                let head = written(*old(out)) + u32_be(self@.len() as u32);
                let before = run_wire(self@.take(i as int), one);
                let piece = lexeme_wire(self@[i as int]);
                assert((head + before) + piece =~= head + (before + piece));
            }
            i += 1;
        }
        proof {
            assert(self@.take(i as int) =~= self@);
            let head = written(*old(out));
            assert((head + u32_be(self@.len() as u32)) + run_wire(self@, one) =~= head
                + tsvector_wire(self@));
        }
        Ok(())
    }

    /// The vector as text.
    pub fn to_string(&self) -> (r: String)
        ensures
            r@ == tsvector_text(self@),
    {
        let mut parts: Vec<String> = Vec::new();
        let mut i: usize = 0;
        while i < self.words.len()
            invariant
                i <= self.words@.len(),
                views(parts@) == lexeme_texts(self@.take(i as int)),
            decreases self.words@.len() - i,
        {
            let ghost before = views(parts@);
            let part = render_lexeme(&self.words[i]);
            assert(part@ == lexeme_text(self@[i as int]));
            parts.push(part);
            assert(views(parts@) =~= before.push(lexeme_text(self@[i as int])));
            assert(views(parts@) =~= lexeme_texts(self@.take(i + 1)));
            i += 1;
        }
        proof {
            assert(self@.take(i as int) =~= self@);
        }
        join(&parts, " ")
    }
}

} // verus!
