//! Geometric values: points, lines, boxes, circles, paths and polygons.
//!
//! Each is a run of coordinates, every coordinate the eight bytes of an IEEE
//! 754 double, most significant first. A path opens with a byte that says
//! whether it is closed and a big-endian `i32` count of points; a polygon
//! opens with the count alone. The codec here carries a coordinate as the
//! 64-bit pattern of its bytes and takes the text of a coordinate as given:
//! it does no arithmetic on coordinates.

use crate::buffer::{fits, has_room, put_i32, put_u64, put_u8, written};
use crate::error::CodecError;
use crate::text::{join, joined, str_eq, views};
use crate::wire::{
    be_u64, bits_i32, holds, i32_at, lemma_run_wire_step, run_wire, u32_be, u64_be, u8_at, Reader,
};
use bytes::BytesMut;
use vstd::prelude::*;
use vstd::string::*;

verus! {

/// The `n` big-endian 64-bit patterns that start at `pos`.
pub open spec fn word_run(bytes: Seq<u8>, pos: int, n: nat) -> Seq<u64> {
    Seq::new(n, |i: int| be_u64(bytes.subrange(pos + 8 * i, pos + 8 * i + 8)))
}

/// The bytes of a run of 64-bit patterns.
pub open spec fn words_wire(words: Seq<u64>) -> Seq<u8> {
    run_wire(words, |w: u64| u64_be(w))
}

/// A run of `n` patterns takes `8 * n` bytes.
pub proof fn lemma_words_wire_len(words: Seq<u64>)
    ensures
        words_wire(words).len() == 8 * words.len(),
    decreases words.len(),
{
    if words.len() > 0 {
        lemma_words_wire_len(words.drop_last());
    }
}

/// What the bytes of a value of `count` coordinates decode to, read as the
/// wire type `expected`. Bytes behind the coordinates are not looked at.
pub open spec fn parse_fixed(
    wire_type: Seq<char>,
    expected: Seq<char>,
    bytes: Seq<u8>,
    count: nat,
) -> Result<Seq<u64>, CodecError> {
    if wire_type != expected {
        Err(CodecError::UnexpectedType)
    } else if bytes.len() < 8 * count {
        Err(CodecError::TruncatedInput)
    } else {
        Ok(word_run(bytes, 0, count))
    }
}

/// What a counted run of points decodes to, where the count stands at
/// `pos`: two coordinates for each point.
pub open spec fn parse_points(bytes: Seq<u8>, pos: int) -> Result<Seq<u64>, CodecError> {
    match i32_at(bytes, pos) {
        None => Err(CodecError::TruncatedInput),
        Some(count) => if count < 0 {
            Err(CodecError::LengthOutOfRange)
        } else if !holds(bytes, pos + 4, 16 * count) {
            Err(CodecError::TruncatedInput)
        } else {
            Ok(word_run(bytes, pos + 4, (2 * count) as nat))
        },
    }
}

/// What the bytes of a path decode to: whether it is closed, and the
/// coordinates of its points.
pub open spec fn parse_path(wire_type: Seq<char>, bytes: Seq<u8>) -> Result<
    (bool, Seq<u64>),
    CodecError,
> {
    if wire_type != "path"@ {
        Err(CodecError::UnexpectedType)
    } else {
        match u8_at(bytes, 0) {
            None => Err(CodecError::TruncatedInput),
            Some(flag) => match parse_points(bytes, 1) {
                Ok(words) => Ok((flag != 0, words)),
                Err(e) => Err(e),
            },
        }
    }
}

/// What the bytes of a polygon decode to: the coordinates of its points.
pub open spec fn parse_polygon(wire_type: Seq<char>, bytes: Seq<u8>) -> Result<
    Seq<u64>,
    CodecError,
> {
    if wire_type != "polygon"@ {
        Err(CodecError::UnexpectedType)
    } else {
        parse_points(bytes, 0)
    }
}

/// The bytes of a counted run of points: half the number of coordinates as
/// the count, then the coordinates.
pub open spec fn points_wire(words: Seq<u64>) -> Seq<u8> {
    u32_be(bits_i32((words.len() / 2) as i32)) + words_wire(words)
}

/// The bytes of a path.
pub open spec fn path_wire(closed: bool, words: Seq<u64>) -> Seq<u8> {
    seq![if closed { 1u8 } else { 0u8 }] + points_wire(words)
}

/// The coordinates that `r` holds, as a mathematical value.
pub open spec fn words_view(r: Result<Vec<u64>, CodecError>) -> Result<Seq<u64>, CodecError> {
    match r {
        Ok(v) => Ok(v@),
        Err(e) => Err(e),
    }
}

/// The path that `r` holds, as a mathematical value.
pub open spec fn path_view(r: Result<(bool, Vec<u64>), CodecError>) -> Result<
    (bool, Seq<u64>),
    CodecError,
> {
    match r {
        Ok((closed, v)) => Ok((closed, v@)),
        Err(e) => Err(e),
    }
}

fn read_words<'a>(reader: &mut Reader<'a>, count: usize) -> (r: Option<Vec<u64>>)
    requires
        old(reader).wf(),
    ensures
        final(reader).wf(),
        final(reader).bytes == old(reader).bytes,
        r is Some <==> holds(old(reader).bytes@, old(reader).pos as int, 8 * count),
        r matches Some(v) ==> v@ == word_run(
            old(reader).bytes@,
            old(reader).pos as int,
            count as nat,
        ),
{
    let ghost bytes = reader.bytes@;
    let ghost start = reader.pos as int;
    let mut words: Vec<u64> = Vec::new();
    let mut i: usize = 0;
    while i < count
        invariant
            i <= count,
            reader.wf(),
            reader.bytes == old(reader).bytes,
            bytes == old(reader).bytes@,
            start == old(reader).pos,
            reader.pos == start + 8 * i,
            words@ == word_run(bytes, start, i as nat),
        decreases count - i,
    {
        match reader.read_u64() {
            Some(word) => {
                words.push(word);
                assert(words@ =~= word_run(bytes, start, (i + 1) as nat));
            },
            None => {
                return None;
            },
        }
        i += 1;
    }
    Some(words)
}

fn read_points<'a>(reader: &mut Reader<'a>) -> (r: Result<Vec<u64>, CodecError>)
    requires
        old(reader).wf(),
    ensures
        words_view(r) == parse_points(old(reader).bytes@, old(reader).pos as int),
{
    let count = match reader.read_i32() {
        Some(count) => count,
        None => {
            return Err(CodecError::TruncatedInput);
        },
    };
    if count < 0 {
        return Err(CodecError::LengthOutOfRange);
    }
    if count as usize > usize::MAX / 2 {
        return Err(CodecError::TruncatedInput);
    }
    match read_words(reader, 2 * (count as usize)) {
        Some(words) => Ok(words),
        None => Err(CodecError::TruncatedInput),
    }
}

fn write_words(words: &Vec<u64>, out: &mut BytesMut)
    requires
        fits(*old(out), 8 * words@.len() as int),
    ensures
        written(*final(out)) == written(*old(out)) + words_wire(words@),
{
    let ghost one = |w: u64| u64_be(w);
    let mut i: usize = 0;
    assert(written(*out) =~= written(*old(out)) + run_wire(words@.take(0), one));
    while i < words.len()
        invariant
            i <= words@.len(),
            one == |w: u64| u64_be(w),
            fits(*old(out), 8 * words@.len() as int),
            written(*out) == written(*old(out)) + run_wire(words@.take(i as int), one),
        decreases words@.len() - i,
    {
        proof {
            lemma_run_wire_step(words@, one, i as int);
            lemma_words_wire_len(words@.take(i as int));
        }
        put_u64(out, words[i]);
        assert(written(*out) =~= written(*old(out)) + run_wire(words@.take(i + 1), one));
        i += 1;
    }
    proof {
        assert(words@.take(i as int) =~= words@);
    }
}

/// Decodes a value of `count` coordinates that travels as the wire type
/// `expected`.
pub fn fixed_from_sql(wire_type: &str, expected: &str, raw: &[u8], count: usize) -> (r: Result<
    Vec<u64>,
    CodecError,
>)
    ensures
        words_view(r) == parse_fixed(wire_type@, expected@, raw@, count as nat),
{
    if !str_eq(wire_type, expected) {
        return Err(CodecError::UnexpectedType);
    }
    let mut reader = Reader::new(raw);
    match read_words(&mut reader, count) {
        Some(words) => Ok(words),
        None => Err(CodecError::TruncatedInput),
    }
}

/// Appends the coordinates of a value that travels as the wire type
/// `expected`. Another wire type is refused, and so is a buffer without
/// room; `out` is then left as it is.
pub fn fixed_to_sql(wire_type: &str, expected: &str, words: &Vec<u64>, out: &mut BytesMut) -> (r:
    Result<(), CodecError>)
    ensures
        r is Ok <==> wire_type@ == expected@ && fits(*old(out), 8 * words@.len() as int),
        match r {
            Ok(_) => written(*final(out)) == written(*old(out)) + words_wire(words@),
            Err(e) => written(*final(out)) == written(*old(out)) && e == (if wire_type@
                != expected@ {
                CodecError::UnexpectedType
            } else {
                CodecError::BufferFull
            }),
        },
{
    if !str_eq(wire_type, expected) {
        return Err(CodecError::UnexpectedType);
    }
    if words.len() > (isize::MAX as usize) / 8 || !has_room(out, 8 * words.len()) {
        return Err(CodecError::BufferFull);
    }
    write_words(words, out);
    Ok(())
}

/// Decodes a path: whether it is closed, and the coordinates of its points.
pub fn path_from_sql(wire_type: &str, raw: &[u8]) -> (r: Result<(bool, Vec<u64>), CodecError>)
    ensures
        path_view(r) == parse_path(wire_type@, raw@),
{
    if !str_eq(wire_type, "path") {
        return Err(CodecError::UnexpectedType);
    }
    let mut reader = Reader::new(raw);
    let flag = match reader.read_u8() {
        Some(flag) => flag,
        None => {
            return Err(CodecError::TruncatedInput);
        },
    };
    match read_points(&mut reader) {
        Ok(words) => Ok((flag != 0, words)),
        Err(e) => Err(e),
    }
}

/// Decodes a polygon: the coordinates of its points.
pub fn polygon_from_sql(wire_type: &str, raw: &[u8]) -> (r: Result<Vec<u64>, CodecError>)
    ensures
        words_view(r) == parse_polygon(wire_type@, raw@),
{
    if !str_eq(wire_type, "polygon") {
        return Err(CodecError::UnexpectedType);
    }
    let mut reader = Reader::new(raw);
    read_points(&mut reader)
}

/// The error that a run of points of wire type `expected` is refused with,
/// if it is refused: another wire type, then more than `i32::MAX` points,
/// then a buffer without room for `head` bytes more than the points take.
pub open spec fn points_refusal(
    wire_type: Seq<char>,
    expected: Seq<char>,
    words: Seq<u64>,
    out: BytesMut,
    head: int,
) -> Option<CodecError> {
    if wire_type != expected {
        Some(CodecError::UnexpectedType)
    } else if words.len() / 2 > i32::MAX {
        Some(CodecError::LengthOutOfRange)
    } else if !fits(out, head + 8 * words.len()) {
        Some(CodecError::BufferFull)
    } else {
        None
    }
}

fn points_to_sql(
    wire_type: &str,
    expected: &str,
    closed: Option<bool>,
    words: &Vec<u64>,
    out: &mut BytesMut,
) -> (r: Result<(), CodecError>)
    ensures
        match points_refusal(
            wire_type@,
            expected@,
            words@,
            *old(out),
            if closed is Some { 5 } else { 4 },
        ) {
            Some(e) => r == Err::<(), CodecError>(e) && written(*final(out)) == written(*old(out)),
            None => r is Ok && written(*final(out)) == written(*old(out)) + (match closed {
                Some(flag) => path_wire(flag, words@),
                None => points_wire(words@),
            }),
        },
{
    if !str_eq(wire_type, expected) {
        return Err(CodecError::UnexpectedType);
    }
    let points = words.len() / 2;
    if points > i32::MAX as usize {
        return Err(CodecError::LengthOutOfRange);
    }
    let head: usize = if closed.is_some() { 5 } else { 4 };
    if words.len() > (isize::MAX as usize - 5) / 8 || !has_room(out, head + 8 * words.len()) {
        return Err(CodecError::BufferFull);
    }
    match closed {
        Some(flag) => {
            put_u8(out, if flag { 1 } else { 0 });
        },
        None => {},
    }
    put_i32(out, points as i32);
    write_words(words, out);
    proof {
        match closed {
            Some(flag) => {
                assert(written(*out) =~= written(*old(out)) + path_wire(flag, words@));
            },
            None => {
                assert(written(*out) =~= written(*old(out)) + points_wire(words@));
            },
        }
    }
    Ok(())
}

/// Appends the bytes of a path with the given coordinates, two for each
/// point. The count written is half the number of coordinates.
pub fn path_to_sql(wire_type: &str, closed: bool, words: &Vec<u64>, out: &mut BytesMut) -> (r:
    Result<(), CodecError>)
    ensures
        match points_refusal(wire_type@, "path"@, words@, *old(out), 5) {
            Some(e) => r == Err::<(), CodecError>(e) && written(*final(out)) == written(*old(out)),
            None => r is Ok && written(*final(out)) == written(*old(out)) + path_wire(
                closed,
                words@,
            ),
        },
{
    points_to_sql(wire_type, "path", Some(closed), words, out)
}

/// Appends the bytes of a polygon with the given coordinates, two for each
/// point. The count written is half the number of coordinates.
pub fn polygon_to_sql(wire_type: &str, words: &Vec<u64>, out: &mut BytesMut) -> (r: Result<
    (),
    CodecError,
>)
    ensures
        match points_refusal(wire_type@, "polygon"@, words@, *old(out), 4) {
            Some(e) => r == Err::<(), CodecError>(e) && written(*final(out)) == written(*old(out)),
            None => r is Ok && written(*final(out)) == written(*old(out)) + points_wire(words@),
        },
{
    points_to_sql(wire_type, "polygon", None, words, out)
}

/// The text of a point: its coordinates in parentheses.
pub open spec fn point_text(x: Seq<char>, y: Seq<char>) -> Seq<char> {
    "("@ + x + ","@ + y + ")"@
}

/// The text of a line: its three coefficients in braces.
pub open spec fn line_text(a: Seq<char>, b: Seq<char>, c: Seq<char>) -> Seq<char> {
    "{"@ + a + ","@ + b + ","@ + c + "}"@
}

/// The text of a box: its high corner, then its low corner.
pub open spec fn box_text(high: Seq<char>, low: Seq<char>) -> Seq<char> {
    high + ","@ + low
}

/// The text of a circle: its centre and its radius in angle brackets.
pub open spec fn circle_text(center: Seq<char>, radius: Seq<char>) -> Seq<char> {
    "<"@ + center + ","@ + radius + ">"@
}

/// The text of a path: its points joined with commas, in parentheses where
/// it is closed and in square brackets where not, and one more closing
/// parenthesis behind either.
pub open spec fn path_text(closed: bool, points: Seq<Seq<char>>) -> Seq<char> {
    (if closed { "("@ } else { "["@ }) + joined(points, ","@) + (if closed { ")"@ } else { "]"@ })
        + ")"@
}

/// The text of a polygon: its points joined with commas, in parentheses.
pub open spec fn polygon_text(points: Seq<Seq<char>>) -> Seq<char> {
    "("@ + joined(points, ","@) + ")"@
}

/// The text of a point whose coordinates are already rendered.
pub fn render_point(x: &str, y: &str) -> (r: String)
    ensures
        r@ == point_text(x@, y@),
{
    let mut out = String::from_str("(");
    out.append(x);
    out.append(",");
    out.append(y);
    out.append(")");
    out
}

/// The text of a line whose coefficients are already rendered.
pub fn render_line(a: &str, b: &str, c: &str) -> (r: String)
    ensures
        r@ == line_text(a@, b@, c@),
{
    let mut out = String::from_str("{");
    out.append(a);
    out.append(",");
    out.append(b);
    out.append(",");
    out.append(c);
    out.append("}");
    out
}

/// The text of a box whose corners are already rendered.
pub fn render_box(high: &str, low: &str) -> (r: String)
    ensures
        r@ == box_text(high@, low@),
{
    let mut out = String::from_str(high);
    out.append(",");
    out.append(low);
    out
}

/// The text of a circle whose centre and radius are already rendered.
pub fn render_circle(center: &str, radius: &str) -> (r: String)
    ensures
        r@ == circle_text(center@, radius@),
{
    let mut out = String::from_str("<");
    out.append(center);
    out.append(",");
    out.append(radius);
    out.append(">");
    out
}

/// The text of a path whose points are already rendered.
pub fn render_path(closed: bool, points: &Vec<String>) -> (r: String)
    ensures
        r@ == path_text(closed, views(points@)),
{
    let mut out = String::from_str(if closed { "(" } else { "[" });
    out.append(join(points, ",").as_str());
    out.append(if closed { ")" } else { "]" });
    out.append(")");
    out
}

/// The text of a polygon whose points are already rendered.
pub fn render_polygon(points: &Vec<String>) -> (r: String)
    ensures
        r@ == polygon_text(views(points@)),
{
    let mut out = String::from_str("(");
    out.append(join(points, ",").as_str());
    out.append(")");
    out
}

} // verus!
