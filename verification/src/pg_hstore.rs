//! Key/value maps with text keys and text or null values.
//!
//! A map travels as a big-endian `i32` count of pairs followed by the pairs:
//! the key and the value, each as a big-endian `i32` length and that many
//! bytes of UTF-8. A value of length -1 has no bytes and is null.

use crate::buffer::{fits, get_i32, has_room, put_i32, put_slice, written};
use crate::error::CodecError;
use crate::text::{join, joined, lemma_utf8_injective, str_eq, str_from_utf8, views};
use crate::wire::{
    add_len, as_i32, be_u32, bits_i32, lemma_run_wire_concat, lemma_run_wire_step,
    lemma_signed_round_trip, lemma_u32_round_trip, run_wire, u32_be,
};
use bytes::BytesMut;
use vstd::prelude::*;
use vstd::slice::slice_subrange;
use vstd::string::*;
use vstd::utf8::{
    decode_utf8, encode_utf8, encode_utf8_decode_utf8, encode_utf8_valid_utf8, valid_utf8,
};

verus! {

/// A key with its value, as mathematical values.
pub type PairView = (Seq<char>, Option<Seq<char>>);

/// Whether `a` comes before `b` in the order of byte strings, looking from
/// offset `i` on, where both agree before `i`.
pub open spec fn lex_lt_from(a: Seq<u8>, b: Seq<u8>, i: int) -> bool
    decreases b.len() - i,
{
    if i < 0 || i >= b.len() {
        false
    } else if i >= a.len() {
        true
    } else if a[i] != b[i] {
        a[i] < b[i]
    } else {
        lex_lt_from(a, b, i + 1)
    }
}

/// Whether `a` comes before `b` in the order of byte strings: at the first
/// offset where they differ `a` has the lower byte, or `a` ends there.
pub open spec fn lex_lt(a: Seq<u8>, b: Seq<u8>) -> bool {
    lex_lt_from(a, b, 0)
}

/// Whether key `a` comes before key `b`: by their UTF-8 bytes.
pub open spec fn key_lt(a: Seq<char>, b: Seq<char>) -> bool {
    lex_lt(encode_utf8(a), encode_utf8(b))
}

/// The pairs in key order with `key` bound to `value`: in place of the pair
/// with that key where there is one, else in front of the first pair with a
/// higher key.
pub open spec fn pairs_insert(pairs: Seq<PairView>, key: Seq<char>, value: Option<Seq<char>>) -> Seq<
    PairView,
>
    decreases pairs.len(),
{
    if pairs.len() == 0 {
        seq![(key, value)]
    } else if key_lt(key, pairs[0].0) {
        seq![(key, value)] + pairs
    } else if key == pairs[0].0 {
        seq![(key, value)] + pairs.drop_first()
    } else {
        seq![pairs[0]] + pairs_insert(pairs.drop_first(), key, value)
    }
}

/// No byte string comes before itself.
pub proof fn lemma_lex_lt_irreflexive(a: Seq<u8>, i: int)
    requires
        0 <= i,
    ensures
        !lex_lt_from(a, a, i),
    decreases a.len() - i,
{
    if i < a.len() {
        lemma_lex_lt_irreflexive(a, i + 1);
    }
}

/// What comes before something that comes before `c` comes before `c`.
pub proof fn lemma_lex_lt_transitive(a: Seq<u8>, b: Seq<u8>, c: Seq<u8>, i: int)
    requires
        0 <= i,
        lex_lt_from(a, b, i),
        lex_lt_from(b, c, i),
    ensures
        lex_lt_from(a, c, i),
    decreases c.len() - i,
{
    if i < a.len() && a[i] == b[i] && b[i] == c[i] {
        lemma_lex_lt_transitive(a, b, c, i + 1);
    }
}

/// Of two different byte strings that agree before `i`, one comes before
/// the other.
pub proof fn lemma_lex_lt_total(a: Seq<u8>, b: Seq<u8>, i: int)
    requires
        0 <= i <= a.len(),
        i <= b.len(),
        forall|k: int| 0 <= k < i ==> a[k] == b[k],
        a != b,
    ensures
        lex_lt_from(a, b, i) || lex_lt_from(b, a, i),
    decreases a.len() - i,
{
    if i < a.len() && i < b.len() {
        if a[i] == b[i] {
            lemma_lex_lt_total(a, b, i + 1);
        }
    } else if i == a.len() && i == b.len() {
        assert(a =~= b);
    }
}

/// The order of keys is a strict total order.
pub proof fn lemma_key_order(a: Seq<char>, b: Seq<char>, c: Seq<char>)
    ensures
        !key_lt(a, a),
        key_lt(a, b) && key_lt(b, c) ==> key_lt(a, c),
        a != b ==> key_lt(a, b) || key_lt(b, a),
{
    lemma_lex_lt_irreflexive(encode_utf8(a), 0);
    if key_lt(a, b) && key_lt(b, c) {
        lemma_lex_lt_transitive(encode_utf8(a), encode_utf8(b), encode_utf8(c), 0);
    }
    if a != b {
        if encode_utf8(a) == encode_utf8(b) {
            lemma_utf8_injective(a, b);
        }
        lemma_lex_lt_total(encode_utf8(a), encode_utf8(b), 0);
    }
}

/// Whether the keys of the pairs ascend, so that no key occurs twice.
pub open spec fn keys_ascend(pairs: Seq<PairView>) -> bool {
    forall|i: int, j: int| 0 <= i < j < pairs.len() ==> key_lt(pairs[i].0, pairs[j].0)
}

/// What a key is bound to, if it is bound.
pub open spec fn pairs_get(pairs: Seq<PairView>, key: Seq<char>) -> Option<Option<Seq<char>>>
    decreases pairs.len(),
{
    if pairs.len() == 0 {
        None
    } else if pairs[0].0 == key {
        Some(pairs[0].1)
    } else {
        pairs_get(pairs.drop_first(), key)
    }
}

/// Binding a key in ascending pairs leaves the keys ascending, binds the key
/// to the value and leaves every other key as it was. The first key
/// afterwards is the lower of the key and the first key before.
pub proof fn lemma_insert(
    pairs: Seq<PairView>,
    key: Seq<char>,
    value: Option<Seq<char>>,
    other: Seq<char>,
)
    requires
        keys_ascend(pairs),
    ensures
        keys_ascend(pairs_insert(pairs, key, value)),
        pairs_get(pairs_insert(pairs, key, value), key) == Some(value),
        other != key ==> pairs_get(pairs_insert(pairs, key, value), other) == pairs_get(
            pairs,
            other,
        ),
        pairs_insert(pairs, key, value).len() > 0,
        pairs_insert(pairs, key, value)[0].0 == key || (pairs.len() > 0 && pairs_insert(
            pairs,
            key,
            value,
        )[0].0 == pairs[0].0 && key_lt(pairs[0].0, key)),
    decreases pairs.len(),
{
    let after = pairs_insert(pairs, key, value);
    if pairs.len() == 0 {
        assert(after.drop_first() =~= pairs);
    } else {
        let rest = pairs.drop_first();
        assert(keys_ascend(rest)) by {
            assert forall|i: int, j: int| 0 <= i < j < rest.len() implies key_lt(
                rest[i].0,
                rest[j].0,
            ) by {
                assert(rest[i] == pairs[i + 1] && rest[j] == pairs[j + 1]);
            }
        }
        if key_lt(key, pairs[0].0) {
            assert(after.drop_first() =~= pairs);
            assert forall|i: int, j: int| 0 <= i < j < after.len() implies key_lt(
                after[i].0,
                after[j].0,
            ) by {
                if i == 0 && j > 1 {
                    lemma_key_order(key, pairs[0].0, pairs[j - 1].0);
                }
            }
        } else if key == pairs[0].0 {
            assert(after.drop_first() =~= rest);
            assert forall|i: int, j: int| 0 <= i < j < after.len() implies key_lt(
                after[i].0,
                after[j].0,
            ) by {
                assert(after[j] == pairs[j]);
            }
        } else {
            lemma_key_order(key, pairs[0].0, key);
            lemma_insert(rest, key, value, other);
            let inner = pairs_insert(rest, key, value);
            assert(after.drop_first() =~= inner);
            assert(key_lt(pairs[0].0, inner[0].0)) by {
                if inner[0].0 != key {
                    assert(rest[0] == pairs[1]);
                }
            }
            assert forall|i: int, j: int| 0 <= i < j < after.len() implies key_lt(
                after[i].0,
                after[j].0,
            ) by {
                if i == 0 {
                    if j > 1 {
                        lemma_key_order(pairs[0].0, inner[0].0, inner[j - 1].0);
                    }
                } else {
                    assert(after[i] == inner[i - 1] && after[j] == inner[j - 1]);
                }
            }
        }
    }
}

/// What reading a length gives: the number and the bytes behind it.
pub open spec fn parse_length(bytes: Seq<u8>) -> Result<(i32, Seq<u8>), CodecError> {
    if bytes.len() < 4 {
        Err(CodecError::TruncatedInput)
    } else {
        Ok((as_i32(be_u32(bytes.subrange(0, 4))), bytes.subrange(4, bytes.len() as int)))
    }
}

/// What reading a text gives: the text, or none for a null, and the bytes
/// behind it.
pub open spec fn parse_string(bytes: Seq<u8>) -> Result<(Option<Seq<char>>, Seq<u8>), CodecError> {
    match parse_length(bytes) {
        Err(e) => Err(e),
        Ok((len, rest)) => if len == -1 {
            Ok((None, rest))
        } else if len < 0 {
            Err(CodecError::LengthOutOfRange)
        } else if rest.len() < len {
            Err(CodecError::TruncatedInput)
        } else if !valid_utf8(rest.subrange(0, len as int)) {
            Err(CodecError::InvalidUtf8)
        } else {
            Ok(
                (
                    Some(decode_utf8(rest.subrange(0, len as int))),
                    rest.subrange(len as int, rest.len() as int),
                ),
            )
        },
    }
}

/// The pairs that `count` more pairs read from `bytes` make of `pairs`. A
/// key read again takes the value read last.
pub open spec fn parse_pairs(bytes: Seq<u8>, count: nat, pairs: Seq<PairView>) -> Result<
    Seq<PairView>,
    CodecError,
>
    decreases count,
{
    if count == 0 {
        Ok(pairs)
    } else {
        match parse_string(bytes) {
            Err(e) => Err(e),
            Ok((None, _)) => Err(CodecError::MissingKey),
            Ok((Some(key), rest)) => match parse_string(rest) {
                Err(e) => Err(e),
                Ok((value, rest)) => parse_pairs(
                    rest,
                    (count - 1) as nat,
                    pairs_insert(pairs, key, value),
                ),
            },
        }
    }
}

/// What a byte string decodes to: the pairs in key order. Bytes behind the
/// last pair are not looked at.
pub open spec fn parse_hstore(bytes: Seq<u8>) -> Result<Seq<PairView>, CodecError> {
    match parse_length(bytes) {
        Err(e) => Err(e),
        Ok((count, rest)) => if count < 0 {
            Err(CodecError::LengthOutOfRange)
        } else {
            parse_pairs(rest, count as nat, Seq::empty())
        },
    }
}

/// The bytes of a text: its length as it fits in 32 bits, then its UTF-8.
pub open spec fn string_wire(text: Seq<char>) -> Seq<u8> {
    u32_be(bits_i32(encode_utf8(text).len() as i32)) + encode_utf8(text)
}

/// The bytes of a pair. A null value is written as the length -1.
pub open spec fn pair_wire(pair: PairView) -> Seq<u8> {
    string_wire(pair.0) + (match pair.1 {
        Some(value) => string_wire(value),
        None => u32_be(bits_i32(-1i32)),
    })
}

/// The bytes of a map: the count, then the pairs in key order.
pub open spec fn hstore_wire(pairs: Seq<PairView>) -> Seq<u8> {
    u32_be(bits_i32(pairs.len() as i32)) + run_wire(pairs, |p: PairView| pair_wire(p))
}

/// `parts` with the text of `pair` behind, where its value is not null.
pub open spec fn with_pair_text(parts: Seq<Seq<char>>, pair: PairView) -> Seq<Seq<char>> {
    match pair.1 {
        Some(value) => parts.push("\""@ + pair.0 + "\"=>\""@ + value + "\""@),
        None => parts,
    }
}

/// The texts of the pairs whose value is not null, in key order.
pub open spec fn pair_texts(pairs: Seq<PairView>) -> Seq<Seq<char>>
    decreases pairs.len(),
{
    if pairs.len() == 0 {
        Seq::empty()
    } else {
        with_pair_text(pair_texts(pairs.drop_last()), pairs.last())
    }
}

/// The text of a map: the pairs with a value, joined with commas.
pub open spec fn hstore_text(pairs: Seq<PairView>) -> Seq<char> {
    joined(pair_texts(pairs), ", "@)
}

/// A pair as a mathematical value.
pub open spec fn pair_view(pair: (String, Option<String>)) -> PairView {
    (
        pair.0@,
        match pair.1 {
            Some(value) => Some(value@),
            None => None,
        },
    )
}

/// The pairs of a vector of pairs, as mathematical values.
pub open spec fn pair_views(pairs: Seq<(String, Option<String>)>) -> Seq<PairView> {
    Seq::new(pairs.len(), |i: int| pair_view(pairs[i]))
}

/// A map from text keys to text or null values, kept in key order.
#[derive(Debug, Eq, PartialEq)]
pub struct PgHstore {
    pairs: Vec<(String, Option<String>)>,
}

impl View for PgHstore {
    type V = Seq<PairView>;

    closed spec fn view(&self) -> Seq<PairView> {
        pair_views(self.pairs@)
    }
}

/// The map that `r` holds, as a mathematical value.
pub open spec fn hstore_view(r: Result<PgHstore, CodecError>) -> Result<Seq<PairView>, CodecError> {
    match r {
        Ok(v) => Ok(v@),
        Err(e) => Err(e),
    }
}

/// The text that `r` holds, as a mathematical value.
pub open spec fn text_view(r: Result<Option<String>, CodecError>) -> Result<
    Option<Seq<char>>,
    CodecError,
> {
    match r {
        Ok(Some(s)) => Ok(Some(s@)),
        Ok(None) => Ok(None),
        Err(e) => Err(e),
    }
}

/// Reads a length and moves `buf` on behind it. On an error `buf` stays.
pub fn read_length<'a>(buf: &mut &'a [u8]) -> (r: Result<i32, CodecError>)
    ensures
        match parse_length(old(buf)@) {
            Ok((len, rest)) => r == Ok::<i32, CodecError>(len) && final(buf)@ == rest,
            Err(e) => r == Err::<i32, CodecError>(e) && final(buf)@ == old(buf)@,
        },
{
    let held: &[u8] = *buf;
    if held.len() < 4 {
        return Err(CodecError::TruncatedInput);
    }
    Ok(get_i32(buf))
}

/// Reads a text, or a null, and moves `buf` on behind it.
pub fn read_string<'a>(buf: &mut &'a [u8]) -> (r: Result<Option<String>, CodecError>)
    ensures
        text_view(r) == (match parse_string(old(buf)@) {
            Ok((text, _)) => Ok::<Option<Seq<char>>, CodecError>(text),
            Err(e) => Err(e),
        }),
        parse_string(old(buf)@) matches Ok((_, rest)) ==> final(buf)@ == rest,
{
    let len = match read_length(buf) {
        Ok(len) => len,
        Err(e) => {
            return Err(e);
        },
    };
    if len == -1 {
        return Ok(None);
    }
    if len < 0 {
        return Err(CodecError::LengthOutOfRange);
    }
    let len = len as usize;
    let held: &[u8] = *buf;
    if held.len() < len {
        return Err(CodecError::TruncatedInput);
    }
    let val = slice_subrange(held, 0, len);
    *buf = slice_subrange(held, len, held.len());
    match str_from_utf8(val) {
        Some(text) => {
            proof {
                encode_utf8_decode_utf8(text@);
            }
            Ok(Some(String::from_str(text)))
        },
        None => Err(CodecError::InvalidUtf8),
    }
}

fn bytes_lt(a: &[u8], b: &[u8]) -> (r: bool)
    ensures
        r == lex_lt(a@, b@),
{
    let mut i: usize = 0;
    while i < a.len() && i < b.len()
        invariant
            i <= a@.len(),
            i <= b@.len(),
            lex_lt(a@, b@) == lex_lt_from(a@, b@, i as int),
        decreases a@.len() - i,
    {
        if a[i] != b[i] {
            return a[i] < b[i];
        }
        i += 1;
    }
    i < b.len()
}

fn string_len(text: &String) -> (r: Option<usize>)
    ensures
        r == (if string_wire(text@).len() <= isize::MAX {
            Some(string_wire(text@).len() as usize)
        } else {
            None
        }),
{
    add_len(text.as_str().as_bytes().len(), 4)
}

fn pair_len(pair: &(String, Option<String>)) -> (r: Option<usize>)
    ensures
        r == (if pair_wire(pair_view(*pair)).len() <= isize::MAX {
            Some(pair_wire(pair_view(*pair)).len() as usize)
        } else {
            None
        }),
{
    let key = match string_len(&pair.0) {
        Some(n) => n,
        None => {
            return None;
        },
    };
    match &pair.1 {
        Some(value) => match string_len(value) {
            Some(n) => add_len(key, n),
            None => None,
        },
        None => add_len(key, 4),
    }
}

fn write_string(text: &String, out: &mut BytesMut)
    requires
        fits(*old(out), string_wire(text@).len() as int),
    ensures
        written(*final(out)) == written(*old(out)) + string_wire(text@),
{
    let bytes = text.as_str().as_bytes();
    put_i32(out, bytes.len() as i32);
    put_slice(out, bytes);
    assert(written(*out) =~= written(*old(out)) + string_wire(text@));
}

fn write_pair(pair: &(String, Option<String>), out: &mut BytesMut)
    requires
        fits(*old(out), pair_wire(pair_view(*pair)).len() as int),
    ensures
        written(*final(out)) == written(*old(out)) + pair_wire(pair_view(*pair)),
{
    write_string(&pair.0, out);
    match &pair.1 {
        Some(value) => {
            write_string(value, out);
        },
        None => {
            put_i32(out, -1);
        },
    }
    assert(written(*out) =~= written(*old(out)) + pair_wire(pair_view(*pair)));
}

fn insert_pair(pairs: &mut Vec<(String, Option<String>)>, key: String, value: Option<String>)
    ensures
        pair_views(final(pairs)@) == pairs_insert(
            pair_views(old(pairs)@),
            key@,
            pair_view((key, value)).1,
        ),
{
    let ghost before = pair_views(pairs@);
    let ghost item = pair_view((key, value));
    let mut i: usize = 0;
    proof {
        assert(before.skip(0) =~= before);
        assert(before.take(0) + pairs_insert(before, item.0, item.1) =~= pairs_insert(
            before,
            item.0,
            item.1,
        ));
    }
    while i < pairs.len()
        invariant
            i <= pairs@.len(),
            pair_views(pairs@) == before,
            before == pair_views(old(pairs)@),
            item == pair_view((key, value)),
            pairs_insert(before, item.0, item.1) == before.take(i as int) + pairs_insert(
                before.skip(i as int),
                item.0,
                item.1,
            ),
        decreases pairs@.len() - i,
    {
        let ghost tail = before.skip(i as int);
        assert(tail[0] == before[i as int]);
        assert(tail.drop_first() =~= before.skip(i + 1));
        if bytes_lt(key.as_str().as_bytes(), pairs[i].0.as_str().as_bytes()) {
            pairs.insert(i, (key, value));
            assert(pair_views(pairs@) =~= before.take(i as int) + (seq![item] + tail));
            return ;
        }
        if str_eq(key.as_str(), pairs[i].0.as_str()) {
            pairs.set(i, (key, value));
            assert(pair_views(pairs@) =~= before.take(i as int) + (seq![item]
                + tail.drop_first()));
            return ;
        }
        assert(before.take(i + 1) + pairs_insert(before.skip(i + 1), item.0, item.1)
            =~= before.take(i as int) + (seq![tail[0]] + pairs_insert(
            tail.drop_first(),
            item.0,
            item.1,
        )));
        i += 1;
    }
    pairs.push((key, value));
    assert(pair_views(pairs@) =~= before.take(i as int) + seq![item]);
}

impl Clone for PgHstore {
    fn clone(&self) -> (r: Self)
        ensures
            r@ == self@,
    {
        proof {
            use_type_invariant(self);
        }
        let mut pairs: Vec<(String, Option<String>)> = Vec::new();
        let mut i: usize = 0;
        while i < self.pairs.len()
            invariant
                i <= self.pairs@.len(),
                pair_views(pairs@) == self@.take(i as int),
            decreases self.pairs@.len() - i,
        {
            let value = match &self.pairs[i].1 {
                Some(value) => Some(value.clone()),
                None => None,
            };
            let key = self.pairs[i].0.clone();
            let ghost before = pair_views(pairs@);
            assert(pair_view((key, value)) == self@[i as int]);
            pairs.push((key, value));
            assert(pair_views(pairs@) =~= before.push(self@[i as int]));
            assert(pair_views(pairs@) =~= self@.take(i + 1));
            i += 1;
        }
        proof {
            assert(self@.take(i as int) =~= self@);
        }
        PgHstore { pairs }
    }
}

impl Default for PgHstore {
    fn default() -> (r: Self)
        ensures
            r@ == Seq::<PairView>::empty(),
    {
        PgHstore::new()
    }
}

impl PgHstore {
    #[verifier::type_invariant]
    spec fn ordered(&self) -> bool {
        keys_ascend(self@)
    }

    /// The map without pairs.
    pub fn new() -> (r: Self)
        ensures
            r@ == Seq::<PairView>::empty(),
    {
        let r = PgHstore { pairs: Vec::new() };
        assert(r@ =~= Seq::<PairView>::empty());
        r
    }

    /// The number of pairs.
    pub fn len(&self) -> (n: usize)
        ensures
            n == self@.len(),
    {
        self.pairs.len()
    }

    /// The pairs in key order: their keys ascend.
    pub fn pairs(&self) -> (r: &Vec<(String, Option<String>)>)
        ensures
            pair_views(r@) == self@,
            keys_ascend(self@),
    {
        proof {
            use_type_invariant(self);
        }
        &self.pairs
    }

    /// Binds `key` to `value`, in place of what it was bound to before.
    pub fn insert(&mut self, key: String, value: Option<String>)
        ensures
            final(self)@ == pairs_insert(old(self)@, key@, pair_view((key, value)).1),
    {
        let ghost before = self@;
        let ghost item = pair_view((key, value));
        proof {
            use_type_invariant(&*self);
            lemma_insert(before, item.0, item.1, item.0);
        }
        let mut taken = PgHstore::new();
        core::mem::swap(self, &mut taken);
        let mut pairs = taken.pairs;
        insert_pair(&mut pairs, key, value);
        *self = PgHstore { pairs };
    }

    /// Whether a wire type of this name carries such maps.
    pub fn accepts(wire_type: &str) -> (r: bool)
        ensures
            r == (wire_type@ == "hstore"@),
    {
        str_eq(wire_type, "hstore")
    }

    /// Decodes a map from its wire bytes.
    pub fn from_sql(raw: &[u8]) -> (r: Result<Self, CodecError>)
        ensures
            hstore_view(r) == parse_hstore(raw@),
    {
        let mut buf: &[u8] = raw;
        let count = match read_length(&mut buf) {
            Ok(count) => count,
            Err(e) => {
                return Err(e);
            },
        };
        if count < 0 {
            return Err(CodecError::LengthOutOfRange);
        }
        let mut result = PgHstore::new();
        let mut i: i32 = 0;
        while i < count
            invariant
                0 <= i <= count,
                parse_hstore(raw@) == parse_pairs(buf@, (count - i) as nat, result@),
            decreases count - i,
        {
            let key = match read_string(&mut buf) {
                Ok(Some(key)) => key,
                Ok(None) => {
                    return Err(CodecError::MissingKey);
                },
                Err(e) => {
                    return Err(e);
                },
            };
            let value = match read_string(&mut buf) {
                Ok(value) => value,
                Err(e) => {
                    return Err(e);
                },
            };
            result.insert(key, value);
            i = i + 1;
        }
        Ok(result)
    }

    /// The length of the wire bytes, where a buffer can be that long.
    fn wire_len(&self) -> (r: Option<usize>)
        ensures
            r == (if hstore_wire(self@).len() <= isize::MAX {
                Some(hstore_wire(self@).len() as usize)
            } else {
                None
            }),
    {
        let ghost one = |p: PairView| pair_wire(p);
        let mut total: usize = 4;
        let mut i: usize = 0;
        while i < self.pairs.len()
            invariant
                i <= self.pairs@.len(),
                one == |p: PairView| pair_wire(p),
                total <= isize::MAX,
                total == 4 + run_wire(self@.take(i as int), one).len(),
            decreases self.pairs@.len() - i,
        {
            proof {
                lemma_run_wire_step(self@, one, i as int);
            }
            let n = match pair_len(&self.pairs[i]) {
                Some(n) => n,
                None => {
                    return None;
                },
            };
            total = match add_len(total, n) {
                Some(sum) => sum,
                None => {
                    return None;
                },
            };
            i += 1;
        }
        proof {
            assert(self@.take(i as int) =~= self@);
        }
        Some(total)
    }

    /// Appends the wire bytes of the map to `out`. A wire type other than
    /// `hstore` is refused, then a map of more than `i32::MAX` pairs, then a
    /// buffer without room; `out` is then left as it is.
    pub fn to_sql(&self, wire_type: &str, out: &mut BytesMut) -> (r: Result<(), CodecError>)
        ensures
            r is Ok <==> wire_type@ == "hstore"@ && self@.len() <= i32::MAX && fits(
                *old(out),
                hstore_wire(self@).len() as int,
            ),
            match r {
                Ok(_) => written(*final(out)) == written(*old(out)) + hstore_wire(self@),
                Err(e) => written(*final(out)) == written(*old(out)) && e == (if wire_type@
                    != "hstore"@ {
                    CodecError::UnexpectedType
                } else if self@.len() > i32::MAX {
                    CodecError::LengthOutOfRange
                } else {
                    CodecError::BufferFull
                }),
            },
    {
        let ghost one = |p: PairView| pair_wire(p);
        if !str_eq(wire_type, "hstore") {
            return Err(CodecError::UnexpectedType);
        }
        if self.pairs.len() > i32::MAX as usize {
            return Err(CodecError::LengthOutOfRange);
        }
        match self.wire_len() {
            Some(n) => {
                if !has_room(out, n) {
                    return Err(CodecError::BufferFull);
                }
            },
            None => {
                return Err(CodecError::BufferFull);
            },
        }
        put_i32(out, self.pairs.len() as i32);
        let mut i: usize = 0;
        while i < self.pairs.len()
            invariant
                i <= self.pairs@.len(),
                one == |p: PairView| pair_wire(p),
                fits(*old(out), hstore_wire(self@).len() as int),
                written(*out) == written(*old(out)) + u32_be(bits_i32(self@.len() as i32))
                    + run_wire(self@.take(i as int), one),
            decreases self.pairs@.len() - i,
        {
            proof {
                lemma_run_wire_step(self@, one, i as int);
            }
            write_pair(&self.pairs[i], out);
            proof {
                let head = written(*old(out)) + u32_be(bits_i32(self@.len() as i32));
                let before = run_wire(self@.take(i as int), one);
                let piece = pair_wire(self@[i as int]);
                assert((head + before) + piece =~= head + (before + piece));
            }
            i += 1;
        }
        proof {
            assert(self@.take(i as int) =~= self@);
            let head = written(*old(out));
            assert((head + u32_be(bits_i32(self@.len() as i32))) + run_wire(self@, one) =~= head
                + hstore_wire(self@));
        }
        Ok(())
    }

    /// The map as text.
    pub fn to_string(&self) -> (r: String)
        ensures
            r@ == hstore_text(self@),
    {
        let mut parts: Vec<String> = Vec::new();
        let mut i: usize = 0;
        assert(views(parts@) =~= pair_texts(self@.take(0)));
        while i < self.pairs.len()
            invariant
                i <= self.pairs@.len(),
                views(parts@) == pair_texts(self@.take(i as int)),
            decreases self.pairs@.len() - i,
        {
            let ghost before = views(parts@);
            proof {
                assert(self@.take(i + 1).drop_last() =~= self@.take(i as int));
                assert(self@.take(i + 1).last() == self@[i as int]);
            }
            match &self.pairs[i].1 {
                Some(value) => {
                    let mut part = String::from_str("\"");
                    part.append(self.pairs[i].0.as_str());
                    part.append("\"=>\"");
                    part.append(value.as_str());
                    part.append("\"");
                    parts.push(part);
                    assert(views(parts@) =~= before.push(
                        "\""@ + self@[i as int].0 + "\"=>\""@ + value@ + "\""@,
                    ));
                },
                None => {},
            }
            i += 1;
        }
        proof {
            assert(self@.take(i as int) =~= self@);
        }
        join(&parts, ", ")
    }
}

/// Whether the wire carries the pairs without loss: their keys ascend, and
/// their number and the length of each text fit a length field.
pub open spec fn pairs_encodable(pairs: Seq<PairView>) -> bool {
    &&& keys_ascend(pairs)
    &&& pairs.len() <= i32::MAX
    &&& forall|i: int|
        0 <= i < pairs.len() ==> encode_utf8((#[trigger] pairs[i]).0).len() <= i32::MAX && (
        pairs[i].1 matches Some(value) ==> encode_utf8(value).len() <= i32::MAX)
}

proof fn lemma_length_decodes(n: i32, tail: Seq<u8>)
    ensures
        parse_length(u32_be(bits_i32(n)) + tail) == Ok::<(i32, Seq<u8>), CodecError>((n, tail)),
{
    let bytes = u32_be(bits_i32(n)) + tail;
    lemma_u32_round_trip(bits_i32(n));
    lemma_signed_round_trip(0, 0, n, 0);
    assert(bytes.subrange(0, 4) =~= u32_be(bits_i32(n)));
    assert(bytes.subrange(4, bytes.len() as int) =~= tail);
}

proof fn lemma_string_decodes(text: Seq<char>, tail: Seq<u8>)
    requires
        encode_utf8(text).len() <= i32::MAX,
    ensures
        parse_string(string_wire(text) + tail) == Ok::<(Option<Seq<char>>, Seq<u8>), CodecError>(
            (Some(text), tail),
        ),
{
    let body = encode_utf8(text);
    let n = body.len() as i32;
    assert(string_wire(text) + tail =~= u32_be(bits_i32(n)) + (body + tail));
    lemma_length_decodes(n, body + tail);
    assert((body + tail).subrange(0, n as int) =~= body);
    assert((body + tail).subrange(n as int, (body + tail).len() as int) =~= tail);
    encode_utf8_valid_utf8(text);
    encode_utf8_decode_utf8(text);
}

proof fn lemma_ascend_drop_first(pairs: Seq<PairView>)
    requires
        keys_ascend(pairs),
        pairs.len() > 0,
    ensures
        keys_ascend(pairs.drop_first()),
{
    let rest = pairs.drop_first();
    assert forall|i: int, j: int| 0 <= i < j < rest.len() implies key_lt(rest[i].0, rest[j].0) by {
        assert(rest[i] == pairs[i + 1] && rest[j] == pairs[j + 1]);
    }
}

/// Binding a key above all keys of ascending pairs puts the pair behind them.
pub proof fn lemma_insert_above(pairs: Seq<PairView>, pair: PairView)
    requires
        keys_ascend(pairs.push(pair)),
    ensures
        pairs_insert(pairs, pair.0, pair.1) == pairs.push(pair),
    decreases pairs.len(),
{
    let all = pairs.push(pair);
    if pairs.len() == 0 {
        assert(pairs_insert(pairs, pair.0, pair.1) =~= all);
    } else {
        assert(all[0] == pairs[0] && all[pairs.len() as int] == pair);
        assert(key_lt(pairs[0].0, pair.0));
        lemma_key_order(pair.0, pairs[0].0, pair.0);
        lemma_key_order(pairs[0].0, pairs[0].0, pairs[0].0);
        lemma_ascend_drop_first(all);
        assert(all.drop_first() =~= pairs.drop_first().push(pair));
        lemma_insert_above(pairs.drop_first(), pair);
        assert(seq![pairs[0]] + pairs.drop_first().push(pair) =~= all);
    }
}

proof fn lemma_pairs_decode(done: Seq<PairView>, rest: Seq<PairView>)
    requires
        pairs_encodable(done + rest),
    ensures
        parse_pairs(run_wire(rest, |p: PairView| pair_wire(p)), rest.len(), done) == Ok::<
            Seq<PairView>,
            CodecError,
        >(done + rest),
    decreases rest.len(),
{
    let one = |p: PairView| pair_wire(p);
    let all = done + rest;
    if rest.len() == 0 {
        assert(all =~= done);
    } else {
        let pair = rest[0];
        let tail = rest.drop_first();
        let behind = run_wire(tail, one);
        assert(all[done.len() as int] == pair);
        assert(rest =~= seq![pair] + tail);
        lemma_run_wire_concat(seq![pair], tail, one);
        assert(seq![pair].drop_last() =~= Seq::<PairView>::empty());
        assert(run_wire(Seq::<PairView>::empty(), one) =~= Seq::<u8>::empty());
        assert(run_wire(seq![pair], one) =~= pair_wire(pair));
        let value_bytes = match pair.1 {
            Some(value) => string_wire(value),
            None => u32_be(bits_i32(-1i32)),
        };
        assert(run_wire(rest, one) =~= string_wire(pair.0) + (value_bytes + behind));
        lemma_string_decodes(pair.0, value_bytes + behind);
        match pair.1 {
            Some(value) => {
                lemma_string_decodes(value, behind);
            },
            None => {
                lemma_length_decodes(-1i32, behind);
            },
        }
        assert(keys_ascend(done.push(pair))) by {
            assert forall|i: int, j: int| 0 <= i < j < done.push(pair).len() implies key_lt(
                done.push(pair)[i].0,
                done.push(pair)[j].0,
            ) by {
                assert(done.push(pair)[i] == all[i] && done.push(pair)[j] == all[j]);
            }
        }
        lemma_insert_above(done, pair);
        assert(done.push(pair) + tail =~= all);
        lemma_pairs_decode(done.push(pair), tail);
    }
}

/// Decoding undoes encoding: the wire bytes of pairs in key order decode to
/// those pairs.
pub proof fn lemma_hstore_round_trip(pairs: Seq<PairView>)
    requires
        pairs_encodable(pairs),
    ensures
        parse_hstore(hstore_wire(pairs)) == Ok::<Seq<PairView>, CodecError>(pairs),
{
    let n = pairs.len() as i32;
    lemma_length_decodes(n, run_wire(pairs, |p: PairView| pair_wire(p)));
    assert(Seq::<PairView>::empty() + pairs =~= pairs);
    lemma_pairs_decode(Seq::empty(), pairs);
}

} // verus!
