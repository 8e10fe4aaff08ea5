//! Ranges: a pair of bounds, each inclusive, exclusive or absent.
//!
//! On the wire a range opens with a byte of flags that says which bounds are
//! present and which of them are inclusive. The bytes of the lower bound
//! follow, then those of the upper bound, each as its element type writes
//! it. The codec here deals with the flags and with where the bytes of each
//! bound stand; the elements are encoded and decoded by their own types.

use crate::buffer::{fits, has_room, put_slice, put_u8, written};
use crate::error::CodecError;
use crate::wire::add_len;
use bytes::BytesMut;
use std::ops::Bound;
use std::ops::Range;
use std::ops::RangeFrom;
use std::ops::RangeInclusive;
use std::ops::RangeTo;
use std::ops::RangeToInclusive;
use vstd::prelude::*;
use vstd::slice::slice_subrange;
use vstd::std_specs::convert::FromSpecImpl;
use vstd::string::*;

verus! {

/// `std::ops::Bound`, with its three variants as std declares them.
#[verifier::external_type_specification]
#[verifier::reject_recursive_types(T)]
pub struct ExBound<T>(Bound<T>);

/// `std::ops::RangeFrom`, with its one field as std declares it.
#[verifier::external_type_specification]
#[verifier::reject_recursive_types(T)]
pub struct ExRangeFrom<T>(RangeFrom<T>);

/// `std::ops::RangeTo`, with its one field as std declares it.
#[verifier::external_type_specification]
#[verifier::reject_recursive_types(T)]
pub struct ExRangeTo<T>(RangeTo<T>);

/// `std::ops::RangeToInclusive`, with its one field as std declares it.
#[verifier::external_type_specification]
#[verifier::reject_recursive_types(T)]
pub struct ExRangeToInclusive<T>(RangeToInclusive<T>);

/// `RangeInclusive::into_inner` takes the range apart into its lower and its
/// upper bound.
pub assume_specification<T>[ RangeInclusive::<T>::into_inner ](v: RangeInclusive<T>) -> (r: (T, T))
    ensures
        r.0 == v@.start,
        r.1 == v@.end,
;

/// A range of `T`.
#[derive(Debug, PartialEq, Eq)]
#[verifier::reject_recursive_types(T)]
pub struct PgRange<T> {
    pub start: Bound<T>,
    pub end: Bound<T>,
}

fn clone_bound<T: Clone>(bound: &Bound<T>) -> (r: Bound<T>)
    ensures
        r is Included == (*bound is Included),
        r is Excluded == (*bound is Excluded),
        r is Unbounded == (*bound is Unbounded),
{
    match bound {
        Bound::Included(v) => Bound::Included(v.clone()),
        Bound::Excluded(v) => Bound::Excluded(v.clone()),
        Bound::Unbounded => Bound::Unbounded,
    }
}

impl<T: Clone> Clone for PgRange<T> {
    fn clone(&self) -> (r: Self)
        ensures
            range_flags(r) == range_flags(*self),
    {
        PgRange { start: clone_bound(&self.start), end: clone_bound(&self.end) }
    }
}

/// The range is empty.
pub const EMPTY: u8 = 0x01;

/// The lower bound is inclusive.
pub const LB_INC: u8 = 0x02;

/// The upper bound is inclusive.
pub const UB_INC: u8 = 0x04;

/// There is no lower bound.
pub const LB_INF: u8 = 0x08;

/// There is no upper bound.
pub const UB_INF: u8 = 0x10;

/// Whether `flags` has the bit of `flag`.
pub open spec fn has_flag(flags: u8, flag: u8) -> bool {
    flags & flag != 0
}

/// The flag bits that a bound contributes: `inclusive` where it is
/// inclusive, `absent` where there is none, nothing where it is exclusive.
pub open spec fn bound_flags<T>(bound: Bound<T>, inclusive: u8, absent: u8) -> u8 {
    match bound {
        Bound::Included(_) => inclusive,
        Bound::Unbounded => absent,
        Bound::Excluded(_) => 0,
    }
}

/// The flags byte of a range.
pub open spec fn range_flags<T>(range: PgRange<T>) -> u8 {
    bound_flags(range.start, LB_INC, LB_INF) | bound_flags(range.end, UB_INC, UB_INF)
}

/// The bound that stands at offset `at` under the given flags: none where
/// its `absent` bit is set, else what the buffer holds from `at` on,
/// inclusive where its `inclusive` bit is set.
pub open spec fn bound_of_flags(flags: u8, inclusive: u8, absent: u8, at: int) -> Bound<int> {
    if has_flag(flags, absent) {
        Bound::Unbounded
    } else if has_flag(flags, inclusive) {
        Bound::Included(at)
    } else {
        Bound::Excluded(at)
    }
}

/// Where the bytes of each bound start in a buffer of `len` bytes whose
/// elements are `width` bytes wide, or why the buffer is no range. An empty
/// range has no bounds. The upper bound stands `width` bytes behind the
/// lower bound where there is one, and right behind the flags where not.
pub open spec fn range_layout(bytes: Seq<u8>, width: int) -> Result<PgRange<int>, CodecError> {
    if bytes.len() == 0 {
        Err(CodecError::TruncatedInput)
    } else if has_flag(bytes[0], EMPTY) {
        Ok(PgRange { start: Bound::Unbounded, end: Bound::Unbounded })
    } else {
        let start = bound_of_flags(bytes[0], LB_INC, LB_INF, 1);
        let at = if start is Unbounded { 1 } else { 1 + width };
        if at > bytes.len() {
            Err(CodecError::TruncatedInput)
        } else {
            Ok(PgRange { start, end: bound_of_flags(bytes[0], UB_INC, UB_INF, at) })
        }
    }
}

/// The bytes that a bound of the layout hands to its element decoder: the
/// buffer from the offset of the bound to its end.
pub open spec fn bound_bytes(bytes: Seq<u8>, bound: Bound<int>) -> Bound<Seq<u8>> {
    match bound {
        Bound::Included(at) => Bound::Included(bytes.subrange(at, bytes.len() as int)),
        Bound::Excluded(at) => Bound::Excluded(bytes.subrange(at, bytes.len() as int)),
        Bound::Unbounded => Bound::Unbounded,
    }
}

/// The bytes that a bound holds, as a mathematical value.
pub open spec fn slice_bound_view(bound: Bound<&[u8]>) -> Bound<Seq<u8>> {
    match bound {
        Bound::Included(s) => Bound::Included(s@),
        Bound::Excluded(s) => Bound::Excluded(s@),
        Bound::Unbounded => Bound::Unbounded,
    }
}

/// The bytes of a bound that is present.
pub open spec fn bound_wire(bound: Bound<Vec<u8>>) -> Seq<u8> {
    match bound {
        Bound::Included(v) => v@,
        Bound::Excluded(v) => v@,
        Bound::Unbounded => Seq::empty(),
    }
}

/// The bytes of a range whose bounds are already encoded.
pub open spec fn range_wire(range: PgRange<Vec<u8>>) -> Seq<u8> {
    seq![range_flags(range)] + bound_wire(range.start) + bound_wire(range.end)
}

/// The text of a range whose bounds are already rendered.
pub open spec fn range_text(start: Bound<Seq<char>>, end: Bound<Seq<char>>) -> Seq<char> {
    (match start {
        Bound::Unbounded => "(,"@,
        Bound::Excluded(v) => "("@ + v + ","@,
        Bound::Included(v) => "["@ + v + ","@,
    }) + (match end {
        Bound::Unbounded => ")"@,
        Bound::Excluded(v) => v + ")"@,
        Bound::Included(v) => v + "]"@,
    })
}

/// The text that a bound holds, as a mathematical value.
pub open spec fn text_bound_view(bound: Bound<String>) -> Bound<Seq<char>> {
    match bound {
        Bound::Included(s) => Bound::Included(s@),
        Bound::Excluded(s) => Bound::Excluded(s@),
        Bound::Unbounded => Bound::Unbounded,
    }
}

/// The bound that a bracket and a value make: exclusive for a parenthesis,
/// inclusive for a square bracket, absent without a value.
pub open spec fn bound_of_char<T>(ch: char, value: Option<T>) -> Result<Bound<T>, CodecError> {
    match value {
        None => Ok(Bound::Unbounded),
        Some(v) => if ch == '(' || ch == ')' {
            Ok(Bound::Excluded(v))
        } else if ch == '[' || ch == ']' {
            Ok(Bound::Included(v))
        } else {
            Err(CodecError::InvalidBound)
        },
    }
}

/// The bound that a bracket and a value make.
pub fn _parse_bound<T>(ch: char, value: Option<T>) -> (r: Result<Bound<T>, CodecError>)
    ensures
        r == bound_of_char(ch, value),
{
    match value {
        Some(value) => {
            if ch == '(' || ch == ')' {
                Ok(Bound::Excluded(value))
            } else if ch == '[' || ch == ']' {
                Ok(Bound::Included(value))
            } else {
                Err(CodecError::InvalidBound)
            }
        },
        None => Ok(Bound::Unbounded),
    }
}

impl<T> From<Range<T>> for PgRange<T> {
    fn from(v: Range<T>) -> (r: Self)
        ensures
            r.start == Bound::Included(v.start),
            r.end == Bound::Excluded(v.end),
    {
        Self { start: Bound::Included(v.start), end: Bound::Excluded(v.end) }
    }
}

impl<T> FromSpecImpl<Range<T>> for PgRange<T> {
    open spec fn obeys_from_spec() -> bool {
        true
    }

    open spec fn from_spec(v: Range<T>) -> Self {
        PgRange { start: Bound::Included(v.start), end: Bound::Excluded(v.end) }
    }
}

impl<T> From<RangeFrom<T>> for PgRange<T> {
    fn from(v: RangeFrom<T>) -> (r: Self)
        ensures
            r.start == Bound::Included(v.start),
            r.end == Bound::<T>::Unbounded,
    {
        Self { start: Bound::Included(v.start), end: Bound::Unbounded }
    }
}

impl<T> FromSpecImpl<RangeFrom<T>> for PgRange<T> {
    open spec fn obeys_from_spec() -> bool {
        true
    }

    open spec fn from_spec(v: RangeFrom<T>) -> Self {
        PgRange { start: Bound::Included(v.start), end: Bound::Unbounded }
    }
}

impl<T> From<RangeInclusive<T>> for PgRange<T> {
    fn from(v: RangeInclusive<T>) -> (r: Self)
        ensures
            r.start == Bound::Included(v@.start),
            r.end == Bound::Included(v@.end),
    {
        let (start, end) = v.into_inner();
        Self { start: Bound::Included(start), end: Bound::Included(end) }
    }
}

impl<T> FromSpecImpl<RangeInclusive<T>> for PgRange<T> {
    open spec fn obeys_from_spec() -> bool {
        true
    }

    open spec fn from_spec(v: RangeInclusive<T>) -> Self {
        PgRange { start: Bound::Included(v@.start), end: Bound::Included(v@.end) }
    }
}

impl<T> From<RangeTo<T>> for PgRange<T> {
    fn from(v: RangeTo<T>) -> (r: Self)
        ensures
            r.start == Bound::<T>::Unbounded,
            r.end == Bound::Excluded(v.end),
    {
        Self { start: Bound::Unbounded, end: Bound::Excluded(v.end) }
    }
}

impl<T> FromSpecImpl<RangeTo<T>> for PgRange<T> {
    open spec fn obeys_from_spec() -> bool {
        true
    }

    open spec fn from_spec(v: RangeTo<T>) -> Self {
        PgRange { start: Bound::Unbounded, end: Bound::Excluded(v.end) }
    }
}

impl<T> From<RangeToInclusive<T>> for PgRange<T> {
    fn from(v: RangeToInclusive<T>) -> (r: Self)
        ensures
            r.start == Bound::<T>::Unbounded,
            r.end == Bound::Included(v.end),
    {
        Self { start: Bound::Unbounded, end: Bound::Included(v.end) }
    }
}

impl<T> FromSpecImpl<RangeToInclusive<T>> for PgRange<T> {
    open spec fn obeys_from_spec() -> bool {
        true
    }

    open spec fn from_spec(v: RangeToInclusive<T>) -> Self {
        PgRange { start: Bound::Unbounded, end: Bound::Included(v.end) }
    }
}

fn flags_of_bound<T>(bound: &Bound<T>, inclusive: u8, absent: u8) -> (r: u8)
    ensures
        r == bound_flags(*bound, inclusive, absent),
{
    match bound {
        Bound::Included(_) => inclusive,
        Bound::Unbounded => absent,
        Bound::Excluded(_) => 0,
    }
}

fn bound_len(bound: &Bound<Vec<u8>>) -> (n: usize)
    ensures
        n == bound_wire(*bound).len(),
{
    match bound {
        Bound::Included(v) => v.len(),
        Bound::Excluded(v) => v.len(),
        Bound::Unbounded => 0,
    }
}

fn write_bound(bound: &Bound<Vec<u8>>, out: &mut BytesMut)
    requires
        fits(*old(out), bound_wire(*bound).len() as int),
    ensures
        written(*final(out)) == written(*old(out)) + bound_wire(*bound),
{
    match bound {
        Bound::Included(v) => put_slice(out, v.as_slice()),
        Bound::Excluded(v) => put_slice(out, v.as_slice()),
        Bound::Unbounded => {
            assert(written(*out) =~= written(*old(out)) + bound_wire(*bound));
        },
    }
}

impl<T> PgRange<T> {
    /// The range from `start` to `end`.
    pub fn new(start: Bound<T>, end: Bound<T>) -> (r: Self)
        ensures
            r.start == start,
            r.end == end,
    {
        PgRange { start, end }
    }

    /// The lower bound, borrowed.
    pub fn start_bound(&self) -> (r: Bound<&T>)
        ensures
            r == (match self.start {
                Bound::Included(v) => Bound::Included(&v),
                Bound::Excluded(v) => Bound::Excluded(&v),
                Bound::Unbounded => Bound::Unbounded,
            }),
    {
        match &self.start {
            Bound::Included(start) => Bound::Included(start),
            Bound::Excluded(start) => Bound::Excluded(start),
            Bound::Unbounded => Bound::Unbounded,
        }
    }

    /// The upper bound, borrowed.
    pub fn end_bound(&self) -> (r: Bound<&T>)
        ensures
            r == (match self.end {
                Bound::Included(v) => Bound::Included(&v),
                Bound::Excluded(v) => Bound::Excluded(&v),
                Bound::Unbounded => Bound::Unbounded,
            }),
    {
        match &self.end {
            Bound::Included(end) => Bound::Included(end),
            Bound::Excluded(end) => Bound::Excluded(end),
            Bound::Unbounded => Bound::Unbounded,
        }
    }

    /// The flags byte of the range.
    pub fn flags(&self) -> (r: u8)
        ensures
            r == range_flags(*self),
    {
        flags_of_bound(&self.start, LB_INC, LB_INF) | flags_of_bound(&self.end, UB_INC, UB_INF)
    }
}

impl PgRange<Vec<u8>> {
    /// Appends the flags and the encoded bounds to `out`, or leaves `out` as
    /// it is where they do not fit.
    pub fn to_sql(&self, out: &mut BytesMut) -> (r: Result<(), CodecError>)
        ensures
            r is Ok <==> fits(*old(out), range_wire(*self).len() as int),
            match r {
                Ok(_) => written(*final(out)) == written(*old(out)) + range_wire(*self),
                Err(e) => e == CodecError::BufferFull && written(*final(out)) == written(*old(out)),
            },
    {
        let total = match add_len(bound_len(&self.start), bound_len(&self.end)) {
            Some(n) => add_len(n, 1),
            None => None,
        };
        match total {
            Some(n) => {
                if !has_room(out, n) {
                    return Err(CodecError::BufferFull);
                }
            },
            None => {
                return Err(CodecError::BufferFull);
            },
        }
        put_u8(out, self.flags());
        write_bound(&self.start, out);
        write_bound(&self.end, out);
        assert(written(*out) =~= written(*old(out)) + range_wire(*self));
        Ok(())
    }
}

impl<'a> PgRange<&'a [u8]> {
    /// Reads the flags and hands out, for each bound that is present, the
    /// bytes from its offset on. Elements are `width` bytes wide.
    pub fn from_sql(raw: &'a [u8], width: usize) -> (r: Result<Self, CodecError>)
        ensures
            match range_layout(raw@, width as int) {
                Ok(layout) => r matches Ok(range) && slice_bound_view(range.start) == bound_bytes(
                    raw@,
                    layout.start,
                ) && slice_bound_view(range.end) == bound_bytes(raw@, layout.end),
                Err(e) => r == Err::<Self, CodecError>(e),
            },
    {
        if raw.len() == 0 {
            return Err(CodecError::TruncatedInput);
        }
        let flags = raw[0];
        if flags & EMPTY != 0 {
            return Ok(PgRange { start: Bound::Unbounded, end: Bound::Unbounded });
        }
        let mut at: usize = 1;
        let start = if flags & LB_INF != 0 {
            Bound::Unbounded
        } else {
            let rest = slice_subrange(raw, 1, raw.len());
            if width > raw.len() - 1 {
                return Err(CodecError::TruncatedInput);
            }
            at = 1 + width;
            if flags & LB_INC != 0 {
                Bound::Included(rest)
            } else {
                Bound::Excluded(rest)
            }
        };
        let end = if flags & UB_INF != 0 {
            Bound::Unbounded
        } else {
            let rest = slice_subrange(raw, at, raw.len());
            if flags & UB_INC != 0 {
                Bound::Included(rest)
            } else {
                Bound::Excluded(rest)
            }
        };
        Ok(PgRange { start, end })
    }
}

impl PgRange<String> {
    /// The text of a range whose bounds are already rendered.
    pub fn to_string(&self) -> (r: String)
        ensures
            r@ == range_text(text_bound_view(self.start), text_bound_view(self.end)),
    {
        let mut out = String::new();
        match &self.start {
            Bound::Unbounded => {
                out.append("(,");
            },
            Bound::Excluded(v) => {
                out.append("(");
                out.append(v.as_str());
                out.append(",");
            },
            Bound::Included(v) => {
                out.append("[");
                out.append(v.as_str());
                out.append(",");
            },
        }
        match &self.end {
            Bound::Unbounded => {
                out.append(")");
            },
            Bound::Excluded(v) => {
                out.append(v.as_str());
                out.append(")");
            },
            Bound::Included(v) => {
                out.append(v.as_str());
                out.append("]");
            },
        }
        assert(out@ =~= range_text(text_bound_view(self.start), text_bound_view(self.end)));
        out
    }
}

/// The flags of a range say of each bound what the range holds: the layout
/// read back from them has the bounds of the range, present where they are
/// present and inclusive where they are inclusive.
pub proof fn lemma_flags_round_trip<T>(range: PgRange<T>)
    ensures
        !has_flag(range_flags(range), EMPTY),
        has_flag(range_flags(range), LB_INF) <==> range.start is Unbounded,
        has_flag(range_flags(range), LB_INC) <==> range.start is Included,
        has_flag(range_flags(range), UB_INF) <==> range.end is Unbounded,
        has_flag(range_flags(range), UB_INC) <==> range.end is Included,
{
    let a = bound_flags(range.start, LB_INC, LB_INF);
    let b = bound_flags(range.end, UB_INC, UB_INF);
    assert((a == 0 || a == 2 || a == 8) && (b == 0 || b == 4 || b == 16) ==> ((a | b) & 1 == 0)
        && (((a | b) & 8 != 0) <==> a == 8) && (((a | b) & 2 != 0) <==> a == 2) && (((a | b) & 16
        != 0) <==> b == 16) && (((a | b) & 4 != 0) <==> b == 4)) by (bit_vector);
}

} // verus!
