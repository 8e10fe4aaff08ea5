//! Time intervals: microseconds, days and months as big-endian integers.

use crate::buffer::{fits, has_room, put_i32, put_i64, written};
use crate::error::CodecError;
use crate::text::{decimal, join, joined, push_decimal_i64, str_eq, views};
use crate::wire::{
    bits_i32, bits_i64, i32_at, i64_at, lemma_signed_round_trip, lemma_u32_round_trip,
    lemma_u64_round_trip, u32_be, u64_be, Reader,
};
use bytes::BytesMut;
use vstd::prelude::*;
use vstd::string::*;

verus! {

/// A time interval in the three units that the server keeps apart.
#[derive(Debug, Eq, PartialEq, Clone, Hash, Default)]
pub struct PgInterval {
    pub months: i32,
    pub days: i32,
    pub microseconds: i64,
}

/// The number of bytes of an interval on the wire.
pub const INTERVAL_LEN: usize = 16;

/// The sixteen bytes of an interval: microseconds, days, months.
pub open spec fn interval_wire(v: PgInterval) -> Seq<u8> {
    u64_be(bits_i64(v.microseconds)) + u32_be(bits_i32(v.days)) + u32_be(bits_i32(v.months))
}

/// The interval that the first sixteen bytes hold, if there are that many.
pub open spec fn parse_interval(bytes: Seq<u8>) -> Option<PgInterval> {
    if bytes.len() >= INTERVAL_LEN {
        Some(
            PgInterval {
                months: i32_at(bytes, 12)->0,
                days: i32_at(bytes, 8)->0,
                microseconds: i64_at(bytes, 0)->0,
            },
        )
    } else {
        None
    }
}

/// `a / b` rounded towards zero, for a positive `b`.
pub open spec fn quotient_towards_zero(a: int, b: int) -> int {
    if a >= 0 {
        a / b
    } else {
        -((-a) / b)
    }
}

/// What `a / b` rounded towards zero leaves of `a`: it has the sign of `a`.
pub open spec fn remainder_towards_zero(a: int, b: int) -> int {
    a - b * quotient_towards_zero(a, b)
}

/// A quantity with its unit, in the plural unless the quantity is 1.
pub open spec fn counted(n: int, unit: Seq<char>) -> Seq<char> {
    decimal(n) + " "@ + unit + (if n == 1 { Seq::<char>::empty() } else { "s"@ })
}

/// `parts` with one more part where `n` is not zero.
pub open spec fn with_part(parts: Seq<Seq<char>>, n: int, unit: Seq<char>) -> Seq<Seq<char>> {
    if n != 0 {
        parts.push(counted(n, unit))
    } else {
        parts
    }
}

/// The parts of an interval that are not zero: months, days, whole seconds
/// and the microseconds beyond them.
pub open spec fn interval_parts(v: PgInterval) -> Seq<Seq<char>> {
    let seconds = quotient_towards_zero(v.microseconds as int, 1_000_000);
    let micros = remainder_towards_zero(v.microseconds as int, 1_000_000);
    with_part(
        with_part(
            with_part(with_part(Seq::empty(), v.months as int, "month"@), v.days as int, "day"@),
            seconds,
            "second"@,
        ),
        micros,
        "microsecond"@,
    )
}

/// The text of an interval: its parts joined with commas, or `0 seconds`
/// where it has none.
pub open spec fn interval_text(v: PgInterval) -> Seq<char> {
    if interval_parts(v).len() == 0 {
        "0 seconds"@
    } else {
        joined(interval_parts(v), ", "@)
    }
}

fn push_part(parts: &mut Vec<String>, n: i64, unit: &str)
    ensures
        views(final(parts)@) == with_part(views(old(parts)@), n as int, unit@),
{
    if n != 0 {
        let mut part = String::new();
        push_decimal_i64(&mut part, n);
        part.append(" ");
        part.append(unit);
        if n != 1 {
            part.append("s");
        }
        assert(part@ =~= counted(n as int, unit@));
        parts.push(part);
        assert(views(parts@) =~= views(old(parts)@).push(counted(n as int, unit@)));
    } else {
        assert(views(parts@) =~= views(old(parts)@));
    }
}

/// The interval as text.
pub fn format_pg_interval(interval: &PgInterval) -> (r: String)
    ensures
        r@ == interval_text(*interval),
{
    let mut parts: Vec<String> = Vec::new();
    assert(views(parts@) =~= Seq::<Seq<char>>::empty());
    push_part(&mut parts, interval.months as i64, "month");
    push_part(&mut parts, interval.days as i64, "day");
    let seconds = interval.microseconds / 1_000_000;
    let microseconds = interval.microseconds % 1_000_000;
    push_part(&mut parts, seconds, "second");
    push_part(&mut parts, microseconds, "microsecond");
    if parts.len() == 0 {
        String::from_str("0 seconds")
    } else {
        join(&parts, ", ")
    }
}

impl PgInterval {
    /// Whether a wire type of this name carries intervals.
    pub fn accepts(wire_type: &str) -> (r: bool)
        ensures
            r == (wire_type@ == "interval"@),
    {
        str_eq(wire_type, "interval")
    }

    /// Reads an interval from the first sixteen bytes of `raw`. A wire type
    /// other than `interval` is refused, and so is a shorter buffer.
    pub fn from_sql(wire_type: &str, raw: &[u8]) -> (r: Result<Self, CodecError>)
        ensures
            r == (if wire_type@ != "interval"@ {
                Err::<PgInterval, CodecError>(CodecError::UnexpectedType)
            } else {
                match parse_interval(raw@) {
                    Some(v) => Ok(v),
                    None => Err(CodecError::TruncatedInput),
                }
            }),
    {
        if !str_eq(wire_type, "interval") {
            return Err(CodecError::UnexpectedType);
        }
        let mut reader = Reader::new(raw);
        let microseconds = match reader.read_i64() {
            Some(v) => v,
            None => {
                return Err(CodecError::TruncatedInput);
            },
        };
        let days = match reader.read_i32() {
            Some(v) => v,
            None => {
                return Err(CodecError::TruncatedInput);
            },
        };
        let months = match reader.read_i32() {
            Some(v) => v,
            None => {
                return Err(CodecError::TruncatedInput);
            },
        };
        Ok(PgInterval { months, days, microseconds })
    }

    /// Appends the sixteen bytes of the interval to `out`. A wire type other
    /// than `interval` is refused, and so is a buffer without room; `out` is
    /// then left as it is.
    pub fn to_sql(&self, wire_type: &str, out: &mut BytesMut) -> (r: Result<(), CodecError>)
        ensures
            r is Ok <==> wire_type@ == "interval"@ && fits(*old(out), INTERVAL_LEN as int),
            match r {
                Ok(_) => written(*final(out)) == written(*old(out)) + interval_wire(*self),
                Err(e) => written(*final(out)) == written(*old(out)) && e == (if wire_type@
                    != "interval"@ {
                    CodecError::UnexpectedType
                } else {
                    CodecError::BufferFull
                }),
            },
    {
        if !str_eq(wire_type, "interval") {
            return Err(CodecError::UnexpectedType);
        }
        if !has_room(out, INTERVAL_LEN) {
            return Err(CodecError::BufferFull);
        }
        put_i64(out, self.microseconds);
        put_i32(out, self.days);
        put_i32(out, self.months);
        assert(written(*out) =~= written(*old(out)) + interval_wire(*self));
        Ok(())
    }

    /// The interval as text.
    pub fn to_string(&self) -> (r: String)
        ensures
            r@ == interval_text(*self),
    {
        format_pg_interval(self)
    }
}

/// Decoding undoes encoding: the sixteen bytes of an interval decode to it.
pub proof fn lemma_interval_round_trip(v: PgInterval)
    ensures
        interval_wire(v).len() == INTERVAL_LEN,
        parse_interval(interval_wire(v)) == Some(v),
{
    let bytes = interval_wire(v);
    lemma_u64_round_trip(bits_i64(v.microseconds));
    lemma_u32_round_trip(bits_i32(v.days));
    lemma_u32_round_trip(bits_i32(v.months));
    lemma_signed_round_trip(0, 0, v.days, v.microseconds);
    lemma_signed_round_trip(0, 0, v.months, 0);
    assert(bytes.subrange(0, 8) =~= u64_be(bits_i64(v.microseconds)));
    assert(bytes.subrange(8, 12) =~= u32_be(bits_i32(v.days)));
    assert(bytes.subrange(12, 16) =~= u32_be(bits_i32(v.months)));
}

} // verus!
