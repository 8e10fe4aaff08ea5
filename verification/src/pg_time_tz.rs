//! Times of day with a zone offset: microseconds since midnight as a
//! big-endian `i64`, then the seconds that the zone lies west of UTC as a
//! big-endian `i32`.
//!
//! Time arithmetic and the textual form are chrono's; what is taken from it
//! is stated below in full, and the codec is proved against those statements.

use crate::buffer::{fits, has_room, put_i32, put_i64, written};
use crate::error::CodecError;
use crate::text::{fixed_digits, str_eq};
use crate::wire::{bits_i32, bits_i64, i32_at, i64_at, u32_be, u64_be, Reader};
use bytes::BytesMut;
use chrono::Duration;
use chrono::FixedOffset;
use chrono::NaiveTime;
use chrono::Timelike;
use vstd::prelude::*;
use vstd::string::*;

verus! {

/// The parts of a time of day with a zone offset.
pub struct TimeTzView {
    /// Whole seconds since midnight.
    pub seconds: u32,
    /// Nanoseconds beyond the whole seconds; a billion or more within a leap
    /// second.
    pub nanosecond: u32,
    /// The seconds that local time is ahead of UTC.
    pub offset_east: i32,
}

/// A time of day with a zone offset.
#[derive(Debug, PartialEq)]
pub struct PgTimeWithTz {
    seconds: u32,
    nanosecond: u32,
    offset_east: i32,
}

/// Whether a zone offset is less than a day either way.
pub open spec fn offset_in_range(east: int) -> bool {
    -86_400 < east < 86_400
}

/// Whether the parts make a time of day: less than a day of seconds, less
/// than a second of nanoseconds or, in the last second of a minute, less
/// than two, and an offset of less than a day.
pub open spec fn timetz_valid(v: TimeTzView) -> bool {
    &&& v.seconds < 86_400
    &&& (v.nanosecond < 1_000_000_000 || (v.nanosecond < 2_000_000_000 && v.seconds % 60 == 59))
    &&& offset_in_range(v.offset_east as int)
}

/// The whole seconds since midnight of the time that lies `us` microseconds
/// after midnight, days left out.
pub open spec fn seconds_of_micros(us: int) -> int {
    (us / 1_000_000) % 86_400
}

/// The nanoseconds beyond the whole second of the time that lies `us`
/// microseconds after midnight.
pub open spec fn nanos_of_micros(us: int) -> int {
    (us % 1_000_000) * 1_000
}

/// The microseconds since midnight that a time is written as.
pub open spec fn micros_of(v: TimeTzView) -> int {
    v.seconds * 1_000_000 + v.nanosecond / 1_000
}

/// The fraction of a second as text: nothing for none, else a point and
/// the milliseconds in three digits, the microseconds in six or the
/// nanoseconds in nine, whichever is the shortest that loses nothing.
pub open spec fn fraction_text(nano: nat) -> Seq<char> {
    if nano == 0 {
        Seq::empty()
    } else if nano % 1_000_000 == 0 {
        "."@ + fixed_digits(nano / 1_000_000, 3)
    } else if nano % 1_000 == 0 {
        "."@ + fixed_digits(nano / 1_000, 6)
    } else {
        "."@ + fixed_digits(nano, 9)
    }
}

/// A time of day as text: hour, minute and second in two digits each with
/// colons between, then the fraction of the second. Within a leap second
/// the second is written as 60.
pub open spec fn naive_time_text(seconds: u32, nanosecond: u32) -> Seq<char> {
    let leap: nat = if nanosecond >= 1_000_000_000 { 1 } else { 0 };
    let second = (seconds % 60) as nat + leap;
    let nano = (nanosecond - leap * 1_000_000_000) as nat;
    fixed_digits((seconds / 3600) as nat, 2) + ":"@ + fixed_digits((seconds / 60 % 60) as nat, 2)
        + ":"@ + fixed_digits(second, 2) + fraction_text(nano)
}

/// A zone offset as text: the sign, hours and minutes in two digits each
/// with a colon between, and the seconds likewise where they are not zero.
pub open spec fn fixed_offset_text(east: i32) -> Seq<char> {
    let size = (if east < 0 { -east } else { east as int }) as nat;
    (if east < 0 { "-"@ } else { "+"@ }) + fixed_digits(size / 3600, 2) + ":"@ + fixed_digits(
        size / 60 % 60,
        2,
    ) + (if size % 60 == 0 { Seq::<char>::empty() } else { ":"@ + fixed_digits(size % 60, 2) })
}

/// `NaiveTime::default() + Duration::microseconds(us)`: midnight moved by
/// `us` microseconds, wrapping around the day. The result is given by its
/// seconds since midnight and its nanoseconds.
#[verifier::external_body]
fn time_after_midnight(us: i64) -> (r: (u32, u32))
    ensures
        r.0 == seconds_of_micros(us as int),
        r.1 == nanos_of_micros(us as int),
{
    let time = NaiveTime::default() + Duration::microseconds(us);
    (time.num_seconds_from_midnight(), time.nanosecond())
}

/// `FixedOffset::east_opt`: the offset of `secs` seconds east of UTC, which
/// exists exactly where `secs` is less than a day either way. The result is
/// given by its seconds.
#[verifier::external_body]
fn offset_east_of(secs: i32) -> (r: Option<i32>)
    ensures
        r == (if offset_in_range(secs as int) {
            Some(secs)
        } else {
            None
        }),
{
    match FixedOffset::east_opt(secs) {
        Some(offset) => Some(offset.local_minus_utc()),
        None => None,
    }
}

/// `{:?}` of the `NaiveTime` that `from_num_seconds_from_midnight_opt` makes
/// of the parts: hour, minute and second in two digits each, then the
/// fraction in three, six or nine digits. The parts must make a time, or
/// there is none to write.
#[verifier::external_body]
fn time_debug(seconds: u32, nanosecond: u32) -> (r: String)
    requires
        seconds < 86_400,
        nanosecond < 1_000_000_000 || (nanosecond < 2_000_000_000 && seconds % 60 == 59),
    ensures
        r@ == naive_time_text(seconds, nanosecond),
{
    format!("{:?}", NaiveTime::from_num_seconds_from_midnight_opt(seconds, nanosecond).unwrap())
}

/// `{:?}` of the `FixedOffset` that `east_opt` makes of `east`: the sign,
/// hours and minutes in two digits each, and the seconds where they are not
/// zero. The offset must be less than a day either way, or there is none to
/// write.
#[verifier::external_body]
fn offset_debug(east: i32) -> (r: String)
    requires
        offset_in_range(east as int),
    ensures
        r@ == fixed_offset_text(east),
{
    format!("{:?}", FixedOffset::east_opt(east).unwrap())
}

/// What a byte string decodes to. Bytes behind the offset are not looked at.
pub open spec fn parse_timetz(bytes: Seq<u8>) -> Result<TimeTzView, CodecError> {
    if bytes.len() < 12 {
        Err(CodecError::TruncatedInput)
    } else {
        let us = i64_at(bytes, 0)->0;
        let west = i32_at(bytes, 8)->0;
        if !offset_in_range(-west) {
            Err(CodecError::OffsetOutOfRange)
        } else {
            Ok(
                TimeTzView {
                    seconds: seconds_of_micros(us as int) as u32,
                    nanosecond: nanos_of_micros(us as int) as u32,
                    offset_east: (-west) as i32,
                },
            )
        }
    }
}

/// The twelve bytes of a time with zone.
pub open spec fn timetz_wire(v: TimeTzView) -> Seq<u8> {
    u64_be(bits_i64(micros_of(v) as i64)) + u32_be(bits_i32((-v.offset_east) as i32))
}

/// The text of a time with zone: the time, then the offset.
pub open spec fn timetz_text(v: TimeTzView) -> Seq<char> {
    naive_time_text(v.seconds, v.nanosecond) + fixed_offset_text(v.offset_east)
}

/// The time that `r` holds, as a mathematical value.
pub open spec fn timetz_view(r: Result<PgTimeWithTz, CodecError>) -> Result<TimeTzView, CodecError> {
    match r {
        Ok(v) => Ok(v@),
        Err(e) => Err(e),
    }
}

/// The two texts written one after the other.
pub fn join_time_and_offset(time: &str, offset: &str) -> (r: String)
    ensures
        r@ == time@ + offset@,
{
    let mut out = String::from_str(time);
    out.append(offset);
    out
}

impl View for PgTimeWithTz {
    type V = TimeTzView;

    closed spec fn view(&self) -> TimeTzView {
        TimeTzView {
            seconds: self.seconds,
            nanosecond: self.nanosecond,
            offset_east: self.offset_east,
        }
    }
}

impl PgTimeWithTz {
    #[verifier::type_invariant]
    spec fn valid(&self) -> bool {
        timetz_valid(self@)
    }

    /// The time of day with these parts, where they make one.
    pub fn new(seconds: u32, nanosecond: u32, offset_east: i32) -> (r: Option<Self>)
        ensures
            r is Some <==> timetz_valid(TimeTzView { seconds, nanosecond, offset_east }),
            r matches Some(v) ==> v@ == (TimeTzView { seconds, nanosecond, offset_east }),
    {
        if seconds < 86_400 && (nanosecond < 1_000_000_000 || (nanosecond < 2_000_000_000
            && seconds % 60 == 59)) && -86_400 < offset_east && offset_east < 86_400 {
            Some(PgTimeWithTz { seconds, nanosecond, offset_east })
        } else {
            None
        }
    }

    /// Whole seconds since midnight.
    pub fn seconds(&self) -> (r: u32)
        ensures
            r == self@.seconds,
            timetz_valid(self@),
    {
        proof {
            use_type_invariant(self);
        }
        self.seconds
    }

    /// Nanoseconds beyond the whole seconds.
    pub fn nanosecond(&self) -> (r: u32)
        ensures
            r == self@.nanosecond,
    {
        self.nanosecond
    }

    /// The seconds that local time is ahead of UTC.
    pub fn offset_east(&self) -> (r: i32)
        ensures
            r == self@.offset_east,
    {
        self.offset_east
    }

    /// Whether a wire type of this name carries times with zone.
    pub fn accepts(wire_type: &str) -> (r: bool)
        ensures
            r == (wire_type@ == "timetz"@),
    {
        str_eq(wire_type, "timetz")
    }

    /// Decodes a time with zone. A wire type other than `timetz` is refused
    /// before the bytes are looked at.
    pub fn from_sql(wire_type: &str, raw: &[u8]) -> (r: Result<Self, CodecError>)
        ensures
            timetz_view(r) == (if wire_type@ != "timetz"@ {
                Err::<TimeTzView, CodecError>(CodecError::UnexpectedType)
            } else {
                parse_timetz(raw@)
            }),
    {
        if !str_eq(wire_type, "timetz") {
            return Err(CodecError::UnexpectedType);
        }
        let mut reader = Reader::new(raw);
        let us = match reader.read_i64() {
            Some(us) => us,
            None => {
                return Err(CodecError::TruncatedInput);
            },
        };
        let (seconds, nanosecond) = time_after_midnight(us);
        let west = match reader.read_i32() {
            Some(west) => west,
            None => {
                return Err(CodecError::TruncatedInput);
            },
        };
        if west == i32::MIN {
            return Err(CodecError::OffsetOutOfRange);
        }
        match offset_east_of(-west) {
            Some(offset_east) => Ok(PgTimeWithTz { seconds, nanosecond, offset_east }),
            None => Err(CodecError::OffsetOutOfRange),
        }
    }

    /// Appends the twelve bytes of the time to `out`. A wire type other than
    /// `timetz` is refused, and so is a buffer without room; `out` is then
    /// left as it is.
    pub fn to_sql(&self, wire_type: &str, out: &mut BytesMut) -> (r: Result<(), CodecError>)
        ensures
            r is Ok <==> wire_type@ == "timetz"@ && fits(*old(out), 12),
            match r {
                Ok(_) => written(*final(out)) == written(*old(out)) + timetz_wire(self@),
                Err(e) => written(*final(out)) == written(*old(out)) && e == (if wire_type@
                    != "timetz"@ {
                    CodecError::UnexpectedType
                } else {
                    CodecError::BufferFull
                }),
            },
    {
        proof {
            use_type_invariant(self);
        }
        if !str_eq(wire_type, "timetz") {
            return Err(CodecError::UnexpectedType);
        }
        if !has_room(out, 12) {
            return Err(CodecError::BufferFull);
        }
        let us: i64 = (self.seconds as i64) * 1_000_000 + (self.nanosecond as i64) / 1_000;
        put_i64(out, us);
        put_i32(out, -self.offset_east);
        assert(written(*out) =~= written(*old(out)) + timetz_wire(self@));
        Ok(())
    }

    /// The time as text: the time of day, then the offset.
    pub fn to_string(&self) -> (r: String)
        ensures
            r@ == timetz_text(self@),
    {
        proof {
            use_type_invariant(self);
        }
        let time = time_debug(self.seconds, self.nanosecond);
        let offset = offset_debug(self.offset_east);
        join_time_and_offset(time.as_str(), offset.as_str())
    }
}

} // verus!
