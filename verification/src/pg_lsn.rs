//! Log sequence numbers: a big-endian `u64` on the wire.

use crate::buffer::{fits, has_room, put_u64, written};
use crate::error::CodecError;
use crate::text::{push_upper_hex_u64, str_eq, upper_hex};
use crate::wire::{be_u64, u64_be, Reader};
use bytes::BytesMut;
use vstd::prelude::*;
use vstd::string::*;

verus! {

/// A position in the write-ahead log.
#[derive(Debug, Clone)]
pub struct MyPgLsn {
    pub lsn: u64,
}

/// The text of a log sequence number: the high 32 bits in hexadecimal, a
/// slash, and the whole number in hexadecimal.
pub open spec fn lsn_text(lsn: u64) -> Seq<char> {
    upper_hex((lsn as nat) / 0x1_0000_0000) + "/"@ + upper_hex(lsn as nat)
}

impl MyPgLsn {
    /// Whether a wire type of this name carries log sequence numbers.
    pub fn accepts(wire_type: &str) -> (r: bool)
        ensures
            r == (wire_type@ == "pg_lsn"@),
    {
        str_eq(wire_type, "pg_lsn")
    }

    /// Reads a log sequence number from the first eight bytes of `raw`. A
    /// shorter buffer is refused.
    pub fn from_sql(raw: &[u8]) -> (r: Result<Self, CodecError>)
        ensures
            r is Ok <==> raw@.len() >= 8,
            r matches Ok(v) ==> v.lsn == be_u64(raw@.subrange(0, 8)),
            r matches Err(e) ==> e == CodecError::TruncatedInput,
    {
        let mut reader = Reader::new(raw);
        match reader.read_u64() {
            Some(lsn) => Ok(MyPgLsn { lsn }),
            None => Err(CodecError::TruncatedInput),
        }
    }

    /// Appends the eight bytes of the number to `out`. A wire type other than
    /// `pg_lsn` is refused, and so is a buffer without room; `out` is then
    /// left as it is.
    pub fn to_sql(&self, wire_type: &str, out: &mut BytesMut) -> (r: Result<(), CodecError>)
        ensures
            r is Ok <==> wire_type@ == "pg_lsn"@ && fits(*old(out), 8),
            match r {
                Ok(_) => written(*final(out)) == written(*old(out)) + u64_be(self.lsn),
                Err(e) => written(*final(out)) == written(*old(out)) && e == (if wire_type@
                    != "pg_lsn"@ {
                    CodecError::UnexpectedType
                } else {
                    CodecError::BufferFull
                }),
            },
    {
        if !str_eq(wire_type, "pg_lsn") {
            return Err(CodecError::UnexpectedType);
        }
        if !has_room(out, 8) {
            return Err(CodecError::BufferFull);
        }
        put_u64(out, self.lsn);
        Ok(())
    }

    /// The number as text.
    pub fn to_string(&self) -> (r: String)
        ensures
            r@ == lsn_text(self.lsn),
    {
        let mut out = String::new();
        push_upper_hex_u64(&mut out, self.lsn >> 32);
        out.append("/");
        push_upper_hex_u64(&mut out, self.lsn);
        proof {
            let lsn = self.lsn;
            assert(lsn >> 32 == lsn / 0x1_0000_0000) by (bit_vector);
            assert(out@ =~= lsn_text(self.lsn));
        }
        out
    }
}

} // verus!
