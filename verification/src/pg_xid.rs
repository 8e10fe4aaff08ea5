//! Transaction identifiers: a big-endian `u32` on the wire.

use crate::buffer::{fits, has_room, put_u32, written};
use crate::error::CodecError;
use crate::text::{decimal_nat, push_decimal_u64, str_eq};
use crate::wire::{be_u32, u32_be, Reader};
use bytes::BytesMut;
use vstd::prelude::*;

verus! {

/// A transaction identifier.
#[derive(Clone, Debug, Default, Eq, PartialEq)]
pub struct PgXid(pub u32);

impl PgXid {
    /// Whether a wire type of this name carries transaction identifiers.
    pub fn accepts(wire_type: &str) -> (r: bool)
        ensures
            r == (wire_type@ == "xid"@),
    {
        str_eq(wire_type, "xid")
    }

    /// Reads an identifier: the buffer must hold its four bytes and nothing
    /// else.
    pub fn from_sql(raw: &[u8]) -> (r: Result<Self, CodecError>)
        ensures
            r is Ok <==> raw@.len() == 4,
            r matches Ok(v) ==> v.0 == be_u32(raw@),
            r matches Err(e) ==> e == CodecError::LengthMismatch,
    {
        if raw.len() != 4 {
            return Err(CodecError::LengthMismatch);
        }
        let mut reader = Reader::new(raw);
        assert(raw@.subrange(0, 4) =~= raw@);
        match reader.read_u32() {
            Some(v) => Ok(PgXid(v)),
            None => Err(CodecError::LengthMismatch),
        }
    }

    /// Appends the four bytes of the identifier to `out`, or leaves `out` as
    /// it is where they do not fit.
    pub fn to_sql(&self, out: &mut BytesMut) -> (r: Result<(), CodecError>)
        ensures
            r is Ok <==> fits(*old(out), 4),
            match r {
                Ok(_) => written(*final(out)) == written(*old(out)) + u32_be(self.0),
                Err(e) => e == CodecError::BufferFull && written(*final(out)) == written(*old(out)),
            },
    {
        if !has_room(out, 4) {
            return Err(CodecError::BufferFull);
        }
        put_u32(out, self.0);
        Ok(())
    }

    /// The identifier as a decimal numeral.
    pub fn to_string(&self) -> (r: String)
        ensures
            r@ == decimal_nat(self.0 as nat),
    {
        let mut out = String::new();
        push_decimal_u64(&mut out, self.0 as u64);
        assert(out@ =~= decimal_nat(self.0 as nat));
        out
    }
}

} // verus!
