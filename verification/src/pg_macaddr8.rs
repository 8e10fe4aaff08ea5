//! EUI-64 hardware addresses: eight bytes on the wire, as they are.

use crate::buffer::{fits, has_room, put_slice, written};
use crate::error::CodecError;
use crate::text::{hex_digit_char, joined, lowered, str_eq, to_ascii_lowercase};
use bytes::BytesMut;
use macaddr::MacAddr8;
use vstd::prelude::*;

verus! {

/// Appends the eight bytes of the address to `buf`.
pub fn macaddr8_to_sql(v: [u8; 8], buf: &mut BytesMut)
    requires
        fits(*old(buf), 8),
    ensures
        written(*final(buf)) == written(*old(buf)) + v@,
{
    put_slice(buf, v.as_slice());
}

/// Reads an address: the buffer must hold its eight bytes and nothing else.
pub fn macaddr8_from_sql(buf: &[u8]) -> (r: Result<[u8; 8], CodecError>)
    ensures
        r is Ok <==> buf@.len() == 8,
        r matches Ok(v) ==> v@ == buf@,
        r matches Err(e) ==> e == CodecError::LengthMismatch,
{
    if buf.len() != 8 {
        return Err(CodecError::LengthMismatch);
    }
    let out: [u8; 8] = [buf[0], buf[1], buf[2], buf[3], buf[4], buf[5], buf[6], buf[7]];
    assert(out@ =~= buf@);
    Ok(out)
}

/// One byte as two upper-case hexadecimal digits.
pub open spec fn hex_pair(b: u8) -> Seq<char> {
    seq![hex_digit_char(b as int / 16), hex_digit_char(b as int % 16)]
}

/// The bytes as pairs of upper-case hexadecimal digits with colons between.
pub open spec fn colon_pairs(bytes: Seq<u8>) -> Seq<char> {
    joined(Seq::new(bytes.len(), |i: int| hex_pair(bytes[i])), seq![':'])
}

/// `Display` of `macaddr::MacAddr8` in its plain form: the eight bytes as
/// two upper-case hexadecimal digits each, with colons between.
#[verifier::external_body]
fn macaddr8_display(bytes: [u8; 8]) -> (r: String)
    ensures
        r@ == colon_pairs(bytes@),
{
    format!("{}", MacAddr8::from(bytes))
}

/// An EUI-64 hardware address.
#[derive(Debug, Clone, Copy, PartialEq, Eq)]
pub struct PgMacAddr8(pub [u8; 8]);

impl PgMacAddr8 {
    /// Whether a wire type of this name carries such addresses.
    pub fn accepts(wire_type: &str) -> (r: bool)
        ensures
            r == (wire_type@ == "macaddr8"@),
    {
        str_eq(wire_type, "macaddr8")
    }

    /// Reads an address: the buffer must hold its eight bytes and nothing else.
    pub fn from_sql(raw: &[u8]) -> (r: Result<Self, CodecError>)
        ensures
            r is Ok <==> raw@.len() == 8,
            r matches Ok(v) ==> v.0@ == raw@,
            r matches Err(e) ==> e == CodecError::LengthMismatch,
    {
        match macaddr8_from_sql(raw) {
            Ok(bytes) => Ok(PgMacAddr8(bytes)),
            Err(e) => Err(e),
        }
    }

    /// The address as text: pairs of lower-case hexadecimal digits with
    /// colons between.
    pub fn to_string(&self) -> (r: String)
        ensures
            r@ == lowered(colon_pairs(self.0@)),
    {
        let upper = macaddr8_display(self.0);
        to_ascii_lowercase(upper.as_str())
    }

    /// Appends the eight bytes of the address to `out`, or leaves `out` as it
    /// is where they do not fit.
    pub fn to_sql(&self, out: &mut BytesMut) -> (r: Result<(), CodecError>)
        ensures
            r is Ok <==> fits(*old(out), 8),
            match r {
                Ok(_) => written(*final(out)) == written(*old(out)) + self.0@,
                Err(e) => e == CodecError::BufferFull && written(*final(out)) == written(*old(out)),
            },
    {
        if !has_room(out, 8) {
            return Err(CodecError::BufferFull);
        }
        macaddr8_to_sql(self.0, out);
        Ok(())
    }
}

} // verus!
