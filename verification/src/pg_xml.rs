//! XML documents: their UTF-8 text on the wire.

use crate::buffer::{fits, has_room, put_slice, written};
use crate::error::CodecError;
use crate::text::{str_eq, str_from_utf8};
use bytes::BytesMut;
use vstd::prelude::*;
use vstd::string::*;
use vstd::utf8::{decode_utf8, encode_utf8, encode_utf8_decode_utf8, valid_utf8};

verus! {

/// An XML document.
#[derive(Debug)]
pub struct PgXml(pub String);

impl Clone for PgXml {
    fn clone(&self) -> (r: Self)
        ensures
            r == *self,
    {
        PgXml(self.0.clone())
    }
}

impl PgXml {
    /// Whether a wire type of this name carries XML documents.
    pub fn accepts(wire_type: &str) -> (r: bool)
        ensures
            r == (wire_type@ == "xml"@),
    {
        str_eq(wire_type, "xml")
    }

    /// Reads a document. A wire type other than `xml` is refused, and so are
    /// bytes that are not well-formed UTF-8.
    pub fn from_sql(wire_type: &str, raw: &[u8]) -> (r: Result<Self, CodecError>)
        ensures
            r is Ok <==> wire_type@ == "xml"@ && valid_utf8(raw@),
            r matches Ok(xml) ==> xml.0@ == decode_utf8(raw@) && encode_utf8(xml.0@) == raw@,
            r matches Err(e) ==> e == (if wire_type@ != "xml"@ {
                CodecError::UnexpectedType
            } else {
                CodecError::InvalidUtf8
            }),
    {
        if !str_eq(wire_type, "xml") {
            return Err(CodecError::UnexpectedType);
        }
        match str_from_utf8(raw) {
            Some(text) => {
                proof {
                    encode_utf8_decode_utf8(text@);
                }
                Ok(PgXml(String::from_str(text)))
            },
            None => Err(CodecError::InvalidUtf8),
        }
    }

    /// Appends the UTF-8 bytes of the document to `out`. A wire type other
    /// than `xml` is refused, and so is a buffer without room; `out` is then
    /// left as it is.
    pub fn to_sql(&self, wire_type: &str, out: &mut BytesMut) -> (r: Result<(), CodecError>)
        ensures
            r is Ok <==> wire_type@ == "xml"@ && fits(
                *old(out),
                encode_utf8(self.0@).len() as int,
            ),
            match r {
                Ok(_) => written(*final(out)) == written(*old(out)) + encode_utf8(self.0@),
                Err(e) => written(*final(out)) == written(*old(out)) && e == (if wire_type@
                    != "xml"@ {
                    CodecError::UnexpectedType
                } else {
                    CodecError::BufferFull
                }),
            },
    {
        if !str_eq(wire_type, "xml") {
            return Err(CodecError::UnexpectedType);
        }
        let bytes = self.0.as_str().as_bytes();
        if !has_room(out, bytes.len()) {
            return Err(CodecError::BufferFull);
        }
        put_slice(out, bytes);
        Ok(())
    }

    /// The document as text.
    pub fn to_string(&self) -> (r: String)
        ensures
            r@ == self.0@,
    {
        self.0.clone()
    }
}

} // verus!
