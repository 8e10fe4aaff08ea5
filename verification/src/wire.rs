//! Big-endian integers on the wire: what a run of bytes means as a number,
//! which bytes a number is written as, and a cursor that reads fields out of
//! a byte slice without ever running past its end.

use byteorder::ByteOrder;
use byteorder::NetworkEndian;
use vstd::arithmetic::div_mod::lemma_fundamental_div_mod_converse;
use vstd::prelude::*;
use vstd::slice::slice_subrange;

verus! {

/// The unsigned 16-bit number whose big-endian bytes are `b[0..2]`.
pub open spec fn be_u16(b: Seq<u8>) -> u16 {
    (b[0] as int * 0x100 + b[1] as int) as u16
}

/// The unsigned 32-bit number whose big-endian bytes are `b[0..4]`.
pub open spec fn be_u32(b: Seq<u8>) -> u32 {
    (b[0] as int * 0x100_0000 + b[1] as int * 0x1_0000 + b[2] as int * 0x100 + b[3] as int) as u32
}

/// The unsigned 64-bit number whose big-endian bytes are `b[0..8]`.
pub open spec fn be_u64(b: Seq<u8>) -> u64 {
    (be_u32(b.subrange(0, 4)) as int * 0x1_0000_0000 + be_u32(b.subrange(4, 8)) as int) as u64
}

/// Two's complement reading of an 8-bit pattern.
pub open spec fn as_i8(u: u8) -> i8 {
    if u >= 0x80 {
        (u as int - 0x100) as i8
    } else {
        u as i8
    }
}

/// Two's complement reading of a 16-bit pattern.
pub open spec fn as_i16(u: u16) -> i16 {
    if u >= 0x8000 {
        (u as int - 0x1_0000) as i16
    } else {
        u as i16
    }
}

/// Two's complement reading of a 32-bit pattern.
pub open spec fn as_i32(u: u32) -> i32 {
    if u >= 0x8000_0000 {
        (u as int - 0x1_0000_0000) as i32
    } else {
        u as i32
    }
}

/// Two's complement reading of a 64-bit pattern.
pub open spec fn as_i64(u: u64) -> i64 {
    if u >= 0x8000_0000_0000_0000 {
        (u as int - 0x1_0000_0000_0000_0000) as i64
    } else {
        u as i64
    }
}

/// The 8-bit pattern that stands for `n` in two's complement.
pub open spec fn bits_i8(n: i8) -> u8 {
    if n < 0 {
        (n as int + 0x100) as u8
    } else {
        n as u8
    }
}

/// The 16-bit pattern that stands for `n` in two's complement.
pub open spec fn bits_i16(n: i16) -> u16 {
    if n < 0 {
        (n as int + 0x1_0000) as u16
    } else {
        n as u16
    }
}

/// The 32-bit pattern that stands for `n` in two's complement.
pub open spec fn bits_i32(n: i32) -> u32 {
    if n < 0 {
        (n as int + 0x1_0000_0000) as u32
    } else {
        n as u32
    }
}

/// The 64-bit pattern that stands for `n` in two's complement.
pub open spec fn bits_i64(n: i64) -> u64 {
    if n < 0 {
        (n as int + 0x1_0000_0000_0000_0000) as u64
    } else {
        n as u64
    }
}

/// The two bytes of `n`, most significant first.
pub open spec fn u16_be(n: u16) -> Seq<u8> {
    seq![(n as int / 0x100) as u8, (n as int % 0x100) as u8]
}

/// The four bytes of `n`, most significant first.
pub open spec fn u32_be(n: u32) -> Seq<u8> {
    seq![
        (n as int / 0x100_0000) as u8,
        (n as int / 0x1_0000 % 0x100) as u8,
        (n as int / 0x100 % 0x100) as u8,
        (n as int % 0x100) as u8,
    ]
}

/// The eight bytes of `n`, most significant first.
pub open spec fn u64_be(n: u64) -> Seq<u8> {
    u32_be((n as int / 0x1_0000_0000) as u32) + u32_be((n as int % 0x1_0000_0000) as u32)
}

/// Reading back the two bytes of a number gives the number.
pub proof fn lemma_u16_round_trip(n: u16)
    ensures
        u16_be(n).len() == 2,
        be_u16(u16_be(n)) == n,
{
}

/// Reading back the four bytes of a number gives the number.
pub proof fn lemma_u32_round_trip(n: u32)
    ensures
        u32_be(n).len() == 4,
        be_u32(u32_be(n)) == n,
{
}

/// Reading back the eight bytes of a number gives the number.
pub proof fn lemma_u64_round_trip(n: u64)
    ensures
        u64_be(n).len() == 8,
        be_u64(u64_be(n)) == n,
{
    let hi = (n as int / 0x1_0000_0000) as u32;
    let lo = (n as int % 0x1_0000_0000) as u32;
    lemma_u32_round_trip(hi);
    lemma_u32_round_trip(lo);
    assert(u64_be(n).subrange(0, 4) =~= u32_be(hi));
    assert(u64_be(n).subrange(4, 8) =~= u32_be(lo));
}

/// Writing the number that two bytes hold gives the two bytes.
pub proof fn lemma_u16_bytes_round_trip(b: Seq<u8>)
    requires
        b.len() == 2,
    ensures
        u16_be(be_u16(b)) == b,
{
    assert(u16_be(be_u16(b)) =~= b);
}

/// Writing the number that four bytes hold gives the four bytes.
pub proof fn lemma_u32_bytes_round_trip(b: Seq<u8>)
    requires
        b.len() == 4,
    ensures
        u32_be(be_u32(b)) == b,
{
    let b0 = b[0] as int;
    let b1 = b[1] as int;
    let b2 = b[2] as int;
    let b3 = b[3] as int;
    let n = b0 * 0x100_0000 + b1 * 0x1_0000 + b2 * 0x100 + b3;
    lemma_fundamental_div_mod_converse(n, 0x100_0000, b0, b1 * 0x1_0000 + b2 * 0x100 + b3);
    lemma_fundamental_div_mod_converse(n, 0x1_0000, b0 * 0x100 + b1, b2 * 0x100 + b3);
    lemma_fundamental_div_mod_converse(b0 * 0x100 + b1, 0x100, b0, b1);
    lemma_fundamental_div_mod_converse(n, 0x100, b0 * 0x1_0000 + b1 * 0x100 + b2, b3);
    lemma_fundamental_div_mod_converse(b0 * 0x1_0000 + b1 * 0x100 + b2, 0x100, b0 * 0x100 + b1, b2);
    assert(be_u32(b) == n);
    assert(u32_be(be_u32(b)) =~= b);
}

/// A signed number survives the trip through its bit pattern.
pub proof fn lemma_signed_round_trip(a: i8, b: i16, c: i32, d: i64)
    ensures
        as_i8(bits_i8(a)) == a,
        as_i16(bits_i16(b)) == b,
        as_i32(bits_i32(c)) == c,
        as_i64(bits_i64(d)) == d,
{
}

/// A bit pattern survives the trip through its signed reading.
pub proof fn lemma_pattern_round_trip(a: u8, b: u16, c: u32, d: u64)
    ensures
        bits_i8(as_i8(a)) == a,
        bits_i16(as_i16(b)) == b,
        bits_i32(as_i32(c)) == c,
        bits_i64(as_i64(d)) == d,
{
}

/// `byteorder::ByteOrder::read_u16` in network order: the number held in the
/// first two bytes of `buf`, most significant byte first. The crate panics on
/// a shorter slice, which the precondition rules out.
#[verifier::external_body]
fn net_u16(buf: &[u8]) -> (r: u16)
    requires
        buf@.len() >= 2,
    ensures
        r == be_u16(buf@.subrange(0, 2)),
{
    NetworkEndian::read_u16(buf)
}

/// `byteorder::ByteOrder::read_u32` in network order: the number held in the
/// first four bytes of `buf`, most significant byte first. The crate panics on
/// a shorter slice, which the precondition rules out.
#[verifier::external_body]
fn net_u32(buf: &[u8]) -> (r: u32)
    requires
        buf@.len() >= 4,
    ensures
        r == be_u32(buf@.subrange(0, 4)),
{
    NetworkEndian::read_u32(buf)
}

/// `byteorder::ByteOrder::read_u64` in network order: the number held in the
/// first eight bytes of `buf`, most significant byte first. The crate panics
/// on a shorter slice, which the precondition rules out.
#[verifier::external_body]
fn net_u64(buf: &[u8]) -> (r: u64)
    requires
        buf@.len() >= 8,
    ensures
        r == be_u64(buf@.subrange(0, 8)),
{
    NetworkEndian::read_u64(buf)
}

/// `byteorder::ByteOrder::read_i16` in network order: the first two bytes of
/// `buf` read as a big-endian pattern in two's complement. The crate panics
/// on a shorter slice, which the precondition rules out.
#[verifier::external_body]
fn net_i16(buf: &[u8]) -> (r: i16)
    requires
        buf@.len() >= 2,
    ensures
        r == as_i16(be_u16(buf@.subrange(0, 2))),
{
    NetworkEndian::read_i16(buf)
}

/// `byteorder::ByteOrder::read_i32` in network order: the first four bytes of
/// `buf` read as a big-endian pattern in two's complement. The crate panics
/// on a shorter slice, which the precondition rules out.
#[verifier::external_body]
fn net_i32(buf: &[u8]) -> (r: i32)
    requires
        buf@.len() >= 4,
    ensures
        r == as_i32(be_u32(buf@.subrange(0, 4))),
{
    NetworkEndian::read_i32(buf)
}

/// `byteorder::ByteOrder::read_i64` in network order: the first eight bytes
/// of `buf` read as a big-endian pattern in two's complement. The crate
/// panics on a shorter slice, which the precondition rules out.
#[verifier::external_body]
fn net_i64(buf: &[u8]) -> (r: i64)
    requires
        buf@.len() >= 8,
    ensures
        r == as_i64(be_u64(buf@.subrange(0, 8))),
{
    NetworkEndian::read_i64(buf)
}

/// Whether `n` bytes can be read at `pos`.
pub open spec fn holds(bytes: Seq<u8>, pos: int, n: int) -> bool {
    0 <= pos && pos + n <= bytes.len()
}

/// The byte at `pos`, if there is one.
pub open spec fn u8_at(bytes: Seq<u8>, pos: int) -> Option<u8> {
    if holds(bytes, pos, 1) {
        Some(bytes[pos])
    } else {
        None
    }
}

/// The signed byte at `pos`, if there is one.
pub open spec fn i8_at(bytes: Seq<u8>, pos: int) -> Option<i8> {
    if holds(bytes, pos, 1) {
        Some(as_i8(bytes[pos]))
    } else {
        None
    }
}

/// The big-endian `u16` at `pos`, if two bytes are left there.
pub open spec fn u16_at(bytes: Seq<u8>, pos: int) -> Option<u16> {
    if holds(bytes, pos, 2) {
        Some(be_u16(bytes.subrange(pos, pos + 2)))
    } else {
        None
    }
}

/// The big-endian `i16` at `pos`, if two bytes are left there.
pub open spec fn i16_at(bytes: Seq<u8>, pos: int) -> Option<i16> {
    if holds(bytes, pos, 2) {
        Some(as_i16(be_u16(bytes.subrange(pos, pos + 2))))
    } else {
        None
    }
}

/// The big-endian `u32` at `pos`, if four bytes are left there.
pub open spec fn u32_at(bytes: Seq<u8>, pos: int) -> Option<u32> {
    if holds(bytes, pos, 4) {
        Some(be_u32(bytes.subrange(pos, pos + 4)))
    } else {
        None
    }
}

/// The big-endian `i32` at `pos`, if four bytes are left there.
pub open spec fn i32_at(bytes: Seq<u8>, pos: int) -> Option<i32> {
    if holds(bytes, pos, 4) {
        Some(as_i32(be_u32(bytes.subrange(pos, pos + 4))))
    } else {
        None
    }
}

/// The big-endian `u64` at `pos`, if eight bytes are left there.
pub open spec fn u64_at(bytes: Seq<u8>, pos: int) -> Option<u64> {
    if holds(bytes, pos, 8) {
        Some(be_u64(bytes.subrange(pos, pos + 8)))
    } else {
        None
    }
}

/// The big-endian `i64` at `pos`, if eight bytes are left there.
pub open spec fn i64_at(bytes: Seq<u8>, pos: int) -> Option<i64> {
    if holds(bytes, pos, 8) {
        Some(as_i64(be_u64(bytes.subrange(pos, pos + 8))))
    } else {
        None
    }
}

/// The offset of the first zero byte at or after `pos`, if there is one.
pub open spec fn nul_at(bytes: Seq<u8>, pos: int) -> Option<int>
    decreases bytes.len() - pos,
{
    if pos < 0 || pos >= bytes.len() {
        None
    } else if bytes[pos] == 0 {
        Some(pos)
    } else {
        nul_at(bytes, pos + 1)
    }
}

/// What `nul_at` finds: the first zero byte from `pos` on, or the lack of any.
pub proof fn lemma_nul_at(bytes: Seq<u8>, pos: int)
    requires
        0 <= pos <= bytes.len(),
    ensures
        match nul_at(bytes, pos) {
            Some(end) => pos <= end < bytes.len() && bytes[end] == 0 && forall|i: int|
                pos <= i < end ==> bytes[i] != 0,
            None => forall|i: int| pos <= i < bytes.len() ==> bytes[i] != 0,
        },
    decreases bytes.len() - pos,
{
    if pos < bytes.len() && bytes[pos] != 0 {
        lemma_nul_at(bytes, pos + 1);
    }
}

/// The first zero byte from `pos` on is at `end` when none comes before it.
pub proof fn lemma_nul_at_is(bytes: Seq<u8>, pos: int, end: int)
    requires
        0 <= pos <= end < bytes.len(),
        bytes[end] == 0,
        forall|i: int| pos <= i < end ==> bytes[i] != 0,
    ensures
        nul_at(bytes, pos) == Some(end),
    decreases end - pos,
{
    if pos < end {
        lemma_nul_at_is(bytes, pos + 1, end);
    }
}

/// The bytes of a run of items written one after another, where `one` gives
/// the bytes of an item.
pub open spec fn run_wire<T>(items: Seq<T>, one: spec_fn(T) -> Seq<u8>) -> Seq<u8>
    decreases items.len(),
{
    if items.len() == 0 {
        Seq::empty()
    } else {
        run_wire(items.drop_last(), one) + one(items.last())
    }
}

/// The bytes of a run are those of its front followed by those of its back.
pub proof fn lemma_run_wire_concat<T>(front: Seq<T>, back: Seq<T>, one: spec_fn(T) -> Seq<u8>)
    ensures
        run_wire(front + back, one) == run_wire(front, one) + run_wire(back, one),
    decreases back.len(),
{
    if back.len() == 0 {
        assert(front + back =~= front);
        assert(run_wire(front, one) + run_wire(back, one) =~= run_wire(front, one));
    } else {
        lemma_run_wire_concat(front, back.drop_last(), one);
        assert((front + back).drop_last() =~= front + back.drop_last());
        assert((front + back).last() == back.last());
        assert(run_wire(front + back, one) =~= run_wire(front, one) + run_wire(back, one));
    }
}

/// The bytes of the first `k + 1` items are those of the first `k` followed
/// by those of item `k`, and no longer than those of all items.
pub proof fn lemma_run_wire_step<T>(items: Seq<T>, one: spec_fn(T) -> Seq<u8>, k: int)
    requires
        0 <= k < items.len(),
    ensures
        run_wire(items.take(k + 1), one) == run_wire(items.take(k), one) + one(items[k]),
        run_wire(items.take(k + 1), one).len() <= run_wire(items, one).len(),
{
    assert(items.take(k + 1).drop_last() =~= items.take(k));
    assert(items.take(k + 1).last() == items[k]);
    assert(items =~= items.take(k + 1) + items.skip(k + 1));
    lemma_run_wire_concat(items.take(k + 1), items.skip(k + 1), one);
}

/// `front`, followed by what `rest` holds where `rest` is no error.
pub open spec fn prepended<T, E>(front: Seq<T>, rest: Result<Seq<T>, E>) -> Result<Seq<T>, E> {
    match rest {
        Ok(tail) => Ok(front + tail),
        Err(e) => Err(e),
    }
}

/// The sum of two lengths, where a buffer can be that long.
pub fn add_len(a: usize, b: usize) -> (r: Option<usize>)
    ensures
        r == (if a + b <= isize::MAX {
            Some((a + b) as usize)
        } else {
            None
        }),
{
    let limit = isize::MAX as usize;
    if a <= limit && b <= limit - a {
        Some(a + b)
    } else {
        None
    }
}

/// A read position in a byte slice.
pub struct Reader<'a> {
    pub bytes: &'a [u8],
    pub pos: usize,
}

impl<'a> Reader<'a> {
    /// The position lies within the slice or at its end.
    pub open spec fn wf(&self) -> bool {
        self.pos <= self.bytes@.len()
    }

    /// A reader at the start of `bytes`.
    pub fn new(bytes: &'a [u8]) -> (r: Self)
        ensures
            r.wf(),
            r.bytes@ == bytes@,
            r.pos == 0,
    {
        Reader { bytes, pos: 0 }
    }

    /// How many bytes are left to read.
    pub fn remaining(&self) -> (n: usize)
        requires
            self.wf(),
        ensures
            n == self.bytes@.len() - self.pos,
    {
        self.bytes.len() - self.pos
    }

    /// Reads one byte, or nothing at the end of the slice.
    pub fn read_u8(&mut self) -> (r: Option<u8>)
        requires
            old(self).wf(),
        ensures
            final(self).wf(),
            final(self).bytes == old(self).bytes,
            r == u8_at(old(self).bytes@, old(self).pos as int),
            final(self).pos == old(self).pos + (if r is Some { 1int } else { 0 }),
    {
        if self.bytes.len() - self.pos < 1 {
            return None;
        }
        let v = self.bytes[self.pos];
        self.pos = self.pos + 1;
        Some(v)
    }

    /// Reads one byte in two's complement, or nothing at the end of the slice.
    pub fn read_i8(&mut self) -> (r: Option<i8>)
        requires
            old(self).wf(),
        ensures
            final(self).wf(),
            final(self).bytes == old(self).bytes,
            r == i8_at(old(self).bytes@, old(self).pos as int),
            final(self).pos == old(self).pos + (if r is Some { 1int } else { 0 }),
    {
        if self.bytes.len() - self.pos < 1 {
            return None;
        }
        let v = self.bytes[self.pos];
        self.pos = self.pos + 1;
        if v >= 0x80 {
            Some((v as i16 - 0x100) as i8)
        } else {
            Some(v as i8)
        }
    }

    /// Reads a big-endian `u16`, or nothing where fewer than two bytes are left.
    pub fn read_u16(&mut self) -> (r: Option<u16>)
        requires
            old(self).wf(),
        ensures
            final(self).wf(),
            final(self).bytes == old(self).bytes,
            r == u16_at(old(self).bytes@, old(self).pos as int),
            final(self).pos == old(self).pos + (if r is Some { 2int } else { 0 }),
    {
        if self.bytes.len() - self.pos < 2 {
            return None;
        }
        let v = net_u16(slice_subrange(self.bytes, self.pos, self.pos + 2));
        proof {
            let s = self.bytes@.subrange(self.pos as int, self.pos + 2);
            assert(s.subrange(0, 2) =~= s);
        }
        self.pos = self.pos + 2;
        Some(v)
    }

    /// Reads a big-endian `i16`, or nothing where fewer than two bytes are left.
    pub fn read_i16(&mut self) -> (r: Option<i16>)
        requires
            old(self).wf(),
        ensures
            final(self).wf(),
            final(self).bytes == old(self).bytes,
            r == i16_at(old(self).bytes@, old(self).pos as int),
            final(self).pos == old(self).pos + (if r is Some { 2int } else { 0 }),
    {
        if self.bytes.len() - self.pos < 2 {
            return None;
        }
        let v = net_i16(slice_subrange(self.bytes, self.pos, self.pos + 2));
        proof {
            let s = self.bytes@.subrange(self.pos as int, self.pos + 2);
            assert(s.subrange(0, 2) =~= s);
        }
        self.pos = self.pos + 2;
        Some(v)
    }

    /// Reads a big-endian `u32`, or nothing where fewer than four bytes are left.
    pub fn read_u32(&mut self) -> (r: Option<u32>)
        requires
            old(self).wf(),
        ensures
            final(self).wf(),
            final(self).bytes == old(self).bytes,
            r == u32_at(old(self).bytes@, old(self).pos as int),
            final(self).pos == old(self).pos + (if r is Some { 4int } else { 0 }),
    {
        if self.bytes.len() - self.pos < 4 {
            return None;
        }
        let v = net_u32(slice_subrange(self.bytes, self.pos, self.pos + 4));
        proof {
            let s = self.bytes@.subrange(self.pos as int, self.pos + 4);
            assert(s.subrange(0, 4) =~= s);
        }
        self.pos = self.pos + 4;
        Some(v)
    }

    /// Reads a big-endian `i32`, or nothing where fewer than four bytes are left.
    pub fn read_i32(&mut self) -> (r: Option<i32>)
        requires
            old(self).wf(),
        ensures
            final(self).wf(),
            final(self).bytes == old(self).bytes,
            r == i32_at(old(self).bytes@, old(self).pos as int),
            final(self).pos == old(self).pos + (if r is Some { 4int } else { 0 }),
    {
        if self.bytes.len() - self.pos < 4 {
            return None;
        }
        let v = net_i32(slice_subrange(self.bytes, self.pos, self.pos + 4));
        proof {
            let s = self.bytes@.subrange(self.pos as int, self.pos + 4);
            assert(s.subrange(0, 4) =~= s);
        }
        self.pos = self.pos + 4;
        Some(v)
    }

    /// Reads a big-endian `u64`, or nothing where fewer than eight bytes are left.
    pub fn read_u64(&mut self) -> (r: Option<u64>)
        requires
            old(self).wf(),
        ensures
            final(self).wf(),
            final(self).bytes == old(self).bytes,
            r == u64_at(old(self).bytes@, old(self).pos as int),
            final(self).pos == old(self).pos + (if r is Some { 8int } else { 0 }),
    {
        if self.bytes.len() - self.pos < 8 {
            return None;
        }
        let v = net_u64(slice_subrange(self.bytes, self.pos, self.pos + 8));
        proof {
            let s = self.bytes@.subrange(self.pos as int, self.pos + 8);
            assert(s.subrange(0, 8) =~= s);
        }
        self.pos = self.pos + 8;
        Some(v)
    }

    /// Reads a big-endian `i64`, or nothing where fewer than eight bytes are left.
    pub fn read_i64(&mut self) -> (r: Option<i64>)
        requires
            old(self).wf(),
        ensures
            final(self).wf(),
            final(self).bytes == old(self).bytes,
            r == i64_at(old(self).bytes@, old(self).pos as int),
            final(self).pos == old(self).pos + (if r is Some { 8int } else { 0 }),
    {
        if self.bytes.len() - self.pos < 8 {
            return None;
        }
        let v = net_i64(slice_subrange(self.bytes, self.pos, self.pos + 8));
        proof {
            let s = self.bytes@.subrange(self.pos as int, self.pos + 8);
            assert(s.subrange(0, 8) =~= s);
        }
        self.pos = self.pos + 8;
        Some(v)
    }

    /// Reads the bytes up to the next zero byte and steps over that byte.
    /// Where no zero byte is left, nothing is read.
    pub fn read_until_nul(&mut self) -> (r: Option<&'a [u8]>)
        requires
            old(self).wf(),
        ensures
            final(self).wf(),
            final(self).bytes == old(self).bytes,
            match nul_at(old(self).bytes@, old(self).pos as int) {
                Some(end) => r matches Some(s) && s@ == old(self).bytes@.subrange(
                    old(self).pos as int,
                    end,
                ) && final(self).pos == end + 1,
                None => r is None && final(self).pos == old(self).pos,
            },
    {
        let start = self.pos;
        let mut end: usize = self.pos;
        while end < self.bytes.len() && self.bytes[end] != 0
            invariant
                start <= end <= self.bytes@.len(),
                forall|i: int| start <= i < end ==> self.bytes@[i] != 0,
            decreases self.bytes@.len() - end,
        {
            end = end + 1;
        }
        proof {
            lemma_nul_at(self.bytes@, start as int);
            if end < self.bytes@.len() {
                lemma_nul_at_is(self.bytes@, start as int, end as int);
            }
        }
        if end >= self.bytes.len() {
            return None;
        }
        let s = slice_subrange(self.bytes, start, end);
        self.pos = end + 1;
        Some(s)
    }
}

} // verus!
