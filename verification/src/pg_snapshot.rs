//! Transaction snapshots: the count of transactions in progress, the lowest
//! and the highest transaction of interest, and the transactions in
//! progress, all big-endian.

use crate::buffer::{fits, has_room, put_i32, put_i64, written};
use crate::error::CodecError;
use crate::text::{decimal, push_decimal_i64, str_eq};
use crate::wire::{
    as_i64, be_u64, bits_i32, bits_i64, holds, i32_at, i64_at, u32_be, u64_be, Reader,
};
use bytes::BytesMut;
use vstd::prelude::*;
use vstd::string::*;

verus! {

/// A snapshot of the transactions that were running at some moment.
#[derive(Debug, PartialEq)]
pub struct PgSnapshot {
    pub xmin: i64,
    pub xmax: i64,
    pub xip_list: Vec<i64>,
}

/// A snapshot as a mathematical value.
pub struct SnapshotView {
    pub xmin: i64,
    pub xmax: i64,
    pub xip_list: Seq<i64>,
}

impl View for PgSnapshot {
    type V = SnapshotView;

    open spec fn view(&self) -> SnapshotView {
        SnapshotView { xmin: self.xmin, xmax: self.xmax, xip_list: self.xip_list@ }
    }
}

/// The number of bytes in front of the list of transactions in progress.
pub const SNAPSHOT_HEAD_LEN: usize = 20;

/// The `n` big-endian `i64` that start at `pos`.
pub open spec fn i64_run(bytes: Seq<u8>, pos: int, n: nat) -> Seq<i64> {
    Seq::new(n, |i: int| as_i64(be_u64(bytes.subrange(pos + 8 * i, pos + 8 * i + 8))))
}

/// What a byte string decodes to. Bytes behind the list are not looked at.
pub open spec fn parse_snapshot(bytes: Seq<u8>) -> Result<SnapshotView, CodecError> {
    if bytes.len() < SNAPSHOT_HEAD_LEN {
        Err(CodecError::TruncatedInput)
    } else {
        let count = i32_at(bytes, 0)->0;
        if count < 0 {
            Err(CodecError::LengthOutOfRange)
        } else if !holds(bytes, SNAPSHOT_HEAD_LEN as int, 8 * count) {
            Err(CodecError::TruncatedInput)
        } else {
            Ok(
                SnapshotView {
                    xmin: i64_at(bytes, 4)->0,
                    xmax: i64_at(bytes, 12)->0,
                    xip_list: i64_run(bytes, SNAPSHOT_HEAD_LEN as int, count as nat),
                },
            )
        }
    }
}

/// The bytes of a run of `i64`, one after another.
pub open spec fn i64_run_wire(list: Seq<i64>) -> Seq<u8>
    decreases list.len(),
{
    if list.len() == 0 {
        Seq::empty()
    } else {
        i64_run_wire(list.drop_last()) + u64_be(bits_i64(list.last()))
    }
}

/// The bytes of a snapshot. The count is written as it fits in 32 bits.
pub open spec fn snapshot_wire(v: SnapshotView) -> Seq<u8> {
    u32_be(bits_i32(v.xip_list.len() as i32)) + u64_be(bits_i64(v.xmin)) + u64_be(
        bits_i64(v.xmax),
    ) + i64_run_wire(v.xip_list)
}

/// A run of `n` numbers takes `8 * n` bytes.
pub proof fn lemma_i64_run_wire_len(list: Seq<i64>)
    ensures
        i64_run_wire(list).len() == 8 * list.len(),
    decreases list.len(),
{
    if list.len() > 0 {
        lemma_i64_run_wire_len(list.drop_last());
    }
}

/// The numbers of a run written one after another and joined with commas.
pub open spec fn i64_list_text(list: Seq<i64>) -> Seq<char>
    decreases list.len(),
{
    if list.len() == 0 {
        Seq::empty()
    } else if list.len() == 1 {
        decimal(list[0] as int)
    } else {
        i64_list_text(list.drop_last()) + ","@ + decimal(list.last() as int)
    }
}

/// The text of a snapshot: `xmin:xmax:` and the transactions in progress.
pub open spec fn snapshot_text(v: SnapshotView) -> Seq<char> {
    decimal(v.xmin as int) + ":"@ + decimal(v.xmax as int) + ":"@ + i64_list_text(v.xip_list)
}

/// The snapshot that `r` holds, as a mathematical value.
pub open spec fn snapshot_view(r: Result<PgSnapshot, CodecError>) -> Result<
    SnapshotView,
    CodecError,
> {
    match r {
        Ok(v) => Ok(v@),
        Err(e) => Err(e),
    }
}

impl PgSnapshot {
    /// Whether a wire type of this name carries snapshots.
    pub fn accepts(wire_type: &str) -> (r: bool)
        ensures
            r == (wire_type@ == "pg_snapshot"@),
    {
        str_eq(wire_type, "pg_snapshot")
    }

    /// Decodes a snapshot from its wire bytes.
    pub fn from_sql(raw: &[u8]) -> (r: Result<Self, CodecError>)
        ensures
            snapshot_view(r) == parse_snapshot(raw@),
    {
        let mut reader = Reader::new(raw);
        let count = match reader.read_i32() {
            Some(v) => v,
            None => {
                return Err(CodecError::TruncatedInput);
            },
        };
        let xmin = match reader.read_i64() {
            Some(v) => v,
            None => {
                return Err(CodecError::TruncatedInput);
            },
        };
        let xmax = match reader.read_i64() {
            Some(v) => v,
            None => {
                return Err(CodecError::TruncatedInput);
            },
        };
        if count < 0 {
            return Err(CodecError::LengthOutOfRange);
        }
        let mut xip_list: Vec<i64> = Vec::new();
        let mut i: i32 = 0;
        while i < count
            invariant
                0 <= i <= count,
                raw@.len() >= SNAPSHOT_HEAD_LEN,
                i32_at(raw@, 0) == Some(count),
                reader.wf(),
                reader.bytes@ == raw@,
                reader.pos == SNAPSHOT_HEAD_LEN + 8 * i,
                xip_list@ == i64_run(raw@, SNAPSHOT_HEAD_LEN as int, i as nat),
            decreases count - i,
        {
            match reader.read_i64() {
                Some(xip) => {
                    xip_list.push(xip);
                    assert(xip_list@ =~= i64_run(raw@, SNAPSHOT_HEAD_LEN as int, (i + 1) as nat));
                },
                None => {
                    return Err(CodecError::TruncatedInput);
                },
            }
            i = i + 1;
        }
        Ok(PgSnapshot { xmin, xmax, xip_list })
    }

    /// Appends the wire bytes of the snapshot to `out`, or leaves `out` as it
    /// is where they do not fit.
    pub fn to_sql(&self, out: &mut BytesMut) -> (r: Result<(), CodecError>)
        ensures
            r is Ok <==> fits(*old(out), snapshot_wire(self@).len() as int),
            match r {
                Ok(_) => written(*final(out)) == written(*old(out)) + snapshot_wire(self@),
                Err(e) => e == CodecError::BufferFull && written(*final(out)) == written(*old(out)),
            },
    {
        let n = self.xip_list.len();
        proof {
            lemma_i64_run_wire_len(self.xip_list@);
        }
        if n > (usize::MAX - SNAPSHOT_HEAD_LEN) / 8 || !has_room(out, SNAPSHOT_HEAD_LEN + 8 * n) {
            return Err(CodecError::BufferFull);
        }
        put_i32(out, n as i32);
        put_i64(out, self.xmin);
        put_i64(out, self.xmax);
        let ghost head = written(*out);
        assert(head =~= written(*old(out)) + u32_be(bits_i32(n as i32)) + u64_be(
            bits_i64(self.xmin),
        ) + u64_be(bits_i64(self.xmax)));
        let mut i: usize = 0;
        while i < n
            invariant
                i <= n,
                n == self.xip_list@.len(),
                head.len() == written(*old(out)).len() + SNAPSHOT_HEAD_LEN,
                fits(*old(out), SNAPSHOT_HEAD_LEN + 8 * n),
                written(*out) == head + i64_run_wire(self.xip_list@.take(i as int)),
            decreases n - i,
        {
            proof {
                lemma_i64_run_wire_len(self.xip_list@.take(i as int));
                assert(self.xip_list@.take(i + 1).drop_last() =~= self.xip_list@.take(i as int));
            }
            put_i64(out, self.xip_list[i]);
            assert(written(*out) =~= head + i64_run_wire(self.xip_list@.take(i + 1)));
            i += 1;
        }
        proof {
            assert(self.xip_list@.take(n as int) =~= self.xip_list@);
            assert(written(*out) =~= written(*old(out)) + snapshot_wire(self@));
        }
        Ok(())
    }

    /// The snapshot as text.
    pub fn to_string(&self) -> (r: String)
        ensures
            r@ == snapshot_text(self@),
    {
        let mut out = String::new();
        push_decimal_i64(&mut out, self.xmin);
        out.append(":");
        push_decimal_i64(&mut out, self.xmax);
        out.append(":");
        let ghost head = out@;
        assert(head =~= decimal(self.xmin as int) + ":"@ + decimal(self.xmax as int) + ":"@);
        let mut i: usize = 0;
        while i < self.xip_list.len()
            invariant
                i <= self.xip_list@.len(),
                out@ == head + i64_list_text(self.xip_list@.take(i as int)),
            decreases self.xip_list@.len() - i,
        {
            if i > 0 {
                out.append(",");
            }
            push_decimal_i64(&mut out, self.xip_list[i]);
            proof {
                let next = self.xip_list@.take(i + 1);
                assert(next.drop_last() =~= self.xip_list@.take(i as int));
                assert(out@ =~= head + i64_list_text(next));
            }
            i += 1;
        }
        proof {
            assert(self.xip_list@.take(i as int) =~= self.xip_list@);
        }
        out
    }
}

/// Decoding undoes encoding, for a snapshot whose count fits the count field.
pub proof fn lemma_snapshot_round_trip(v: SnapshotView)
    requires
        v.xip_list.len() <= i32::MAX,
    ensures
        parse_snapshot(snapshot_wire(v)) == Ok::<SnapshotView, CodecError>(v),
{
    let n = v.xip_list.len();
    let bytes = snapshot_wire(v);
    let count = n as i32;
    lemma_i64_run_wire_len(v.xip_list);
    crate::wire::lemma_u32_round_trip(bits_i32(count));
    crate::wire::lemma_u64_round_trip(bits_i64(v.xmin));
    crate::wire::lemma_u64_round_trip(bits_i64(v.xmax));
    crate::wire::lemma_signed_round_trip(0, 0, count, v.xmin);
    crate::wire::lemma_signed_round_trip(0, 0, count, v.xmax);
    assert(bytes.subrange(0, 4) =~= u32_be(bits_i32(count)));
    assert(bytes.subrange(4, 12) =~= u64_be(bits_i64(v.xmin)));
    assert(bytes.subrange(12, 20) =~= u64_be(bits_i64(v.xmax)));
    let got = i64_run(bytes, SNAPSHOT_HEAD_LEN as int, n);
    assert forall|i: int| 0 <= i < n implies got[i] == v.xip_list[i] by {
        lemma_i64_run_wire_index(v.xip_list, i);
        assert(bytes.subrange(20 + 8 * i, 20 + 8 * i + 8) =~= i64_run_wire(v.xip_list).subrange(
            8 * i,
            8 * i + 8,
        ));
        crate::wire::lemma_u64_round_trip(bits_i64(v.xip_list[i]));
        crate::wire::lemma_signed_round_trip(0, 0, 0, v.xip_list[i]);
    }
    assert(got =~= v.xip_list);
}

/// Where the bytes of number `i` stand in the bytes of a run.
pub proof fn lemma_i64_run_wire_index(list: Seq<i64>, i: int)
    requires
        0 <= i < list.len(),
    ensures
        i64_run_wire(list).len() == 8 * list.len(),
        i64_run_wire(list).subrange(8 * i, 8 * i + 8) == u64_be(bits_i64(list[i])),
    decreases list.len(),
{
    lemma_i64_run_wire_len(list);
    lemma_i64_run_wire_len(list.drop_last());
    crate::wire::lemma_u64_round_trip(bits_i64(list.last()));
    if i == list.len() - 1 {
        assert(i64_run_wire(list).subrange(8 * i, 8 * i + 8) =~= u64_be(bits_i64(list[i])));
    } else {
        lemma_i64_run_wire_index(list.drop_last(), i);
        assert(i64_run_wire(list).subrange(8 * i, 8 * i + 8) =~= i64_run_wire(
            list.drop_last(),
        ).subrange(8 * i, 8 * i + 8));
    }
}

} // verus!
