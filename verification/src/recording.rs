//! The session-file (`.swr`) format: the header and its check, the
//! little-endian length framing of records and blocks, the buffering of
//! records into zstd-compressed blocks, and the reader side that splits
//! a decompressed block back into records.
//!
//! A file is a 6-byte header (`SWR\0` and a little-endian `u16` format
//! version) followed by blocks, each a `u32` length and that many bytes
//! of zstd data. Decompressed, a block is a run of records, each a `u32`
//! length and that many bytes.

use vstd::prelude::*;
use std::collections::HashMap;
use crate::model::{service_rows, ServiceRow, ServiceTick};
use crate::text::{decimal, push_decimal, push_str, string_of};

verus! {

/// The magic bytes that open every recording: `SWR\0`.
pub const MAGIC: [u8; 4] = [83u8, 87u8, 82u8, 0u8];

/// The format version this library writes and reads.
pub const FORMAT_VERSION: u16 = 3;

/// Records buffered per compressed block.
pub const BLOCK_TICKS: usize = 60;

/// The zstd level blocks are compressed at.
pub const ZSTD_LEVEL: i32 = 3;

/// The little-endian bytes of `x`.
pub open spec fn le_bytes_u32(x: u32) -> Seq<u8> {
    seq![(x % 256) as u8, ((x / 256) % 256) as u8, ((x / 65536) % 256) as u8, (x / 16777216) as u8]
}

/// The number four little-endian bytes spell.
pub open spec fn le_value(b: Seq<u8>) -> nat {
    (b[0] + 256 * b[1] + 65536 * b[2] + 16777216 * b[3]) as nat
}

/// The six header bytes: the magic, then the version little-endian.
pub open spec fn header_seq() -> Seq<u8> {
    seq![83u8, 87u8, 82u8, 0u8, (FORMAT_VERSION % 256) as u8, (FORMAT_VERSION / 256) as u8]
}

/// The header every recording starts with.
pub fn write_header() -> (r: Vec<u8>)
    ensures
        r@ == header_seq(),
{
    let mut r: Vec<u8> = Vec::with_capacity(6);
    r.push(MAGIC[0]);
    r.push(MAGIC[1]);
    r.push(MAGIC[2]);
    r.push(MAGIC[3]);
    r.push((FORMAT_VERSION % 256) as u8);
    r.push((FORMAT_VERSION / 256) as u8);
    assert(r@ =~= header_seq());
    r
}

/// Why a header was refused.
#[derive(Debug, Clone, Copy, PartialEq, Eq, Structural)]
pub enum HeaderError {
    /// The first four bytes are not the magic; they are carried along.
    BadMagic(u8, u8, u8, u8),
    /// Written by a newer format version than this library reads.
    Newer(u16),
    /// Written by an older format version than this library reads.
    Older(u16),
}

/// What `read_header` makes of six header bytes.
pub open spec fn header_check(h: Seq<u8>) -> Result<(), HeaderError> {
    if h.take(4) != MAGIC@ {
        Err(HeaderError::BadMagic(h[0], h[1], h[2], h[3]))
    } else {
        let version = (h[4] + 256 * h[5]) as u16;
        if version > FORMAT_VERSION {
            Err(HeaderError::Newer(version))
        } else if version < FORMAT_VERSION {
            Err(HeaderError::Older(version))
        } else {
            Ok(())
        }
    }
}

/// Accepts a header of the current format version; refuses other magic
/// bytes, and newer or older versions.
pub fn read_header(h: &[u8; 6]) -> (r: Result<(), HeaderError>)
    ensures
        r == header_check(h@),
{
    let m: [u8; 4] = [h[0], h[1], h[2], h[3]];
    let magic = MAGIC;
    if !(m[0] == magic[0] && m[1] == magic[1] && m[2] == magic[2] && m[3] == magic[3]) {
        proof {
            if h@.take(4) == MAGIC@ {
                assert(h@.take(4)[0] == h@[0]);
                assert(h@.take(4)[1] == h@[1]);
                assert(h@.take(4)[2] == h@[2]);
                assert(h@.take(4)[3] == h@[3]);
            }
        }
        return Err(HeaderError::BadMagic(h[0], h[1], h[2], h[3]));
    }
    assert(h@.take(4) =~= MAGIC@);
    let version: u16 = (h[4] as u16) + 256 * (h[5] as u16);
    if version > FORMAT_VERSION {
        Err(HeaderError::Newer(version))
    } else if version < FORMAT_VERSION {
        Err(HeaderError::Older(version))
    } else {
        Ok(())
    }
}

/// `Debug` of a byte slice: `[a, b, c]`.
pub open spec fn byte_list(b: Seq<u8>) -> Seq<char>
    decreases b.len(),
{
    if b.len() == 0 {
        "[]"@
    } else {
        seq!['['] + byte_items(b) + seq![']']
    }
}

/// The decimal bytes of a nonempty `b`, separated by `, `.
pub open spec fn byte_items(b: Seq<u8>) -> Seq<char>
    decreases b.len(),
{
    if b.len() <= 1 {
        if b.len() == 1 {
            decimal(b[0] as nat)
        } else {
            Seq::empty()
        }
    } else {
        byte_items(b.drop_last()) + ", "@ + decimal(b.last() as nat)
    }
}

/// The message a refused header is reported with.
pub open spec fn header_error_text(e: HeaderError) -> Seq<char> {
    match e {
        HeaderError::BadMagic(a, b, c, d) => "not a syswatch recording (magic mismatch: "@
            + byte_list(seq![a, b, c, d]) + ")"@,
        HeaderError::Newer(v) => "recording format v"@ + decimal(v as nat)
            + " is newer than this binary (max v"@ + decimal(FORMAT_VERSION as nat) + ")"@,
        HeaderError::Older(v) => "recording format v"@ + decimal(v as nat)
            + " predates this binary (needs v"@ + decimal(FORMAT_VERSION as nat)
            + "); re-record with the current syswatch"@,
    }
}

impl HeaderError {
    /// The message the refusal is reported with.
    pub fn message(&self) -> (r: String)
        ensures
            r@ == header_error_text(*self),
    {
        let mut out: Vec<char> = Vec::new();
        match self {
            HeaderError::BadMagic(a, b, c, d) => {
                push_str(&mut out, "not a syswatch recording (magic mismatch: ");
                let ghost head = out@;
                out.push('[');
                push_decimal(&mut out, *a as u64);
                push_str(&mut out, ", ");
                push_decimal(&mut out, *b as u64);
                push_str(&mut out, ", ");
                push_decimal(&mut out, *c as u64);
                push_str(&mut out, ", ");
                push_decimal(&mut out, *d as u64);
                out.push(']');
                push_str(&mut out, ")");
                proof {
                    let q = seq![*a, *b, *c, *d];
                    assert(q.drop_last().drop_last().drop_last() =~= seq![*a]);
                    assert(q.drop_last().drop_last() =~= seq![*a, *b]);
                    assert(q.drop_last() =~= seq![*a, *b, *c]);
                    assert(byte_items(seq![*a]) == decimal(*a as nat));
                    assert(byte_items(seq![*a, *b]) == decimal(*a as nat) + ", "@ + decimal(*b as nat));
                    assert(byte_items(seq![*a, *b, *c]) == decimal(*a as nat) + ", "@ + decimal(*b as nat)
                        + ", "@ + decimal(*c as nat));
                    assert(byte_items(q) == decimal(*a as nat) + ", "@ + decimal(*b as nat) + ", "@
                        + decimal(*c as nat) + ", "@ + decimal(*d as nat));
                    assert(byte_list(q) == seq!['['] + byte_items(q) + seq![']']);
                }
                assert(out@ =~= header_error_text(*self));
            },
            HeaderError::Newer(v) => {
                push_str(&mut out, "recording format v");
                push_decimal(&mut out, *v as u64);
                push_str(&mut out, " is newer than this binary (max v");
                push_decimal(&mut out, FORMAT_VERSION as u64);
                push_str(&mut out, ")");
                assert(out@ =~= header_error_text(*self));
            },
            HeaderError::Older(v) => {
                push_str(&mut out, "recording format v");
                push_decimal(&mut out, *v as u64);
                push_str(&mut out, " predates this binary (needs v");
                push_decimal(&mut out, FORMAT_VERSION as u64);
                push_str(&mut out, "); re-record with the current syswatch");
                assert(out@ =~= header_error_text(*self));
            },
        }
        string_of(&out)
    }
}

/// The header this library writes passes its own check.
pub proof fn lemma_header_accepted()
    ensures
        header_check(header_seq()) == Ok::<(), HeaderError>(()),
{
    assert(header_seq().take(4) =~= MAGIC@);
}

/// Appends the little-endian bytes of `x`.
pub fn push_u32_le(out: &mut Vec<u8>, x: u32)
    ensures
        final(out)@ == old(out)@ + le_bytes_u32(x),
{
    out.push((x % 256) as u8);
    out.push(((x / 256) % 256) as u8);
    out.push(((x / 65536) % 256) as u8);
    out.push((x / 16777216) as u8);
    assert(final(out)@ =~= old(out)@ + le_bytes_u32(x));
}

/// The `u32` stored little-endian at `b[pos..pos + 4]`.
pub fn u32_le_at(b: &[u8], pos: usize) -> (r: u32)
    requires
        pos + 4 <= b@.len(),
    ensures
        r == le_value(b@.subrange(pos as int, pos + 4)),
{
    let v = (b[pos] as u32) + 256 * (b[pos + 1] as u32) + 65536 * (b[pos + 2] as u32) + 16777216 * (
    b[pos + 3] as u32);
    v
}

/// Reading back the bytes of `x` gives `x`.
pub proof fn lemma_le_roundtrip(x: u32)
    ensures
        le_value(le_bytes_u32(x)) == x,
{
    let b = le_bytes_u32(x);
    assert(x == (x % 256) + 256 * ((x / 256) % 256) + 65536 * ((x / 65536) % 256) + 16777216 * (x
        / 16777216)) by (nonlinear_arith);
}

/// The frame of one record: its length, little-endian, then its bytes.
pub open spec fn framed(payload: Seq<u8>) -> Seq<u8> {
    le_bytes_u32(payload.len() as u32) + payload
}

/// The frames of `ps`, back to back.
pub open spec fn frames(ps: Seq<Seq<u8>>) -> Seq<u8>
    decreases ps.len(),
{
    if ps.len() == 0 {
        Seq::empty()
    } else {
        frames(ps.drop_last()) + framed(ps.last())
    }
}

/// A record or block too long for its `u32` length prefix.
#[derive(Debug, Clone, Copy, PartialEq, Eq, Structural)]
pub struct TooLarge {
    pub len: usize,
}

/// Appends the frame of `payload`, or refuses a payload longer than a
/// `u32` length can say.
pub fn push_frame(out: &mut Vec<u8>, payload: &[u8]) -> (r: Result<(), TooLarge>)
    ensures
        payload@.len() <= u32::MAX ==> r is Ok && final(out)@ == old(out)@ + framed(payload@),
        payload@.len() > u32::MAX ==> r == Err::<(), TooLarge>(TooLarge { len: payload@.len() as usize })
            && final(out)@ == old(out)@,
{
    let n = payload.len();
    if n > u32::MAX as usize {
        return Err(TooLarge { len: n });
    }
    push_u32_le(out, n as u32);
    let ghost mid = out@;
    let mut i: usize = 0;
    while i < n
        invariant
            n == payload@.len(),
            i <= n,
            out@ == mid + payload@.take(i as int),
        decreases n - i,
    {
        out.push(payload[i]);
        i += 1;
        assert(out@ =~= mid + payload@.take(i as int));
    }
    assert(payload@.take(n as int) =~= payload@);
    assert(final(out)@ =~= old(out)@ + framed(payload@));
    Ok(())
}

/// The records read from `b` starting at `pos`, and whether the run ended
/// in a record whose length runs past the end; one to three trailing
/// bytes are not a length and are ignored.
pub open spec fn records_from(b: Seq<u8>, pos: nat) -> (Seq<Seq<u8>>, bool)
    decreases b.len() - pos,
{
    if pos + 4 > b.len() {
        (Seq::empty(), false)
    } else {
        let len = le_value(b.subrange(pos as int, pos + 4 as int));
        let start = pos + 4;
        if start + len > b.len() {
            (Seq::empty(), true)
        } else {
            let rest = records_from(b, start + len);
            (seq![b.subrange(start as int, (start + len) as int)] + rest.0, rest.1)
        }
    }
}

/// Splits a decompressed block into its records; the flag is set when
/// the last frame claims more bytes than the block holds.
pub fn split_records(b: &[u8]) -> (r: (Vec<Vec<u8>>, bool))
    ensures
        (r.0@.map_values(|v: Vec<u8>| v@), r.1) == records_from(b@, 0),
{
    let n = b.len();
    let mut out: Vec<Vec<u8>> = Vec::new();
    let mut pos: usize = 0;
    while n - pos >= 4
        invariant
            n == b@.len(),
            pos <= n,
            records_from(b@, 0) == ({
                let rest = records_from(b@, pos as nat);
                (out@.map_values(|v: Vec<u8>| v@) + rest.0, rest.1)
            }),
        decreases n - pos,
    {
        let len = u32_le_at(b, pos) as usize;
        let start = pos + 4;
        if len > n - start {
            assert(records_from(b@, pos as nat) == (Seq::<Seq<u8>>::empty(), true));
            assert(out@.map_values(|v: Vec<u8>| v@) + Seq::<Seq<u8>>::empty() =~= out@.map_values(
                |v: Vec<u8>| v@,
            ));
            return (out, true);
        }
        let mut rec: Vec<u8> = Vec::with_capacity(len);
        let mut k: usize = 0;
        while k < len
            invariant
                n == b@.len(),
                start + len <= n,
                k <= len,
                rec@ == b@.subrange(start as int, start + k),
            decreases len - k,
        {
            rec.push(b[start + k]);
            k += 1;
            assert(rec@ =~= b@.subrange(start as int, start + k));
        }
        let ghost old_out = out@;
        out.push(rec);
        assert(out@.map_values(|v: Vec<u8>| v@) =~= old_out.map_values(|v: Vec<u8>| v@).push(
            b@.subrange(start as int, start + len),
        ));
        pos = start + len;
        proof {
            let rest = records_from(b@, pos as nat);
            assert(old_out.map_values(|v: Vec<u8>| v@) + (seq![b@.subrange(start as int, start + len)]
                + rest.0) =~= out@.map_values(|v: Vec<u8>| v@) + rest.0);
        }
    }
    assert(out@.map_values(|v: Vec<u8>| v@) + Seq::<Seq<u8>>::empty() =~= out@.map_values(
        |v: Vec<u8>| v@,
    ));
    (out, false)
}


proof fn lemma_frames_front(ps: Seq<Seq<u8>>)
    requires
        ps.len() > 0,
    ensures
        frames(ps) == framed(ps[0]) + frames(ps.drop_first()),
    decreases ps.len(),
{
    if ps.len() == 1 {
        assert(ps.drop_first() =~= Seq::<Seq<u8>>::empty());
        assert(ps.drop_last() =~= Seq::<Seq<u8>>::empty());
        assert(frames(ps) =~= framed(ps[0]) + frames(ps.drop_first()));
    } else {
        lemma_frames_front(ps.drop_last());
        assert(ps.drop_last().drop_first() =~= ps.drop_first().drop_last());
        assert(ps.drop_first().last() == ps.last());
        assert(frames(ps) =~= framed(ps[0]) + frames(ps.drop_first()));
    }
}

proof fn lemma_records_after(p: Seq<u8>, ps: Seq<Seq<u8>>)
    requires
        forall|i: int| 0 <= i < ps.len() ==> #[trigger] ps[i].len() <= u32::MAX,
    ensures
        records_from(p + frames(ps), p.len()) == (ps, false),
    decreases ps.len(),
{
    let b = p + frames(ps);
    if ps.len() == 0 {
        assert(b =~= p);
        assert(ps =~= Seq::<Seq<u8>>::empty());
    } else {
        lemma_frames_front(ps);
        let x = ps[0];
        let len = x.len() as u32;
        let q = p + framed(x);
        assert(b =~= q + frames(ps.drop_first()));
        assert(b.subrange(p.len() as int, p.len() + 4 as int) =~= le_bytes_u32(len));
        lemma_le_roundtrip(len);
        assert(b.subrange(p.len() + 4 as int, (p.len() + 4 + x.len()) as int) =~= x);
        assert forall|i: int| 0 <= i < ps.drop_first().len() implies #[trigger] ps.drop_first()[i].len()
            <= u32::MAX by {
            assert(ps.drop_first()[i] == ps[i + 1]);
        }
        lemma_records_after(q, ps.drop_first());
        assert(q.len() == p.len() + 4 + x.len());
        assert(seq![x] + ps.drop_first() =~= ps);
    }
}

proof fn lemma_records_prefix(p: Seq<u8>, ps: Seq<Seq<u8>>, t: Seq<u8>)
    requires
        forall|i: int| 0 <= i < ps.len() ==> #[trigger] ps[i].len() <= u32::MAX,
    ensures
        records_from(p + frames(ps) + t, p.len()) == ({
            let rest = records_from(p + frames(ps) + t, (p + frames(ps)).len());
            (ps + rest.0, rest.1)
        }),
    decreases ps.len(),
{
    let b = p + frames(ps) + t;
    if ps.len() == 0 {
        assert(p + frames(ps) =~= p);
        assert(ps + records_from(b, p.len()).0 =~= records_from(b, p.len()).0);
    } else {
        lemma_frames_front(ps);
        let x = ps[0];
        let len = x.len() as u32;
        let q = p + framed(x);
        assert(b =~= q + frames(ps.drop_first()) + t);
        assert(q + frames(ps.drop_first()) =~= p + frames(ps));
        assert(b.subrange(p.len() as int, p.len() + 4 as int) =~= le_bytes_u32(len));
        lemma_le_roundtrip(len);
        assert(b.subrange(p.len() + 4 as int, (p.len() + 4 + x.len()) as int) =~= x);
        assert forall|i: int| 0 <= i < ps.drop_first().len() implies #[trigger] ps.drop_first()[i].len()
            <= u32::MAX by {
            assert(ps.drop_first()[i] == ps[i + 1]);
        }
        lemma_records_prefix(q, ps.drop_first(), t);
        assert(q.len() == p.len() + 4 + x.len());
        let rest = records_from(b, (p + frames(ps)).len());
        assert(seq![x] + (ps.drop_first() + rest.0) =~= ps + rest.0);
    }
}

/// A damaged tail loses only itself: whatever follows the frames of
/// `ps`, the records read from the block start with exactly `ps`.
pub proof fn lemma_damaged_tail_keeps_prefix(ps: Seq<Seq<u8>>, tail: Seq<u8>)
    requires
        forall|i: int| 0 <= i < ps.len() ==> #[trigger] ps[i].len() <= u32::MAX,
    ensures
        records_from(frames(ps) + tail, 0).0.len() >= ps.len(),
        records_from(frames(ps) + tail, 0).0.take(ps.len() as int) == ps,
{
    lemma_records_prefix(Seq::empty(), ps, tail);
    assert(Seq::<u8>::empty() + frames(ps) + tail =~= frames(ps) + tail);
    assert(Seq::<u8>::empty() + frames(ps) =~= frames(ps));
    let rest = records_from(frames(ps) + tail, frames(ps).len());
    assert((ps + rest.0).take(ps.len() as int) =~= ps);
}

/// Framing round trip: splitting the frames of records gives back exactly
/// those records, with no truncation reported.
pub proof fn lemma_split_frames(ps: Seq<Seq<u8>>)
    requires
        forall|i: int| 0 <= i < ps.len() ==> #[trigger] ps[i].len() <= u32::MAX,
    ensures
        records_from(frames(ps), 0) == (ps, false),
{
    lemma_records_after(Seq::empty(), ps);
    assert(Seq::<u8>::empty() + frames(ps) =~= frames(ps));
}

/// The zstd frame `zstd::stream::encode_all` produces for `data` at
/// `level`.
pub uninterp spec fn zstd_encoded(data: Seq<u8>, level: i32) -> Seq<u8>;

/// What `zstd::stream::decode_all` gives for `data`: `None` when it
/// fails.
pub uninterp spec fn zstd_decoded(data: Seq<u8>) -> Option<Seq<u8>>;

/// Calls `zstd::stream::encode_all`. Its output is named, not stated.
/// It reads from a slice and writes into a `Vec`, neither of which can
/// fail, so at a valid level it always succeeds; an encoder that cannot
/// allocate its context is left aside.
#[verifier::external_body]
fn zstd_encode_all(data: &[u8], level: i32) -> (r: Option<Vec<u8>>)
    requires
        1 <= level <= 19,
    ensures
        r is Some,
        r->0@ == zstd_encoded(data@, level),
{
    zstd::stream::encode_all(data, level).ok()
}

/// Calls `zstd::stream::decode_all`: the decompressed bytes, or `None`
/// where the input is not valid zstd data. The result is named, not
/// stated.
#[verifier::external_body]
fn zstd_decode_all(data: &[u8]) -> (r: Option<Vec<u8>>)
    ensures
        match r {
            Some(v) => zstd_decoded(data@) == Some(v@),
            None => zstd_decoded(data@) is None,
        },
{
    zstd::stream::decode_all(data).ok()
}

/// Why a block could not be produced.
#[derive(Debug, Clone, Copy, PartialEq, Eq, Structural)]
pub enum BlockError {
    /// The compressor reported an error.
    Compress,
    /// The compressed block is too long for its `u32` length prefix.
    TooLarge,
}

/// The bytes of a block on disk: its compressed length, little-endian,
/// then the zstd frame of the buffered records.
pub open spec fn block_bytes(pending: Seq<u8>) -> Seq<u8> {
    framed(zstd_encoded(pending, ZSTD_LEVEL))
}

/// Buffers framed records until a block is due.
pub struct BlockWriter {
    pending: Vec<u8>,
    pending_ticks: usize,
    count: u64,
    records: Ghost<Seq<Seq<u8>>>,
}

impl BlockWriter {
    /// Records appended since the writer was made.
    pub closed spec fn appended(&self) -> nat {
        self.count as nat
    }

    /// Records appended since the writer was made.
    pub fn count(&self) -> (r: u64)
        ensures
            r == self.appended(),
    {
        self.count
    }

    /// The records buffered for the next block.
    pub closed spec fn buffered(&self) -> Seq<Seq<u8>> {
        self.records@
    }

    /// The bytes buffered for the next block.
    pub closed spec fn pending_bytes(&self) -> Seq<u8> {
        self.pending@
    }

    /// Buffered bytes are the frames of the buffered records.
    pub closed spec fn wf(&self) -> bool {
        &&& self.pending@ == frames(self.records@)
        &&& self.pending_ticks == self.records@.len()
        &&& forall|i: int| 0 <= i < self.records@.len() ==> #[trigger] self.records@[i].len() <= u32::MAX
    }

    /// An empty writer.
    pub fn new() -> (w: Self)
        ensures
            w.wf(),
            w.buffered() == Seq::<Seq<u8>>::empty(),
            w.appended() == 0,
    {
        BlockWriter { pending: Vec::new(), pending_ticks: 0, count: 0, records: Ghost(Seq::empty()) }
    }

    /// Buffers one encoded record. Answers whether a block is now due
    /// (`BLOCK_TICKS` records buffered); a record too long for its length
    /// prefix is refused and nothing changes.
    pub fn push(&mut self, record: &[u8]) -> (r: Result<bool, TooLarge>)
        requires
            old(self).wf(),
            old(self).appended() < u64::MAX,
            old(self).buffered().len() < usize::MAX,
        ensures
            final(self).wf(),
            record@.len() <= u32::MAX ==> {
                &&& r == Ok::<bool, TooLarge>(final(self).buffered().len() >= BLOCK_TICKS)
                &&& final(self).buffered() == old(self).buffered().push(record@)
                &&& final(self).appended() == old(self).appended() + 1
            },
            record@.len() > u32::MAX ==> {
                &&& r == Err::<bool, TooLarge>(TooLarge { len: record@.len() as usize })
                &&& final(self).buffered() == old(self).buffered()
                &&& final(self).appended() == old(self).appended()
            },
    {
        match push_frame(&mut self.pending, record) {
            Ok(()) => {
                self.records = Ghost(self.records@.push(record@));
                assert(self.records@.drop_last() =~= old(self).records@);
                self.pending_ticks += 1;
                self.count += 1;
                assert forall|i: int| 0 <= i < self.records@.len() implies #[trigger] self.records@[i].len()
                    <= u32::MAX by {
                    if i < old(self).records@.len() {
                        assert(self.records@[i] == old(self).records@[i]);
                    }
                }
                Ok(self.pending_ticks >= BLOCK_TICKS)
            },
            Err(e) => Err(e),
        }
    }

    /// The bytes of the next block to write, or `None` with nothing
    /// buffered. The buffer stays as it is until `block_written`.
    pub fn next_block(&self) -> (r: Result<Option<Vec<u8>>, BlockError>)
        requires
            self.wf(),
        ensures
            self.buffered().len() == 0 ==> r == Ok::<Option<Vec<u8>>, BlockError>(None),
            self.buffered().len() > 0 && zstd_encoded(self.pending_bytes(), ZSTD_LEVEL).len()
                <= u32::MAX ==> (r matches Ok(Some(b)) && b@ == block_bytes(self.pending_bytes())),
            self.buffered().len() > 0 && zstd_encoded(self.pending_bytes(), ZSTD_LEVEL).len()
                > u32::MAX ==> r == Err::<Option<Vec<u8>>, BlockError>(BlockError::TooLarge),
    {
        if self.pending.len() == 0 {
            proof {
                if self.records@.len() > 0 {
                    let ps = self.records@;
                    assert(ps =~= ps.drop_last().push(ps.last()));
                    assert(frames(ps).len() >= 4);
                }
            }
            return Ok(None);
        }
        let compressed = match zstd_encode_all(self.pending.as_slice(), ZSTD_LEVEL) {
            Some(c) => c,
            None => return Err(BlockError::Compress),
        };
        let mut out: Vec<u8> = Vec::new();
        match push_frame(&mut out, compressed.as_slice()) {
            Ok(()) => {
                assert(out@ =~= block_bytes(self.pending@));
                Ok(Some(out))
            },
            Err(_) => Err(BlockError::TooLarge),
        }
    }

    /// Empties the buffer once its block has been written.
    pub fn block_written(&mut self)
        requires
            old(self).wf(),
        ensures
            final(self).wf(),
            final(self).buffered() == Seq::<Seq<u8>>::empty(),
            final(self).appended() == old(self).appended(),
    {
        self.pending.clear();
        self.pending_ticks = 0;
        self.records = Ghost(Seq::empty());
    }
}

/// What `decode_block` gives for a compressed block: its records, with
/// the truncation flag, or `None` when it does not decompress.
pub open spec fn block_records(compressed: Seq<u8>) -> Option<(Seq<Seq<u8>>, bool)> {
    match zstd_decoded(compressed) {
        Some(d) => Some(records_from(d, 0)),
        None => None,
    }
}

/// Decompresses a block and splits it into records; `None` when the
/// block is not valid zstd data.
pub fn decode_block(compressed: &[u8]) -> (r: Option<(Vec<Vec<u8>>, bool)>)
    ensures
        match r {
            Some((v, t)) => block_records(compressed@) == Some((v@.map_values(|x: Vec<u8>| x@), t)),
            None => block_records(compressed@) is None,
        },
{
    match zstd_decode_all(compressed) {
        Some(d) => Some(split_records(d.as_slice())),
        None => None,
    }
}

/// The byte views of a list of buffers.
pub open spec fn byte_views(v: Seq<Vec<u8>>) -> Seq<Seq<u8>> {
    v.map_values(|x: Vec<u8>| x@)
}

/// The records a reader recovers from the compressed blocks of a
/// session, in order: each block's records, stopping after a block whose
/// last record runs past its end, and at a block that does not
/// decompress.
pub open spec fn recovered_records(blocks: Seq<Seq<u8>>) -> Seq<Seq<u8>>
    decreases blocks.len(),
{
    if blocks.len() == 0 {
        Seq::empty()
    } else {
        match block_records(blocks[0]) {
            None => Seq::empty(),
            Some(b) => if b.1 {
                b.0
            } else {
                b.0 + recovered_records(blocks.drop_first())
            },
        }
    }
}

/// The records a reader recovers from the bytes after a session's
/// header: the blocks framed there (a block whose length runs past the
/// end is not read), then their records as `recovered_records` gives.
pub open spec fn session_body_records(body: Seq<u8>) -> Seq<Seq<u8>> {
    recovered_records(records_from(body, 0).0)
}

/// Every record a reader can recover from the bytes after a session's
/// header, in order; a damaged or cut-off tail ends the list at the last
/// record before it.
pub fn session_records(body: &[u8]) -> (r: Vec<Vec<u8>>)
    ensures
        byte_views(r@) == session_body_records(body@),
{
    let (blocks, _) = split_records(body);
    let ghost bv = byte_views(blocks@);
    assert(bv == records_from(body@, 0).0);
    let mut out: Vec<Vec<u8>> = Vec::new();
    let mut i: usize = 0;
    assert(bv.skip(0) =~= bv);
    while i < blocks.len()
        invariant_except_break
            i <= blocks@.len(),
            bv == byte_views(blocks@),
            byte_views(out@) + recovered_records(bv.skip(i as int)) == recovered_records(bv),
        ensures
            byte_views(out@) == recovered_records(bv),
        decreases blocks@.len() - i,
    {
        let ghost rest = bv.skip(i as int);
        assert(rest[0] == blocks@[i as int]@);
        assert(rest.drop_first() =~= bv.skip(i + 1));
        match decode_block(blocks[i].as_slice()) {
            None => {
                assert(byte_views(out@) =~= byte_views(out@) + Seq::<Seq<u8>>::empty());
                break;
            },
            Some((mut records, truncated)) => {
                let ghost before = out@;
                let ghost got = records@;
                out.append(&mut records);
                assert(byte_views(out@) =~= byte_views(before) + byte_views(got));
                if truncated {
                    break;
                }
                assert(byte_views(before) + (byte_views(got) + recovered_records(bv.skip(i + 1)))
                    =~= byte_views(out@) + recovered_records(bv.skip(i + 1)));
            },
        }
        i += 1;
    }
    proof {
        if i == blocks.len() {
            assert(bv.skip(i as int) =~= Seq::<Seq<u8>>::empty());
            assert(byte_views(out@) + Seq::<Seq<u8>>::empty() =~= byte_views(out@));
        }
    }
    out
}

/// Read after write: where zstd gives back what it compressed, a block
/// written from a buffer decodes to exactly the records pushed into it,
/// in order, with nothing reported truncated.
pub proof fn lemma_block_round_trip(w: BlockWriter)
    requires
        w.wf(),
        zstd_decoded(zstd_encoded(w.pending_bytes(), ZSTD_LEVEL)) == Some(w.pending_bytes()),
    ensures
        block_records(zstd_encoded(w.pending_bytes(), ZSTD_LEVEL)) == Some((w.buffered(), false)),
{
    lemma_split_frames(w.buffered());
}


/// The parts of a process that do not change while it lives, as plain
/// values. A start time is `(after_epoch, seconds, nanoseconds)`: its
/// distance from the Unix epoch and on which side of it.
#[derive(Debug)]
pub struct ProcIdentity {
    pub pid: u32,
    pub ppid: u32,
    pub user: String,
    pub name: String,
    pub cmd: String,
    pub start_time: Option<(bool, u64, u32)>,
}

/// `ProcIdentity` with its text as character sequences.
pub struct IdentityView {
    pub pid: u32,
    pub ppid: u32,
    pub user: Seq<char>,
    pub name: Seq<char>,
    pub cmd: Seq<char>,
    pub start_time: Option<(bool, u64, u32)>,
}

impl View for ProcIdentity {
    type V = IdentityView;

    open spec fn view(&self) -> IdentityView {
        IdentityView {
            pid: self.pid,
            ppid: self.ppid,
            user: self.user@,
            name: self.name@,
            cmd: self.cmd@,
            start_time: self.start_time,
        }
    }
}

pub open spec fn identities_view(v: Seq<ProcIdentity>) -> Seq<IdentityView> {
    v.map_values(|p: ProcIdentity| p@)
}

impl ProcIdentity {
    /// A copy of the identity.
    pub fn duplicate(&self) -> (r: ProcIdentity)
        ensures
            r@ == self@,
    {
        ProcIdentity {
            pid: self.pid,
            ppid: self.ppid,
            user: self.user.clone(),
            name: self.name.clone(),
            cmd: self.cmd.clone(),
            start_time: self.start_time,
        }
    }

    /// Whether two identities are the same.
    pub fn same_as(&self, other: &ProcIdentity) -> (r: bool)
        ensures
            r == (self@ == other@),
    {
        self.pid == other.pid && self.ppid == other.ppid && self.user == other.user && self.name
            == other.name && self.cmd == other.cmd && self.start_time == other.start_time
    }
}

fn same_services(a: &Vec<ServiceTick>, b: &Vec<ServiceTick>) -> (r: bool)
    ensures
        r == (service_rows(a@) == service_rows(b@)),
{
    if a.len() != b.len() {
        return false;
    }
    let mut i: usize = 0;
    while i < a.len()
        invariant
            a@.len() == b@.len(),
            i <= a@.len(),
            forall|k: int| 0 <= k < i ==> a@[k]@ == b@[k]@,
        decreases a@.len() - i,
    {
        let x = &a[i];
        let y = &b[i];
        if !(x.name == y.name && x.status == y.status && x.pid == y.pid && x.exit_code == y.exit_code
            && x.detail == y.detail) {
            assert(service_rows(a@)[i as int] != service_rows(b@)[i as int]);
            return false;
        }
        i += 1;
    }
    assert(service_rows(a@) =~= service_rows(b@));
    true
}

/// The identities known after recording the processes `ps` on top of
/// `known`, and those written this tick: an identity is written when its
/// pid is new or the pid's identity changed (pid reuse).
pub open spec fn encode_identities(known: Map<u32, IdentityView>, ps: Seq<IdentityView>) -> (
    Map<u32, IdentityView>,
    Seq<IdentityView>,
)
    decreases ps.len(),
{
    if ps.len() == 0 {
        (known, Seq::empty())
    } else {
        let (k, written) = encode_identities(known, ps.drop_last());
        let p = ps.last();
        if k.contains_key(p.pid) && k[p.pid] == p {
            (k, written)
        } else {
            (k.insert(p.pid, p), written.push(p))
        }
    }
}

/// `known` with the identities `ws` recorded, later ones winning.
pub open spec fn learn_identities(known: Map<u32, IdentityView>, ws: Seq<IdentityView>) -> Map<
    u32,
    IdentityView,
>
    decreases ws.len(),
{
    if ws.len() == 0 {
        known
    } else {
        learn_identities(known, ws.drop_last()).insert(ws.last().pid, ws.last())
    }
}

/// The identities of the pids `pids` in `known`, or `None` when one of
/// them is unknown.
pub open spec fn look_up_identities(known: Map<u32, IdentityView>, pids: Seq<u32>) -> Option<
    Seq<IdentityView>,
>
    decreases pids.len(),
{
    if pids.len() == 0 {
        Some(Seq::empty())
    } else {
        match look_up_identities(known, pids.drop_last()) {
            Some(s) => if known.contains_key(pids.last()) {
                Some(s.push(known[pids.last()]))
            } else {
                None
            },
            None => None,
        }
    }
}

/// Remembers what has already been written to (or read from) a
/// recording, so that process identities and unchanged service lists
/// are stored once.
pub struct IdentityTracker {
    known: HashMap<u32, ProcIdentity>,
    last_services: Option<Vec<ServiceTick>>,
}

impl IdentityTracker {
    /// The identities recorded so far, by pid.
    pub closed spec fn known(&self) -> Map<u32, IdentityView> {
        self.known@.map_values(|p: ProcIdentity| p@)
    }

    /// The last service list recorded.
    pub closed spec fn services(&self) -> Option<Seq<ServiceRow>> {
        match self.last_services {
            Some(v) => Some(service_rows(v@)),
            None => None,
        }
    }

    /// A tracker that has recorded nothing.
    pub fn new() -> (t: Self)
        ensures
            t.known() == Map::<u32, IdentityView>::empty(),
            t.services() is None,
    {
        let t = IdentityTracker { known: HashMap::new(), last_services: None };
        assert(t.known() =~= Map::<u32, IdentityView>::empty());
        t
    }

    /// What one tick writes: the identities not yet recorded (or changed)
    /// and the service list unless it equals the last one written
    /// (`None` then).
    pub fn encode(&mut self, procs: &Vec<ProcIdentity>, services: &Vec<ServiceTick>) -> (r: (
        Vec<ProcIdentity>,
        Option<Vec<ServiceTick>>,
    ))
        ensures
            (final(self).known(), identities_view(r.0@)) == encode_identities(
                old(self).known(),
                identities_view(procs@),
            ),
            old(self).services() == Some(service_rows(services@)) ==> r.1 is None
                && final(self).services() == old(self).services(),
            old(self).services() != Some(service_rows(services@)) ==> r.1 is Some
                && service_rows(r.1->0@) == service_rows(services@) && final(self).services() == Some(
                service_rows(services@),
            ),
    {
        broadcast use vstd::std_specs::hash::group_hash_axioms;

        let ghost pv = identities_view(procs@);
        let mut written: Vec<ProcIdentity> = Vec::new();
        let mut i: usize = 0;
        while i < procs.len()
            invariant
                i <= procs@.len(),
                pv == identities_view(procs@),
                (self.known@.map_values(|p: ProcIdentity| p@), identities_view(written@))
                    == encode_identities(old(self).known(), pv.take(i as int)),
                self.last_services == old(self).last_services,
            decreases procs@.len() - i,
        {
            assert(pv.take(i + 1).drop_last() =~= pv.take(i as int));
            assert(pv.take(i + 1).last() == procs@[i as int]@);
            let p = &procs[i];
            let ghost kv = self.known@.map_values(|q: ProcIdentity| q@);
            let unchanged = match self.known.get(&p.pid) {
                Some(q) => q.same_as(p),
                None => false,
            };
            if !unchanged {
                let ghost old_w = written@;
                self.known.insert(p.pid, p.duplicate());
                written.push(p.duplicate());
                assert(self.known@.map_values(|q: ProcIdentity| q@) =~= kv.insert(p.pid, p@));
                assert(identities_view(written@) =~= identities_view(old_w).push(p@));
            }
            i += 1;
        }
        assert(pv.take(procs@.len() as int) =~= pv);
        let unchanged = match &self.last_services {
            Some(v) => same_services(v, services),
            None => false,
        };
        if unchanged {
            (written, None)
        } else {
            let copy = crate::services::clone_services(services);
            self.last_services = Some(crate::services::clone_services(services));
            (written, Some(copy))
        }
    }

    /// Rebuilds one tick from what was written: records the identities
    /// `written`, takes the service list (the last one when `services`
    /// is `None`) and gives the identity of each pid of `pids` in order.
    /// `None` when a pid has no recorded identity or no service list was
    /// ever recorded.
    pub fn decode(&mut self, written: Vec<ProcIdentity>, services: Option<Vec<ServiceTick>>, pids: &Vec<
        u32,
    >) -> (r: Option<(Vec<ProcIdentity>, Vec<ServiceTick>)>)
        ensures
            final(self).known() == learn_identities(old(self).known(), identities_view(written@)),
            final(self).services() == (match services {
                Some(v) => Some(service_rows(v@)),
                None => old(self).services(),
            }),
            match r {
                Some((ids, svc)) => final(self).services() == Some(service_rows(svc@))
                    && look_up_identities(final(self).known(), pids@) == Some(identities_view(ids@)),
                None => final(self).services() is None || look_up_identities(
                    final(self).known(),
                    pids@,
                ) is None,
            },
    {
        broadcast use vstd::std_specs::hash::group_hash_axioms;

        let ghost wv = identities_view(written@);
        let mut i: usize = 0;
        while i < written.len()
            invariant
                i <= written@.len(),
                wv == identities_view(written@),
                self.known@.map_values(|p: ProcIdentity| p@) == learn_identities(
                    old(self).known(),
                    wv.take(i as int),
                ),
                self.last_services == old(self).last_services,
            decreases written@.len() - i,
        {
            assert(wv.take(i + 1).drop_last() =~= wv.take(i as int));
            assert(wv.take(i + 1).last() == written@[i as int]@);
            let ghost kv = self.known@.map_values(|q: ProcIdentity| q@);
            let p = written[i].duplicate();
            let pid = p.pid;
            self.known.insert(pid, p);
            assert(self.known@.map_values(|q: ProcIdentity| q@) =~= kv.insert(pid, wv[i as int]));
            i += 1;
        }
        assert(wv.take(written@.len() as int) =~= wv);
        let svc = match services {
            Some(v) => {
                self.last_services = Some(crate::services::clone_services(&v));
                v
            },
            None => match &self.last_services {
                Some(v) => crate::services::clone_services(v),
                None => return None,
            },
        };
        let ghost kv = self.known();
        let ghost sv = self.services();
        let mut ids: Vec<ProcIdentity> = Vec::new();
        let mut j: usize = 0;
        while j < pids.len()
            invariant
                j <= pids@.len(),
                kv == self.known@.map_values(|p: ProcIdentity| p@),
                kv == self.known(),
                sv == self.services(),
                sv == Some(service_rows(svc@)),
                kv == learn_identities(old(self).known(), identities_view(written@)),
                sv == (match services {
                    Some(v) => Some(service_rows(v@)),
                    None => old(self).services(),
                }),
                look_up_identities(kv, pids@.take(j as int)) == Some(identities_view(ids@)),
            decreases pids@.len() - j,
        {
            assert(pids@.take(j + 1).drop_last() =~= pids@.take(j as int));
            assert(pids@.take(j + 1).last() == pids@[j as int]);
            match self.known.get(&pids[j]) {
                Some(p) => {
                    let ghost old_ids = ids@;
                    ids.push(p.duplicate());
                    assert(identities_view(ids@) =~= identities_view(old_ids).push(kv[pids@[j as int]]));
                },
                None => {
                    proof {
                        let k = j as int;
                        assert(look_up_identities(kv, pids@.take(k + 1)) is None);
                        lemma_look_up_prefix_none(kv, pids@, k + 1);
                    }
                    return None;
                },
            }
            j += 1;
        }
        assert(pids@.take(pids@.len() as int) =~= pids@);
        Some((ids, svc))
    }
}

proof fn lemma_look_up_prefix_none(known: Map<u32, IdentityView>, pids: Seq<u32>, k: int)
    requires
        0 <= k <= pids.len(),
        look_up_identities(known, pids.take(k)) is None,
    ensures
        look_up_identities(known, pids) is None,
    decreases pids.len() - k,
{
    if k < pids.len() {
        assert(pids.take(k + 1).drop_last() =~= pids.take(k));
        lemma_look_up_prefix_none(known, pids, k + 1);
    } else {
        assert(pids.take(k) =~= pids);
    }
}


/// The service list one tick writes: nothing when it equals the last
/// one written.
pub open spec fn services_written(last: Option<Seq<ServiceRow>>, services: Seq<ServiceRow>) -> Option<
    Seq<ServiceRow>,
> {
    if last == Some(services) {
        None
    } else {
        Some(services)
    }
}

/// The service list a reader rebuilds from what was written.
pub open spec fn services_read(last: Option<Seq<ServiceRow>>, written: Option<Seq<ServiceRow>>) -> Option<
    Seq<ServiceRow>,
> {
    match written {
        Some(v) => Some(v),
        None => last,
    }
}

/// A tick lists no pid under two different identities.
pub open spec fn pids_consistent(ps: Seq<IdentityView>) -> bool {
    forall|i: int, j: int|
        0 <= i < ps.len() && 0 <= j < ps.len() && (#[trigger] ps[i]).pid == (#[trigger] ps[j]).pid
            ==> ps[i] == ps[j]
}

proof fn lemma_encode_learned(known: Map<u32, IdentityView>, ps: Seq<IdentityView>)
    ensures
        learn_identities(known, encode_identities(known, ps).1) == encode_identities(known, ps).0,
    decreases ps.len(),
{
    if ps.len() > 0 {
        lemma_encode_learned(known, ps.drop_last());
        let (k, w) = encode_identities(known, ps.drop_last());
        let p = ps.last();
        if !(k.contains_key(p.pid) && k[p.pid] == p) {
            assert(w.push(p).drop_last() =~= w);
        }
    }
}

proof fn lemma_encode_knows(known: Map<u32, IdentityView>, ps: Seq<IdentityView>)
    requires
        pids_consistent(ps),
    ensures
        forall|i: int|
            0 <= i < ps.len() ==> encode_identities(known, ps).0.contains_key(#[trigger] ps[i].pid)
                && encode_identities(known, ps).0[ps[i].pid] == ps[i],
    decreases ps.len(),
{
    if ps.len() > 0 {
        let q = ps.drop_last();
        assert(pids_consistent(q)) by {
            assert forall|i: int, j: int|
                0 <= i < q.len() && 0 <= j < q.len() && (#[trigger] q[i]).pid == (#[trigger] q[j]).pid
                    implies q[i] == q[j] by {
                assert(q[i] == ps[i] && q[j] == ps[j]);
            }
        }
        lemma_encode_knows(known, q);
        let k2 = encode_identities(known, ps).0;
        assert forall|i: int| 0 <= i < ps.len() implies k2.contains_key(#[trigger] ps[i].pid) && k2[ps[i].pid]
            == ps[i] by {
            if i < ps.len() - 1 {
                assert(q[i] == ps[i]);
                if ps[i].pid == ps.last().pid {
                    assert(ps[i] == ps[ps.len() - 1]);
                }
            }
        }
    }
}

proof fn lemma_look_up_all(k: Map<u32, IdentityView>, ps: Seq<IdentityView>, n: int)
    requires
        0 <= n <= ps.len(),
        forall|i: int| 0 <= i < ps.len() ==> k.contains_key(#[trigger] ps[i].pid) && k[ps[i].pid] == ps[i],
    ensures
        look_up_identities(k, ps.map_values(|p: IdentityView| p.pid).take(n)) == Some(ps.take(n)),
    decreases n,
{
    let pids = ps.map_values(|p: IdentityView| p.pid);
    if n == 0 {
        assert(pids.take(0) =~= Seq::<u32>::empty());
        assert(ps.take(0) =~= Seq::<IdentityView>::empty());
    } else {
        lemma_look_up_all(k, ps, n - 1);
        assert(pids.take(n).drop_last() =~= pids.take(n - 1));
        assert(pids.take(n).last() == ps[n - 1].pid);
        assert(ps.take(n - 1).push(ps[n - 1]) =~= ps.take(n));
    }
}

/// Read after write for one tick: when the writer's and the reader's
/// trackers hold the same record, reading back what a tick writes gives
/// exactly that tick's identities, in order, and its service list, and
/// both trackers then hold the same record again. (A tick that lists one
/// pid under two identities reads back with the later one for both.)
pub proof fn lemma_tick_round_trip(
    known: Map<u32, IdentityView>,
    last: Option<Seq<ServiceRow>>,
    ps: Seq<IdentityView>,
    services: Seq<ServiceRow>,
)
    requires
        pids_consistent(ps),
    ensures
        ({
            let (after, written) = encode_identities(known, ps);
            &&& learn_identities(known, written) == after
            &&& look_up_identities(after, ps.map_values(|p: IdentityView| p.pid)) == Some(ps)
        }),
        services_read(last, services_written(last, services)) == Some(services),
{
    lemma_encode_learned(known, ps);
    lemma_encode_knows(known, ps);
    lemma_look_up_all(encode_identities(known, ps).0, ps, ps.len() as int);
    assert(ps.map_values(|p: IdentityView| p.pid).take(ps.len() as int) =~= ps.map_values(
        |p: IdentityView| p.pid,
    ));
    assert(ps.take(ps.len() as int) =~= ps);
}

/// One tick of a session as the library sees it: the processes'
/// identities, in order, and the service list.
pub type TickView = (Seq<IdentityView>, Seq<ServiceRow>);

/// A session written tick by tick by one tracker and read back tick by
/// tick by another, both starting empty: the writer's record, the
/// reader's record, and what the reader rebuilt for each tick (`None`
/// where a read failed).
pub open spec fn session_replay(ts: Seq<TickView>) -> (
    (Map<u32, IdentityView>, Option<Seq<ServiceRow>>),
    (Map<u32, IdentityView>, Option<Seq<ServiceRow>>),
    Seq<Option<TickView>>,
)
    decreases ts.len(),
{
    if ts.len() == 0 {
        ((Map::empty(), None), (Map::empty(), None), Seq::empty())
    } else {
        let (w, r, out) = session_replay(ts.drop_last());
        let ps = ts.last().0;
        let svc = ts.last().1;
        let (kw, written) = encode_identities(w.0, ps);
        let sent = services_written(w.1, svc);
        let kr = learn_identities(r.0, written);
        let lr = services_read(r.1, sent);
        let tick = match (look_up_identities(kr, ps.map_values(|p: IdentityView| p.pid)), lr) {
            (Some(ids), Some(s)) => Some((ids, s)),
            _ => None,
        };
        ((kw, Some(svc)), (kr, lr), out.push(tick))
    }
}

/// Read after write for a whole session: replaying any number of
/// recorded ticks in order gives back each tick's identities and
/// services, and the two records stay equal throughout.
pub proof fn lemma_session_round_trip(ts: Seq<TickView>)
    requires
        forall|i: int| 0 <= i < ts.len() ==> pids_consistent(#[trigger] ts[i].0),
    ensures
        session_replay(ts).0 == session_replay(ts).1,
        session_replay(ts).2 == ts.map_values(|t: TickView| Some(t)),
    decreases ts.len(),
{
    if ts.len() > 0 {
        let prev = ts.drop_last();
        assert forall|i: int| 0 <= i < prev.len() implies pids_consistent(#[trigger] prev[i].0) by {
            assert(prev[i] == ts[i]);
        }
        lemma_session_round_trip(prev);
        let (w, r, out) = session_replay(prev);
        assert(pids_consistent(ts[ts.len() - 1].0));
        lemma_tick_round_trip(w.0, w.1, ts.last().0, ts.last().1);
        assert(ts.map_values(|t: TickView| Some(t)) =~= prev.map_values(|t: TickView| Some(t)).push(
            Some(ts.last()),
        ));
    } else {
        assert(ts.map_values(|t: TickView| Some(t)) =~= Seq::<Option<TickView>>::empty());
    }
}

} // verus!
