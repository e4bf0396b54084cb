//! The sidecar: a copy of a document's index as one block of bytes, kept
//! beside the source so that a later open need not parse again.
//!
//! A block is a header of 64 bytes, then the records, then the decoded keys.
//! All numbers are little-endian.
use vstd::bytes::{
    lemma_auto_spec_u32_to_from_le_bytes, lemma_auto_spec_u64_to_from_le_bytes,
    spec_u32_from_le_bytes, spec_u32_to_le_bytes, spec_u64_from_le_bytes, spec_u64_to_le_bytes,
    u32_from_le_bytes, u32_to_le_bytes, u64_from_le_bytes, u64_to_le_bytes,
};
use vstd::prelude::*;
use vstd::slice::slice_subrange;

use crate::document::{NodeKind, NodeRecord, FAT_STRING_THRESHOLD};
use crate::error::EngineError;
use crate::text::{chars_of, encode_char, hex_char, hex_char_of, utf8_bytes};

verus! {

/// The version of the format. It changes with the layout and with what the
/// parser makes of a source, so that older blocks are not used.
pub const SIDECAR_VERSION: u32 = 12;

pub const SIDECAR_HEADER_SIZE: usize = 64;

/// Bytes of one record.
pub const RECORD_SIZE: usize = 48;

/// The header of a block, after its four magic bytes.
#[derive(Copy, Clone, Debug, PartialEq, Eq, Structural)]
pub struct SidecarHeader {
    pub version: u32,
    pub source_size: u64,
    pub source_mtime_ns: u64,
    pub node_count: u32,
    /// How many records are long strings.
    pub fat_string_count: u32,
    pub records_offset: u64,
    pub keys_offset: u64,
    pub keys_size: u64,
    /// The largest subtree size of any record.
    pub max_subtree_size: u32,
}

/// `JIDX`.
pub open spec fn magic() -> Seq<u8> {
    seq![0x4Au8, 0x49u8, 0x44u8, 0x58u8]
}

pub open spec fn header_bytes(h: SidecarHeader) -> Seq<u8> {
    magic() + spec_u32_to_le_bytes(h.version) + spec_u64_to_le_bytes(h.source_size)
        + spec_u64_to_le_bytes(h.source_mtime_ns) + spec_u32_to_le_bytes(h.node_count)
        + spec_u32_to_le_bytes(h.fat_string_count) + spec_u64_to_le_bytes(h.records_offset)
        + spec_u64_to_le_bytes(h.keys_offset) + spec_u64_to_le_bytes(h.keys_size)
        + spec_u32_to_le_bytes(h.max_subtree_size) + spec_u32_to_le_bytes(0)
}

pub open spec fn record_bytes(r: NodeRecord) -> Seq<u8> {
    spec_u64_to_le_bytes(r.offset) + spec_u64_to_le_bytes(r.length) + spec_u64_to_le_bytes(
        r.key_or_index,
    ) + spec_u32_to_le_bytes(r.parent) + spec_u32_to_le_bytes(r.subtree_size)
        + spec_u32_to_le_bytes(r.child_count) + spec_u32_to_le_bytes(r.key_length) + seq![
        r.kind,
        r.flags,
        0u8,
        0u8,
        0u8,
        0u8,
        0u8,
        0u8,
    ]
}

pub open spec fn records_bytes(records: Seq<NodeRecord>) -> Seq<u8>
    decreases records.len(),
{
    if records.len() == 0 {
        Seq::empty()
    } else {
        records_bytes(records.drop_last()) + record_bytes(records.last())
    }
}

pub open spec fn is_fat_string(r: NodeRecord) -> bool {
    r.kind == NodeKind::String.code() && r.length >= FAT_STRING_THRESHOLD
}

pub open spec fn fat_strings(records: Seq<NodeRecord>) -> nat
    decreases records.len(),
{
    if records.len() == 0 {
        0
    } else {
        fat_strings(records.drop_last()) + if is_fat_string(records.last()) {
            1nat
        } else {
            0nat
        }
    }
}

pub open spec fn max_subtree(records: Seq<NodeRecord>) -> u32
    decreases records.len(),
{
    if records.len() == 0 {
        0
    } else {
        let m = max_subtree(records.drop_last());
        if records.last().subtree_size > m {
            records.last().subtree_size
        } else {
            m
        }
    }
}

/// The header of the block for these records and keys.
pub open spec fn header_of(
    source_size: u64,
    source_mtime_ns: u64,
    records: Seq<NodeRecord>,
    keys: Seq<u8>,
) -> SidecarHeader {
    SidecarHeader {
        version: SIDECAR_VERSION,
        source_size,
        source_mtime_ns,
        node_count: records.len() as u32,
        fat_string_count: fat_strings(records) as u32,
        records_offset: 64,
        keys_offset: (64 + 48 * records.len()) as u64,
        keys_size: keys.len() as u64,
        max_subtree_size: max_subtree(records),
    }
}

/// The whole block.
pub open spec fn image(
    source_size: u64,
    source_mtime_ns: u64,
    records: Seq<NodeRecord>,
    keys: Seq<u8>,
) -> Seq<u8> {
    header_bytes(header_of(source_size, source_mtime_ns, records, keys)) + records_bytes(records)
        + keys
}

pub open spec fn u32_at(b: Seq<u8>, i: int) -> u32 {
    spec_u32_from_le_bytes(b.subrange(i, i + 4))
}

pub open spec fn u64_at(b: Seq<u8>, i: int) -> u64 {
    spec_u64_from_le_bytes(b.subrange(i, i + 8))
}

pub open spec fn header_at(b: Seq<u8>) -> SidecarHeader {
    SidecarHeader {
        version: u32_at(b, 4),
        source_size: u64_at(b, 8),
        source_mtime_ns: u64_at(b, 16),
        node_count: u32_at(b, 24),
        fat_string_count: u32_at(b, 28),
        records_offset: u64_at(b, 32),
        keys_offset: u64_at(b, 40),
        keys_size: u64_at(b, 48),
        max_subtree_size: u32_at(b, 56),
    }
}

pub open spec fn record_at(b: Seq<u8>, i: int) -> NodeRecord {
    NodeRecord {
        offset: u64_at(b, i),
        length: u64_at(b, i + 8),
        key_or_index: u64_at(b, i + 16),
        parent: u32_at(b, i + 24),
        subtree_size: u32_at(b, i + 28),
        child_count: u32_at(b, i + 32),
        key_length: u32_at(b, i + 36),
        kind: b[i + 40],
        flags: b[i + 41],
    }
}

/// Why the block cannot serve a source of this size and age; `None` where
/// it can.
pub open spec fn sidecar_fault(
    b: Seq<u8>,
    expected_size: u64,
    expected_mtime_ns: u64,
) -> Option<Seq<char>> {
    let h = header_at(b);
    let records_end = h.records_offset + 48 * h.node_count;
    if b.len() < 64 {
        Some("sidecar truncated (header)"@)
    } else if b.subrange(0, 4) != magic() {
        Some("sidecar: bad magic"@)
    } else if h.version != SIDECAR_VERSION {
        Some("sidecar: version mismatch"@)
    } else if h.source_size != expected_size {
        Some("sidecar: source size mismatch"@)
    } else if h.source_mtime_ns != expected_mtime_ns {
        Some("sidecar: source mtime mismatch"@)
    } else if h.records_offset < 64 {
        Some("sidecar: records overlap header"@)
    } else if h.records_offset % 8 != 0 {
        Some("sidecar: records misaligned"@)
    } else if records_end > u64::MAX {
        Some("sidecar: records end overflow"@)
    } else if records_end > b.len() {
        Some("sidecar: records beyond file"@)
    } else if h.keys_offset < records_end {
        Some("sidecar: keys overlap records"@)
    } else if h.keys_offset + h.keys_size > u64::MAX {
        Some("sidecar: keys end overflow"@)
    } else if h.keys_offset + h.keys_size > b.len() {
        Some("sidecar: keys beyond file"@)
    } else {
        None
    }
}

/// Where the parts of a valid block lie.
#[derive(Copy, Clone, Debug, PartialEq, Eq, Structural)]
pub struct LoadedSidecar {
    pub records_offset: usize,
    pub node_count: usize,
    pub keys_offset: usize,
    pub keys_size: usize,
}

impl LoadedSidecar {
    /// The parts lie inside a block of `len` bytes.
    pub open spec fn fits(self, len: nat) -> bool {
        &&& self.records_offset + 48 * self.node_count <= len
        &&& self.keys_offset + self.keys_size <= len
    }

    pub open spec fn records_in(self, b: Seq<u8>) -> Seq<NodeRecord> {
        Seq::new(self.node_count as nat, |i: int| record_at(b, self.records_offset + 48 * i))
    }

    pub open spec fn keys_in(self, b: Seq<u8>) -> Seq<u8> {
        b.subrange(self.keys_offset as int, self.keys_offset + self.keys_size)
    }

    /// Reads the records.
    pub fn records(&self, bytes: &[u8]) -> (r: Vec<NodeRecord>)
        requires
            self.fits(bytes@.len()),
        ensures
            r@ == self.records_in(bytes@),
    {
        let size: usize = bytes.len();
        let mut out: Vec<NodeRecord> = Vec::new();
        let mut i: usize = 0;
        while i < self.node_count
            invariant
                self.fits(bytes@.len()),
                bytes@.len() == size,
                i <= self.node_count,
                out@ == self.records_in(bytes@).take(i as int),
            decreases self.node_count - i,
        {
            assert(48 * i + 48 <= 48 * self.node_count);
            let at: usize = self.records_offset + 48 * i;
            out.push(read_record(bytes, at));
            i += 1;
            assert(out@ =~= self.records_in(bytes@).take(i as int));
        }
        assert(self.records_in(bytes@).take(i as int) =~= self.records_in(bytes@));
        out
    }

    /// Reads the keys.
    pub fn keys(&self, bytes: &[u8]) -> (r: Vec<u8>)
        requires
            self.fits(bytes@.len()),
        ensures
            r@ == self.keys_in(bytes@),
    {
        let _size: usize = bytes.len();
        let part = slice_subrange(bytes, self.keys_offset, self.keys_offset + self.keys_size);
        let mut out: Vec<u8> = Vec::new();
        out.extend_from_slice(part);
        assert(out@ =~= self.keys_in(bytes@));
        out
    }
}

fn read_u32(bytes: &[u8], i: usize) -> (x: u32)
    requires
        i + 4 <= bytes@.len(),
    ensures
        x == u32_at(bytes@, i as int),
{
    let _size: usize = bytes.len();
    u32_from_le_bytes(slice_subrange(bytes, i, i + 4))
}

fn read_u64(bytes: &[u8], i: usize) -> (x: u64)
    requires
        i + 8 <= bytes@.len(),
    ensures
        x == u64_at(bytes@, i as int),
{
    let _size: usize = bytes.len();
    u64_from_le_bytes(slice_subrange(bytes, i, i + 8))
}

fn read_record(bytes: &[u8], i: usize) -> (r: NodeRecord)
    requires
        i + 48 <= bytes@.len(),
    ensures
        r == record_at(bytes@, i as int),
{
    let _size: usize = bytes.len();
    NodeRecord {
        offset: read_u64(bytes, i),
        length: read_u64(bytes, i + 8),
        key_or_index: read_u64(bytes, i + 16),
        parent: read_u32(bytes, i + 24),
        subtree_size: read_u32(bytes, i + 28),
        child_count: read_u32(bytes, i + 32),
        key_length: read_u32(bytes, i + 36),
        kind: bytes[i + 40],
        flags: bytes[i + 41],
    }
}

fn read_header(bytes: &[u8]) -> (h: SidecarHeader)
    requires
        bytes@.len() >= 64,
    ensures
        h == header_at(bytes@),
{
    SidecarHeader {
        version: read_u32(bytes, 4),
        source_size: read_u64(bytes, 8),
        source_mtime_ns: read_u64(bytes, 16),
        node_count: read_u32(bytes, 24),
        fat_string_count: read_u32(bytes, 28),
        records_offset: read_u64(bytes, 32),
        keys_offset: read_u64(bytes, 40),
        keys_size: read_u64(bytes, 48),
        max_subtree_size: read_u32(bytes, 56),
    }
}

fn io_error(message: &str) -> (e: EngineError)
    ensures
        e matches EngineError::Io(m) && m@ == message@,
{
    EngineError::Io(message.to_string())
}

/// Checks a block against the source it should belong to, and finds its
/// parts.
pub fn try_load_sidecar(bytes: &[u8], expected_size: u64, expected_mtime_ns: u64) -> (r: Result<
    LoadedSidecar,
    EngineError,
>)
    ensures
        match sidecar_fault(bytes@, expected_size, expected_mtime_ns) {
            Some(f) => r matches Err(EngineError::Io(m)) && m@ == f,
            None => r matches Ok(l) && l.fits(bytes@.len()) && l.records_offset == header_at(
                bytes@,
            ).records_offset && l.node_count == header_at(bytes@).node_count && l.keys_offset
                == header_at(bytes@).keys_offset && l.keys_size == header_at(bytes@).keys_size,
        },
{
    let len: u64 = bytes.len() as u64;
    if len < 64 {
        return Err(io_error("sidecar truncated (header)"));
    }
    if !(bytes[0] == 0x4A && bytes[1] == 0x49 && bytes[2] == 0x44 && bytes[3] == 0x58) {
        proof {
            assert(bytes@.subrange(0, 4)[0] == bytes@[0]);
            assert(bytes@.subrange(0, 4)[1] == bytes@[1]);
            assert(bytes@.subrange(0, 4)[2] == bytes@[2]);
            assert(bytes@.subrange(0, 4)[3] == bytes@[3]);
        }
        return Err(io_error("sidecar: bad magic"));
    }
    assert(bytes@.subrange(0, 4) =~= magic());
    let h = read_header(bytes);
    if h.version != SIDECAR_VERSION {
        return Err(io_error("sidecar: version mismatch"));
    }
    if h.source_size != expected_size {
        return Err(io_error("sidecar: source size mismatch"));
    }
    if h.source_mtime_ns != expected_mtime_ns {
        return Err(io_error("sidecar: source mtime mismatch"));
    }
    if h.records_offset < 64 {
        return Err(io_error("sidecar: records overlap header"));
    }
    if h.records_offset % 8 != 0 {
        return Err(io_error("sidecar: records misaligned"));
    }
    let records_size: u64 = 48 * (h.node_count as u64);
    let records_end: u64 = match h.records_offset.checked_add(records_size) {
        Some(e) => e,
        None => return Err(io_error("sidecar: records end overflow")),
    };
    if records_end > len {
        return Err(io_error("sidecar: records beyond file"));
    }
    if h.keys_offset < records_end {
        return Err(io_error("sidecar: keys overlap records"));
    }
    let keys_end: u64 = match h.keys_offset.checked_add(h.keys_size) {
        Some(e) => e,
        None => return Err(io_error("sidecar: keys end overflow")),
    };
    if keys_end > len {
        return Err(io_error("sidecar: keys beyond file"));
    }
    Ok(
        LoadedSidecar {
            records_offset: h.records_offset as usize,
            node_count: h.node_count as usize,
            keys_offset: h.keys_offset as usize,
            keys_size: h.keys_size as usize,
        },
    )
}

fn push_bytes(out: &mut Vec<u8>, part: &Vec<u8>)
    ensures
        final(out)@ == old(out)@ + part@,
{
    out.extend_from_slice(part.as_slice());
}

fn push_u32(out: &mut Vec<u8>, x: u32)
    ensures
        final(out)@ == old(out)@ + spec_u32_to_le_bytes(x),
{
    let part = u32_to_le_bytes(x);
    push_bytes(out, &part);
}

fn push_u64(out: &mut Vec<u8>, x: u64)
    ensures
        final(out)@ == old(out)@ + spec_u64_to_le_bytes(x),
{
    let part = u64_to_le_bytes(x);
    push_bytes(out, &part);
}

fn header_block(h: &SidecarHeader) -> (out: Vec<u8>)
    ensures
        out@ == header_bytes(*h),
{
    let mut out: Vec<u8> = vec![0x4A, 0x49, 0x44, 0x58];
    assert(out@ =~= magic());
    push_u32(&mut out, h.version);
    push_u64(&mut out, h.source_size);
    push_u64(&mut out, h.source_mtime_ns);
    push_u32(&mut out, h.node_count);
    push_u32(&mut out, h.fat_string_count);
    push_u64(&mut out, h.records_offset);
    push_u64(&mut out, h.keys_offset);
    push_u64(&mut out, h.keys_size);
    push_u32(&mut out, h.max_subtree_size);
    push_u32(&mut out, 0);
    out
}

fn record_block(r: &NodeRecord) -> (out: Vec<u8>)
    ensures
        out@ == record_bytes(*r),
{
    let mut out: Vec<u8> = u64_to_le_bytes(r.offset);
    push_u64(&mut out, r.length);
    push_u64(&mut out, r.key_or_index);
    push_u32(&mut out, r.parent);
    push_u32(&mut out, r.subtree_size);
    push_u32(&mut out, r.child_count);
    push_u32(&mut out, r.key_length);
    let tail: Vec<u8> = vec![r.kind, r.flags, 0, 0, 0, 0, 0, 0];
    assert(tail@ =~= seq![r.kind, r.flags, 0u8, 0u8, 0u8, 0u8, 0u8, 0u8]);
    push_bytes(&mut out, &tail);
    out
}

/// The block for a source of this size and age, with these records and keys.
pub fn write_sidecar(
    source_size: u64,
    source_mtime_ns: u64,
    records: &[NodeRecord],
    keys: &[u8],
) -> (out: Vec<u8>)
    requires
        records@.len() <= u32::MAX,
    ensures
        out@ == image(source_size, source_mtime_ns, records@, keys@),
{
    let n: usize = records.len();
    let key_bytes: usize = keys.len();
    let mut fat: u32 = 0;
    let mut largest: u32 = 0;
    let mut body: Vec<u8> = Vec::new();
    let mut i: usize = 0;
    assert(records@.take(0) =~= Seq::<NodeRecord>::empty());
    while i < n
        invariant
            i <= n == records@.len() <= u32::MAX,
            fat == fat_strings(records@.take(i as int)),
            fat <= i,
            largest == max_subtree(records@.take(i as int)),
            body@ == records_bytes(records@.take(i as int)),
        decreases n - i,
    {
        let ghost next = records@.take(i + 1);
        assert(next.drop_last() =~= records@.take(i as int));
        assert(next.last() == records@[i as int]);
        let r = records[i];
        if r.subtree_size > largest {
            largest = r.subtree_size;
        }
        if r.kind == NodeKind::String.to_u8() && r.length >= FAT_STRING_THRESHOLD as u64 {
            fat += 1;
        }
        let block = record_block(&r);
        push_bytes(&mut body, &block);
        i += 1;
    }
    assert(records@.take(i as int) =~= records@);
    let h = SidecarHeader {
        version: SIDECAR_VERSION,
        source_size,
        source_mtime_ns,
        node_count: n as u32,
        fat_string_count: fat,
        records_offset: 64,
        keys_offset: 64 + 48 * (n as u64),
        keys_size: key_bytes as u64,
        max_subtree_size: largest,
    };
    let mut out = header_block(&h);
    push_bytes(&mut out, &body);
    out.extend_from_slice(keys);
    out
}

proof fn header_reads_back(h: SidecarHeader, rest: Seq<u8>)
    ensures
        header_bytes(h).len() == 64,
        header_at(header_bytes(h) + rest) == h,
        (header_bytes(h) + rest).subrange(0, 4) == magic(),
{
    lemma_auto_spec_u32_to_from_le_bytes();
    lemma_auto_spec_u64_to_from_le_bytes();
    let b = header_bytes(h) + rest;
    assert(b.subrange(0, 4) =~= magic());
    assert(b.subrange(4, 8) =~= spec_u32_to_le_bytes(h.version));
    assert(b.subrange(8, 16) =~= spec_u64_to_le_bytes(h.source_size));
    assert(b.subrange(16, 24) =~= spec_u64_to_le_bytes(h.source_mtime_ns));
    assert(b.subrange(24, 28) =~= spec_u32_to_le_bytes(h.node_count));
    assert(b.subrange(28, 32) =~= spec_u32_to_le_bytes(h.fat_string_count));
    assert(b.subrange(32, 40) =~= spec_u64_to_le_bytes(h.records_offset));
    assert(b.subrange(40, 48) =~= spec_u64_to_le_bytes(h.keys_offset));
    assert(b.subrange(48, 56) =~= spec_u64_to_le_bytes(h.keys_size));
    assert(b.subrange(56, 60) =~= spec_u32_to_le_bytes(h.max_subtree_size));
}

proof fn record_reads_back(pre: Seq<u8>, r: NodeRecord, post: Seq<u8>)
    ensures
        record_bytes(r).len() == 48,
        record_at(pre + record_bytes(r) + post, pre.len() as int) == r,
{
    lemma_auto_spec_u32_to_from_le_bytes();
    lemma_auto_spec_u64_to_from_le_bytes();
    let b = pre + record_bytes(r) + post;
    let i = pre.len() as int;
    assert(record_bytes(r).len() == 48);
    assert(b.subrange(i, i + 8) =~= spec_u64_to_le_bytes(r.offset));
    assert(b.subrange(i + 8, i + 16) =~= spec_u64_to_le_bytes(r.length));
    assert(b.subrange(i + 16, i + 24) =~= spec_u64_to_le_bytes(r.key_or_index));
    assert(b.subrange(i + 24, i + 28) =~= spec_u32_to_le_bytes(r.parent));
    assert(b.subrange(i + 28, i + 32) =~= spec_u32_to_le_bytes(r.subtree_size));
    assert(b.subrange(i + 32, i + 36) =~= spec_u32_to_le_bytes(r.child_count));
    assert(b.subrange(i + 36, i + 40) =~= spec_u32_to_le_bytes(r.key_length));
}

/// The records of a block start at `pre`; each reads back.
proof fn records_read_back(pre: Seq<u8>, records: Seq<NodeRecord>, post: Seq<u8>)
    ensures
        records_bytes(records).len() == 48 * records.len(),
        forall|i: int|
            0 <= i < records.len() ==> #[trigger] record_at(
                pre + records_bytes(records) + post,
                pre.len() + 48 * i,
            ) == records[i],
    decreases records.len(),
{
    if records.len() > 0 {
        let init = records.drop_last();
        let last = records.last();
        records_read_back(pre, init, record_bytes(last) + post);
        assert(pre + records_bytes(init) + (record_bytes(last) + post) =~= pre + records_bytes(
            records,
        ) + post);
        record_reads_back(pre + records_bytes(init), last, post);
        assert((pre + records_bytes(init)) + record_bytes(last) + post =~= pre + records_bytes(
            records,
        ) + post);
        assert forall|i: int| 0 <= i < records.len() implies #[trigger] record_at(
            pre + records_bytes(records) + post,
            pre.len() + 48 * i,
        ) == records[i] by {
            if i < init.len() {
                assert(init[i] == records[i]);
            }
        }
    }
}

/// What is written reads back: the block for a source is valid for that
/// source, and gives the same records and keys.
#[verifier::spinoff_prover]
pub proof fn sidecar_round_trip(
    source_size: u64,
    source_mtime_ns: u64,
    records: Seq<NodeRecord>,
    keys: Seq<u8>,
)
    requires
        records.len() <= u32::MAX,
        64 + 48 * records.len() + keys.len() <= u64::MAX,
    ensures
        ({
            let b = image(source_size, source_mtime_ns, records, keys);
            let h = header_at(b);
            &&& sidecar_fault(b, source_size, source_mtime_ns) is None
            &&& h.node_count == records.len()
            &&& Seq::new(h.node_count as nat, |i: int| record_at(b, h.records_offset + 48 * i))
                == records
            &&& b.subrange(h.keys_offset as int, h.keys_offset + h.keys_size) == keys
        }),
{
    let h = header_of(source_size, source_mtime_ns, records, keys);
    let b = image(source_size, source_mtime_ns, records, keys);
    let head = header_bytes(h);
    header_reads_back(h, records_bytes(records) + keys);
    assert(head + (records_bytes(records) + keys) =~= b);
    records_read_back(head, records, keys);
    assert(Seq::new(h.node_count as nat, |i: int| record_at(b, h.records_offset + 48 * i))
        =~= records);
    assert(b.subrange(h.keys_offset as int, h.keys_offset + h.keys_size) =~= keys);
}

/// A block is only used for a source of the size and age it was written for.
pub proof fn stale_sidecar_rejected(
    source_size: u64,
    source_mtime_ns: u64,
    records: Seq<NodeRecord>,
    keys: Seq<u8>,
    size: u64,
    mtime_ns: u64,
)
    requires
        size != source_size || mtime_ns != source_mtime_ns,
    ensures
        sidecar_fault(
            image(source_size, source_mtime_ns, records, keys),
            size,
            mtime_ns,
        ) is Some,
{
    let h = header_of(source_size, source_mtime_ns, records, keys);
    header_reads_back(h, records_bytes(records) + keys);
    assert(header_bytes(h) + (records_bytes(records) + keys) =~= image(
        source_size,
        source_mtime_ns,
        records,
        keys,
    ));
}

pub const FNV_OFFSET: u64 = 0xcbf29ce484222325;

pub const FNV_PRIME: u64 = 0x100000001b3;

/// The FNV-1a hash of `s`.
pub open spec fn fnv1a(s: Seq<u8>) -> u64
    decreases s.len(),
{
    if s.len() == 0 {
        FNV_OFFSET
    } else {
        ((fnv1a(s.drop_last()) ^ (s.last() as u64)) * FNV_PRIME % 0x1_0000_0000_0000_0000) as u64
    }
}

/// The 64-bit FNV-1a hash, the same in every process.
pub fn fnv1a_hash(s: &[u8]) -> (h: u64)
    ensures
        h == fnv1a(s@),
{
    let mut h: u64 = FNV_OFFSET;
    let mut i: usize = 0;
    assert(s@.take(0) =~= Seq::<u8>::empty());
    while i < s.len()
        invariant
            i <= s@.len(),
            h == fnv1a(s@.take(i as int)),
        decreases s@.len() - i,
    {
        assert(s@.take(i + 1).drop_last() =~= s@.take(i as int));
        let x: u64 = h ^ (s[i] as u64);
        h = x.wrapping_mul(FNV_PRIME);
        i += 1;
    }
    assert(s@.take(i as int) =~= s@);
    h
}

/// The bytes of a text in UTF-8.
pub open spec fn utf8_of(s: Seq<char>) -> Seq<u8>
    decreases s.len(),
{
    if s.len() == 0 {
        Seq::empty()
    } else {
        utf8_of(s.drop_last()) + utf8_bytes(s.last() as u32 as nat)
    }
}

/// Encodes a text.
pub fn utf8(s: &str) -> (out: Vec<u8>)
    ensures
        out@ == utf8_of(s@),
{
    let chars = chars_of(s);
    let mut out: Vec<u8> = Vec::new();
    let mut i: usize = 0;
    assert(chars@.take(0) =~= Seq::<char>::empty());
    while i < chars.len()
        invariant
            i <= chars@.len(),
            out@ == utf8_of(chars@.take(i as int)),
        decreases chars@.len() - i,
    {
        assert(chars@.take(i + 1).drop_last() =~= chars@.take(i as int));
        let part = encode_char(chars[i]);
        push_bytes(&mut out, &part);
        i += 1;
    }
    assert(chars@.take(i as int) =~= s@);
    out
}

/// The last `n` hexadecimal digits of `x`.
pub open spec fn hex_text(x: int, n: nat) -> Seq<char>
    decreases n,
{
    if n == 0 {
        Seq::empty()
    } else {
        hex_text(x / 16, (n - 1) as nat).push(hex_char(x % 16))
    }
}

/// A character that a file name keeps.
pub open spec fn kept(c: char) -> bool {
    'a' <= c <= 'z' || 'A' <= c <= 'Z' || '0' <= c <= '9' || c == '-' || c == '_'
}

/// A file stem's first 32 characters, without those that could be special in
/// a file name.
pub open spec fn sanitized(s: Seq<char>) -> Seq<char> {
    s.take(if s.len() < 32 {
        s.len() as int
    } else {
        32
    }).filter(|c: char| kept(c))
}

/// The sidecar's file name: the hash of the source's path, and its stem.
pub open spec fn sidecar_name(source_path: Seq<char>, stem: Option<Seq<char>>) -> Seq<char> {
    let h = hex_text(fnv1a(utf8_of(source_path)) as int, 16);
    let clean = match stem {
        Some(s) => sanitized(s),
        None => Seq::empty(),
    };
    if clean.len() == 0 {
        h + ".jsonidx"@
    } else {
        h + "-"@ + clean + ".jsonidx"@
    }
}

pub fn hex_string(x: u64) -> (out: String)
    ensures
        out@ == hex_text(x as int, 16),
{
    hex_digits(x, 16)
}

fn hex_digits(x: u64, n: u8) -> (out: String)
    ensures
        out@ == hex_text(x as int, n as nat),
    decreases n,
{
    if n == 0 {
        let out = String::new();
        assert(out@ =~= Seq::<char>::empty());
        out
    } else {
        let mut out = hex_digits(x / 16, n - 1);
        out.push(hex_char_of((x % 16) as u8));
        out
    }
}

fn sanitize_stem(s: &str) -> (out: String)
    ensures
        out@ == sanitized(s@),
{
    let chars = chars_of(s);
    let n: usize = if chars.len() < 32 {
        chars.len()
    } else {
        32
    };
    let ghost head = chars@.take(n as int);
    let mut out = String::new();
    let mut i: usize = 0;
    proof {
        reveal(Seq::filter);
    }
    assert(head.take(0).filter(|c: char| kept(c)) =~= Seq::<char>::empty());
    while i < n
        invariant
            i <= n <= chars@.len(),
            head == chars@.take(n as int),
            out@ == head.take(i as int).filter(|c: char| kept(c)),
        decreases n - i,
    {
        proof {
            reveal(Seq::filter);
            assert(head.take(i + 1).drop_last() =~= head.take(i as int));
            assert(head.take(i + 1).last() == chars@[i as int]);
        }
        let c = chars[i];
        if (c >= 'a' && c <= 'z') || (c >= 'A' && c <= 'Z') || (c >= '0' && c <= '9') || c == '-'
            || c == '_' {
            out.push(c);
        }
        i += 1;
    }
    assert(head.take(n as int) =~= head);
    out
}

/// The path of `name` in directory `dir`; an empty `dir` is the current one.
pub open spec fn inside(dir: Seq<char>, name: Seq<char>) -> Seq<char> {
    if dir.len() == 0 {
        name
    } else if dir.last() == '/' {
        dir + name
    } else {
        dir + "/"@ + name
    }
}

/// The path of a source's sidecar inside `index_dir`. `stem` is the source's
/// file name without its extension.
pub fn sidecar_path(index_dir: &str, source_path: &str, stem: Option<&str>) -> (out: String)
    ensures
        out@ == inside(
            index_dir@,
            sidecar_name(
                source_path@,
                match stem {
                    Some(s) => Some(s@),
                    None => None,
                },
            ),
        ),
{
    let bytes = utf8(source_path);
    let mut name = hex_string(fnv1a_hash(bytes.as_slice()));
    let clean = match stem {
        Some(s) => sanitize_stem(s),
        None => {
            let none = String::new();
            assert(none@ =~= Seq::<char>::empty());
            none
        },
    };
    if clean.as_str().unicode_len() > 0 {
        name.append("-");
        name.append(clean.as_str());
    }
    name.append(".jsonidx");
    let mut out = index_dir.to_string();
    let n: usize = index_dir.unicode_len();
    if n > 0 && index_dir.get_char(n - 1) != '/' {
        out.append("/");
    }
    out.append(name.as_str());
    out
}

} // verus!
