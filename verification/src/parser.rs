//! Hand-written byte-level JSON parser: builds the index of a document in
//! one pass by recursive descent.
//!
//! Only containers and strings of at least
//! [`FAT_STRING_THRESHOLD`](crate::document::FAT_STRING_THRESHOLD) source
//! bytes get a record. Object keys are decoded into the keys arena for
//! every member and taken back when the member's value got no record.
//!
//! Records come out in document pre-order, so the descendants of record
//! `k` are the records `k + 1 .. k + subtree_size`.
use vstd::prelude::*;

use crate::document::{
    NodeKind, NodeRecord, FAT_STRING_THRESHOLD, FLAG_ARRAY_ELEMENT, FLAG_OBJECT_MEMBER, NULL_NODE,
};
use crate::error::{EngineError, Fault};
use crate::json::{
    at, digit_at, digits_end, digits_end_range, exponent_part, fault, fraction_part, hex4, hex4_at,
    hex_stop, hex_stop_range, hex_value, integer_part, is_digit, is_hex, is_ws, number_end,
    number_end_range, prepend, short_escape, string_end, string_end_range, string_text,
    string_text_range, unicode_escape, unicode_escape_range, word_at, ws_end, ws_end_range,
};
use crate::text::{encode_utf8, utf8_bytes};

verus! {

/// Append-only store of node records with a bounded window of the newest
/// ones. Records older than the window have been handed on to `flushed`;
/// when the window is full, its oldest half moves there.
pub struct RecordSink {
    pub flushed: Vec<NodeRecord>,
    pub buffer: Vec<NodeRecord>,
    pub next_id: u32,
    pub capacity: usize,
}

impl View for RecordSink {
    type V = Seq<NodeRecord>;

    /// All records pushed so far, by id.
    open spec fn view(&self) -> Seq<NodeRecord> {
        self.flushed@ + self.buffer@
    }
}

impl RecordSink {
    pub open spec fn wf(self) -> bool {
        self.next_id == self.flushed@.len() + self.buffer@.len()
    }

    /// An empty sink whose window holds `capacity` records.
    pub fn new(capacity: usize) -> (s: RecordSink)
        ensures
            s.wf(),
            s@ == Seq::<NodeRecord>::empty(),
            s.capacity == capacity,
    {
        let s = RecordSink { flushed: Vec::new(), buffer: Vec::new(), next_id: 0, capacity };
        assert(s@ =~= Seq::<NodeRecord>::empty());
        s
    }

    /// Appends a record and returns its id. Ids run up to `u32::MAX - 1`.
    pub fn push(&mut self, record: NodeRecord) -> (r: Result<u32, EngineError>)
        requires
            old(self).wf(),
        ensures
            final(self).wf(),
            final(self).capacity == old(self).capacity,
            old(self)@.len() == 0xFFFF_FFFF ==> (r matches Err(e) && e.is_fault(
                fault(0, "engine supports up to u32::MAX - 1 records"@),
            ) && final(self)@ == old(self)@),
            old(self)@.len() < 0xFFFF_FFFF ==> (r matches Ok(id) && id == old(self)@.len()
                && final(self)@ == old(self)@.push(record)),
    {
        if self.next_id == 0xFFFF_FFFF {
            return Err(EngineError::parse(0, "engine supports up to u32::MAX - 1 records"));
        }
        if self.buffer.len() >= self.capacity {
            self.flush_oldest_half();
        }
        self.buffer.push(record);
        let id: u32 = self.next_id;
        self.next_id = self.next_id + 1;
        assert(self@ =~= old(self)@.push(record));
        Ok(id)
    }

    /// Fills in the record of a container that has just been closed.
    pub fn patch(&mut self, id: u32, child_count: u32, length: u64, subtree_size: u32)
        requires
            old(self).wf(),
            id < old(self)@.len(),
        ensures
            final(self).wf(),
            final(self).capacity == old(self).capacity,
            final(self)@ == old(self)@.update(
                id as int,
                (NodeRecord { child_count, length, subtree_size, ..old(self)@[id as int] }),
            ),
    {
        let first_in_buffer: usize = self.flushed.len();
        if id as usize >= first_in_buffer {
            let idx: usize = id as usize - first_in_buffer;
            let rec = self.buffer[idx];
            self.buffer.set(idx, NodeRecord { child_count, length, subtree_size, ..rec });
        } else {
            let rec = self.flushed[id as usize];
            self.flushed.set(id as usize, NodeRecord { child_count, length, subtree_size, ..rec });
        }
        assert(self@ =~= old(self)@.update(
            id as int,
            (NodeRecord { child_count, length, subtree_size, ..old(self)@[id as int] }),
        ));
    }

    /// The number of records pushed so far.
    pub fn len(&self) -> (n: usize)
        requires
            self.wf(),
        ensures
            n == self@.len(),
    {
        self.next_id as usize
    }

    pub fn is_empty(&self) -> (b: bool)
        requires
            self.wf(),
        ensures
            b == (self@.len() == 0),
    {
        self.next_id == 0
    }

    /// Moves the oldest half of the window out of it.
    fn flush_oldest_half(&mut self)
        requires
            old(self).wf(),
        ensures
            final(self).wf(),
            final(self)@ == old(self)@,
            final(self).capacity == old(self).capacity,
            final(self).next_id == old(self).next_id,
    {
        let half: usize = self.capacity / 2;
        let n: usize = if half < self.buffer.len() {
            half
        } else {
            self.buffer.len()
        };
        if n == 0 {
            return;
        }
        let rest = self.buffer.split_off(n);
        self.flushed.append(&mut self.buffer);
        self.buffer = rest;
        assert(self@ =~= old(self)@);
    }

    /// Hands out all records, in id order.
    pub fn finish(self) -> (records: Vec<NodeRecord>)
        ensures
            records@ == self@,
    {
        let mut records = self.flushed;
        let mut tail = self.buffer;
        records.append(&mut tail);
        records
    }
}

/// Append-only byte store for the keys arena, with a bounded buffer and a
/// rollback for keys that turn out not to be needed.
pub struct KeySink {
    pub flushed: Vec<u8>,
    pub buffer: Vec<u8>,
    pub capacity: usize,
}

impl View for KeySink {
    type V = Seq<u8>;

    /// The bytes of the arena.
    open spec fn view(&self) -> Seq<u8> {
        self.flushed@ + self.buffer@
    }
}

impl KeySink {
    /// An empty arena whose buffer holds `capacity` bytes.
    pub fn new(capacity: usize) -> (s: KeySink)
        ensures
            s@ == Seq::<u8>::empty(),
            s.capacity == capacity,
    {
        let s = KeySink { flushed: Vec::new(), buffer: Vec::new(), capacity };
        assert(s@ =~= Seq::<u8>::empty());
        s
    }

    /// Appends one byte.
    pub fn push(&mut self, byte: u8)
        ensures
            final(self)@ == old(self)@.push(byte),
            final(self).capacity == old(self).capacity,
    {
        if self.buffer.len() >= self.capacity {
            self.flush_buffer();
        }
        self.buffer.push(byte);
        assert(self@ =~= old(self)@.push(byte));
    }

    /// Appends `bytes`.
    pub fn extend_from_slice(&mut self, bytes: &[u8])
        ensures
            final(self)@ == old(self)@ + bytes@,
            final(self).capacity == old(self).capacity,
    {
        if bytes.len() > self.capacity || self.buffer.len() > self.capacity - bytes.len() {
            self.flush_buffer();
            if bytes.len() > self.capacity {
                self.flushed.extend_from_slice(bytes);
                assert(self@ =~= old(self)@ + bytes@);
                return;
            }
        }
        self.buffer.extend_from_slice(bytes);
        assert(self@ =~= old(self)@ + bytes@);
    }

    fn flush_buffer(&mut self)
        ensures
            final(self)@ == old(self)@,
            final(self).buffer@.len() == 0,
            final(self).capacity == old(self).capacity,
    {
        self.flushed.append(&mut self.buffer);
        assert(self@ =~= old(self)@);
    }

    /// The number of bytes in the arena.
    pub fn len(&self) -> (n: usize)
        requires
            self@.len() <= usize::MAX,
        ensures
            n == self@.len(),
    {
        self.flushed.len() + self.buffer.len()
    }

    /// Rolls the arena back to an earlier length.
    pub fn truncate(&mut self, new_len: usize)
        requires
            new_len <= old(self)@.len(),
        ensures
            final(self)@ == old(self)@.take(new_len as int),
            final(self).capacity == old(self).capacity,
    {
        if new_len >= self.flushed.len() {
            self.buffer.truncate(new_len - self.flushed.len());
        } else {
            self.buffer.truncate(0);
            self.flushed.truncate(new_len);
        }
        assert(self@ =~= old(self)@.take(new_len as int));
    }

    /// Hands out the whole arena.
    pub fn finish(self) -> (bytes: Vec<u8>)
        ensures
            bytes@ == self@,
    {
        let mut bytes = self.flushed;
        let mut tail = self.buffer;
        bytes.append(&mut tail);
        bytes
    }
}

/// How a value hangs in its parent.
#[derive(Copy, Clone)]
pub enum KeyInfo {
    Root,
    ObjectMember { key_offset: u64, key_length: u32 },
    ArrayElement { index: u32 },
}

/// What indexing one value yields: where it ends, the records of its
/// subtree in pre-order, and the key bytes kept for them.
pub struct Emitted {
    pub end: int,
    pub records: Seq<NodeRecord>,
    pub keys: Seq<u8>,
}

/// What indexing the children of a container yields.
pub struct Children {
    pub end: int,
    pub records: Seq<NodeRecord>,
    pub keys: Seq<u8>,
    pub count: nat,
}

/// A count as the records hold it, in 32 bits.
pub open spec fn wrap32(n: nat) -> u32 {
    (n % 0x1_0000_0000) as u32
}

/// The record of a value.
pub open spec fn record_of(
    offset: int,
    length: int,
    kind: NodeKind,
    parent: u32,
    key: KeyInfo,
    child_count: u32,
    subtree_size: int,
) -> NodeRecord {
    NodeRecord {
        offset: offset as u64,
        length: length as u64,
        key_or_index: match key {
            KeyInfo::Root => 0,
            KeyInfo::ObjectMember { key_offset, key_length } => key_offset,
            KeyInfo::ArrayElement { index } => index as u64,
        },
        parent,
        subtree_size: subtree_size as u32,
        child_count,
        key_length: match key {
            KeyInfo::ObjectMember { key_offset, key_length } => key_length,
            _ => 0,
        },
        kind: kind.code(),
        flags: match key {
            KeyInfo::Root => 0,
            KeyInfo::ObjectMember { key_offset, key_length } => FLAG_OBJECT_MEMBER,
            KeyInfo::ArrayElement { index } => FLAG_ARRAY_ELEMENT,
        },
    }
}

pub open spec fn nothing(end: int) -> Emitted {
    Emitted { end, records: Seq::empty(), keys: Seq::empty() }
}

pub open spec fn true_word() -> Seq<u8> {
    seq![0x74u8, 0x72u8, 0x75u8, 0x65u8]
}

pub open spec fn false_word() -> Seq<u8> {
    seq![0x66u8, 0x61u8, 0x6Cu8, 0x73u8, 0x65u8]
}

pub open spec fn null_word() -> Seq<u8> {
    seq![0x6Eu8, 0x75u8, 0x6Cu8, 0x6Cu8]
}

/// The index of the value that starts at or after `i`, for a document that
/// already holds `base` records and `key_base` key bytes.
pub open spec fn value(
    s: Seq<u8>,
    i: int,
    parent: u32,
    key: KeyInfo,
    base: nat,
    key_base: nat,
) -> Result<Emitted, Fault>
    decreases s.len() - i, 2nat,
{
    let start = ws_end(s, i);
    if !(0 <= start < s.len()) {
        Err(fault(start, "expected value"@))
    } else if s[start] == 0x7B || s[start] == 0x5B {
        proof {
            ws_end_ge(s, i);
        }
        container(s, start, parent, key, base, key_base)
    } else if s[start] == 0x22 {
        string_value(s, start, parent, key, base)
    } else if s[start] == 0x74 {
        literal(s, start, true_word())
    } else if s[start] == 0x66 {
        literal(s, start, false_word())
    } else if s[start] == 0x6E {
        literal(s, start, null_word())
    } else if s[start] == 0x2D || is_digit(s[start]) {
        match number_end(s, start) {
            Ok(end) => Ok(nothing(end)),
            Err(f) => Err(f),
        }
    } else {
        Err(fault(start, "unexpected character at start of value"@))
    }
}

pub open spec fn literal(s: Seq<u8>, start: int, word: Seq<u8>) -> Result<Emitted, Fault> {
    if word_at(s, start, word) {
        Ok(nothing(start + word.len()))
    } else {
        Err(fault(start, "invalid literal"@))
    }
}

pub open spec fn too_many() -> Fault {
    fault(0, "engine supports up to u32::MAX - 1 records"@)
}

/// A string gets a record when its source span reaches the threshold.
pub open spec fn string_value(
    s: Seq<u8>,
    start: int,
    parent: u32,
    key: KeyInfo,
    base: nat,
) -> Result<Emitted, Fault> {
    match string_end(s, start + 1) {
        Err(f) => Err(f),
        Ok(end) => if end - start < FAT_STRING_THRESHOLD {
            Ok(nothing(end))
        } else if base >= 0xFFFF_FFFF {
            Err(too_many())
        } else {
            Ok(
                Emitted {
                    end,
                    records: seq![
                        record_of(start, end - start, NodeKind::String, parent, key, 0, 1),
                    ],
                    keys: Seq::empty(),
                },
            )
        },
    }
}

/// The index of the container whose opening bracket stands at `start`: its
/// own record, then those of its children.
pub open spec fn container(
    s: Seq<u8>,
    start: int,
    parent: u32,
    key: KeyInfo,
    base: nat,
    key_base: nat,
) -> Result<Emitted, Fault>
    decreases s.len() - start, 1nat,
{
    let kind = if s[start] == 0x7B {
        NodeKind::Object
    } else {
        NodeKind::Array
    };
    let close = if s[start] == 0x7B {
        0x7Du8
    } else {
        0x5Du8
    };
    let first = ws_end(s, start + 1);
    if base >= 0xFFFF_FFFF {
        Err(too_many())
    } else if at(s, first, close) {
        Ok(
            Emitted {
                end: first + 1,
                records: seq![record_of(start, first + 1 - start, kind, parent, key, 0, 1)],
                keys: Seq::empty(),
            },
        )
    } else if !(0 <= start < s.len()) {
        Err(fault(start, "expected value"@))
    } else {
        proof {
            ws_end_range(s, start + 1);
        }
        let inner = if s[start] == 0x7B {
            members(s, first, base as u32, base + 1, key_base)
        } else {
            elements(s, first, base as u32, 0, base + 1, key_base)
        };
        match inner {
            Err(f) => Err(f),
            Ok(c) => Ok(
                Emitted {
                    end: c.end,
                    records: seq![
                        record_of(
                            start,
                            c.end - start,
                            kind,
                            parent,
                            key,
                            wrap32(c.count),
                            c.records.len() + 1int,
                        ),
                    ] + c.records,
                    keys: c.keys,
                },
            ),
        }
    }
}

/// The children `first` in front of the children `rest`.
pub open spec fn chain(
    records: Seq<NodeRecord>,
    keys: Seq<u8>,
    count: nat,
    rest: Result<Children, Fault>,
) -> Result<Children, Fault> {
    match rest {
        Err(f) => Err(f),
        Ok(r) => Ok(
            Children {
                end: r.end,
                records: records + r.records,
                keys: keys + r.keys,
                count: count + r.count,
            },
        ),
    }
}

/// What follows a child that ends at `end`: the closing bracket, or a
/// comma and more children.
pub enum After {
    Closed(int),
    More(int),
    Bad(int),
}

pub open spec fn after(s: Seq<u8>, end: int, close: u8) -> After {
    let e = ws_end(s, end);
    if at(s, e, 0x2C) {
        After::More(e + 1)
    } else if at(s, e, close) {
        After::Closed(e + 1)
    } else {
        After::Bad(e)
    }
}

/// The key bytes kept for a member: none when its value got no record.
pub open spec fn kept_keys(text: Seq<u8>, v: Emitted) -> Seq<u8> {
    if v.records.len() == 0 {
        Seq::empty()
    } else {
        text + v.keys
    }
}

/// The member of the object `node` that starts at or after `i`: its value
/// with the key bytes kept for it.
pub open spec fn member(s: Seq<u8>, i: int, node: u32, base: nat, key_base: nat) -> Result<
    Emitted,
    Fault,
>
    decreases s.len() - i, 3nat,
{
    let k = ws_end(s, i);
    if !at(s, k, 0x22) {
        Err(fault(k, "expected string key"@))
    } else {
        match string_text(s, k + 1) {
            Err(f) => Err(f),
            Ok((key_end, text)) => {
                let c = ws_end(s, key_end);
                if text.len() > 0xFFFF_FFFF {
                    Err(fault(key_end, "object key exceeds u32::MAX bytes"@))
                } else if !at(s, c, 0x3A) {
                    Err(fault(c, "expected ':' after object key"@))
                } else {
                    proof {
                        ws_end_ge(s, i);
                        string_text_range(s, k + 1);
                        ws_end_ge(s, key_end);
                    }
                    let key = KeyInfo::ObjectMember {
                        key_offset: key_base as u64,
                        key_length: text.len() as u32,
                    };
                    match value(s, c + 1, node, key, base, key_base + text.len()) {
                        Err(f) => Err(f),
                        Ok(v) => Ok(Emitted { keys: kept_keys(text, v), ..v }),
                    }
                }
            },
        }
    }
}

/// The members of the object `node`, from the one that starts at or after
/// `i`.
pub open spec fn members(s: Seq<u8>, i: int, node: u32, base: nat, key_base: nat) -> Result<
    Children,
    Fault,
>
    decreases s.len() - i, 4nat,
{
    match member(s, i, node, base, key_base) {
        Err(f) => Err(f),
        Ok(v) => match after(s, v.end, 0x7D) {
            After::Bad(e) => Err(fault(e, "expected ',' or '}' in object"@)),
            After::Closed(e) => Ok(
                Children { end: e, records: v.records, keys: v.keys, count: 1 },
            ),
            After::More(e) => if e <= i {
                // Never reached: a member is not empty.
                Err(fault(e, "expected value"@))
            } else {
                chain(
                    v.records,
                    v.keys,
                    1,
                    members(s, e, node, base + v.records.len(), key_base + v.keys.len()),
                )
            },
        },
    }
}

/// The elements of the array `node`, from the one at slot `index`, which
/// starts at or after `i`.
pub open spec fn elements(
    s: Seq<u8>,
    i: int,
    node: u32,
    index: nat,
    base: nat,
    key_base: nat,
) -> Result<Children, Fault>
    decreases s.len() - i, 4nat,
{
    match value(s, i, node, KeyInfo::ArrayElement { index: wrap32(index) }, base, key_base) {
        Err(f) => Err(f),
        Ok(v) => match after(s, v.end, 0x5D) {
            After::Bad(e) => Err(fault(e, "expected ',' or ']' in array"@)),
            After::Closed(e) => Ok(
                Children { end: e, records: v.records, keys: v.keys, count: 1 },
            ),
            After::More(e) => if e <= i {
                // Never reached: a value is not empty.
                Err(fault(e, "expected value"@))
            } else {
                chain(
                    v.records,
                    v.keys,
                    1,
                    elements(
                        s,
                        e,
                        node,
                        index + 1,
                        base + v.records.len(),
                        key_base + v.keys.len(),
                    ),
                )
            },
        },
    }
}

/// The later of two reports.
pub open spec fn later(new: Option<int>, old: Option<int>) -> Option<int> {
    if new is Some {
        new
    } else {
        old
    }
}

/// Where the last container ends that is closed while a value is read, also
/// if reading it fails.
#[verifier::opaque]
pub open spec fn value_closed(
    s: Seq<u8>,
    i: int,
    parent: u32,
    key: KeyInfo,
    base: nat,
    key_base: nat,
) -> Option<int>
    decreases s.len() - i, 2nat,
{
    let start = ws_end(s, i);
    if 0 <= start < s.len() && (s[start] == 0x7B || s[start] == 0x5B) {
        proof {
            ws_end_ge(s, i);
        }
        container_closed(s, start, parent, key, base, key_base)
    } else {
        None
    }
}

#[verifier::opaque]
pub open spec fn container_closed(
    s: Seq<u8>,
    start: int,
    parent: u32,
    key: KeyInfo,
    base: nat,
    key_base: nat,
) -> Option<int>
    decreases s.len() - start, 1nat,
{
    let first = ws_end(s, start + 1);
    match container(s, start, parent, key, base, key_base) {
        Ok(v) => Some(v.end),
        Err(_) => if base >= 0xFFFF_FFFF || !(0 <= start < s.len()) {
            None
        } else {
            proof {
                ws_end_range(s, start + 1);
            }
            if s[start] == 0x7B {
                members_closed(s, first, base as u32, base + 1, key_base)
            } else {
                elements_closed(s, first, base as u32, 0, base + 1, key_base)
            }
        },
    }
}

#[verifier::opaque]
pub open spec fn member_closed(s: Seq<u8>, i: int, node: u32, base: nat, key_base: nat) -> Option<int>
    decreases s.len() - i, 3nat,
{
    let k = ws_end(s, i);
    if !at(s, k, 0x22) {
        None
    } else {
        match string_text(s, k + 1) {
            Err(_) => None,
            Ok((key_end, text)) => {
                let c = ws_end(s, key_end);
                if text.len() > 0xFFFF_FFFF || !at(s, c, 0x3A) {
                    None
                } else {
                    proof {
                        ws_end_ge(s, i);
                        string_text_range(s, k + 1);
                        ws_end_ge(s, key_end);
                    }
                    let key = KeyInfo::ObjectMember {
                        key_offset: key_base as u64,
                        key_length: text.len() as u32,
                    };
                    value_closed(s, c + 1, node, key, base, key_base + text.len())
                }
            },
        }
    }
}

#[verifier::opaque]
pub open spec fn members_closed(
    s: Seq<u8>,
    i: int,
    node: u32,
    base: nat,
    key_base: nat,
) -> Option<int>
    decreases s.len() - i, 4nat,
{
    let own = member_closed(s, i, node, base, key_base);
    match member(s, i, node, base, key_base) {
        Err(_) => own,
        Ok(v) => match after(s, v.end, 0x7D) {
            After::More(e) => if e <= i {
                own
            } else {
                later(
                    members_closed(s, e, node, base + v.records.len(), key_base + v.keys.len()),
                    own,
                )
            },
            _ => own,
        },
    }
}

#[verifier::opaque]
pub open spec fn elements_closed(
    s: Seq<u8>,
    i: int,
    node: u32,
    index: nat,
    base: nat,
    key_base: nat,
) -> Option<int>
    decreases s.len() - i, 4nat,
{
    let key = KeyInfo::ArrayElement { index: wrap32(index) };
    let own = value_closed(s, i, node, key, base, key_base);
    match value(s, i, node, key, base, key_base) {
        Err(_) => own,
        Ok(v) => match after(s, v.end, 0x5D) {
            After::More(e) => if e <= i {
                own
            } else {
                later(
                    elements_closed(
                        s,
                        e,
                        node,
                        index + 1,
                        base + v.records.len(),
                        key_base + v.keys.len(),
                    ),
                    own,
                )
            },
            _ => own,
        },
    }
}

/// The reports of a container that fails are those of its children.
proof fn container_closed_inside(
    s: Seq<u8>,
    start: int,
    parent: u32,
    key: KeyInfo,
    base: nat,
    key_base: nat,
)
    requires
        0 <= start < s.len(),
        base < 0xFFFF_FFFF,
    ensures
        container_closed(s, start, parent, key, base, key_base) == match container(
            s,
            start,
            parent,
            key,
            base,
            key_base,
        ) {
            Ok(v) => Some(v.end),
            Err(_) => if s[start] == 0x7B {
                members_closed(s, ws_end(s, start + 1), base as u32, base + 1, key_base)
            } else {
                elements_closed(s, ws_end(s, start + 1), base as u32, 0, base + 1, key_base)
            },
        },
{
    reveal(container_closed);
    reveal(members_closed);
    reveal(elements_closed);
}

proof fn container_closed_full(
    s: Seq<u8>,
    start: int,
    parent: u32,
    key: KeyInfo,
    base: nat,
    key_base: nat,
)
    requires
        base >= 0xFFFF_FFFF,
    ensures
        container_closed(s, start, parent, key, base, key_base) is None,
{
    reveal(container_closed);
}

proof fn members_closed_step(s: Seq<u8>, i: int, node: u32, base: nat, key_base: nat)
    ensures
        members_closed(s, i, node, base, key_base) == match member(s, i, node, base, key_base) {
            Err(_) => member_closed(s, i, node, base, key_base),
            Ok(v) => match after(s, v.end, 0x7D) {
                After::More(e) => if e <= i {
                    member_closed(s, i, node, base, key_base)
                } else {
                    later(
                        members_closed(
                            s,
                            e,
                            node,
                            base + v.records.len(),
                            key_base + v.keys.len(),
                        ),
                        member_closed(s, i, node, base, key_base),
                    )
                },
                _ => member_closed(s, i, node, base, key_base),
            },
        },
{
    reveal(members_closed);
    reveal(member_closed);
}

proof fn elements_closed_step(
    s: Seq<u8>,
    i: int,
    node: u32,
    index: nat,
    base: nat,
    key_base: nat,
)
    ensures
        ({
            let key = KeyInfo::ArrayElement { index: wrap32(index) };
            let own = value_closed(s, i, node, key, base, key_base);
            elements_closed(s, i, node, index, base, key_base) == match value(
                s,
                i,
                node,
                key,
                base,
                key_base,
            ) {
                Err(_) => own,
                Ok(v) => match after(s, v.end, 0x5D) {
                    After::More(e) => if e <= i {
                        own
                    } else {
                        later(
                            elements_closed(
                                s,
                                e,
                                node,
                                index + 1,
                                base + v.records.len(),
                                key_base + v.keys.len(),
                            ),
                            own,
                        )
                    },
                    _ => own,
                },
            }
        }),
{
    reveal(elements_closed);
    reveal(value_closed);
}

/// Where the last container ends that is closed while a document is read.
pub open spec fn document_closed(s: Seq<u8>) -> Option<int> {
    value_closed(s, 0, NULL_NODE, KeyInfo::Root, 0, 0)
}

/// The index of a whole document.
pub open spec fn document(s: Seq<u8>) -> Result<Emitted, Fault> {
    if ws_end(s, 0) >= s.len() {
        Err(fault(0, "expected JSON value"@))
    } else {
        match value(s, 0, NULL_NODE, KeyInfo::Root, 0, 0) {
            Err(f) => Err(f),
            Ok(v) => if v.records.len() == 0 {
                Err(fault(0, "bare primitive root not supported"@))
            } else if ws_end(s, v.end) < s.len() {
                Err(fault(ws_end(s, v.end), "trailing content after root value"@))
            } else {
                Ok(v)
            },
        }
    }
}

/// The decoded text is never longer than its source.
pub proof fn string_text_len(s: Seq<u8>, i: int)
    requires
        0 <= i <= s.len(),
        string_text(s, i) is Ok,
    ensures
        string_text(s, i)->Ok_0.1.len() < string_text(s, i)->Ok_0.0 - i,
    decreases s.len() - i,
{
    if s[i] == 0x22 {
    } else if s[i] == 0x5C {
        if at(s, i + 1, 0x75) {
            unicode_escape_range(s, i + 2);
            let (end, code) = unicode_escape(s, i + 2)->Ok_0;
            string_text_len(s, end);
            if code >= 0x10000 {
                hex_stop_range(s, i + 2, 4);
                assert(is_hex(s[i + 2]) && is_hex(s[i + 3]) && is_hex(s[i + 4]) && is_hex(s[i + 5]));
            }
        } else {
            string_text_len(s, i + 2);
        }
    } else {
        string_text_len(s, i + 1);
    }
}

/// A value is not empty, ends inside the input, and keeps no more key
/// bytes than it has source bytes.
pub proof fn value_range(s: Seq<u8>, i: int, parent: u32, key: KeyInfo, base: nat, key_base: nat)
    requires
        0 <= i <= s.len(),
        value(s, i, parent, key, base, key_base) is Ok,
    ensures
        ({
            let v = value(s, i, parent, key, base, key_base)->Ok_0;
            &&& i < v.end <= s.len()
            &&& v.keys.len() < v.end - i
            &&& v.records.len() == 0 ==> v.keys.len() == 0
        }),
    decreases s.len() - i, 2nat,
{
    let start = ws_end(s, i);
    ws_end_range(s, i);
    if s[start] == 0x7B || s[start] == 0x5B {
        container_range(s, start, parent, key, base, key_base);
    } else if s[start] == 0x22 {
        string_end_range(s, start + 1);
    } else if s[start] == 0x74 {
    } else if s[start] == 0x66 {
    } else if s[start] == 0x6E {
    } else {
        number_end_range(s, start);
    }
}

proof fn container_range(
    s: Seq<u8>,
    start: int,
    parent: u32,
    key: KeyInfo,
    base: nat,
    key_base: nat,
)
    requires
        0 <= start < s.len(),
        s[start] == 0x7B || s[start] == 0x5B,
        container(s, start, parent, key, base, key_base) is Ok,
    ensures
        ({
            let v = container(s, start, parent, key, base, key_base)->Ok_0;
            &&& start < v.end <= s.len()
            &&& v.keys.len() < v.end - start
            &&& v.records.len() > 0
        }),
    decreases s.len() - start, 1nat,
{
    let first = ws_end(s, start + 1);
    ws_end_range(s, start + 1);
    if s[start] == 0x7B {
        if !at(s, first, 0x7D) {
            members_range(s, first, base as u32, base + 1, key_base);
        }
    } else {
        if !at(s, first, 0x5D) {
            elements_range(s, first, base as u32, 0, base + 1, key_base);
        }
    }
}

pub proof fn member_range(s: Seq<u8>, i: int, node: u32, base: nat, key_base: nat)
    requires
        0 <= i <= s.len(),
        member(s, i, node, base, key_base) is Ok,
    ensures
        ({
            let v = member(s, i, node, base, key_base)->Ok_0;
            &&& i < v.end <= s.len()
            &&& v.keys.len() < v.end - i
            &&& v.records.len() == 0 ==> v.keys.len() == 0
        }),
    decreases s.len() - i, 3nat,
{
    let k = ws_end(s, i);
    ws_end_range(s, i);
    string_text_range(s, k + 1);
    string_text_len(s, k + 1);
    let (key_end, text) = string_text(s, k + 1)->Ok_0;
    let c = ws_end(s, key_end);
    ws_end_range(s, key_end);
    let key = KeyInfo::ObjectMember {
        key_offset: key_base as u64,
        key_length: text.len() as u32,
    };
    value_range(s, c + 1, node, key, base, key_base + text.len());
}

proof fn members_range(s: Seq<u8>, i: int, node: u32, base: nat, key_base: nat)
    requires
        0 <= i <= s.len(),
        members(s, i, node, base, key_base) is Ok,
    ensures
        ({
            let c = members(s, i, node, base, key_base)->Ok_0;
            &&& i < c.end <= s.len()
            &&& c.keys.len() < c.end - i
            &&& c.count > 0
        }),
    decreases s.len() - i, 4nat,
{
    member_range(s, i, node, base, key_base);
    let v = member(s, i, node, base, key_base)->Ok_0;
    ws_end_range(s, v.end);
    match after(s, v.end, 0x7D) {
        After::More(e) => {
            members_range(s, e, node, base + v.records.len(), key_base + v.keys.len());
        },
        _ => {},
    }
}

proof fn elements_range(s: Seq<u8>, i: int, node: u32, index: nat, base: nat, key_base: nat)
    requires
        0 <= i <= s.len(),
        elements(s, i, node, index, base, key_base) is Ok,
    ensures
        ({
            let c = elements(s, i, node, index, base, key_base)->Ok_0;
            &&& i < c.end <= s.len()
            &&& c.keys.len() < c.end - i
            &&& c.count > 0
        }),
    decreases s.len() - i, 4nat,
{
    let key = KeyInfo::ArrayElement { index: wrap32(index) };
    value_range(s, i, node, key, base, key_base);
    let v = value(s, i, node, key, base, key_base)->Ok_0;
    ws_end_range(s, v.end);
    match after(s, v.end, 0x5D) {
        After::More(e) => {
            elements_range(
                s,
                e,
                node,
                index + 1,
                base + v.records.len(),
                key_base + v.keys.len(),
            );
        },
        _ => {},
    }
}

pub proof fn ws_end_ge(s: Seq<u8>, i: int)
    ensures
        ws_end(s, i) >= i,
    decreases s.len() - i,
{
    if 0 <= i < s.len() && is_ws(s[i]) {
        ws_end_ge(s, i + 1);
    }
}

/// The parser: a cursor over the source and the two sinks it fills.
pub struct Parser<'a> {
    pub data: &'a [u8],
    pub pos: usize,
    pub records: RecordSink,
    pub keys: KeySink,
    /// Where the container that was closed last ends.
    pub closed: u64,
}

impl<'a> Parser<'a> {
    pub open spec fn wf(self) -> bool {
        &&& self.pos <= self.data@.len() <= usize::MAX
        &&& self.records.wf()
        &&& self.keys@.len() <= self.pos
    }

    /// `self` is `before` moved on to `pos` with nothing emitted.
    pub open spec fn moved(self, before: Self, pos: int) -> bool {
        &&& self.wf()
        &&& self.data == before.data
        &&& self.pos == pos
        &&& self.records == before.records
        &&& self.keys == before.keys
        &&& self.closed == before.closed
    }

    /// `self` is `before` after the last container it closed ended at `end`,
    /// if it closed any.
    pub open spec fn reported(self, before: Self, end: Option<int>) -> bool {
        self.closed == match end {
            Some(e) => e,
            None => before.closed as int,
        }
    }

    /// `self` is `before` after it has emitted `v`.
    pub open spec fn emitted(self, before: Self, v: Emitted) -> bool {
        &&& self.wf()
        &&& self.data == before.data
        &&& self.pos == v.end
        &&& self.records@ == before.records@ + v.records
        &&& self.keys@ == before.keys@ + v.keys
    }

    /// A parser at the start of `data` that fills the given sinks.
    pub fn new(data: &'a [u8], records: RecordSink, keys: KeySink) -> (p: Parser<'a>)
        ensures
            p.data == data,
            p.pos == 0,
            p.records == records,
            p.keys == keys,
            p.closed == 0,
    {
        Parser { data, pos: 0, records, keys, closed: 0 }
    }

    /// Parses the whole input and returns the filled sinks.
    pub fn parse(self) -> (r: Result<(RecordSink, KeySink), EngineError>)
        requires
            self.pos == 0,
            self.records.wf(),
            self.records@.len() == 0,
            self.keys@.len() == 0,
        ensures
            match document(self.data@) {
                Ok(v) => r matches Ok((records, keys)) && records.wf() && records@ == v.records
                    && keys@ == v.keys,
                Err(f) => r matches Err(e) && e.is_fault(f),
            },
    {
        let mut p = self;
        match p.parse_document() {
            Ok(()) => Ok((p.records, p.keys)),
            Err(e) => Err(e),
        }
    }

    /// Parses the whole input into the sinks.
    pub fn parse_document(&mut self) -> (r: Result<(), EngineError>)
        requires
            old(self).pos == 0,
            old(self).records.wf(),
            old(self).records@.len() == 0,
            old(self).keys@.len() == 0,
        ensures
            final(self).reported(*old(self), document_closed(old(self).data@)),
            match document(old(self).data@) {
                Ok(v) => r is Ok && final(self).records.wf() && final(self).records@ == v.records
                    && final(self).keys@ == v.keys,
                Err(f) => r matches Err(e) && e.is_fault(f),
            },
    {
        let size: usize = self.data.len();
        proof {
            ws_end_range(self.data@, 0);
        }
        self.skip_ws();
        if self.pos >= size {
            proof {
                reveal(value_closed);
            }
            return Err(EngineError::parse(0, "expected JSON value"));
        }
        proof {
            ws_end_idempotent(self.data@, 0);
            value_ws(self.data@, 0, NULL_NODE, KeyInfo::Root, 0, 0);
        }
        let root: Option<u32> = self.parse_value(NULL_NODE, KeyInfo::Root)?;
        if root.is_none() {
            return Err(EngineError::parse(0, "bare primitive root not supported"));
        }
        proof {
            ws_end_range(self.data@, self.pos as int);
        }
        self.skip_ws();
        if self.pos < self.data.len() {
            return Err(EngineError::parse(self.pos, "trailing content after root value"));
        }
        let ghost v = document(old(self).data@)->Ok_0;
        assert(self.records@ =~= v.records);
        assert(self.keys@ =~= v.keys);
        Ok(())
    }

    fn skip_ws(&mut self)
        requires
            old(self).wf(),
        ensures
            final(self).moved(*old(self), ws_end(old(self).data@, old(self).pos as int)),
    {
        let ghost from = self.pos as int;
        while self.pos < self.data.len() && (self.data[self.pos] == 0x20 || self.data[self.pos]
            == 0x09 || self.data[self.pos] == 0x0D || self.data[self.pos] == 0x0A)
            invariant
                self.moved(*old(self), self.pos as int),
                self.pos <= self.data@.len(),
                ws_end(self.data@, self.pos as int) == ws_end(self.data@, from),
                from == old(self).pos,
            decreases self.data@.len() - self.pos,
        {
            self.pos = self.pos + 1;
        }
    }

    fn peek(&self) -> (b: Option<u8>)
        ensures
            b == (if self.pos < self.data@.len() {
                Some(self.data@[self.pos as int])
            } else {
                None
            }),
    {
        if self.pos < self.data.len() {
            Some(self.data[self.pos])
        } else {
            None
        }
    }

    /// Steps over `byte`, or fails with `msg`.
    fn expect(&mut self, byte: u8, msg: &str) -> (r: Result<(), EngineError>)
        requires
            old(self).wf(),
        ensures
            final(self).closed == old(self).closed,
            at(old(self).data@, old(self).pos as int, byte) ==> r is Ok && final(self).moved(
                *old(self),
                old(self).pos + 1,
            ),
            !at(old(self).data@, old(self).pos as int, byte) ==> (r matches Err(e) && e.is_fault(
                fault(old(self).pos as int, msg@),
            )),
    {
        if self.pos < self.data.len() && self.data[self.pos] == byte {
            self.pos = self.pos + 1;
            Ok(())
        } else {
            Err(EngineError::parse(self.pos, msg))
        }
    }

    /// Parses one value. The result is the id of its record, or `None` when
    /// the value is a primitive that gets none.
    fn parse_value(&mut self, parent: u32, key: KeyInfo) -> (r: Result<Option<u32>, EngineError>)
        requires
            old(self).wf(),
        ensures
            final(self).reported(
                *old(self),
                value_closed(
                    old(self).data@,
                    old(self).pos as int,
                    parent,
                    key,
                    old(self).records@.len(),
                    old(self).keys@.len(),
                ),
            ),
            match value(
                old(self).data@,
                old(self).pos as int,
                parent,
                key,
                old(self).records@.len(),
                old(self).keys@.len(),
            ) {
                Ok(v) => r matches Ok(id) && final(self).emitted(*old(self), v) && id == (
                if v.records.len() == 0 {
                    None
                } else {
                    Some(old(self).records@.len() as u32)
                }),
                Err(f) => r matches Err(e) && e.is_fault(f),
            },
        decreases old(self).data@.len() - old(self).pos, 2nat,
    {
        proof {
            reveal(value_closed);
            reveal(container_closed);
        }
        let ghost s = self.data@;
        let ghost v = value(
            s,
            self.pos as int,
            parent,
            key,
            self.records@.len(),
            self.keys@.len(),
        );
        proof {
            ws_end_range(s, self.pos as int);
            if v is Ok {
                value_range(
                    s,
                    self.pos as int,
                    parent,
                    key,
                    self.records@.len(),
                    self.keys@.len(),
                );
            }
        }
        self.skip_ws();
        let start: usize = self.pos;
        if start >= self.data.len() {
            return Err(EngineError::parse(start, "expected value"));
        }
        let c: u8 = self.data[start];
        let r: Result<Option<u32>, EngineError> = match c {
            0x7B => match self.parse_object(parent, key) {
                Ok(id) => Ok(Some(id)),
                Err(e) => Err(e),
            },
            0x5B => match self.parse_array(parent, key) {
                Ok(id) => Ok(Some(id)),
                Err(e) => Err(e),
            },
            0x22 => self.parse_string_value(parent, key),
            0x74 => self.parse_literal(&[0x74u8, 0x72u8, 0x75u8, 0x65u8]),
            0x66 => self.parse_literal(&[0x66u8, 0x61u8, 0x6Cu8, 0x73u8, 0x65u8]),
            0x6E => self.parse_literal(&[0x6Eu8, 0x75u8, 0x6Cu8, 0x6Cu8]),
            0x2D | 0x30..=0x39 => self.parse_number(),
            _ => Err(EngineError::parse(start, "unexpected character at start of value")),
        };
        r
    }

    #[verifier::rlimit(100)]
    #[verifier::spinoff_prover]
    fn parse_object(&mut self, parent: u32, key: KeyInfo) -> (r: Result<u32, EngineError>)
        requires
            old(self).wf(),
            at(old(self).data@, old(self).pos as int, 0x7B),
        ensures
            final(self).reported(
                *old(self),
                container_closed(
                    old(self).data@,
                    old(self).pos as int,
                    parent,
                    key,
                    old(self).records@.len(),
                    old(self).keys@.len(),
                ),
            ),
            match container(
                old(self).data@,
                old(self).pos as int,
                parent,
                key,
                old(self).records@.len(),
                old(self).keys@.len(),
            ) {
                Ok(v) => r matches Ok(id) && final(self).emitted(*old(self), v) && id == old(self).records@.len(),
                Err(f) => r matches Err(e) && e.is_fault(f),
            },
        decreases old(self).data@.len() - old(self).pos, 1nat,
    {
        let ghost s = self.data@;
        let ghost base = self.records@.len();
        let ghost key_base = self.keys@.len();
        let start: usize = self.pos;
        let ghost whole = container(s, start as int, parent, key, base, key_base);
        proof {
            if base >= 0xFFFF_FFFF {
                container_closed_full(s, start as int, parent, key, base, key_base);
            } else {
                container_closed_inside(s, start as int, parent, key, base, key_base);
            }
        }
        let node: u32 = self.add_node(start as u64, 0, NodeKind::Object, parent, key)?;
        self.pos = self.pos + 1;
        proof {
            ws_end_range(s, self.pos as int);
        }
        self.skip_ws();
        if self.at_byte(0x7D) {
            self.pos = self.pos + 1;
            let subtree_size: u32 = self.records.len() as u32 - node;
            let length: u64 = (self.pos - start) as u64;
            self.records.patch(node, 0, length, subtree_size);
            assert(self.records@ =~= old(self).records@ + whole->Ok_0.records);
            assert(self.keys@ =~= old(self).keys@ + whole->Ok_0.keys);
            self.closed = self.pos as u64;
            return Ok(node);
        }
        let ghost first = self.pos as int;
        let ghost opened = self.records@;
        let ghost all_closed = members_closed(s, first, node, base + 1, key_base);
        let ghost all = members(s, first, node, base + 1, key_base);
        let mut child_count: u32 = 0;
        let ghost mut count: nat = 0;
        let ghost mut done = Seq::<NodeRecord>::empty();
        let ghost mut done_keys = Seq::<u8>::empty();
        let ghost mut done_closed: Option<int> = None;
        proof {
            assert(opened =~= opened + done);
            assert(self.keys@ =~= old(self).keys@ + done_keys);
            if all is Ok {
                assert(Seq::<NodeRecord>::empty() + all->Ok_0.records =~= all->Ok_0.records);
                assert(Seq::<u8>::empty() + all->Ok_0.keys =~= all->Ok_0.keys);
            }
        }
        loop
            invariant_except_break
                self.wf(),
                self.data@ == s,
                self.data == old(self).data,
                old(self).wf(),
                start == old(self).pos,
                start < first <= self.pos,
                self.records@ == opened + done,
                self.reported(*old(self), done_closed),
                all_closed == later(
                    members_closed(s, self.pos as int, node, base + 1 + done.len(), key_base + done_keys.len()),
                    done_closed,
                ),
                all_closed == members_closed(s, first, node, base + 1, key_base),
                all is Err ==> container_closed(s, start as int, parent, key, base, key_base)
                    == all_closed,
                self.keys@ == old(self).keys@ + done_keys,
                key_base == old(self).keys@.len(),
                opened.len() == base + 1,
                base == node,
                child_count == wrap32(count),
                all == chain(
                    done,
                    done_keys,
                    count,
                    members(s, self.pos as int, node, base + 1 + done.len(), key_base + done_keys.len()),
                ),
                all matches Err(f) ==> whole == Err::<Emitted, Fault>(f),
                s == old(self).data@,
                base == old(self).records@.len(),
                whole == container(s, start as int, parent, key, base, key_base),
            ensures
                self.wf(),
                start < self.pos,
                self.data@ == s,
                self.data == old(self).data,
                all matches Ok(c) && c.end == self.pos && self.records@ == opened + c.records
                    && self.keys@ == old(self).keys@ + c.keys && child_count == wrap32(c.count),
            decreases self.data@.len() - self.pos,
        {
            let ghost i = self.pos as int;
            let ghost b = base + 1 + done.len();
            let ghost kb = key_base + done_keys.len();
            let ghost own_closed = member_closed(s, i, node, b, kb);
            proof {
                members_closed_step(s, i, node, b, kb);
            }
            proof {
                if member(s, i, node, b, kb) is Ok {
                    member_range(s, i, node, b, kb);
                }
            }
            self.parse_member(node)?;
            let ghost v = member(s, i, node, b, kb)->Ok_0;
            child_count = child_count.wrapping_add(1);
            proof {
                ws_end_range(s, self.pos as int);
                assert(self.records@ =~= opened + (done + v.records));
                assert(self.keys@ =~= old(self).keys@ + (done_keys + v.keys));
            }
            if self.after_child(0x7D, "expected ',' or '}' in object")? {
                proof {
                    let rest = members(
                        s,
                        self.pos as int,
                        node,
                        b + v.records.len(),
                        kb + v.keys.len(),
                    );
                    assert(members(s, i, node, b, kb) == chain(v.records, v.keys, 1, rest));
                    chain_chain(done, done_keys, count, v.records, v.keys, 1, rest);
                    done = done + v.records;
                    done_keys = done_keys + v.keys;
                    count = count + 1;
                    done_closed = later(own_closed, done_closed);
                }
            } else {
                break;
            }
        }
        let ghost c = all->Ok_0;
        let subtree_size: u32 = self.records.len() as u32 - node;
        let length: u64 = (self.pos - start) as u64;
        self.records.patch(node, child_count, length, subtree_size);
        assert(self.records@ =~= old(self).records@ + whole->Ok_0.records);
        self.closed = self.pos as u64;
        Ok(node)
    }

    /// Steps over the comma or the closing bracket that follows a child, and
    /// tells whether there are more children.
    fn after_child(&mut self, close: u8, msg: &str) -> (r: Result<bool, EngineError>)
        requires
            old(self).wf(),
        ensures
            final(self).closed == old(self).closed,
            match after(old(self).data@, old(self).pos as int, close) {
                After::More(e) => r == Ok::<bool, EngineError>(true) && final(self).moved(
                    *old(self),
                    e,
                ),
                After::Closed(e) => r == Ok::<bool, EngineError>(false) && final(self).moved(
                    *old(self),
                    e,
                ),
                After::Bad(e) => r matches Err(x) && x.is_fault(fault(e, msg@)),
            },
    {
        proof {
            ws_end_range(self.data@, self.pos as int);
        }
        self.skip_ws();
        if self.at_byte(0x2C) {
            self.pos = self.pos + 1;
            Ok(true)
        } else if self.at_byte(close) {
            self.pos = self.pos + 1;
            Ok(false)
        } else {
            Err(EngineError::parse(self.pos, msg))
        }
    }

    /// Parses one object member. The key is decoded into the arena first,
    /// and taken back if the value gets no record.
    fn parse_member(&mut self, node: u32) -> (r: Result<(), EngineError>)
        requires
            old(self).wf(),
        ensures
            final(self).reported(
                *old(self),
                member_closed(
                    old(self).data@,
                    old(self).pos as int,
                    node,
                    old(self).records@.len(),
                    old(self).keys@.len(),
                ),
            ),
            match member(
                old(self).data@,
                old(self).pos as int,
                node,
                old(self).records@.len(),
                old(self).keys@.len(),
            ) {
                Ok(v) => r is Ok && final(self).emitted(*old(self), v),
                Err(f) => r matches Err(e) && e.is_fault(f),
            },
        decreases old(self).data@.len() - old(self).pos, 3nat,
    {
        proof {
            reveal(member_closed);
            reveal(value_closed);
        }
        let ghost s = self.data@;
        let ghost base = self.records@.len();
        let ghost key_base = self.keys@.len();
        proof {
            ws_end_range(s, self.pos as int);
        }
        self.skip_ws();
        let ghost k = self.pos as int;
        let key_offset: usize = self.keys.len();
        proof {
            if at(s, k, 0x22) && string_text(s, k + 1) is Ok {
                string_text_range(s, k + 1);
                string_text_len(s, k + 1);
            }
        }
        self.parse_string_into_keys()?;
        let ghost text = string_text(s, k + 1)->Ok_0.1;
        let key_len_bytes: usize = self.keys.len() - key_offset;
        if key_len_bytes > 0xFFFF_FFFF {
            return Err(EngineError::parse(self.pos, "object key exceeds u32::MAX bytes"));
        }
        let key_length: u32 = key_len_bytes as u32;
        proof {
            ws_end_range(s, self.pos as int);
        }
        self.skip_ws();
        self.expect(0x3A, "expected ':' after object key")?;
        let key = KeyInfo::ObjectMember { key_offset: key_offset as u64, key_length };
        let ghost from = self.pos as int;
        proof {
            if value(s, from, node, key, base, key_base + text.len()) is Ok {
                value_range(s, from, node, key, base, key_base + text.len());
            }
        }
        let child: Option<u32> = self.parse_value(node, key)?;
        let ghost v = value(s, from, node, key, base, key_base + text.len())->Ok_0;
        if child.is_none() {
            self.keys.truncate(key_offset);
        }
        assert(self.keys@ =~= old(self).keys@ + kept_keys(text, v));
        Ok(())
    }

    #[verifier::rlimit(60)]
    #[verifier::spinoff_prover]
    fn parse_array(&mut self, parent: u32, key: KeyInfo) -> (r: Result<u32, EngineError>)
        requires
            old(self).wf(),
            at(old(self).data@, old(self).pos as int, 0x5B),
        ensures
            final(self).reported(
                *old(self),
                container_closed(
                    old(self).data@,
                    old(self).pos as int,
                    parent,
                    key,
                    old(self).records@.len(),
                    old(self).keys@.len(),
                ),
            ),
            match container(
                old(self).data@,
                old(self).pos as int,
                parent,
                key,
                old(self).records@.len(),
                old(self).keys@.len(),
            ) {
                Ok(v) => r matches Ok(id) && final(self).emitted(*old(self), v) && id == old(self).records@.len(),
                Err(f) => r matches Err(e) && e.is_fault(f),
            },
        decreases old(self).data@.len() - old(self).pos, 1nat,
    {
        let ghost s = self.data@;
        let ghost base = self.records@.len();
        let ghost key_base = self.keys@.len();
        let start: usize = self.pos;
        let ghost whole = container(s, start as int, parent, key, base, key_base);
        proof {
            if base >= 0xFFFF_FFFF {
                container_closed_full(s, start as int, parent, key, base, key_base);
            } else {
                container_closed_inside(s, start as int, parent, key, base, key_base);
            }
        }
        let node: u32 = self.add_node(start as u64, 0, NodeKind::Array, parent, key)?;
        self.pos = self.pos + 1;
        proof {
            ws_end_range(s, self.pos as int);
        }
        self.skip_ws();
        if self.at_byte(0x5D) {
            self.pos = self.pos + 1;
            let subtree_size: u32 = self.records.len() as u32 - node;
            let length: u64 = (self.pos - start) as u64;
            self.records.patch(node, 0, length, subtree_size);
            assert(self.records@ =~= old(self).records@ + whole->Ok_0.records);
            assert(self.keys@ =~= old(self).keys@ + whole->Ok_0.keys);
            self.closed = self.pos as u64;
            return Ok(node);
        }
        let ghost first = self.pos as int;
        let ghost opened = self.records@;
        let ghost all_closed = elements_closed(s, first, node, 0, base + 1, key_base);
        let ghost all = elements(s, first, node, 0, base + 1, key_base);
        let mut index: u32 = 0;
        let ghost mut count: nat = 0;
        let ghost mut done = Seq::<NodeRecord>::empty();
        let ghost mut done_keys = Seq::<u8>::empty();
        let ghost mut done_closed: Option<int> = None;
        proof {
            assert(opened =~= opened + done);
            assert(self.keys@ =~= old(self).keys@ + done_keys);
            if all is Ok {
                assert(Seq::<NodeRecord>::empty() + all->Ok_0.records =~= all->Ok_0.records);
                assert(Seq::<u8>::empty() + all->Ok_0.keys =~= all->Ok_0.keys);
            }
        }
        loop
            invariant_except_break
                self.wf(),
                self.data@ == s,
                self.data == old(self).data,
                old(self).wf(),
                start == old(self).pos,
                start < first <= self.pos,
                self.records@ == opened + done,
                self.reported(*old(self), done_closed),
                all_closed == later(
                    elements_closed(s, self.pos as int, node, count, base + 1 + done.len(), key_base + done_keys.len()),
                    done_closed,
                ),
                all_closed == elements_closed(s, first, node, 0, base + 1, key_base),
                all is Err ==> container_closed(s, start as int, parent, key, base, key_base)
                    == all_closed,
                self.keys@ == old(self).keys@ + done_keys,
                key_base == old(self).keys@.len(),
                opened.len() == base + 1,
                base == node,
                index == wrap32(count),
                all == chain(
                    done,
                    done_keys,
                    count,
                    elements(
                        s,
                        self.pos as int,
                        node,
                        count,
                        base + 1 + done.len(),
                        key_base + done_keys.len(),
                    ),
                ),
                all matches Err(f) ==> whole == Err::<Emitted, Fault>(f),
                s == old(self).data@,
                base == old(self).records@.len(),
                whole == container(s, start as int, parent, key, base, key_base),
            ensures
                self.wf(),
                start < self.pos,
                self.data@ == s,
                self.data == old(self).data,
                all matches Ok(c) && c.end == self.pos && self.records@ == opened + c.records
                    && self.keys@ == old(self).keys@ + c.keys && index == wrap32(c.count),
            decreases self.data@.len() - self.pos,
        {
            let ghost i = self.pos as int;
            let ghost b = base + 1 + done.len();
            let ghost kb = key_base + done_keys.len();
            let element_key = KeyInfo::ArrayElement { index };
            let ghost own_closed = value_closed(s, i, node, element_key, b, kb);
            proof {
                elements_closed_step(s, i, node, count, b, kb);
            }
            proof {
                ws_end_range(s, i);
                value_ws(s, i, node, element_key, b, kb);
                if value(s, i, node, element_key, b, kb) is Ok {
                    value_range(s, i, node, element_key, b, kb);
                }
            }
            self.skip_ws();
            let _child: Option<u32> = self.parse_value(node, element_key)?;
            let ghost v = value(s, i, node, element_key, b, kb)->Ok_0;
            index = index.wrapping_add(1);
            proof {
                ws_end_range(s, self.pos as int);
                assert(self.records@ =~= opened + (done + v.records));
                assert(self.keys@ =~= old(self).keys@ + (done_keys + v.keys));
            }
            if self.after_child(0x5D, "expected ',' or ']' in array")? {
                proof {
                    let rest = elements(
                        s,
                        self.pos as int,
                        node,
                        count + 1,
                        b + v.records.len(),
                        kb + v.keys.len(),
                    );
                    assert(elements(s, i, node, count, b, kb) == chain(v.records, v.keys, 1, rest));
                    chain_chain(done, done_keys, count, v.records, v.keys, 1, rest);
                    done = done + v.records;
                    done_keys = done_keys + v.keys;
                    count = count + 1;
                    done_closed = later(own_closed, done_closed);
                }
            } else {
                break;
            }
        }
        let subtree_size: u32 = self.records.len() as u32 - node;
        let length: u64 = (self.pos - start) as u64;
        self.records.patch(node, index, length, subtree_size);
        assert(self.records@ =~= old(self).records@ + whole->Ok_0.records);
        self.closed = self.pos as u64;
        Ok(node)
    }

    /// Reads a JSON string and decodes it into the keys arena.
    fn parse_string_into_keys(&mut self) -> (r: Result<(), EngineError>)
        requires
            old(self).wf(),
        ensures
            final(self).closed == old(self).closed,
            !at(old(self).data@, old(self).pos as int, 0x22) ==> (r matches Err(e) && e.is_fault(
                fault(old(self).pos as int, "expected string key"@),
            )),
            at(old(self).data@, old(self).pos as int, 0x22) ==> match string_text(
                old(self).data@,
                old(self).pos + 1,
            ) {
                Ok((end, text)) => r is Ok && final(self).wf() && final(self).data == old(self).data
                    && final(self).pos == end && final(self).records == old(self).records && final(
                    self).keys@ == old(self).keys@ + text,
                Err(f) => r matches Err(e) && e.is_fault(f),
            },
    {
        if !self.at_byte(0x22) {
            return Err(EngineError::parse(self.pos, "expected string key"));
        }
        self.pos = self.pos + 1;
        let ghost s = self.data@;
        let ghost from = self.pos as int;
        let ghost mut done = Seq::<u8>::empty();
        proof {
            assert(self.keys@ =~= old(self).keys@ + done);
            if string_text(s, from) is Ok {
                assert(done + string_text(s, from)->Ok_0.1 =~= string_text(s, from)->Ok_0.1);
            }
        }
        loop
            invariant
                self.wf(),
                self.data@ == s,
                self.data == old(self).data,
                self.records == old(self).records,
                self.closed == old(self).closed,
                at(s, old(self).pos as int, 0x22),
                from == old(self).pos + 1,
                self.keys@ == old(self).keys@ + done,
                string_text(s, from) == prepend(done, string_text(s, self.pos as int)),
            decreases s.len() - self.pos,
        {
            let ghost i = self.pos as int;
            if self.pos >= self.data.len() {
                return Err(EngineError::parse(self.pos, "unterminated string"));
            }
            let c: u8 = self.data[self.pos];
            if c == 0x22 {
                self.pos = self.pos + 1;
                assert(done + Seq::<u8>::empty() =~= done);
                return Ok(());
            } else if c == 0x5C {
                self.pos = self.pos + 1;
                if self.at_byte(0x75) {
                    self.pos = self.pos + 1;
                    let code: u32 = self.parse_unicode_escape()?;
                    proof {
                        unicode_escape_range(s, i + 2);
                    }
                    let bytes = encode_utf8(code);
                    self.keys.extend_from_slice(bytes.as_slice());
                    proof {
                        push_chunk(s, from, i, done, bytes@, self.pos as int);
                        assert(self.keys@ =~= old(self).keys@ + (done + bytes@));
                        escape_len(s, i);
                        done = done + bytes@;
                    }
                } else {
                    let short: Option<u8> = if self.pos < self.data.len() {
                        short_escape_byte(self.data[self.pos])
                    } else {
                        None
                    };
                    match short {
                        Some(b) => {
                            self.keys.push(b);
                            self.pos = self.pos + 1;
                            proof {
                                push_chunk(s, from, i, done, seq![b], self.pos as int);
                                assert(self.keys@ =~= old(self).keys@ + (done + seq![b]));
                                done = done + seq![b];
                            }
                        },
                        None => {
                            return Err(EngineError::parse(self.pos, "invalid escape"));
                        },
                    }
                }
            } else if c < 0x20 {
                return Err(EngineError::parse(self.pos, "control character in string"));
            } else {
                self.keys.push(c);
                self.pos = self.pos + 1;
                proof {
                    push_chunk(s, from, i, done, seq![c], self.pos as int);
                    assert(self.keys@ =~= old(self).keys@ + (done + seq![c]));
                    done = done + seq![c];
                }
            }
        }
    }

    /// Reads the digits of a `\\u` escape, and those of the low surrogate
    /// after a high one.
    fn parse_unicode_escape(&mut self) -> (r: Result<u32, EngineError>)
        requires
            old(self).wf(),
        ensures
            final(self).closed == old(self).closed,
            match unicode_escape(old(self).data@, old(self).pos as int) {
                Ok((end, code)) => r matches Ok(n) && n == code && final(self).moved(
                    *old(self),
                    end,
                ),
                Err(f) => r matches Err(e) && e.is_fault(f),
            },
    {
        let ghost s = self.data@;
        let ghost from = self.pos as int;
        let high: u32 = self.parse_hex4()?;
        if high >= 0xD800 && high <= 0xDBFF {
            if !self.at_byte(0x5C) {
                return Err(EngineError::parse(self.pos, "expected low surrogate"));
            }
            self.pos = self.pos + 1;
            if !self.at_byte(0x75) {
                return Err(EngineError::parse(self.pos, "expected \\u"));
            }
            self.pos = self.pos + 1;
            let low: u32 = self.parse_hex4()?;
            if !(low >= 0xDC00 && low <= 0xDFFF) {
                return Err(EngineError::parse(self.pos, "invalid low surrogate"));
            }
            Ok(0x10000 + (high - 0xD800) * 0x400 + (low - 0xDC00))
        } else if high >= 0xDC00 && high <= 0xDFFF {
            Err(EngineError::parse(self.pos, "lone low surrogate"))
        } else {
            Ok(high)
        }
    }

    fn parse_hex4(&mut self) -> (r: Result<u32, EngineError>)
        requires
            old(self).wf(),
        ensures
            final(self).closed == old(self).closed,
            match hex4_at(old(self).data@, old(self).pos as int) {
                Ok(n) => r matches Ok(v) && v == n && v <= 0xFFFF && final(self).moved(
                    *old(self),
                    old(self).pos + 4,
                ),
                Err(f) => r matches Err(e) && e.is_fault(f),
            },
    {
        let ghost s = self.data@;
        let ghost from = self.pos as int;
        let mut code: u32 = 0;
        let mut k: u8 = 0;
        proof {
            hex_stop_range(s, from, 4);
        }
        while k < 4
            invariant
                self.moved(*old(self), from + k),
                old(self).wf(),
                s == self.data@,
                from == old(self).pos,
                k <= 4,
                hex_stop(s, from, 4) == hex_stop(s, from + k, (4 - k) as nat),
                k == 0 ==> code == 0,
                k == 1 ==> code == hex_value(s[from]),
                k == 2 ==> code == hex_value(s[from]) * 16 + hex_value(s[from + 1]),
                k == 3 ==> code == hex_value(s[from]) * 256 + hex_value(s[from + 1]) * 16
                    + hex_value(s[from + 2]),
                k == 4 ==> code == hex4(s, from),
                k == 0 ==> code < 1,
                k == 1 ==> code < 16,
                k == 2 ==> code < 256,
                k == 3 ==> code < 4096,
                k == 4 ==> code < 65536,
            decreases 4 - k,
        {
            if self.pos >= self.data.len() {
                return Err(EngineError::parse(self.pos, "incomplete \\u escape"));
            }
            let c: u8 = self.data[self.pos];
            if !is_hex_byte(c) {
                return Err(EngineError::parse(self.pos, "invalid hex digit"));
            }
            let v: u32 = if c <= 0x39 {
                (c - 0x30) as u32
            } else if c >= 0x61 {
                (c - 0x61 + 10) as u32
            } else {
                (c - 0x41 + 10) as u32
            };
            code = code * 16 + v;
            self.pos = self.pos + 1;
            k += 1;
        }
        Ok(code)
    }

    fn parse_literal(&mut self, lit: &[u8]) -> (r: Result<Option<u32>, EngineError>)
        requires
            old(self).wf(),
        ensures
            final(self).closed == old(self).closed,
            match literal(old(self).data@, old(self).pos as int, lit@) {
                Ok(v) => r matches Ok(id) && id is None && final(self).emitted(*old(self), v),
                Err(f) => r matches Err(e) && e.is_fault(f),
            },
    {
        let n: usize = lit.len();
        if n > self.data.len() - self.pos {
            return Err(EngineError::parse(self.pos, "invalid literal"));
        }
        let mut k: usize = 0;
        while k < n
            invariant
                self.moved(*old(self), old(self).pos as int),
                n == lit@.len(),
                k <= n,
                self.pos + n <= self.data@.len(),
                forall|j: int|
                    0 <= j < k ==> #[trigger] lit@[j] == self.data@.subrange(
                        self.pos as int,
                        self.pos + n,
                    )[j],
            decreases n - k,
        {
            if self.data[self.pos + k] != lit[k] {
                assert(self.data@.subrange(self.pos as int, self.pos + n)[k as int]
                    != lit@[k as int]);
                return Err(EngineError::parse(self.pos, "invalid literal"));
            }
            k += 1;
        }
        assert(self.data@.subrange(self.pos as int, self.pos + n) =~= lit@);
        self.pos = self.pos + n;
        assert(self.records@ =~= old(self).records@ + Seq::<NodeRecord>::empty());
        assert(self.keys@ =~= old(self).keys@ + Seq::<u8>::empty());
        Ok(None)
    }

    fn skip_digits(&mut self)
        requires
            old(self).wf(),
        ensures
            final(self).moved(*old(self), digits_end(old(self).data@, old(self).pos as int)),
    {
        let ghost from = self.pos as int;
        while self.pos < self.data.len() && self.data[self.pos] >= 0x30 && self.data[self.pos]
            <= 0x39
            invariant
                self.moved(*old(self), self.pos as int),
                self.pos <= self.data@.len(),
                digits_end(self.data@, self.pos as int) == digits_end(self.data@, from),
                from == old(self).pos,
            decreases self.data@.len() - self.pos,
        {
            self.pos = self.pos + 1;
        }
    }

    /// A decimal digit stands at the cursor.
    fn at_digit(&self) -> (b: bool)
        ensures
            b == digit_at(self.data@, self.pos as int),
    {
        self.pos < self.data.len() && self.data[self.pos] >= 0x30 && self.data[self.pos] <= 0x39
    }

    /// Byte `b` stands at the cursor.
    fn at_byte(&self, b: u8) -> (r: bool)
        ensures
            r == at(self.data@, self.pos as int, b),
    {
        self.pos < self.data.len() && self.data[self.pos] == b
    }

    pub(crate) fn parse_number(&mut self) -> (r: Result<Option<u32>, EngineError>)
        requires
            old(self).wf(),
        ensures
            final(self).closed == old(self).closed,
            match number_end(old(self).data@, old(self).pos as int) {
                Ok(end) => r matches Ok(id) && id is None && final(self).emitted(
                    *old(self),
                    nothing(end),
                ),
                Err(f) => r matches Err(e) && e.is_fault(f),
            },
    {
        if self.at_byte(0x2D) {
            self.pos = self.pos + 1;
        }
        if self.at_byte(0x30) {
            self.pos = self.pos + 1;
        } else if self.at_digit() {
            self.pos = self.pos + 1;
            proof {
                digits_end_range(self.data@, self.pos as int);
            }
            self.skip_digits();
        } else {
            return Err(EngineError::parse(self.pos, "expected digit in number"));
        }
        assert(integer_part(old(self).data@, old(self).pos as int) == Ok::<int, Fault>(
            self.pos as int,
        ));
        let ghost a = self.pos as int;
        if self.at_byte(0x2E) {
            self.pos = self.pos + 1;
            if !self.at_digit() {
                return Err(EngineError::parse(self.pos, "expected digit after '.'"));
            }
            proof {
                digits_end_range(self.data@, self.pos as int);
            }
            self.skip_digits();
        }
        assert(fraction_part(old(self).data@, a) == Ok::<int, Fault>(self.pos as int));
        let ghost b = self.pos as int;
        if self.at_byte(0x65) || self.at_byte(0x45) {
            self.pos = self.pos + 1;
            if self.at_byte(0x2B) || self.at_byte(0x2D) {
                self.pos = self.pos + 1;
            }
            if !self.at_digit() {
                return Err(EngineError::parse(self.pos, "expected digit in exponent"));
            }
            proof {
                digits_end_range(self.data@, self.pos as int);
            }
            self.skip_digits();
        }
        assert(exponent_part(old(self).data@, b) == Ok::<int, Fault>(self.pos as int));
        assert(self.records@ =~= old(self).records@ + Seq::<NodeRecord>::empty());
        assert(self.keys@ =~= old(self).keys@ + Seq::<u8>::empty());
        Ok(None)
    }

    fn parse_string_value(&mut self, parent: u32, key: KeyInfo) -> (r: Result<
        Option<u32>,
        EngineError,
    >)
        requires
            old(self).wf(),
            at(old(self).data@, old(self).pos as int, 0x22),
        ensures
            final(self).closed == old(self).closed,
            match string_value(
                old(self).data@,
                old(self).pos as int,
                parent,
                key,
                old(self).records@.len(),
            ) {
                Ok(v) => r matches Ok(id) && final(self).emitted(*old(self), v) && id == (
                if v.records.len() == 0 {
                    None
                } else {
                    Some(old(self).records@.len() as u32)
                }),
                Err(f) => r matches Err(e) && e.is_fault(f),
            },
    {
        let start: usize = self.pos;
        proof {
            if string_end(self.data@, start + 1) is Ok {
                string_end_range(self.data@, start + 1);
            }
        }
        self.consume_string()?;
        let length: u64 = (self.pos - start) as u64;
        if length >= FAT_STRING_THRESHOLD as u64 {
            let id: u32 = self.add_node(start as u64, length, NodeKind::String, parent, key)?;
            assert(self.records@ =~= old(self).records@ + seq![
                record_of(start as int, length as int, NodeKind::String, parent, key, 0, 1),
            ]);
            assert(self.keys@ =~= old(self).keys@ + Seq::<u8>::empty());
            Ok(Some(id))
        } else {
            assert(self.records@ =~= old(self).records@ + Seq::<NodeRecord>::empty());
            assert(self.keys@ =~= old(self).keys@ + Seq::<u8>::empty());
            Ok(None)
        }
    }

    /// Walks past a JSON string, to one past its closing quote.
    fn consume_string(&mut self) -> (r: Result<(), EngineError>)
        requires
            old(self).wf(),
        ensures
            final(self).closed == old(self).closed,
            at(old(self).data@, old(self).pos as int, 0x22) ==> match string_end(
                old(self).data@,
                old(self).pos + 1,
            ) {
                Ok(end) => r is Ok && final(self).moved(*old(self), end),
                Err(f) => r matches Err(e) && e.is_fault(f),
            },
            !at(old(self).data@, old(self).pos as int, 0x22) ==> (r matches Err(e) && e.is_fault(
                fault(old(self).pos as int, "expected '\"'"@),
            )),
    {
        if !self.at_byte(0x22) {
            return Err(EngineError::parse(self.pos, "expected '\"'"));
        }
        self.pos = self.pos + 1;
        loop
            invariant
                self.moved(*old(self), self.pos as int),
                at(old(self).data@, old(self).pos as int, 0x22),
                string_end(self.data@, self.pos as int) == string_end(
                    old(self).data@,
                    old(self).pos + 1,
                ),
            decreases self.data@.len() - self.pos,
        {
            if self.pos >= self.data.len() {
                return Err(EngineError::parse(self.pos, "unterminated string"));
            }
            let c: u8 = self.data[self.pos];
            if c == 0x22 {
                self.pos = self.pos + 1;
                return Ok(());
            } else if c == 0x5C {
                self.pos = self.pos + 1;
                if self.pos >= self.data.len() {
                    return Err(EngineError::parse(self.pos, "unterminated escape"));
                }
                if self.data[self.pos] == 0x75 {
                    self.pos = self.pos + 1;
                    let ghost from = self.pos as int;
                    let mut k: u8 = 0;
                    while k < 4
                        invariant
                            self.moved(*old(self), self.pos as int),
                            k <= 4,
                            self.pos == from + k,
                            2 <= from,
                            at(self.data@, from - 2, 0x5C),
                            at(self.data@, from - 1, 0x75),
                            hex_stop(self.data@, from, 4) == hex_stop(
                                self.data@,
                                self.pos as int,
                                (4 - k) as nat,
                            ),
                            at(old(self).data@, old(self).pos as int, 0x22),
                            string_end(self.data@, from - 2) == string_end(
                                old(self).data@,
                                old(self).pos + 1,
                            ),
                        decreases 4 - k,
                    {
                        if self.pos < self.data.len() && is_hex_byte(self.data[self.pos]) {
                            self.pos = self.pos + 1;
                            k += 1;
                        } else {
                            return Err(EngineError::parse(self.pos, "invalid \\u escape"));
                        }
                    }
                } else {
                    self.pos = self.pos + 1;
                }
            } else if c < 0x20 {
                return Err(EngineError::parse(self.pos, "control character in string"));
            } else {
                self.pos = self.pos + 1;
            }
        }
    }

    fn add_node(&mut self, offset: u64, length: u64, kind: NodeKind, parent: u32, key: KeyInfo) -> (r:
        Result<u32, EngineError>)
        requires
            old(self).wf(),
        ensures
            final(self).closed == old(self).closed,
            old(self).records@.len() >= 0xFFFF_FFFF ==> (r matches Err(e) && e.is_fault(
                too_many(),
            )),
            old(self).records@.len() < 0xFFFF_FFFF ==> (r matches Ok(id) && id == old(self).records@.len() && final(self).wf() && final(self).data == old(self).data && final(self).pos == old(self).pos && final(self).keys == old(self).keys && final(self).records@
                == old(self).records@.push(
                record_of(offset as int, length as int, kind, parent, key, 0, 1),
            )),
    {
        let mut rec = NodeRecord {
            offset,
            length,
            key_or_index: 0,
            parent,
            subtree_size: 1,
            child_count: 0,
            key_length: 0,
            kind: kind.to_u8(),
            flags: 0,
        };
        match key {
            KeyInfo::Root => {},
            KeyInfo::ObjectMember { key_offset, key_length } => {
                rec.key_or_index = key_offset;
                rec.key_length = key_length;
                rec.flags = FLAG_OBJECT_MEMBER;
            },
            KeyInfo::ArrayElement { index } => {
                rec.key_or_index = index as u64;
                rec.flags = FLAG_ARRAY_ELEMENT;
            },
        }
        self.records.push(rec)
    }
}

/// `b` is a hexadecimal digit.
fn is_hex_byte(b: u8) -> (r: bool)
    ensures
        r == is_hex(b),
{
    (b >= 0x30 && b <= 0x39) || (b >= 0x61 && b <= 0x66) || (b >= 0x41 && b <= 0x46)
}

/// The byte that a one-letter escape stands for.
fn short_escape_byte(c: u8) -> (r: Option<u8>)
    ensures
        r == short_escape(c),
{
    match c {
        0x22 | 0x5C | 0x2F => Some(c),
        0x62 => Some(0x08),
        0x66 => Some(0x0C),
        0x6E => Some(0x0A),
        0x72 => Some(0x0D),
        0x74 => Some(0x09),
        _ => None,
    }
}

/// Putting children in front of children in front of the rest.
proof fn chain_chain(
    r1: Seq<NodeRecord>,
    k1: Seq<u8>,
    n1: nat,
    r2: Seq<NodeRecord>,
    k2: Seq<u8>,
    n2: nat,
    rest: Result<Children, Fault>,
)
    ensures
        chain(r1, k1, n1, chain(r2, k2, n2, rest)) == chain(r1 + r2, k1 + k2, n1 + n2, rest),
{
    if rest is Ok {
        let c = rest->Ok_0;
        assert(r1 + (r2 + c.records) =~= (r1 + r2) + c.records);
        assert(k1 + (k2 + c.keys) =~= (k1 + k2) + c.keys);
    }
}

/// Decoding one more piece of a string.
proof fn push_chunk(s: Seq<u8>, from: int, i: int, done: Seq<u8>, chunk: Seq<u8>, next: int)
    requires
        string_text(s, from) == prepend(done, string_text(s, i)),
        string_text(s, i) == prepend(chunk, string_text(s, next)),
    ensures
        string_text(s, from) == prepend(done + chunk, string_text(s, next)),
{
    if string_text(s, next) is Ok {
        let rest = string_text(s, next)->Ok_0.1;
        assert(done + (chunk + rest) =~= (done + chunk) + rest);
    }
}

/// A `\\u` escape is at least as long as what it decodes to.
proof fn escape_len(s: Seq<u8>, i: int)
    requires
        0 <= i,
        i + 2 <= s.len(),
        unicode_escape(s, i + 2) is Ok,
    ensures
        utf8_bytes(unicode_escape(s, i + 2)->Ok_0.1).len() <= unicode_escape(s, i + 2)->Ok_0.0 - i,
{
    unicode_escape_range(s, i + 2);
}

/// No whitespace is left where whitespace ends.
pub proof fn ws_end_idempotent(s: Seq<u8>, i: int)
    ensures
        ws_end(s, ws_end(s, i)) == ws_end(s, i),
    decreases s.len() - i,
{
    if 0 <= i < s.len() && is_ws(s[i]) {
        ws_end_idempotent(s, i + 1);
    }
}

/// Leading whitespace does not change a value's index.
pub proof fn value_ws(s: Seq<u8>, i: int, parent: u32, key: KeyInfo, base: nat, key_base: nat)
    ensures
        value(s, ws_end(s, i), parent, key, base, key_base) == value(
            s,
            i,
            parent,
            key,
            base,
            key_base,
        ),
        value_closed(s, ws_end(s, i), parent, key, base, key_base) == value_closed(
            s,
            i,
            parent,
            key,
            base,
            key_base,
        ),
{
    ws_end_idempotent(s, i);
    reveal(value_closed);
    reveal(container_closed);
}

} // verus!
