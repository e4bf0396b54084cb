//! One-level container scans.
//!
//! Walking a container's children interleaves two sources: the chain of
//! record-bearing children, stepped by `subtree_size`, and the primitives,
//! found in the source bytes. Wherever the source position meets the offset
//! of the next record of the chain, the child is that record; elsewhere it
//! is a primitive.
use vstd::prelude::*;

use crate::document::{Document, NodeKind, NodeRecord, NULL_NODE};
use crate::json::{at, ws_end, ws_end_range};
use crate::source_scan::{
    closing_quote_range, inline_end, inline_end_range, skip_inline_value, skip_string, skip_ws,
    string_at,
};

verus! {

/// A container ready to be scanned: its own source bytes, where they start,
/// and the record chain of its children.
pub struct Opening {
    pub source: Seq<u8>,
    pub kind: NodeKind,
    pub offset: int,
    pub end_id: int,
    pub first: u32,
}

/// The opening of the record `r` with id `id`; none if it is no container or
/// its span does not lie inside the source.
pub open spec fn opening_of(doc: Document, id: u32, r: NodeRecord) -> Option<Opening> {
    let kind = NodeKind::of_code(r.kind);
    if kind.is_container() && r.offset + r.length <= doc.source@.len() {
        Some(
            Opening {
                source: doc.source@.subrange(r.offset as int, r.offset + r.length),
                kind,
                offset: r.offset as int,
                end_id: if id + r.subtree_size <= NULL_NODE {
                    id + r.subtree_size
                } else {
                    doc.records@.len() as u32 as int
                },
                first: if r.subtree_size > 1 && id < NULL_NODE {
                    (id + 1) as u32
                } else {
                    NULL_NODE
                },
            },
        )
    } else {
        None
    }
}

/// The opening of node `id`.
pub open spec fn opening(doc: Document, id: u32) -> Option<Opening> {
    match doc.rec(id) {
        Some(r) => opening_of(doc, id, r),
        None => None,
    }
}

impl Opening {
    pub open spec fn close(self) -> u8 {
        if self.kind == NodeKind::Object {
            0x7D
        } else {
            0x5D
        }
    }

    /// The record `next` of the chain starts at position `pos`.
    pub open spec fn meets(self, doc: Document, pos: int, next: u32) -> bool {
        &&& next != NULL_NODE
        &&& doc.rec(next) matches Some(r) && r.offset == self.offset + pos
    }

    /// The chain's record after `id`.
    pub open spec fn after(self, id: u32, by: u32) -> u32 {
        Document::step(id, by, self.end_id)
    }
}

/// One child of a container.
pub struct Slot {
    /// Where the slot starts: at its key in an object, else at its value.
    pub start: int,
    /// Objects: the position of the quote that closes the key.
    pub key_end: int,
    /// Where the value starts.
    pub value: int,
    /// The value's record, or `NULL_NODE` for a primitive.
    pub id: u32,
    /// Where the value ends, at most at the end of the container.
    pub end: int,
    /// The chain's record after this child.
    pub next: u32,
}

/// In an object, the key that starts at `pos`: the position of its closing
/// quote, and where its value starts.
pub open spec fn key_at(s: Seq<u8>, pos: int) -> Option<(int, int)> {
    match string_at(s, pos) {
        None => None,
        Some(q) => {
            let colon = ws_end(s, q + 1);
            if at(s, colon, 0x3A) {
                Some((q, ws_end(s, colon + 1)))
            } else {
                None
            }
        },
    }
}

/// The value at `value`, when `next` is the chain's next record.
pub open spec fn value_slot(
    doc: Document,
    o: Opening,
    start: int,
    key_end: int,
    value: int,
    next: u32,
) -> Slot {
    if o.meets(doc, value, next) {
        let r = doc.rec(next)->0;
        Slot {
            start,
            key_end,
            value,
            id: next,
            end: if value + r.length <= o.source.len() {
                value + r.length
            } else {
                o.source.len() as int
            },
            next: o.after(next, r.subtree_size),
        }
    } else {
        Slot { start, key_end, value, id: NULL_NODE, end: inline_end(o.source, value), next }
    }
}

/// The child whose slot starts at `pos`; none if an object's key is broken.
pub open spec fn slot_at(doc: Document, o: Opening, pos: int, next: u32) -> Option<Slot> {
    if o.kind == NodeKind::Object {
        match key_at(o.source, pos) {
            Some((key_end, value)) => Some(value_slot(doc, o, pos, key_end, value, next)),
            None => None,
        }
    } else {
        Some(value_slot(doc, o, pos, pos, pos, next))
    }
}

/// Where the slot after one that ends at `end` starts; none at the closing
/// bracket, at the end of the source, and at anything but a comma.
pub open spec fn next_slot(s: Seq<u8>, end: int) -> Option<int> {
    let e = ws_end(s, end);
    if at(s, e, 0x2C) {
        Some(ws_end(s, e + 1))
    } else {
        None
    }
}

/// The children from the slot at `pos` on.
pub open spec fn slots(doc: Document, o: Opening, pos: int, next: u32) -> Seq<Slot>
    decreases o.source.len() - pos,
{
    match slot_at(doc, o, pos, next) {
        None => Seq::empty(),
        Some(slot) => match next_slot(o.source, slot.end) {
            None => seq![slot],
            Some(p) => if pos < p <= o.source.len() {
                seq![slot] + slots(doc, o, p, slot.next)
            } else {
                seq![slot]
            },
        },
    }
}

/// Where the first slot of a container starts; none if it is empty.
pub open spec fn first_slot(o: Opening) -> Option<int> {
    let p = ws_end(o.source, 1);
    if o.source.len() == 0 || at(o.source, p, o.close()) {
        None
    } else {
        Some(p)
    }
}

/// The children of an opened container, in source order.
pub open spec fn children(doc: Document, o: Opening) -> Seq<Slot> {
    match first_slot(o) {
        None => Seq::empty(),
        Some(p) => slots(doc, o, p, o.first),
    }
}

pub proof fn key_at_range(s: Seq<u8>, pos: int)
    requires
        0 <= pos <= s.len(),
        key_at(s, pos) is Some,
    ensures
        pos < key_at(s, pos)->Some_0.0 < key_at(s, pos)->Some_0.1 <= s.len(),
{
    closing_quote_range(s, pos + 1);
    let q = string_at(s, pos)->0;
    ws_end_range(s, q + 1);
    let colon = ws_end(s, q + 1);
    ws_end_range(s, colon + 1);
}

pub proof fn slot_at_range(doc: Document, o: Opening, pos: int, next: u32)
    requires
        0 <= pos <= o.source.len(),
        slot_at(doc, o, pos, next) is Some,
    ensures
        ({
            let slot = slot_at(doc, o, pos, next)->0;
            &&& pos <= slot.value <= o.source.len()
            &&& slot.value <= slot.end <= o.source.len()
        }),
{
    if o.kind == NodeKind::Object {
        key_at_range(o.source, pos);
        let (_, value) = key_at(o.source, pos)->0;
        inline_end_range(o.source, value);
    } else {
        inline_end_range(o.source, pos);
    }
}

pub proof fn ws_end_past(s: Seq<u8>, i: int)
    ensures
        i <= ws_end(s, i),
        i >= s.len() ==> ws_end(s, i) == i,
    decreases s.len() - i,
{
    if 0 <= i < s.len() && crate::json::is_ws(s[i]) {
        ws_end_past(s, i + 1);
    }
}

pub proof fn next_slot_range(s: Seq<u8>, end: int)
    requires
        0 <= end,
        next_slot(s, end) is Some,
    ensures
        end < next_slot(s, end)->0 <= s.len(),
{
    ws_end_past(s, end);
    let e = ws_end(s, end);
    ws_end_range(s, e + 1);
}

/// One step of the enumeration.
pub proof fn slots_step(doc: Document, o: Opening, pos: int, next: u32)
    requires
        0 <= pos <= o.source.len(),
    ensures
        slots(doc, o, pos, next) == match slot_at(doc, o, pos, next) {
            None => Seq::empty(),
            Some(slot) => match next_slot(o.source, slot.end) {
                None => seq![slot],
                Some(p) => seq![slot] + slots(doc, o, p, slot.next),
            },
        },
{
    if slot_at(doc, o, pos, next) is Some {
        slot_at_range(doc, o, pos, next);
        let slot = slot_at(doc, o, pos, next)->0;
        if next_slot(o.source, slot.end) is Some {
            next_slot_range(o.source, slot.end);
        }
    }
}

/// Resolved opening state of a one-level scan.
pub struct ContainerOpen<'a> {
    pub parent: NodeRecord,
    pub kind: NodeKind,
    pub source: &'a [u8],
    pub parent_offset: usize,
    /// One past the last record id of the parent's subtree.
    pub parent_end_id: u32,
    /// The first record of the chain, or `NULL_NODE`.
    pub initial_next_skippable: u32,
}

impl<'a> View for ContainerOpen<'a> {
    type V = Opening;

    open spec fn view(&self) -> Opening {
        Opening {
            source: self.source@,
            kind: self.kind,
            offset: self.parent_offset as int,
            end_id: self.parent_end_id as int,
            first: self.initial_next_skippable,
        }
    }
}

impl<'a> ContainerOpen<'a> {
    /// The container lies inside its document.
    pub open spec fn fits(self) -> bool {
        self.parent_offset + self.source@.len() <= usize::MAX && (self.kind == NodeKind::Object
            || self.kind == NodeKind::Array)
    }

    /// Opens node `parent_id`; `None` if it does not exist, is no container,
    /// or reaches outside the source.
    pub fn new(doc: &'a Document, parent_id: u32) -> (r: Option<ContainerOpen<'a>>)
        ensures
            match opening(*doc, parent_id) {
                Some(o) => r matches Some(c) && c@ == o && c.fits() && c.parent == doc.rec(
                    parent_id,
                )->0,
                None => r is None,
            },
    {
        match doc.record(parent_id) {
            Some(parent) => Self::from_record(doc, parent_id, parent),
            None => None,
        }
    }

    /// As `new`, for a caller that holds the parent's record already.
    pub fn from_record(doc: &'a Document, parent_id: u32, parent: NodeRecord) -> (r: Option<
        ContainerOpen<'a>,
    >)
        ensures
            match opening_of(*doc, parent_id, parent) {
                Some(o) => r matches Some(c) && c@ == o && c.fits() && c.parent == parent,
                None => r is None,
            },
    {
        let kind = NodeKind::from_u8(parent.kind);
        if !(kind == NodeKind::Object || kind == NodeKind::Array) {
            return None;
        }
        let size: u64 = doc.source.len() as u64;
        if parent.offset > size || parent.length > size - parent.offset {
            return None;
        }
        let parent_offset: usize = parent.offset as usize;
        let source_end: usize = (parent.offset + parent.length) as usize;
        let source = vstd::slice::slice_subrange(doc.source.as_slice(), parent_offset, source_end);
        let parent_end_id: u32 = match parent_id.checked_add(parent.subtree_size) {
            Some(e) => e,
            None => doc.records.len() as u32,
        };
        let initial_next_skippable: u32 = if parent.subtree_size > 1 {
            match parent_id.checked_add(1) {
                Some(c) => c,
                None => NULL_NODE,
            }
        } else {
            NULL_NODE
        };
        Some(
            ContainerOpen {
                parent,
                kind,
                source,
                parent_offset,
                parent_end_id,
                initial_next_skippable,
            },
        )
    }

    /// The closing bracket of the container's kind.
    pub fn close_byte(&self) -> (b: u8)
        ensures
            b == self@.close(),
    {
        if self.kind == NodeKind::Object {
            0x7D
        } else {
            0x5D
        }
    }

    /// True iff the record `next_skippable` starts at `pos`.
    pub fn at_skippable(&self, doc: &Document, pos: usize, next_skippable: u32) -> (b: bool)
        requires
            self.fits(),
            pos <= self.source@.len(),
        ensures
            b == self@.meets(*doc, pos as int, next_skippable),
    {
        if next_skippable == NULL_NODE {
            return false;
        }
        match doc.record(next_skippable) {
            Some(r) => r.offset == (self.parent_offset + pos) as u64,
            None => false,
        }
    }

    /// The chain's record after `after`; `NULL_NODE` once the chain leaves
    /// the parent's record range.
    pub fn advance_skippable(&self, after: u32, by: u32) -> (n: u32)
        ensures
            n == self@.after(after, by),
    {
        match after.checked_add(by) {
            Some(n) => if n < self.parent_end_id {
                n
            } else {
                NULL_NODE
            },
            None => NULL_NODE,
        }
    }

    /// Where the first slot starts; `None` for an empty container.
    pub fn first_slot(&self) -> (r: Option<usize>)
        ensures
            match first_slot(self@) {
                Some(p) => r matches Some(x) && x == p && x <= self.source@.len(),
                None => r is None,
            },
    {
        if self.source.len() == 0 {
            return None;
        }
        let p: usize = skip_ws(self.source, 1);
        if p < self.source.len() && self.source[p] == self.close_byte() {
            None
        } else {
            Some(p)
        }
    }

    /// Reads the slot at `pos`.
    pub fn slot(&self, doc: &Document, pos: usize, next_skippable: u32) -> (r: Option<ScanSlot>)
        requires
            self.fits(),
            pos <= self.source@.len(),
        ensures
            match slot_at(*doc, self@, pos as int, next_skippable) {
                Some(s) => r matches Some(x) && x.is_slot(s) && x.value <= x.end <= self.source@.len(),
                None => r is None,
            },
    {
        proof {
            if slot_at(*doc, self@, pos as int, next_skippable) is Some {
                slot_at_range(*doc, self@, pos as int, next_skippable);
            }
        }
        let mut value: usize = pos;
        let mut key_end: usize = pos;
        if self.kind == NodeKind::Object {
            let after_key: usize = match skip_string(self.source, pos) {
                Some(e) => e,
                None => return None,
            };
            key_end = after_key - 1;
            let colon: usize = skip_ws(self.source, after_key);
            if colon >= self.source.len() || self.source[colon] != 0x3A {
                return None;
            }
            value = skip_ws(self.source, colon + 1);
        }
        if self.at_skippable(doc, value, next_skippable) {
            match doc.record(next_skippable) {
                Some(r) => {
                    let size: usize = self.source.len();
                    let end: usize = if r.length <= (size - value) as u64 {
                        value + r.length as usize
                    } else {
                        size
                    };
                    Some(
                        ScanSlot {
                            start: pos,
                            key_end,
                            value,
                            id: next_skippable,
                            end,
                            next: self.advance_skippable(next_skippable, r.subtree_size),
                        },
                    )
                },
                None => None,
            }
        } else {
            let end: usize = skip_inline_value(self.source, value);
            Some(
                ScanSlot {
                    start: pos,
                    key_end,
                    value,
                    id: NULL_NODE,
                    end,
                    next: next_skippable,
                },
            )
        }
    }

    /// Where the slot after one that ends at `end` starts; `None` if there is
    /// none.
    pub fn next_slot(&self, end: usize) -> (r: Option<usize>)
        requires
            end <= self.source@.len(),
        ensures
            match next_slot(self.source@, end as int) {
                Some(p) => r matches Some(x) && x == p && end < x <= self.source@.len(),
                None => r is None,
            },
    {
        let e: usize = skip_ws(self.source, end);
        if e < self.source.len() && self.source[e] == 0x2C {
            Some(skip_ws(self.source, e + 1))
        } else {
            None
        }
    }
}

/// A slot as a scan holds it.
#[derive(Copy, Clone)]
pub struct ScanSlot {
    pub start: usize,
    pub key_end: usize,
    pub value: usize,
    pub id: u32,
    pub end: usize,
    pub next: u32,
}

impl ScanSlot {
    /// `self` is the slot `s`.
    pub open spec fn is_slot(self, s: Slot) -> bool {
        &&& self.start == s.start
        &&& self.key_end == s.key_end
        &&& self.value == s.value
        &&& self.id == s.id
        &&& self.end == s.end
        &&& self.next == s.next
    }
}

} // verus!
