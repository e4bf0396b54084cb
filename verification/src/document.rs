//! Node records and the opened document.
use vstd::prelude::*;

use crate::error::EngineError;
use crate::layout::{closest_parent, encloses, layout_ok, layout_ok_at, parsed_layout_ok};
use crate::parser::{document, document_closed, KeySink, Parser, RecordSink};
use crate::progress::ParseProgress;

verus! {

/// The id of no node.
pub const NULL_NODE: u32 = 0xFFFF_FFFF;

pub const FLAG_OBJECT_MEMBER: u8 = 1;

pub const FLAG_ARRAY_ELEMENT: u8 = 2;

/// Set on a child's metadata when its key is still the raw source text
/// between the quotes, not decoded text of the keys arena.
pub const FLAG_KEY_IN_SOURCE: u8 = 4;

/// Strings whose source span (quotes included) is shorter than this get no
/// record.
pub const FAT_STRING_THRESHOLD: u32 = 256;

/// The shortest source span of a record-bearing value: `{}` or `[]`.
pub const MIN_BYTES_PER_SKIPPABLE: u64 = 2;

/// The kind of a JSON value.
#[derive(Copy, Clone, Debug, PartialEq, Eq, Structural)]
pub enum NodeKind {
    Null,
    Bool,
    Number,
    String,
    Array,
    Object,
}

impl NodeKind {
    /// The number under which a record stores the kind.
    pub open spec fn code(self) -> u8 {
        match self {
            NodeKind::Null => 0,
            NodeKind::Bool => 1,
            NodeKind::Number => 2,
            NodeKind::String => 3,
            NodeKind::Array => 4,
            NodeKind::Object => 5,
        }
    }

    /// The kind stored as `b`; an unknown number reads as null.
    pub open spec fn of_code(b: u8) -> NodeKind {
        if b == 1 {
            NodeKind::Bool
        } else if b == 2 {
            NodeKind::Number
        } else if b == 3 {
            NodeKind::String
        } else if b == 4 {
            NodeKind::Array
        } else if b == 5 {
            NodeKind::Object
        } else {
            NodeKind::Null
        }
    }

    pub open spec fn is_container(self) -> bool {
        self == NodeKind::Array || self == NodeKind::Object
    }

    /// Reads a stored kind.
    pub fn from_u8(b: u8) -> (k: NodeKind)
        ensures
            k == NodeKind::of_code(b),
    {
        match b {
            0 => NodeKind::Null,
            1 => NodeKind::Bool,
            2 => NodeKind::Number,
            3 => NodeKind::String,
            4 => NodeKind::Array,
            5 => NodeKind::Object,
            _ => NodeKind::Null,
        }
    }

    /// The number to store for this kind.
    pub fn to_u8(self) -> (b: u8)
        ensures
            b == self.code(),
    {
        match self {
            NodeKind::Null => 0,
            NodeKind::Bool => 1,
            NodeKind::Number => 2,
            NodeKind::String => 3,
            NodeKind::Array => 4,
            NodeKind::Object => 5,
        }
    }
}

/// Storing a kind and reading it back gives the kind.
pub proof fn kind_code_round_trip(k: NodeKind)
    ensures
        NodeKind::of_code(k.code()) == k,
{
}

/// One indexed JSON node.
#[derive(Copy, Clone, Debug, PartialEq, Eq, Structural)]
pub struct NodeRecord {
    pub offset: u64,
    /// Source byte length of the value.
    pub length: u64,
    /// Object members: byte offset into the decoded keys arena.
    /// Array elements: the slot index.
    pub key_or_index: u64,
    pub parent: u32,
    /// Number of records in this subtree, this one included.
    pub subtree_size: u32,
    /// Direct children, primitives included.
    pub child_count: u32,
    /// Decoded byte length of an object key.
    pub key_length: u32,
    pub kind: u8,
    pub flags: u8,
}

/// Records kept in the parser's window before the oldest are moved on.
pub const RECORD_BUFFER_RECORDS: usize = 349525;

/// Key bytes kept in the parser's buffer before they are moved on.
pub const KEY_BUFFER_BYTES: usize = 16777216;

/// An opened document: its source bytes and its index.
pub struct Document {
    pub source: Vec<u8>,
    pub records: Vec<NodeRecord>,
    pub keys: Vec<u8>,
    pub parsed_this_session: bool,
}

/// The bytes `s[start .. start + len]`, if they lie inside `s`.
pub open spec fn span(s: Seq<u8>, start: int, len: int) -> Option<Seq<u8>> {
    if start + len <= s.len() {
        Some(s.subrange(start, start + len))
    } else {
        None
    }
}

/// The bytes `s[start .. start + len]`, if they lie inside `s`.
pub fn get_span(s: &[u8], start: u64, len: u64) -> (r: Option<&[u8]>)
    ensures
        match span(s@, start as int, len as int) {
            Some(b) => r matches Some(x) && x@ == b,
            None => r is None,
        },
{
    let size: usize = s.len();
    if start <= size as u64 && len <= size as u64 - start {
        Some(vstd::slice::slice_subrange(s, start as usize, (start + len) as usize))
    } else {
        None
    }
}

impl Document {
    /// The record with id `id`.
    pub open spec fn rec(self, id: u32) -> Option<NodeRecord> {
        if (id as int) < self.records@.len() {
            Some(self.records@[id as int])
        } else {
            None
        }
    }

    /// The document that indexing `source` yields.
    pub open spec fn is_index_of(self, source: Seq<u8>) -> bool {
        &&& self.indexes(source)
        &&& self.parsed_this_session
        &&& layout_ok(self.records@)
    }

    /// The document holds `source` and the index that parsing it yields,
    /// whether it was parsed now or its index came from a cache.
    pub open spec fn indexes(self, source: Seq<u8>) -> bool {
        &&& self.source@ == source
        &&& document(source) matches Ok(v) && self.records@ == v.records && self.keys@ == v.keys
    }

    /// Indexes the bytes of a JSON file.
    pub fn open(source: Vec<u8>) -> (r: Result<Document, EngineError>)
        ensures
            source@.len() == 0 ==> r == Err::<Document, EngineError>(EngineError::Empty),
            source@.len() > 0 ==> match document(source@) {
                Ok(v) => r matches Ok(d) && d.is_index_of(source@),
                Err(f) => r matches Err(e) && e.is_fault(f),
            },
    {
        let mut progress = ParseProgress::new();
        Document::open_reporting(source, &mut progress)
    }

    /// Indexes the bytes of a JSON file and reports where the last container
    /// ends that was closed, also if the parse fails.
    pub fn open_reporting(source: Vec<u8>, progress: &mut ParseProgress) -> (r: Result<
        Document,
        EngineError,
    >)
        ensures
            source@.len() == 0 ==> r == Err::<Document, EngineError>(EngineError::Empty)
                && *final(progress) == *old(progress),
            source@.len() > 0 ==> {
                &&& final(progress).total == old(progress).total
                &&& final(progress).parsed == match document_closed(source@) {
                    Some(e) => e,
                    None => 0,
                }
                &&& match document(source@) {
                    Ok(v) => r matches Ok(d) && d.is_index_of(source@),
                    Err(f) => r matches Err(e) && e.is_fault(f),
                }
            },
    {
        let size: usize = source.len();
        if size == 0 {
            return Err(EngineError::Empty);
        }
        let mut parser = Parser::new(
            source.as_slice(),
            RecordSink::new(RECORD_BUFFER_RECORDS),
            KeySink::new(KEY_BUFFER_BYTES),
        );
        let parsed = parser.parse_document();
        progress.report_parse_progress(parser.closed);
        match parsed {
            Ok(()) => {
                proof {
                    parsed_layout_ok(source@);
                }
                let records = parser.records.finish();
                let keys = parser.keys.finish();
                Ok(Document { source, records, keys, parsed_this_session: true })
            },
            Err(e) => Err(e),
        }
    }

    /// A document whose index was read back from a cache.
    pub fn from_cache(source: Vec<u8>, records: Vec<NodeRecord>, keys: Vec<u8>) -> (d: Document)
        ensures
            d.source == source,
            d.records == records,
            d.keys == keys,
            !d.parsed_this_session,
    {
        Document { source, records, keys, parsed_this_session: false }
    }

    /// True when opening the document found a valid cache and did not parse.
    pub fn loaded_from_sidecar(&self) -> (b: bool)
        ensures
            b == !self.parsed_this_session,
    {
        !self.parsed_this_session
    }

    pub fn records(&self) -> (r: &[NodeRecord])
        ensures
            r@ == self.records@,
    {
        self.records.as_slice()
    }

    pub fn keys(&self) -> (r: &[u8])
        ensures
            r@ == self.keys@,
    {
        self.keys.as_slice()
    }

    /// The record with id `id`, if there is one.
    pub fn record(&self, id: u32) -> (r: Option<NodeRecord>)
        ensures
            r == self.rec(id),
    {
        if (id as usize) < self.records.len() {
            Some(self.records[id as usize])
        } else {
            None
        }
    }

    /// The kind of node `id`; null for an unknown id.
    pub open spec fn kind_of(self, id: u32) -> NodeKind {
        match self.rec(id) {
            Some(r) => NodeKind::of_code(r.kind),
            None => NodeKind::Null,
        }
    }

    pub fn node_kind(&self, id: u32) -> (k: NodeKind)
        ensures
            k == self.kind_of(id),
    {
        match self.record(id) {
            Some(r) => NodeKind::from_u8(r.kind),
            None => NodeKind::Null,
        }
    }

    /// The source bytes of node `id`.
    pub open spec fn value_span(self, id: u32) -> Option<Seq<u8>> {
        match self.rec(id) {
            Some(r) => span(self.source@, r.offset as int, r.length as int),
            None => None,
        }
    }

    /// The source bytes of node `id`, if they lie inside the source.
    pub fn value_bytes(&self, id: u32) -> (r: Option<&[u8]>)
        ensures
            match self.value_span(id) {
                Some(b) => r matches Some(x) && x@ == b,
                None => r is None,
            },
    {
        match self.record(id) {
            Some(rec) => get_span(self.source.as_slice(), rec.offset, rec.length),
            None => None,
        }
    }

    /// The arena bytes of a record's key.
    pub open spec fn key_span(self, r: NodeRecord) -> Option<Seq<u8>> {
        span(self.keys@, r.key_or_index as int, r.key_length as int)
    }

    pub fn record_key(&self, rec: &NodeRecord) -> (r: Option<&[u8]>)
        ensures
            match self.key_span(*rec) {
                Some(b) => r matches Some(x) && x@ == b,
                None => r is None,
            },
    {
        get_span(self.keys.as_slice(), rec.key_or_index, rec.key_length as u64)
    }

    /// The decoded key of node `id`, if it is an object member.
    pub fn key_bytes(&self, id: u32) -> (r: Option<&[u8]>)
        ensures
            match self.rec(id) {
                Some(rec) => if rec.flags & FLAG_OBJECT_MEMBER == 0 {
                    r is None
                } else {
                    match self.key_span(rec) {
                        Some(b) => r matches Some(x) && x@ == b,
                        None => r is None,
                    }
                },
                None => r is None,
            },
    {
        match self.record(id) {
            Some(rec) => if rec.flags & FLAG_OBJECT_MEMBER == 0 {
                None
            } else {
                self.record_key(&rec)
            },
            None => None,
        }
    }

    /// The id after `id` by `by`, if it stays below `end`.
    pub open spec fn step(id: u32, by: u32, end: int) -> u32 {
        if id + by <= NULL_NODE && id + by < end {
            (id + by) as u32
        } else {
            NULL_NODE
        }
    }

    /// The first child of `id` that has a record: the next id, if the subtree
    /// holds more than the node itself.
    pub fn first_skippable_child(&self, id: u32) -> (c: u32)
        ensures
            c == match self.rec(id) {
                Some(r) => if r.subtree_size > 1 && id < NULL_NODE {
                    (id + 1) as u32
                } else {
                    NULL_NODE
                },
                None => NULL_NODE,
            },
    {
        match self.record(id) {
            Some(r) => if r.subtree_size > 1 {
                match id.checked_add(1) {
                    Some(c) => c,
                    None => NULL_NODE,
                }
            } else {
                NULL_NODE
            },
            None => NULL_NODE,
        }
    }

    /// The next sibling of `id` with a record, when the parent's subtree ends
    /// at `parent_subtree_end`.
    pub fn next_skippable_sibling_with_end(&self, id: u32, parent_subtree_end: u32) -> (c: u32)
        ensures
            c == match self.rec(id) {
                Some(r) => Self::step(id, r.subtree_size, parent_subtree_end as int),
                None => NULL_NODE,
            },
    {
        match self.record(id) {
            Some(r) => match id.checked_add(r.subtree_size) {
                Some(next) => if next < parent_subtree_end {
                    next
                } else {
                    NULL_NODE
                },
                None => NULL_NODE,
            },
            None => NULL_NODE,
        }
    }

    /// The next sibling of `id` with a record.
    pub open spec fn sibling_of(self, id: u32) -> u32 {
        match self.rec(id) {
            Some(r) => match self.rec(r.parent) {
                Some(p) => if r.parent != NULL_NODE && r.parent + p.subtree_size <= NULL_NODE {
                    Self::step(id, r.subtree_size, r.parent + p.subtree_size)
                } else {
                    NULL_NODE
                },
                None => NULL_NODE,
            },
            None => NULL_NODE,
        }
    }

    pub fn next_skippable_sibling(&self, id: u32) -> (c: u32)
        ensures
            c == self.sibling_of(id),
    {
        let r = match self.record(id) {
            Some(r) => r,
            None => return NULL_NODE,
        };
        if r.parent == NULL_NODE {
            return NULL_NODE;
        }
        let parent = match self.record(r.parent) {
            Some(p) => p,
            None => return NULL_NODE,
        };
        match r.parent.checked_add(parent.subtree_size) {
            Some(end) => self.next_skippable_sibling_with_end(id, end),
            None => NULL_NODE,
        }
    }

    /// The end of `id`'s subtree: `id + subtree_size`.
    pub fn subtree_end(&self, id: u32) -> (e: u32)
        ensures
            e == match self.rec(id) {
                Some(r) => if id + r.subtree_size <= NULL_NODE {
                    (id + r.subtree_size) as u32
                } else {
                    NULL_NODE
                },
                None => id,
            },
    {
        match self.record(id) {
            Some(r) => match id.checked_add(r.subtree_size) {
                Some(e) => e,
                None => NULL_NODE,
            },
            None => id,
        }
    }

    /// Walks the records once and tells whether they are laid out as every
    /// traversal assumes.
    pub fn verify_subtree_invariants(&self) -> (ok: bool)
        requires
            self.records@.len() <= NULL_NODE,
        ensures
            ok == layout_ok(self.records@),
    {
        let ghost recs = self.records@;
        let len: u32 = self.records.len() as u32;
        // The containers whose subtree the walk is inside of, innermost last.
        let mut stack: Vec<(u32, u32)> = Vec::new();
        let mut id: u32 = 0;
        while id < len
            invariant
                recs == self.records@,
                len == recs.len(),
                id <= len,
                forall|j: int| 0 <= j < id ==> #[trigger] layout_ok_at(recs, j),
                open_stack(recs, stack@, id as int),
            decreases len - id,
        {
            let r = self.records[id as usize];
            while stack.len() > 0 && stack[stack.len() - 1].1 <= id
                invariant
                    open_stack(recs, stack@, id as int),
                    id < len,
                    len == recs.len(),
                decreases stack.len(),
            {
                let ghost before = stack@;
                let _popped: Option<(u32, u32)> = stack.pop();
                proof {
                    pop_open(recs, before, id as int);
                }
            }
            let expected_parent: u32 = if stack.len() > 0 {
                stack[stack.len() - 1].0
            } else {
                NULL_NODE
            };
            proof {
                top_is_closest(recs, stack@, id as int);
            }
            if r.parent != expected_parent || r.subtree_size == 0 || r.subtree_size > len - id {
                assert(!layout_ok_at(recs, id as int));
                return false;
            }
            let kind = NodeKind::from_u8(r.kind);
            if kind == NodeKind::Object || kind == NodeKind::Array {
                let ghost before = stack@;
                stack.push((id, id + r.subtree_size));
                proof {
                    push_open(recs, before, id as int);
                }
            } else {
                if r.subtree_size != 1 {
                    assert(!layout_ok_at(recs, id as int));
                    return false;
                }
                proof {
                    skip_open(recs, stack@, id as int);
                }
            }
            assert(layout_ok_at(recs, id as int));
            id += 1;
        }
        true
    }
}

/// The stack holds containers before `i` with their ends, innermost last,
/// and misses none that covers `i` or a later record.
pub open spec fn open_stack(recs: Seq<NodeRecord>, stack: Seq<(u32, u32)>, i: int) -> bool {
    &&& forall|k: int|
        0 <= k < stack.len() ==> (#[trigger] stack[k]).0 < i && stack[k].0 < recs.len()
            && stack[k].1 == stack[k].0 + recs[stack[k].0 as int].subtree_size
            && NodeKind::of_code(recs[stack[k].0 as int].kind).is_container()
    &&& forall|k: int, l: int| 0 <= k < l < stack.len() ==> (#[trigger] stack[k]).0 < (#[trigger] stack[l]).0
    &&& forall|q: int, j: int|
        i <= j && q < i && #[trigger] encloses(recs, q, j) ==> on_stack(stack, q)
}

pub open spec fn on_stack(stack: Seq<(u32, u32)>, q: int) -> bool {
    exists|k: int| 0 <= k < stack.len() && (#[trigger] stack[k]).0 == q
}

proof fn pop_open(recs: Seq<NodeRecord>, stack: Seq<(u32, u32)>, i: int)
    requires
        open_stack(recs, stack, i),
        stack.len() > 0,
        stack.last().1 <= i,
    ensures
        open_stack(recs, stack.drop_last(), i),
{
    let rest = stack.drop_last();
    assert forall|q: int, j: int| i <= j && q < i && #[trigger] encloses(recs, q, j) implies on_stack(
        rest,
        q,
    ) by {
        let k = choose|k: int| 0 <= k < stack.len() && (#[trigger] stack[k]).0 == q;
        assert(rest[k] == stack[k]);
    }
}

proof fn top_is_closest(recs: Seq<NodeRecord>, stack: Seq<(u32, u32)>, i: int)
    requires
        open_stack(recs, stack, i),
        0 <= i < recs.len() <= NULL_NODE,
        stack.len() > 0 ==> stack.last().1 > i,
    ensures
        forall|p: u32|
            closest_parent(recs, i, p) <==> p == (if stack.len() > 0 {
                stack.last().0
            } else {
                NULL_NODE
            }),
{
    let top = if stack.len() > 0 {
        stack.last().0
    } else {
        NULL_NODE
    };
    assert forall|q: int| #[trigger] encloses(recs, q, i) implies stack.len() > 0 && q <= top by {
        assert(on_stack(stack, q));
        let k = choose|k: int| 0 <= k < stack.len() && (#[trigger] stack[k]).0 == q;
        if k < stack.len() - 1 {
            assert(stack[k].0 < stack[stack.len() - 1].0);
        }
    }
    if stack.len() > 0 {
        assert(stack[stack.len() - 1] == stack.last());
        assert(encloses(recs, top as int, i));
    }
    assert(closest_parent(recs, i, top));
    assert forall|p: u32| closest_parent(recs, i, p) implies p == top by {
        if stack.len() > 0 {
            assert(encloses(recs, top as int, i));
        }
    }
}

proof fn push_open(recs: Seq<NodeRecord>, stack: Seq<(u32, u32)>, i: int)
    requires
        open_stack(recs, stack, i),
        0 <= i < recs.len() <= NULL_NODE,
        recs[i].subtree_size <= recs.len() - i,
        NodeKind::of_code(recs[i].kind).is_container(),
    ensures
        open_stack(recs, stack.push((i as u32, (i + recs[i].subtree_size) as u32)), i + 1),
{
    let new = stack.push((i as u32, (i + recs[i].subtree_size) as u32));
    assert forall|k: int| 0 <= k < new.len() implies (#[trigger] new[k]).0 < i + 1 && new[k].0 < recs.len()
        && new[k].1 == new[k].0 + recs[new[k].0 as int].subtree_size && NodeKind::of_code(
        recs[new[k].0 as int].kind,
    ).is_container() by {
        if k < stack.len() {
            assert(new[k] == stack[k]);
        }
    }
    assert forall|k: int, l: int| 0 <= k < l < new.len() implies (#[trigger] new[k]).0 < (#[trigger] new[l]).0 by {
        assert(new[k] == stack[k]);
        if l < stack.len() {
            assert(new[l] == stack[l]);
        }
    }
    assert forall|q: int, j: int| i + 1 <= j && q < i + 1 && #[trigger] encloses(recs, q, j) implies on_stack(
        new,
        q,
    ) by {
        if q == i {
            assert(new[stack.len() as int].0 == q);
        } else {
            let k = choose|k: int| 0 <= k < stack.len() && (#[trigger] stack[k]).0 == q;
            assert(new[k] == stack[k]);
        }
    }
}

proof fn skip_open(recs: Seq<NodeRecord>, stack: Seq<(u32, u32)>, i: int)
    requires
        open_stack(recs, stack, i),
        0 <= i < recs.len(),
        !NodeKind::of_code(recs[i].kind).is_container(),
    ensures
        open_stack(recs, stack, i + 1),
{
}

} // verus!
