//! Browsing: the rows of the tree view, the detail of a node, and the chain
//! of its ancestors.
use vstd::prelude::*;

use crate::children::{
    after_in_source, after_rows, batches_join, child_rows, engine_node_children_meta_batch_resume,
    entered, enumeration_resumes, fresh, rows, EngineChildMeta, EngineScanState,
    ENGINE_SCAN_STATE_FRESH,
};
use crate::container_scan::{opening, Opening};
use crate::document::{
    Document, FLAG_ARRAY_ELEMENT, FLAG_KEY_IN_SOURCE, FLAG_OBJECT_MEMBER, NULL_NODE,
};
use crate::json::ws_end_range;
use crate::node::{
    bytes_at, child_count, engine_decode_json_string, engine_file_size, engine_loaded_from_sidecar,
    engine_node_array_index, engine_node_byte_length, engine_node_byte_offset,
    engine_node_child_count, engine_node_is_array_element, engine_node_key, engine_node_kind,
    engine_node_parent, engine_node_path, engine_node_value_bytes, engine_node_value_bytes_at,
    engine_root, engine_total_node_count, in_array, key_of, parent_of, root_of, slot_of,
};
use crate::path::{parents_first, path_text, steps_to};
use crate::query::value::{text_of, read_text};
use crate::source_scan::decoded;
use crate::text::{decimal, decimal_text};

verus! {

pub const KIND_ARRAY: u8 = 4;

pub const KIND_OBJECT: u8 = 5;

/// How many bytes of a value a row shows.
pub const PREVIEW_MAX_BYTES: u64 = 256;

/// How many children are skipped at a time.
pub const SKIP_CHUNK: u32 = 256;

/// A document just opened.
#[derive(Debug)]
pub struct OpenResult {
    pub doc_id: u32,
    pub file_size: u64,
    pub total_node_count: u64,
    pub root_id: u32,
    pub loaded_from_sidecar: bool,
}

/// A row of the tree view. A primitive has no id and cannot be expanded.
#[derive(Debug)]
pub struct ChildDto {
    pub id: Option<u32>,
    pub kind: u8,
    pub key: Option<String>,
    pub index: Option<u32>,
    pub child_count: u32,
    pub is_container: bool,
    pub preview: String,
    pub truncated: bool,
}

/// What the inspector shows of a node.
#[derive(Debug)]
pub struct NodeDetailDto {
    pub id: u32,
    pub kind: u8,
    pub child_count: u32,
    pub is_container: bool,
    pub byte_offset: u64,
    pub byte_length: u64,
    pub path: String,
    pub value: Option<String>,
    pub key: Option<String>,
    pub array_index: Option<u32>,
}

/// A part of the breadcrumb.
#[derive(Debug)]
pub struct AncestorDto {
    pub id: u32,
    pub label: String,
}

/// The facts of an opened document.
pub fn meta(doc: &Document, doc_id: u32) -> (r: OpenResult)
    ensures
        r.doc_id == doc_id,
        r.file_size == doc.source@.len(),
        r.total_node_count == doc.records@.len(),
        r.root_id == root_of(*doc),
        r.loaded_from_sidecar == !doc.parsed_this_session,
{
    OpenResult {
        doc_id,
        file_size: engine_file_size(doc),
        total_node_count: engine_total_node_count(doc),
        root_id: engine_root(doc),
        loaded_from_sidecar: engine_loaded_from_sidecar(doc),
    }
}

pub open spec fn is_container_kind(k: u8) -> bool {
    k == KIND_ARRAY || k == KIND_OBJECT
}

/// The text of some bytes; none where there are none.
pub open spec fn shown(b: Option<Seq<u8>>) -> Option<Seq<char>> {
    match b {
        Some(s) => if s.len() == 0 {
            None
        } else {
            Some(text_of(s))
        },
        None => None,
    }
}

pub open spec fn shown_or(b: Option<Seq<u8>>, other: Seq<char>) -> Seq<char> {
    match shown(b) {
        Some(t) => t,
        None => other,
    }
}

pub open spec fn is_text(r: Option<String>, t: Option<Seq<char>>) -> bool {
    match t {
        Some(x) => r matches Some(s) && s@ == x,
        None => r is None,
    }
}

fn slice_to_string(b: Option<&[u8]>) -> (r: Option<String>)
    ensures
        is_text(
            r,
            shown(
                match b {
                    Some(x) => Some(x@),
                    None => None,
                },
            ),
        ),
{
    match b {
        Some(s) => if s.len() == 0 {
            None
        } else {
            Some(read_text(s))
        },
        None => None,
    }
}

/// The key of a child, decoded where it is still source text.
pub open spec fn key_text(doc: Document, m: EngineChildMeta) -> Option<Seq<char>> {
    let in_source = m.flags & FLAG_KEY_IN_SOURCE != 0;
    match bytes_at(doc, m.key_offset, m.key_length as u64, in_source) {
        Some(raw) => if !in_source {
            shown(Some(raw))
        } else {
            shown(decoded(raw))
        },
        None => None,
    }
}

fn decode_key(doc: &Document, m: &EngineChildMeta) -> (r: Option<String>)
    ensures
        is_text(r, key_text(*doc, *m)),
{
    let in_source = m.flags & FLAG_KEY_IN_SOURCE != 0;
    match engine_node_value_bytes_at(doc, m.key_offset, m.key_length as u64, in_source) {
        Some(raw) => if !in_source {
            slice_to_string(Some(raw))
        } else {
            match engine_decode_json_string(raw) {
                Some(text) => slice_to_string(Some(text.as_slice())),
                None => None,
            }
        },
        None => None,
    }
}

pub open spec fn least(a: u64, b: u64) -> u64 {
    if a < b {
        a
    } else {
        b
    }
}

/// The start of a value: its text, and whether there is more.
pub open spec fn prefix_text(doc: Document, offset: u64, length: u64, max: u64) -> (Seq<char>, bool) {
    if length == 0 {
        (Seq::empty(), false)
    } else {
        (
            shown_or(bytes_at(doc, offset, least(length, max), true), Seq::empty()),
            max < length,
        )
    }
}

fn empty_text() -> (s: String)
    ensures
        s@ == Seq::<char>::empty(),
{
    let s = String::new();
    assert(s@ =~= Seq::empty());
    s
}

fn value_prefix(doc: &Document, offset: u64, length: u64, max_bytes: u64) -> (r: (String, bool))
    ensures
        r.0@ == prefix_text(*doc, offset, length, max_bytes).0,
        r.1 == prefix_text(*doc, offset, length, max_bytes).1,
{
    if length == 0 {
        return (empty_text(), false);
    }
    let n: u64 = if length < max_bytes {
        length
    } else {
        max_bytes
    };
    let text = match slice_to_string(engine_node_value_bytes_at(doc, offset, n, true)) {
        Some(t) => t,
        None => empty_text(),
    };
    (text, n < length)
}

/// `d` is the row of the child `m`.
pub open spec fn is_child(d: ChildDto, doc: Document, m: EngineChildMeta) -> bool {
    &&& d.id == if m.id == NULL_NODE {
        None
    } else {
        Some(m.id)
    }
    &&& d.kind == m.kind
    &&& is_text(
        d.key,
        if m.flags & FLAG_OBJECT_MEMBER != 0 && m.key_length > 0 {
            key_text(doc, m)
        } else {
            None
        },
    )
    &&& d.index == if m.flags & FLAG_ARRAY_ELEMENT != 0 {
        Some(m.array_index)
    } else {
        None
    }
    &&& d.child_count == m.child_count
    &&& d.is_container == is_container_kind(m.kind)
    &&& if is_container_kind(m.kind) {
        d.preview@ == Seq::<char>::empty() && !d.truncated
    } else {
        let p = prefix_text(doc, m.value_offset, m.value_length, PREVIEW_MAX_BYTES);
        d.preview@ == p.0 && d.truncated == p.1
    }
}

/// The row of a child.
pub fn child_dto(doc: &Document, m: &EngineChildMeta) -> (d: ChildDto)
    ensures
        is_child(d, *doc, *m),
{
    let is_container = m.kind == KIND_ARRAY || m.kind == KIND_OBJECT;
    let id = if m.id == NULL_NODE {
        None
    } else {
        Some(m.id)
    };
    let key = if (m.flags & FLAG_OBJECT_MEMBER) != 0 && m.key_length > 0 {
        decode_key(doc, m)
    } else {
        None
    };
    let index = if (m.flags & FLAG_ARRAY_ELEMENT) != 0 {
        Some(m.array_index)
    } else {
        None
    };
    let (preview, truncated) = if is_container {
        (empty_text(), false)
    } else {
        value_prefix(doc, m.value_offset, m.value_length, PREVIEW_MAX_BYTES)
    };
    ChildDto {
        id,
        kind: m.kind,
        key,
        index,
        child_count: m.child_count,
        is_container,
        preview,
        truncated,
    }
}

/// `out` are the rows of the children `v`.
pub open spec fn are_children(out: Seq<ChildDto>, doc: Document, v: Seq<EngineChildMeta>) -> bool {
    out.len() == v.len() && forall|i: int|
        0 <= i < out.len() ==> is_child(#[trigger] out[i], doc, v[i])
}

fn child_dtos(doc: &Document, v: &Vec<EngineChildMeta>) -> (out: Vec<ChildDto>)
    ensures
        are_children(out@, *doc, v@),
{
    let mut out: Vec<ChildDto> = Vec::new();
    let mut i: usize = 0;
    while i < v.len()
        invariant
            i <= v@.len(),
            out@.len() == i,
            forall|k: int| 0 <= k < i ==> is_child(#[trigger] out@[k], *doc, v@[k]),
        decreases v@.len() - i,
    {
        out.push(child_dto(doc, &v[i]));
        i += 1;
    }
    out
}

/// Where the enumeration of a container stands.
pub struct ChildCursor {
    pub parent: u32,
    /// The child that comes next.
    pub next_offset: u32,
    pub state: EngineScanState,
}

/// The state of an enumeration after `n` children, or after all of them.
pub open spec fn stands_after(doc: Document, o: Opening, st: EngineScanState, n: int) -> bool {
    let start = entered(o, fresh());
    let all = rows(doc, o, start).len();
    let k = if n < all {
        n
    } else {
        all as int
    };
    entered(o, st) == after_rows(doc, o, start, k as nat) && (st.pos == ENGINE_SCAN_STATE_FRESH
        ==> st == fresh() && n == 0)
}

impl ChildCursor {
    pub open spec fn wf(self, doc: Document) -> bool {
        match opening(doc, self.parent) {
            Some(o) => stands_after(doc, o, self.state, self.next_offset as int),
            None => true,
        }
    }
}

/// Pages through the children of containers. Each container has a cursor, so
/// that a page which follows the one before is read from where that ended.
pub struct Pager {
    pub cursors: Vec<ChildCursor>,
}

/// The children `offset .. offset + limit` of node `parent`.
pub open spec fn page(doc: Document, parent: u32, offset: u32, limit: u32) -> Seq<EngineChildMeta> {
    let all = child_rows(doc, parent);
    let from = if offset < all.len() {
        offset as int
    } else {
        all.len() as int
    };
    let to = if offset + limit < all.len() {
        offset + limit
    } else {
        all.len() as int
    };
    all.subrange(from, to)
}

impl Pager {
    pub open spec fn wf(self, doc: Document) -> bool {
        forall|i: int| 0 <= i < self.cursors@.len() ==> (#[trigger] self.cursors@[i]).wf(doc)
    }

    pub fn new() -> (p: Pager)
        ensures
            p.cursors@.len() == 0,
            forall|doc: Document| #[trigger] p.wf(doc),
    {
        Pager { cursors: Vec::new() }
    }

    /// Takes out the cursor of `parent` where it stands at `offset`, and
    /// drops it where it stands elsewhere.
    fn take(&mut self, parent: u32, offset: u32, doc: &Document) -> (r: Option<EngineScanState>)
        requires
            old(self).wf(*doc),
        ensures
            final(self).wf(*doc),
            r matches Some(st) ==> (ChildCursor { parent, next_offset: offset, state: st }).wf(
                *doc,
            ),
    {
        let mut i: usize = 0;
        while i < self.cursors.len()
            invariant
                self.wf(*doc),
                i <= self.cursors@.len(),
            decreases self.cursors@.len() - i,
        {
            if self.cursors[i].parent == parent {
                let ghost before = self.cursors@;
                let c = self.cursors.swap_remove(i);
                proof {
                    assert(before[i as int].wf(*doc));
                    assert forall|k: int| 0 <= k < self.cursors@.len() implies (
                    #[trigger] self.cursors@[k]).wf(*doc) by {
                        assert(self.cursors@[k] == before[k] || self.cursors@[k] == before[before.len()
                            - 1]);
                        assert(before[k].wf(*doc));
                        assert(before[before.len() - 1].wf(*doc));
                    }
                }
                if c.next_offset == offset {
                    assert(c == ChildCursor { parent, next_offset: offset, state: c.state });
                    return Some(c.state);
                }
                return None;
            }
            i += 1;
        }
        None
    }

    /// One page of the children of `parent`.
    pub fn children(&mut self, doc: &Document, parent: u32, offset: u32, limit: u32) -> (out: Vec<
        ChildDto,
    >)
        requires
            old(self).wf(*doc),
            doc.source@.len() < ENGINE_SCAN_STATE_FRESH,
        ensures
            final(self).wf(*doc),
            are_children(out@, *doc, page(*doc, parent, offset, limit)),
    {
        if limit == 0 {
            let out: Vec<ChildDto> = Vec::new();
            assert(page(*doc, parent, offset, limit) =~= Seq::empty());
            return out;
        }
        let mut state = match self.take(parent, offset, doc) {
            Some(st) => st,
            None => skip_children(doc, parent, offset),
        };
        let ghost before = state;
        let batch = engine_node_children_meta_batch_resume(doc, parent, &mut state, limit);
        proof {
            page_follows(*doc, parent, offset, limit, before, state, batch@);
        }
        let written: usize = batch.len();
        if written <= (u32::MAX - offset) as usize {
            let next: u32 = offset + written as u32;
            let cursor = ChildCursor { parent, next_offset: next, state };
            let ghost kept = self.cursors@;
            self.cursors.push(cursor);
            proof {
                assert forall|k: int| 0 <= k < self.cursors@.len() implies (
                #[trigger] self.cursors@[k]).wf(*doc) by {
                    if k < kept.len() {
                        assert(kept[k].wf(*doc));
                    }
                }
            }
        }
        child_dtos(doc, &batch)
    }
}

/// A batch read where an enumeration stands after `offset` children is the
/// page there, and leaves the enumeration behind it.
proof fn page_follows(
    doc: Document,
    parent: u32,
    offset: u32,
    limit: u32,
    before: EngineScanState,
    after: EngineScanState,
    batch: Seq<EngineChildMeta>,
)
    requires
        limit > 0,
        doc.source@.len() < ENGINE_SCAN_STATE_FRESH,
        (ChildCursor { parent, next_offset: offset, state: before }).wf(doc),
        match opening(doc, parent) {
            None => batch.len() == 0 && after == before,
            Some(o) => {
                let st = entered(o, before);
                let all = rows(doc, o, st);
                let n = if limit < all.len() {
                    limit as nat
                } else {
                    all.len()
                };
                batch == all.take(n as int) && after == after_rows(doc, o, st, n)
            },
        },
    ensures
        batch == page(doc, parent, offset, limit),
        offset + batch.len() <= u32::MAX ==> (ChildCursor {
            parent,
            next_offset: (offset + batch.len()) as u32,
            state: after,
        }).wf(doc),
        opening(doc, parent) is Some ==> after.pos < ENGINE_SCAN_STATE_FRESH,
{
    match opening(doc, parent) {
        None => {
            assert(page(doc, parent, offset, limit) =~= batch);
        },
        Some(o) => {
            let start = entered(o, fresh());
            let all = rows(doc, o, start);
            let k: nat = if offset < all.len() {
                offset as nat
            } else {
                all.len()
            };
            enumeration_resumes(doc, o, start, k);
            let st = entered(o, before);
            assert(rows(doc, o, st) == all.skip(k as int));
            let n: nat = batch.len();
            assert(batch =~= page(doc, parent, offset, limit));
            batches_join(doc, o, start, k, n);
            if o.source.len() > 0 {
                ws_end_range(o.source, 1);
            }
            after_in_source(doc, o, start, k + n);
            if offset + n <= u32::MAX {
                assert(k + n == if offset + n < all.len() {
                    (offset + n) as nat
                } else {
                    all.len()
                });
            }
        },
    }
}

/// The state after `count` children, or after all.
fn skip_children(doc: &Document, parent: u32, count: u32) -> (st: EngineScanState)
    requires
        doc.source@.len() < ENGINE_SCAN_STATE_FRESH,
    ensures
        (ChildCursor { parent, next_offset: count, state: st }).wf(*doc),
{
    let mut state = EngineScanState {
        pos: ENGINE_SCAN_STATE_FRESH,
        next_skippable: NULL_NODE,
        array_index: 0,
    };
    let mut done: u32 = 0;
    let mut ended = false;
    while done < count && !ended
        invariant
            doc.source@.len() < ENGINE_SCAN_STATE_FRESH,
            done <= count,
            (ChildCursor { parent, next_offset: done, state }).wf(*doc),
            ended ==> child_rows(*doc, parent).len() <= done,
            ended && opening(*doc, parent) is Some ==> state.pos < ENGINE_SCAN_STATE_FRESH,
        decreases count - done,
            if ended {
                0nat
            } else {
                1nat
            },
    {
        let left: u32 = count - done;
        let take: u32 = if left < SKIP_CHUNK {
            left
        } else {
            SKIP_CHUNK
        };
        let ghost before = state;
        let got = engine_node_children_meta_batch_resume(doc, parent, &mut state, take);
        proof {
            page_follows(*doc, parent, done, take, before, state, got@);
        }
        let n: usize = got.len();
        if n == 0 {
            ended = true;
        } else {
            done = done + n as u32;
        }
    }
    proof {
        assert(ended || done == count);
    }
    state
}

/// `d` is the detail of node `id`.
pub open spec fn is_detail(d: NodeDetailDto, doc: Document, id: u32) -> bool {
    let kind: u8 = match doc.rec(id) {
        Some(r) => r.kind,
        None => 0,
    };
    &&& d.id == id
    &&& d.kind == kind
    &&& d.child_count == child_count(doc, id)
    &&& d.is_container == is_container_kind(kind)
    &&& d.byte_offset == match doc.rec(id) {
        Some(r) => r.offset,
        None => 0,
    }
    &&& d.byte_length == match doc.rec(id) {
        Some(r) => r.length,
        None => 0,
    }
    &&& d.path@ == node_path_text(doc, id)
    &&& is_text(
        d.value,
        if is_container_kind(kind) {
            None
        } else {
            shown(doc.value_span(id))
        },
    )
    &&& is_text(d.key, shown(key_of(doc, id)))
    &&& d.array_index == if in_array(doc, id) {
        Some(slot_of(doc, id))
    } else {
        None
    }
}

/// The path of a node, as text.
pub open spec fn node_path_text(doc: Document, id: u32) -> Seq<char> {
    shown_or(Some(path_text(steps_to(doc, id))), "."@)
}

pub fn node_path(doc: &Document, node: u32) -> (s: String)
    requires
        parents_first(*doc),
    ensures
        s@ == node_path_text(*doc, node),
{
    let bytes = engine_node_path(doc, node);
    match slice_to_string(Some(bytes.as_slice())) {
        Some(s) => s,
        None => ".".to_owned(),
    }
}

/// The text of a node's source bytes.
pub fn node_value(doc: &Document, node: u32) -> (r: Option<String>)
    ensures
        is_text(r, shown(doc.value_span(node))),
{
    slice_to_string(engine_node_value_bytes(doc, node))
}

fn node_key(doc: &Document, node: u32) -> (r: Option<String>)
    ensures
        is_text(r, shown(key_of(*doc, node))),
{
    slice_to_string(engine_node_key(doc, node))
}

/// The detail of a node.
pub fn node_detail(doc: &Document, node: u32) -> (d: NodeDetailDto)
    requires
        parents_first(*doc),
    ensures
        is_detail(d, *doc, node),
{
    let kind = engine_node_kind(doc, node);
    let is_container = kind == KIND_ARRAY || kind == KIND_OBJECT;
    let array_index = if engine_node_is_array_element(doc, node) {
        Some(engine_node_array_index(doc, node))
    } else {
        None
    };
    NodeDetailDto {
        id: node,
        kind,
        child_count: engine_node_child_count(doc, node),
        is_container,
        byte_offset: engine_node_byte_offset(doc, node),
        byte_length: engine_node_byte_length(doc, node),
        path: node_path(doc, node),
        value: if is_container {
            None
        } else {
            node_value(doc, node)
        },
        key: node_key(doc, node),
        array_index,
    }
}

/// The ids from the root down to node `id`.
pub open spec fn lineage(doc: Document, id: u32) -> Seq<u32>
    decreases id,
{
    let p = parent_of(doc, id);
    if p == NULL_NODE {
        seq![id]
    } else if p < id {
        lineage(doc, p).push(id)
    } else {
        seq![p, id]
    }
}

/// What the breadcrumb says of a node.
pub open spec fn label_of(doc: Document, id: u32) -> Seq<char> {
    if parent_of(doc, id) == NULL_NODE {
        "$"@
    } else {
        match shown(key_of(doc, id)) {
            Some(k) => if k.len() > 0 {
                k
            } else {
                slot_label(doc, id)
            },
            None => slot_label(doc, id),
        }
    }
}

pub open spec fn slot_label(doc: Document, id: u32) -> Seq<char> {
    if in_array(doc, id) {
        "["@ + decimal_text(slot_of(doc, id) as nat) + "]"@
    } else {
        "?"@
    }
}

fn ancestor_label(doc: &Document, id: u32) -> (s: String)
    ensures
        s@ == label_of(*doc, id),
{
    if engine_node_parent(doc, id) == NULL_NODE {
        return "$".to_owned();
    }
    if let Some(k) = node_key(doc, id) {
        if k.as_str().unicode_len() > 0 {
            return k;
        }
    }
    if engine_node_is_array_element(doc, id) {
        let mut s = "[".to_owned();
        let n = decimal(engine_node_array_index(doc, id) as u64);
        s.append(n.as_str());
        s.append("]");
        return s;
    }
    "?".to_owned()
}

/// The chain from the root to a node.
pub fn ancestors(doc: &Document, node: u32) -> (out: Vec<AncestorDto>)
    requires
        parents_first(*doc),
    ensures
        out@.len() == lineage(*doc, node).len(),
        forall|i: int|
            0 <= i < out@.len() ==> (#[trigger] out@[i]).id == lineage(*doc, node)[i]
                && out@[i].label@ == label_of(*doc, out@[i].id),
{
    let mut ids: Vec<u32> = Vec::new();
    ids.push(node);
    let mut cur: u32 = node;
    let ghost all = lineage(*doc, node);
    let mut parent: u32 = engine_node_parent(doc, cur);
    proof {
        lineage_ends(*doc, cur);
        assert(ids@.reverse() =~= seq![cur]);
        assert(lineage(*doc, cur).drop_last() + ids@.reverse() =~= all);
    }
    while parent != NULL_NODE
        invariant
            parents_first(*doc),
            parent == parent_of(*doc, cur),
            all == lineage(*doc, cur).drop_last() + ids@.reverse(),
        decreases
                if (cur as int) < doc.records@.len() {
                    cur + 1
                } else {
                    0int
                },
    {
        let ghost rev = ids@.reverse();
        ids.push(parent);
        proof {
            assert(doc.records@[cur as int].parent == parent);
            lineage_ends(*doc, cur);
            lineage_ends(*doc, parent);
            assert(ids@.reverse() =~= seq![parent] + rev);
            let up = lineage(*doc, parent);
            assert(lineage(*doc, cur).drop_last() =~= up);
            assert(up =~= up.drop_last() + seq![parent]);
            assert(up.drop_last() + (seq![parent] + rev) =~= up + rev);
        }
        cur = parent;
        parent = engine_node_parent(doc, cur);
    }
    proof {
        assert(lineage(*doc, cur) == seq![cur]);
        assert(lineage(*doc, cur).drop_last() + ids@.reverse() =~= ids@.reverse());
    }
    let mut out: Vec<AncestorDto> = Vec::new();
    let n: usize = ids.len();
    let mut i: usize = 0;
    while i < n
        invariant
            i <= n,
            n == ids@.len(),
            out@.len() == i,
            all == ids@.reverse(),
            forall|k: int|
                0 <= k < i ==> (#[trigger] out@[k]).id == all[k] && out@[k].label@ == label_of(
                    *doc,
                    out@[k].id,
                ),
        decreases n - i,
    {
        let id: u32 = ids[n - 1 - i];
        out.push(AncestorDto { id, label: ancestor_label(doc, id) });
        i += 1;
    }
    out
}

proof fn lineage_ends(doc: Document, id: u32)
    ensures
        lineage(doc, id).len() > 0,
        lineage(doc, id).last() == id,
{
}

/// The ancestors of a node lead from the root down to it, each the parent of
/// the next.
pub proof fn lineages_lead_from_the_root(doc: Document, id: u32)
    requires
        parents_first(doc),
    ensures
        lineage(doc, id).len() > 0,
        lineage(doc, id).last() == id,
        parent_of(doc, lineage(doc, id)[0]) == NULL_NODE,
        forall|i: int|
            0 < i < lineage(doc, id).len() ==> lineage(doc, id)[i - 1] == parent_of(
                doc,
                #[trigger] lineage(doc, id)[i],
            ),
    decreases id,
{
    let p = parent_of(doc, id);
    if p != NULL_NODE && p < id {
        lineages_lead_from_the_root(doc, p);
        let up = lineage(doc, p);
        let all = lineage(doc, id);
        assert forall|i: int| 0 < i < all.len() implies all[i - 1] == parent_of(
            doc,
            #[trigger] all[i],
        ) by {
            if i < up.len() {
                assert(all[i] == up[i] && all[i - 1] == up[i - 1]);
            }
        }
        assert(all[0] == up[0]);
    }
}

} // verus!
