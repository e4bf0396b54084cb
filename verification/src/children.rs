//! Child enumeration for tree views: the children of a container as rows of
//! metadata, record-bearing children and primitives alike.
use vstd::prelude::*;

use crate::container_scan::{
    first_slot, next_slot, next_slot_range, opening, slot_at, slot_at_range, ContainerOpen, Opening,
    ScanSlot, Slot,
};
use crate::document::{
    Document, NodeKind, FLAG_ARRAY_ELEMENT, FLAG_KEY_IN_SOURCE, FLAG_OBJECT_MEMBER, NULL_NODE,
};
use crate::source_scan::{kind_at, peek_kind};

verus! {

/// One row of a tree view.
///
/// A child with a record has its id; a primitive has `NULL_NODE`. A
/// primitive's key lies in the source bytes, raw, between its quotes
/// (`FLAG_KEY_IN_SOURCE`); a record's key lies decoded in the keys arena.
#[derive(Copy, Clone, Debug, PartialEq, Eq, Structural)]
pub struct EngineChildMeta {
    pub id: u32,
    pub kind: u8,
    pub flags: u8,
    pub child_count: u32,
    /// Object members: offset of the key.
    pub key_offset: u64,
    pub key_length: u32,
    /// Array elements: the slot index.
    pub array_index: u32,
    /// Source offset of the value.
    pub value_offset: u64,
    /// Source length of the value.
    pub value_length: u64,
}

/// Where an enumeration stands, to go on from there later.
#[derive(Copy, Clone, Debug, PartialEq, Eq, Structural)]
pub struct EngineScanState {
    pub pos: u64,
    pub next_skippable: u32,
    pub array_index: u32,
}

/// The position of a state that has not entered its container yet.
pub const ENGINE_SCAN_STATE_FRESH: u64 = 0xFFFF_FFFF_FFFF_FFFF;

/// The row of the child in `slot`.
pub open spec fn row(doc: Document, o: Opening, slot: Slot, index: u32) -> EngineChildMeta {
    let object = o.kind == NodeKind::Object;
    if slot.id != NULL_NODE {
        let r = doc.rec(slot.id)->0;
        EngineChildMeta {
            id: slot.id,
            kind: r.kind,
            flags: r.flags,
            child_count: r.child_count,
            key_offset: if object {
                r.key_or_index
            } else {
                0
            },
            key_length: if object {
                r.key_length
            } else {
                0
            },
            array_index: if object {
                0
            } else {
                index
            },
            value_offset: r.offset,
            value_length: r.length,
        }
    } else {
        EngineChildMeta {
            id: NULL_NODE,
            kind: kind_at(o.source, slot.value),
            flags: if object {
                FLAG_OBJECT_MEMBER | FLAG_KEY_IN_SOURCE
            } else {
                FLAG_ARRAY_ELEMENT
            },
            child_count: 0,
            key_offset: if object {
                (o.offset + slot.start + 1) as u64
            } else {
                0
            },
            key_length: if object {
                (slot.key_end - (slot.start + 1)) as u32
            } else {
                0
            },
            array_index: if object {
                0
            } else {
                index
            },
            value_offset: (o.offset + slot.value) as u64,
            value_length: (slot.end - slot.value) as u64,
        }
    }
}

/// The next slot index.
pub open spec fn next_index(o: Opening, index: u32) -> u32 {
    if o.kind == NodeKind::Object {
        index
    } else if index == 0xFFFF_FFFF {
        0
    } else {
        (index + 1) as u32
    }
}

/// The state after the child in `slot`.
pub open spec fn state_after(o: Opening, slot: Slot, index: u32) -> EngineScanState {
    EngineScanState {
        pos: match next_slot(o.source, slot.end) {
            Some(p) => p as u64,
            None => o.source.len() as u64,
        },
        next_skippable: slot.next,
        array_index: next_index(o, index),
    }
}

/// The child that an enumeration meets next, with the state after it.
pub open spec fn step(doc: Document, o: Opening, st: EngineScanState) -> Option<
    (EngineChildMeta, EngineScanState),
> {
    if st.pos >= o.source.len() {
        None
    } else {
        match slot_at(doc, o, st.pos as int, st.next_skippable) {
            None => None,
            Some(slot) => Some(
                (row(doc, o, slot, st.array_index), state_after(o, slot, st.array_index)),
            ),
        }
    }
}

/// The state that a fresh one becomes when it enters the container.
pub open spec fn entered(o: Opening, st: EngineScanState) -> EngineScanState {
    if st.pos != ENGINE_SCAN_STATE_FRESH {
        st
    } else {
        match first_slot(o) {
            None => EngineScanState { pos: o.source.len() as u64, ..st },
            Some(p) => EngineScanState { pos: p as u64, next_skippable: o.first, array_index: 0 },
        }
    }
}

/// All rows from state `st` on.
pub open spec fn rows(doc: Document, o: Opening, st: EngineScanState) -> Seq<EngineChildMeta>
    decreases o.source.len() - st.pos,
{
    match step(doc, o, st) {
        None => Seq::empty(),
        Some((m, next)) => if st.pos < next.pos <= o.source.len() {
            seq![m] + rows(doc, o, next)
        } else {
            seq![m]
        },
    }
}

/// The state after `n` rows from state `st` on.
pub open spec fn after_rows(doc: Document, o: Opening, st: EngineScanState, n: nat) -> EngineScanState
    decreases n,
{
    if n == 0 {
        st
    } else {
        match step(doc, o, st) {
            None => st,
            Some((m, next)) => after_rows(doc, o, next, (n - 1) as nat),
        }
    }
}

/// Fresh enumeration of node `parent`.
pub open spec fn fresh() -> EngineScanState {
    EngineScanState { pos: ENGINE_SCAN_STATE_FRESH, next_skippable: NULL_NODE, array_index: 0 }
}

/// The rows of all children of node `parent`.
pub open spec fn child_rows(doc: Document, parent: u32) -> Seq<EngineChildMeta> {
    match opening(doc, parent) {
        None => Seq::empty(),
        Some(o) => rows(doc, o, entered(o, fresh())),
    }
}

proof fn step_advances(doc: Document, o: Opening, st: EngineScanState)
    requires
        o.source.len() <= u64::MAX,
        step(doc, o, st) is Some,
    ensures
        ({
            let (_, next) = step(doc, o, st)->Some_0;
            st.pos < next.pos <= o.source.len()
        }),
{
    slot_at_range(doc, o, st.pos as int, st.next_skippable);
    let slot = slot_at(doc, o, st.pos as int, st.next_skippable)->0;
    if next_slot(o.source, slot.end) is Some {
        next_slot_range(o.source, slot.end);
    }
}

/// One step of the enumeration.
proof fn rows_step(doc: Document, o: Opening, st: EngineScanState)
    requires
        o.source.len() <= u64::MAX,
    ensures
        rows(doc, o, st) == match step(doc, o, st) {
            None => Seq::empty(),
            Some((m, next)) => seq![m] + rows(doc, o, next),
        },
{
    if step(doc, o, st) is Some {
        step_advances(doc, o, st);
    }
}

/// An enumeration can be cut anywhere: what is left after `n` rows, from the
/// state that was reached, are exactly the rows from the `n`-th on.
pub proof fn enumeration_resumes(doc: Document, o: Opening, st: EngineScanState, n: nat)
    requires
        o.source.len() <= u64::MAX,
        n <= rows(doc, o, st).len(),
    ensures
        rows(doc, o, after_rows(doc, o, st, n)) == rows(doc, o, st).skip(n as int),
    decreases n,
{
    rows_step(doc, o, st);
    if n > 0 {
        let (m, next) = step(doc, o, st)->Some_0;
        assert(rows(doc, o, st).skip(1) =~= rows(doc, o, next));
        enumeration_resumes(doc, o, next, (n - 1) as nat);
        assert(rows(doc, o, next).skip(n - 1) =~= rows(doc, o, st).skip(n as int));
    } else {
        assert(rows(doc, o, st).skip(0) =~= rows(doc, o, st));
    }
}

/// An enumeration never leaves its container.
pub proof fn after_in_source(doc: Document, o: Opening, st: EngineScanState, n: nat)
    requires
        o.source.len() <= u64::MAX,
        st.pos <= o.source.len(),
    ensures
        after_rows(doc, o, st, n).pos <= o.source.len(),
    decreases n,
{
    if n > 0 && step(doc, o, st) is Some {
        step_advances(doc, o, st);
        let (m, next) = step(doc, o, st)->Some_0;
        after_in_source(doc, o, next, (n - 1) as nat);
    }
}

/// Two batches in a row are one batch of both sizes.
pub proof fn batches_join(doc: Document, o: Opening, st: EngineScanState, a: nat, b: nat)
    ensures
        after_rows(doc, o, after_rows(doc, o, st, a), b) == after_rows(doc, o, st, a + b),
    decreases a,
{
    if a > 0 {
        match step(doc, o, st) {
            None => {
                stuck(doc, o, st, b);
            },
            Some((m, next)) => {
                batches_join(doc, o, next, (a - 1) as nat, b);
            },
        }
    }
}

proof fn stuck(doc: Document, o: Opening, st: EngineScanState, n: nat)
    requires
        step(doc, o, st) is None,
    ensures
        after_rows(doc, o, st, n) == st,
{
}

/// The row of a slot.
fn make_row(doc: &Document, open: &ContainerOpen, slot: &ScanSlot, index: u32, ghost_slot: Ghost<Slot>) -> (m:
    EngineChildMeta)
    requires
        open.fits(),
        slot.is_slot(ghost_slot@),
        slot.value <= slot.end <= open.source@.len(),
        slot.id != NULL_NODE ==> doc.rec(slot.id) is Some,
        open.kind == NodeKind::Object ==> slot.start < slot.key_end <= slot.value,
    ensures
        m == row(*doc, open@, ghost_slot@, index),
{
    let object: bool = open.kind == NodeKind::Object;
    if slot.id != NULL_NODE {
        let r = doc.record(slot.id).unwrap();
        EngineChildMeta {
            id: slot.id,
            kind: r.kind,
            flags: r.flags,
            child_count: r.child_count,
            key_offset: if object {
                r.key_or_index
            } else {
                0
            },
            key_length: if object {
                r.key_length
            } else {
                0
            },
            array_index: if object {
                0
            } else {
                index
            },
            value_offset: r.offset,
            value_length: r.length,
        }
    } else {
        EngineChildMeta {
            id: NULL_NODE,
            kind: peek_kind(open.source, slot.value),
            flags: if object {
                FLAG_OBJECT_MEMBER | FLAG_KEY_IN_SOURCE
            } else {
                FLAG_ARRAY_ELEMENT
            },
            child_count: 0,
            key_offset: if object {
                (open.parent_offset + slot.start + 1) as u64
            } else {
                0
            },
            key_length: if object {
                #[verifier::truncate]
                ((slot.key_end - (slot.start + 1)) as u32)
            } else {
                0
            },
            array_index: if object {
                0
            } else {
                index
            },
            value_offset: (open.parent_offset + slot.value) as u64,
            value_length: (slot.end - slot.value) as u64,
        }
    }
}

/// Reads the child that the enumeration meets next.
fn next_row(doc: &Document, open: &ContainerOpen, st: EngineScanState) -> (r: Option<
    (EngineChildMeta, EngineScanState),
>)
    requires
        open.fits(),
    ensures
        r == step(*doc, open@, st),
        r is Some ==> open.source@.len() <= u64::MAX,
{
    let size: usize = open.source.len();
    if st.pos >= size as u64 {
        return None;
    }
    let pos: usize = st.pos as usize;
    let ghost s = slot_at(*doc, open@, pos as int, st.next_skippable)->0;
    match open.slot(doc, pos, st.next_skippable) {
        None => None,
        Some(slot) => {
            proof {
                slot_at_range(*doc, open@, pos as int, st.next_skippable);
                if open.kind == NodeKind::Object {
                    crate::container_scan::key_at_range(open@.source, pos as int);
                }
            }
            let m = make_row(doc, open, &slot, st.array_index, Ghost(s));
            let next_pos: usize = match open.next_slot(slot.end) {
                Some(p) => p,
                None => size,
            };
            let array_index: u32 = if open.kind == NodeKind::Object {
                st.array_index
            } else {
                st.array_index.wrapping_add(1)
            };
            Some(
                (
                    m,
                    EngineScanState {
                        pos: next_pos as u64,
                        next_skippable: slot.next,
                        array_index,
                    },
                ),
            )
        },
    }
}

/// Enters the container with a fresh state.
fn enter(open: &ContainerOpen, st: EngineScanState) -> (r: EngineScanState)
    ensures
        r == entered(open@, st),
{
    if st.pos != ENGINE_SCAN_STATE_FRESH {
        return st;
    }
    match open.first_slot() {
        None => EngineScanState { pos: open.source.len() as u64, ..st },
        Some(p) => EngineScanState {
            pos: p as u64,
            next_skippable: open.initial_next_skippable,
            array_index: 0,
        },
    }
}

/// Reads the next up to `max` children of `parent` from where `state` stands,
/// and moves `state` past them. A node that is no container has none.
pub fn engine_node_children_meta_batch_resume(
    doc: &Document,
    parent: u32,
    state: &mut EngineScanState,
    max: u32,
) -> (out: Vec<EngineChildMeta>)
    ensures
        match opening(*doc, parent) {
            None => out@.len() == 0 && *final(state) == *old(state),
            Some(o) => {
                let st = entered(o, *old(state));
                let all = rows(*doc, o, st);
                let n = if max < all.len() {
                    max as nat
                } else {
                    all.len()
                };
                if max == 0 {
                    out@.len() == 0 && *final(state) == *old(state)
                } else {
                    out@ == all.take(n as int) && *final(state) == after_rows(*doc, o, st, n)
                }
            },
        },
{
    let mut out: Vec<EngineChildMeta> = Vec::new();
    if max == 0 {
        return out;
    }
    let open = match ContainerOpen::new(doc, parent) {
        Some(o) => o,
        None => return out,
    };
    let size: usize = open.source.len();
    let ghost o = open@;
    let start = enter(&open, *state);
    let mut cur = start;
    let ghost all = rows(*doc, o, start);
    proof {
        assert(all.skip(0) =~= all);
        assert(out@ =~= all.take(0));
    }
    while out.len() < max as usize
        invariant
            open.fits(),
            o == open@,
            o.source.len() <= u64::MAX,
            all == rows(*doc, o, start),
            out@.len() <= all.len(),
            out@.len() <= max,
            out@ == all.take(out@.len() as int),
            cur == after_rows(*doc, o, start, out@.len()),
            rows(*doc, o, cur) == all.skip(out@.len() as int),
        ensures
            out@.len() == (if max < all.len() {
                max as nat
            } else {
                all.len()
            }),
        decreases max - out@.len(),
    {
        proof {
            rows_step(*doc, o, cur);
        }
        let ghost n = out@.len();
        match next_row(doc, &open, cur) {
            None => {
                assert(all.skip(n as int).len() == 0);
                break;
            },
            Some((m, next)) => {
                out.push(m);
                proof {
                    assert(rows(*doc, o, cur).len() > 0);
                    assert(all.skip(n as int).len() == all.len() - n);
                    assert(all.skip(n as int)[0] == m);
                    batches_join(*doc, o, start, n, 1);
                    assert(after_rows(*doc, o, cur, 1) == next) by {
                        reveal_with_fuel(after_rows, 2);
                    }
                    assert(out@ =~= all.take(out@.len() as int));
                    enumeration_resumes(*doc, o, start, out@.len());
                }
                cur = next;
            },
        }
    }
    *state = cur;
    out
}

/// The rows of `parent`'s children from the `offset`-th on, up to `max`.
pub fn engine_node_children_meta_batch(doc: &Document, parent: u32, offset: u32, max: u32) -> (out:
    Vec<EngineChildMeta>)
    requires
        doc.source@.len() < ENGINE_SCAN_STATE_FRESH,
    ensures
        ({
            let all = child_rows(*doc, parent);
            let from = if offset < all.len() {
                offset as int
            } else {
                all.len() as int
            };
            let to = if from + max < all.len() {
                from + max
            } else {
                all.len() as int
            };
            out@ == all.subrange(from, to)
        }),
{
    let mut state = EngineScanState {
        pos: ENGINE_SCAN_STATE_FRESH,
        next_skippable: NULL_NODE,
        array_index: 0,
    };
    let ghost all = child_rows(*doc, parent);
    if max == 0 || opening_missing(doc, parent) {
        let out: Vec<EngineChildMeta> = Vec::new();
        proof {
            assert forall|from: int, to: int| 0 <= from <= to <= all.len() && to == from implies out@
                == #[trigger] all.subrange(from, to) by {
                assert(out@ =~= all.subrange(from, to));
            }
        }
        return out;
    }
    let ghost o = opening(*doc, parent)->0;
    let ghost st = entered(o, fresh());
    let skipped = engine_node_children_meta_batch_resume(doc, parent, &mut state, offset);
    let out = engine_node_children_meta_batch_resume(doc, parent, &mut state, max);
    proof {
        let n = if offset < all.len() {
            offset as nat
        } else {
            all.len()
        };
        assert(o.source.len() <= doc.source@.len());
        entered_within(o);
        if offset > 0 {
            enumeration_resumes(*doc, o, st, n);
            entered_stays(*doc, o, st, n);
        } else {
            assert(all.skip(0) =~= all);
        }
        let left = all.skip(n as int);
        let m = if max < left.len() {
            max as int
        } else {
            left.len() as int
        };
        assert(left.take(m) =~= all.subrange(n as int, n + m));
    }
    out
}

/// Whether `parent` is no container that can be opened.
fn opening_missing(doc: &Document, parent: u32) -> (b: bool)
    ensures
        b == (opening(*doc, parent) is None),
        !b ==> doc.source@.len() <= usize::MAX,
{
    let _size: usize = doc.source.len();
    match ContainerOpen::new(doc, parent) {
        Some(_) => false,
        None => true,
    }
}

/// A state that has entered its container is not fresh again.
proof fn entered_stays(doc: Document, o: Opening, st: EngineScanState, n: nat)
    requires
        o.source.len() < ENGINE_SCAN_STATE_FRESH,
        st.pos != ENGINE_SCAN_STATE_FRESH,
    ensures
        entered(o, after_rows(doc, o, st, n)) == after_rows(doc, o, st, n),
        after_rows(doc, o, st, n).pos != ENGINE_SCAN_STATE_FRESH,
    decreases n,
{
    if n > 0 && step(doc, o, st) is Some {
        step_advances(doc, o, st);
        let (m, next) = step(doc, o, st)->Some_0;
        entered_stays(doc, o, next, (n - 1) as nat);
    }
}

/// How many of `rows` have the kind `k`.
pub open spec fn count_kind(rows: Seq<EngineChildMeta>, k: NodeKind) -> nat
    decreases rows.len(),
{
    if rows.len() == 0 {
        0
    } else {
        count_kind(rows.drop_last(), k) + if NodeKind::of_code(rows.last().kind) == k {
            1nat
        } else {
            0nat
        }
    }
}

/// Counts `parent`'s children by kind: null, bool, number, string, array,
/// object, and all of them together.
pub fn engine_node_children_kind_counts(doc: &Document, node: u32) -> (r: (Vec<u64>, u64))
    ensures
        r.1 == child_rows(*doc, node).len(),
        r.0@.len() == 6,
        r.0@[0] == count_kind(child_rows(*doc, node), NodeKind::Null),
        r.0@[1] == count_kind(child_rows(*doc, node), NodeKind::Bool),
        r.0@[2] == count_kind(child_rows(*doc, node), NodeKind::Number),
        r.0@[3] == count_kind(child_rows(*doc, node), NodeKind::String),
        r.0@[4] == count_kind(child_rows(*doc, node), NodeKind::Array),
        r.0@[5] == count_kind(child_rows(*doc, node), NodeKind::Object),
{
    let mut counts: Vec<u64> = vec![0, 0, 0, 0, 0, 0];
    let mut total: u64 = 0;
    let open = match ContainerOpen::new(doc, node) {
        Some(o) => o,
        None => return (counts, 0),
    };
    let size: usize = open.source.len();
    let ghost o = open@;
    let start = enter(
        &open,
        EngineScanState {
            pos: ENGINE_SCAN_STATE_FRESH,
            next_skippable: NULL_NODE,
            array_index: 0,
        },
    );
    let mut cur = start;
    let ghost all = rows(*doc, o, start);
    proof {
        assert(all.skip(0) =~= all);
        entered_within(o);
    }
    loop
        invariant_except_break
            cur.pos <= o.source.len(),
            total <= cur.pos,
            rows(*doc, o, cur) == all.skip(total as int),
        invariant
            open.fits(),
            o == open@,
            o.source.len() <= u64::MAX,
            total <= all.len(),
            counts@.len() == 6,
            kind_counts(counts@, all.take(total as int)),
        ensures
            total == all.len(),
        decreases o.source.len() - cur.pos,
    {
        proof {
            rows_step(*doc, o, cur);
            if step(*doc, o, cur) is Some {
                step_advances(*doc, o, cur);
            }
        }
        match next_row(doc, &open, cur) {
            None => {
                assert(all.skip(total as int).len() == 0);
                break;
            },
            Some((m, next)) => {
                let ghost before = all.take(total as int);
                let k: usize = NodeKind::from_u8(m.kind).to_u8() as usize;
                proof {
                    assert(rows(*doc, o, cur).len() > 0);
                    assert(all.skip(total as int).len() == all.len() - total);
                    assert(all.skip(total as int)[0] == m);
                    assert(all.take(total + 1).drop_last() =~= before);
                    assert(all.take(total + 1).last() == m);
                    counts_bounded(before);
                }
                let c: u64 = counts[k];
                counts.set(k, c + 1);
                total += 1;
                proof {
                    assert(all.skip(total - 1).skip(1) =~= all.skip(total as int));
                    assert(rows(*doc, o, next) =~= all.skip(total - 1).skip(1));
                }
                cur = next;
            },
        }
    }
    proof {
        assert(all.take(total as int) =~= all);
    }
    (counts, total)
}

/// `counts` holds the number of rows of each kind.
pub open spec fn kind_counts(counts: Seq<u64>, rows: Seq<EngineChildMeta>) -> bool {
    &&& counts[0] == count_kind(rows, NodeKind::Null)
    &&& counts[1] == count_kind(rows, NodeKind::Bool)
    &&& counts[2] == count_kind(rows, NodeKind::Number)
    &&& counts[3] == count_kind(rows, NodeKind::String)
    &&& counts[4] == count_kind(rows, NodeKind::Array)
    &&& counts[5] == count_kind(rows, NodeKind::Object)
}

proof fn counts_bounded(rows: Seq<EngineChildMeta>)
    ensures
        forall|k: NodeKind| #[trigger] count_kind(rows, k) <= rows.len(),
    decreases rows.len(),
{
    if rows.len() > 0 {
        counts_bounded(rows.drop_last());
        assert forall|k: NodeKind| #[trigger] count_kind(rows, k) <= rows.len() by {
            assert(count_kind(rows.drop_last(), k) <= rows.len() - 1);
        }
    }
}

proof fn entered_within(o: Opening)
    ensures
        o.source.len() <= u64::MAX ==> entered(o, fresh()).pos <= o.source.len(),
{
    if o.source.len() > 0 {
        crate::json::ws_end_range(o.source, 1);
    }
}

/// The first record of `parent`'s chain of record-bearing children, and the
/// end of its record range.
pub open spec fn chain_start(doc: Document, parent: u32) -> Option<(u32, int)> {
    match doc.rec(parent) {
        None => None,
        Some(r) => Some(
            (
                if r.subtree_size > 1 && parent < NULL_NODE {
                    (parent + 1) as u32
                } else {
                    NULL_NODE
                },
                if parent + r.subtree_size <= NULL_NODE {
                    parent + r.subtree_size
                } else {
                    doc.records@.len() as u32 as int
                },
            ),
        ),
    }
}

/// The record of the chain `n` steps after `cur`; none past its end.
pub open spec fn chain_skip(doc: Document, cur: u32, end: int, n: nat) -> u32
    decreases n,
{
    if n == 0 || cur == NULL_NODE {
        cur
    } else {
        match doc.rec(cur) {
            None => NULL_NODE,
            Some(r) => chain_skip(
                doc,
                Document::step(cur, r.subtree_size, end),
                end,
                (n - 1) as nat,
            ),
        }
    }
}

/// The first `n` records of the chain from `cur` on.
pub open spec fn chain_take(doc: Document, cur: u32, end: int, n: nat) -> Seq<u32>
    decreases n,
{
    if n == 0 || cur == NULL_NODE {
        Seq::empty()
    } else {
        match doc.rec(cur) {
            None => Seq::empty(),
            Some(r) => seq![cur] + chain_take(
                doc,
                Document::step(cur, r.subtree_size, end),
                end,
                (n - 1) as nat,
            ),
        }
    }
}

/// The ids of `parent`'s record-bearing children from the `offset`-th on, up
/// to `max`.
pub fn engine_node_children_batch(doc: &Document, parent: u32, offset: u32, max: u32) -> (out: Vec<
    u32,
>)
    ensures
        out@ == match chain_start(*doc, parent) {
            None => Seq::empty(),
            Some((first, end)) => chain_take(
                *doc,
                chain_skip(*doc, first, end, offset as nat),
                end,
                max as nat,
            ),
        },
{
    let mut out: Vec<u32> = Vec::new();
    let rec = match doc.record(parent) {
        Some(r) => r,
        None => return out,
    };
    let end: u32 = match parent.checked_add(rec.subtree_size) {
        Some(e) => e,
        None => doc.records.len() as u32,
    };
    let first: u32 = if rec.subtree_size > 1 {
        match parent.checked_add(1) {
            Some(c) => c,
            None => NULL_NODE,
        }
    } else {
        NULL_NODE
    };
    let mut cur: u32 = first;
    let mut skipped: u32 = 0;
    while cur != NULL_NODE && skipped < offset
        invariant
            skipped <= offset,
            chain_skip(*doc, cur, end as int, (offset - skipped) as nat) == chain_skip(
                *doc,
                first,
                end as int,
                offset as nat,
            ),
        decreases offset - skipped,
    {
        cur = match doc.record(cur) {
            Some(_) => doc.next_skippable_sibling_with_end(cur, end),
            None => NULL_NODE,
        };
        skipped += 1;
    }
    let ghost from = cur;
    let ghost whole = chain_take(*doc, from, end as int, max as nat);
    proof {
        assert(out@ + whole =~= whole);
    }
    while cur != NULL_NODE && out.len() < max as usize
        invariant
            out@.len() <= max,
            out@ + chain_take(*doc, cur, end as int, (max - out@.len()) as nat) == whole,
        ensures
            out@ == whole,
        decreases max - out@.len(),
    {
        if doc.record(cur).is_none() {
            assert(out@ + Seq::<u32>::empty() =~= out@);
            break;
        }
        let next: u32 = doc.next_skippable_sibling_with_end(cur, end);
        let ghost before = out@;
        out.push(cur);
        proof {
            let rest = chain_take(*doc, next, end as int, (max - out@.len()) as nat);
            assert(before + (seq![cur] + rest) =~= out@ + rest);
        }
        cur = next;
        proof {
            assert(out@ + Seq::<u32>::empty() =~= out@);
        }
    }
    out
}

/// The count of a kind is how many children have it.
pub proof fn kinds_are_counted(rows: Seq<EngineChildMeta>, k: NodeKind)
    ensures
        count_kind(rows, k) == rows.filter(
            |m: EngineChildMeta| NodeKind::of_code(m.kind) == k,
        ).len(),
    decreases rows.len(),
{
    reveal(Seq::filter);
    if rows.len() > 0 {
        kinds_are_counted(rows.drop_last(), k);
    }
}

} // verus!
