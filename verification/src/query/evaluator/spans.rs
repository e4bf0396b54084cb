//! The bytes that the primitives without a record span, for each value that a
//! step of a path emits. A value with a record spans none of them.
use vstd::prelude::*;

use super::super::ast::{Ast, AstV};
use super::super::number::Numbers;
use super::super::value::{Value, ValueV};
use super::model::{element_of, CtxV};
use super::scan::{all_slots, same_bytes, stop_of, subtree_stop};
use super::stream::Ctx;
use crate::container_scan::{children, opening, ContainerOpen, Opening, ScanSlot, Slot};
use crate::document::{Document, NodeKind, NULL_NODE};
use crate::sidecar::{utf8, utf8_of};
use crate::source_scan::{parse_string_decoded, string_view};

verus! {

/// The bytes that a child spans, if it is a primitive without a record.
pub open spec fn slot_span(t: Slot) -> nat {
    if t.id == NULL_NODE && t.value < t.end {
        (t.end - t.value) as nat
    } else {
        0
    }
}

pub open spec fn slot_spans(v: Seq<Slot>) -> Seq<nat> {
    Seq::new(v.len(), |i: int| slot_span(v[i]))
}

/// The children of a node; none of another value.
pub open spec fn kid_slots(doc: Document, v: ValueV) -> Seq<Slot> {
    match v {
        ValueV::Node(id) => match opening(doc, id) {
            Some(o) => children(doc, o),
            None => Seq::empty(),
        },
        _ => Seq::empty(),
    }
}

/// The slot of the member called `name`, from slot `i` on.
pub open spec fn member_slot(o: Opening, v: Seq<Slot>, name: Seq<u8>, i: int) -> Option<Slot>
    decreases v.len() - i,
{
    if !(0 <= i < v.len()) {
        None
    } else {
        match string_view(o.source, v[i].start) {
            None => None,
            Some(k) => if k == name {
                Some(v[i])
            } else {
                member_slot(o, v, name, i + 1)
            },
        }
    }
}

/// The span of the member called `name` of object `id`, if there is one.
pub open spec fn member_spans(doc: Document, id: u32, name: Seq<u8>) -> Seq<nat> {
    match opening(doc, id) {
        None => Seq::empty(),
        Some(o) => if o.kind == NodeKind::Object {
            match member_slot(o, children(doc, o), name, 0) {
                Some(t) => seq![slot_span(t)],
                None => Seq::empty(),
            }
        } else {
            Seq::empty()
        },
    }
}

/// The spans of the members called `name` of these children.
pub open spec fn kid_member_spans(doc: Document, v: Seq<Slot>, name: Seq<u8>) -> Seq<nat>
    decreases v.len(),
{
    if v.len() == 0 {
        Seq::empty()
    } else {
        kid_member_spans(doc, v.drop_last(), name) + if v.last().id != NULL_NODE {
            member_spans(doc, v.last().id, name)
        } else {
            Seq::empty()
        }
    }
}

/// The spans of the children without a record.
pub open spec fn inline_spans(v: Seq<Slot>) -> Seq<nat>
    decreases v.len(),
{
    if v.len() == 0 {
        Seq::empty()
    } else if v.last().id == NULL_NODE {
        inline_spans(v.drop_last()).push(slot_span(v.last()))
    } else {
        inline_spans(v.drop_last())
    }
}

/// The spans of the primitives below the records from `k` to `end`.
pub open spec fn spans_below(doc: Document, k: int, end: int) -> Seq<nat>
    decreases end - k,
{
    if k < end {
        inline_spans(kid_slots(doc, ValueV::Node(k as u32))) + spans_below(doc, k + 1, end)
    } else {
        Seq::empty()
    }
}

/// The spans of the members called `name` of the records from `k` to `end`.
pub open spec fn member_spans_below(doc: Document, name: Seq<u8>, k: int, end: int) -> Seq<nat>
    decreases end - k,
{
    if k < end {
        member_spans(doc, k as u32, name) + member_spans_below(doc, name, k + 1, end)
    } else {
        Seq::empty()
    }
}

pub open spec fn no_spans(n: nat) -> Seq<nat> {
    Seq::new(n, |i: int| 0nat)
}

/// Where a negative index counts from: the end of array `id`.
pub open spec fn index_at(doc: Document, id: u32, i: i64) -> int {
    if i < 0 {
        i + match doc.rec(id) {
            Some(r) => r.child_count as int,
            None => 0,
        }
    } else {
        i as int
    }
}

/// The span of each value that a step of a path emits from a value.
pub open spec fn step_spans(c: CtxV, r: AstV, v: ValueV) -> Seq<nat> {
    match v {
        ValueV::Node(id) => match r {
            AstV::Field(name) => member_spans(c.doc, id, utf8_of(name)),
            AstV::Index(i) => {
                let at = index_at(c.doc, id, i);
                if element_of(c, i, v) is Some && 0 <= at < kid_slots(c.doc, v).len() {
                    seq![slot_span(kid_slots(c.doc, v)[at])]
                } else {
                    Seq::empty()
                }
            },
            AstV::Iterate => slot_spans(kid_slots(c.doc, v)),
            AstV::IterateField(name) => kid_member_spans(
                c.doc,
                kid_slots(c.doc, v),
                utf8_of(name),
            ),
            AstV::Descend => {
                let end = subtree_stop(c.doc, id);
                no_spans(
                    if id < end {
                        (end - id) as nat
                    } else {
                        0
                    },
                ) + spans_below(c.doc, id as int, end)
            },
            AstV::DescendField(name) => member_spans_below(
                c.doc,
                utf8_of(name),
                id as int,
                subtree_stop(c.doc, id),
            ),
            _ => Seq::empty(),
        },
        _ => Seq::empty(),
    }
}

/// The first `n` spans, put together.
pub open spec fn span_sum(v: Seq<nat>, n: nat) -> nat
    decreases n,
{
    if n == 0 {
        0
    } else {
        span_sum(v, (n - 1) as nat) + v[n - 1]
    }
}

pub open spec fn span_views(v: Seq<usize>) -> Seq<nat> {
    Seq::new(v.len(), |i: int| v[i] as nat)
}

fn span(t: &ScanSlot) -> (n: usize)
    ensures
        forall|s: Slot| #[trigger] t.is_slot(s) ==> n == slot_span(s),
{
    if t.id == NULL_NODE && t.value < t.end {
        t.end - t.value
    } else {
        0
    }
}

fn push_span(out: &mut Vec<usize>, n: usize)
    ensures
        span_views(final(out)@) == span_views(old(out)@).push(n as nat),
{
    out.push(n);
    assert(span_views(out@) =~= span_views(old(out)@).push(n as nat));
}

fn append_spans(out: &mut Vec<usize>, v: Vec<usize>)
    ensures
        span_views(final(out)@) == span_views(old(out)@) + span_views(v@),
{
    let mut rest = v;
    out.append(&mut rest);
    assert(span_views(out@) =~= span_views(old(out)@) + span_views(v@));
}

fn no_span() -> (v: Vec<usize>)
    ensures
        span_views(v@) == Seq::<nat>::empty(),
{
    let v: Vec<usize> = Vec::new();
    assert(span_views(v@) =~= Seq::empty());
    v
}

/// The slots of a node's children.
fn slots_of_node(doc: &Document, id: u32) -> (out: Vec<ScanSlot>)
    ensures
        out@.len() == kid_slots(*doc, ValueV::Node(id)).len(),
        forall|i: int|
            0 <= i < out@.len() ==> (#[trigger] out@[i]).is_slot(
                kid_slots(*doc, ValueV::Node(id))[i],
            ),
{
    match ContainerOpen::new(doc, id) {
        Some(open) => all_slots(doc, &open),
        None => Vec::new(),
    }
}

fn find_member_spans(doc: &Document, id: u32, name: &Vec<u8>) -> (out: Vec<usize>)
    ensures
        span_views(out@) == member_spans(*doc, id, name@),
{
    let open = match ContainerOpen::new(doc, id) {
        Some(o) => o,
        None => return no_span(),
    };
    if open.kind != NodeKind::Object {
        return no_span();
    }
    let v = all_slots(doc, &open);
    let ghost all = children(*doc, open@);
    let mut i: usize = 0;
    while i < v.len()
        invariant
            i <= v@.len() == all.len(),
            all == children(*doc, open@),
            open.fits(),
            forall|k: int|
                0 <= k < v@.len() ==> (#[trigger] v@[k]).is_slot(all[k]) && v@[k].start
                    <= open.source@.len(),
            opening(*doc, id) == Some(open@),
            open.kind == NodeKind::Object,
            member_slot(open@, all, name@, 0) == member_slot(open@, all, name@, i as int),
        decreases v@.len() - i,
    {
        assert(v@[i as int].is_slot(all[i as int]));
        let at_pos = v[i].start;
        if at_pos >= open.source.len() || open.source[at_pos] != 0x22 {
            return no_span();
        }
        let (key, _) = parse_string_decoded(open.source, at_pos);
        match key {
            None => return no_span(),
            Some(k) => {
                if same_bytes(&k, name) {
                    let mut out = no_span();
                    push_span(&mut out, span(&v[i]));
                    assert(span_views(out@) =~= seq![slot_span(all[i as int])]);
                    return out;
                }
            },
        }
        i += 1;
    }
    no_span()
}

fn find_kid_member_spans(doc: &Document, id: u32, name: &Vec<u8>) -> (out: Vec<usize>)
    ensures
        span_views(out@) == kid_member_spans(*doc, kid_slots(*doc, ValueV::Node(id)), name@),
{
    let v = slots_of_node(doc, id);
    let ghost all = kid_slots(*doc, ValueV::Node(id));
    let mut out = no_span();
    let mut i: usize = 0;
    assert(all.take(0) =~= Seq::empty());
    while i < v.len()
        invariant
            i <= v@.len() == all.len(),
            forall|k: int| 0 <= k < v@.len() ==> (#[trigger] v@[k]).is_slot(all[k]),
            span_views(out@) == kid_member_spans(*doc, all.take(i as int), name@),
        decreases v@.len() - i,
    {
        assert(v@[i as int].is_slot(all[i as int]));
        assert(all.take(i + 1).drop_last() =~= all.take(i as int));
        if v[i].id != NULL_NODE {
            append_spans(&mut out, find_member_spans(doc, v[i].id, name));
        } else {
            assert(span_views(out@) + Seq::<nat>::empty() =~= span_views(out@));
        }
        i += 1;
    }
    assert(all.take(i as int) =~= all);
    out
}

fn find_slot_spans(doc: &Document, id: u32) -> (out: Vec<usize>)
    ensures
        span_views(out@) == slot_spans(kid_slots(*doc, ValueV::Node(id))),
{
    let v = slots_of_node(doc, id);
    let ghost all = kid_slots(*doc, ValueV::Node(id));
    let mut out = no_span();
    let mut i: usize = 0;
    while i < v.len()
        invariant
            i <= v@.len() == all.len(),
            forall|k: int| 0 <= k < v@.len() ==> (#[trigger] v@[k]).is_slot(all[k]),
            span_views(out@) =~= slot_spans(all).take(i as int),
        decreases v@.len() - i,
    {
        assert(v@[i as int].is_slot(all[i as int]));
        push_span(&mut out, span(&v[i]));
        i += 1;
    }
    assert(span_views(out@) =~= slot_spans(all));
    out
}

fn find_inline_spans(doc: &Document, id: u32) -> (out: Vec<usize>)
    ensures
        span_views(out@) == inline_spans(kid_slots(*doc, ValueV::Node(id))),
{
    let v = slots_of_node(doc, id);
    let ghost all = kid_slots(*doc, ValueV::Node(id));
    let mut out = no_span();
    let mut i: usize = 0;
    assert(all.take(0) =~= Seq::empty());
    while i < v.len()
        invariant
            i <= v@.len() == all.len(),
            forall|k: int| 0 <= k < v@.len() ==> (#[trigger] v@[k]).is_slot(all[k]),
            span_views(out@) == inline_spans(all.take(i as int)),
        decreases v@.len() - i,
    {
        assert(v@[i as int].is_slot(all[i as int]));
        assert(all.take(i + 1).drop_last() =~= all.take(i as int));
        if v[i].id == NULL_NODE {
            push_span(&mut out, span(&v[i]));
        }
        i += 1;
    }
    assert(all.take(i as int) =~= all);
    out
}

/// The spans of a node and its descendants.
fn find_spans_below(doc: &Document, id: u32) -> (out: Vec<usize>)
    requires
        doc.records@.len() <= NULL_NODE,
    ensures
        ({
            let end = subtree_stop(*doc, id);
            span_views(out@) == no_spans(
                if id < end {
                    (end - id) as nat
                } else {
                    0
                },
            ) + spans_below(*doc, id as int, end)
        }),
{
    let end = stop_of(doc, id);
    let mut out = no_span();
    let mut k: usize = id as usize;
    assert(span_views(out@) =~= no_spans(0));
    while k < end
        invariant
            id <= k,
            k <= end || k == id,
            span_views(out@) == no_spans((k - id) as nat),
        decreases end - k,
    {
        push_span(&mut out, 0);
        k += 1;
        assert(span_views(out@) =~= no_spans((k - id) as nat));
    }
    let ghost zeros = span_views(out@);
    k = id as usize;
    while k < end
        invariant
            doc.records@.len() <= NULL_NODE,
            end <= doc.records@.len() || end == id,
            id <= k,
            k <= end || k == id,
            span_views(out@) + spans_below(*doc, k as int, end as int) == zeros + spans_below(
                *doc,
                id as int,
                end as int,
            ),
        decreases end - k,
    {
        let ghost before = span_views(out@);
        append_spans(&mut out, find_inline_spans(doc, k as u32));
        let ghost mine = inline_spans(kid_slots(*doc, ValueV::Node(k as u32)));
        assert(before + (mine + spans_below(*doc, k + 1, end as int)) =~= before + mine
            + spans_below(*doc, k + 1, end as int));
        k += 1;
    }
    assert(span_views(out@) + Seq::<nat>::empty() =~= span_views(out@));
    out
}

fn find_member_spans_below(doc: &Document, id: u32, name: &Vec<u8>) -> (out: Vec<usize>)
    requires
        doc.records@.len() <= NULL_NODE,
    ensures
        span_views(out@) == member_spans_below(
            *doc,
            name@,
            id as int,
            subtree_stop(*doc, id),
        ),
{
    let end = stop_of(doc, id);
    let mut out = no_span();
    let mut k: usize = id as usize;
    assert(span_views(out@) + member_spans_below(*doc, name@, k as int, end as int)
        =~= member_spans_below(*doc, name@, k as int, end as int));
    while k < end
        invariant
            doc.records@.len() <= NULL_NODE,
            end <= doc.records@.len() || end == id,
            id <= k,
            k <= end || k == id,
            span_views(out@) + member_spans_below(*doc, name@, k as int, end as int)
                == member_spans_below(*doc, name@, id as int, end as int),
        decreases end - k,
    {
        let ghost before = span_views(out@);
        append_spans(&mut out, find_member_spans(doc, k as u32, name));
        let ghost mine = member_spans(*doc, k as u32, name@);
        let ghost rest = member_spans_below(*doc, name@, k + 1, end as int);
        assert(before + (mine + rest) =~= before + mine + rest);
        k += 1;
    }
    assert(span_views(out@) + Seq::<nat>::empty() =~= span_views(out@));
    out
}

fn find_index_span<N: Numbers>(c: &Ctx<N>, id: u32, i: i64) -> (out: Vec<usize>)
    requires
        c.wf(),
    ensures
        span_views(out@) == step_spans(c@, AstV::Index(i), ValueV::Node(id)),
{
    if super::pieces::element(c, i, &Value::Node(id)).is_none() {
        return no_span();
    }
    let v = slots_of_node(c.doc, id);
    let count: i128 = match c.doc.record(id) {
        Some(r) => r.child_count as i128,
        None => 0,
    };
    let at: i128 = if i < 0 {
        i as i128 + count
    } else {
        i as i128
    };
    if at >= 0 && at < v.len() as i128 {
        let mut out = no_span();
        assert(v@[at as int].is_slot(kid_slots(c@.doc, ValueV::Node(id))[at as int]));
        push_span(&mut out, span(&v[at as usize]));
        assert(span_views(out@) =~= seq![slot_span(kid_slots(c@.doc, ValueV::Node(id))[at as int])]);
        out
    } else {
        no_span()
    }
}

/// The span of each value that a step of a path emits from a value.
pub fn find_step_spans<N: Numbers>(c: &Ctx<N>, r: &Ast, v: &Value) -> (out: Vec<usize>)
    requires
        c.wf(),
    ensures
        span_views(out@) == step_spans(c@, r@, v@),
{
    match v {
        Value::Node(id) => match r {
            Ast::Field(name) => find_member_spans(c.doc, *id, &utf8(name.as_str())),
            Ast::Index(i) => find_index_span(c, *id, *i),
            Ast::Iterate => find_slot_spans(c.doc, *id),
            Ast::IterateField(name) => find_kid_member_spans(c.doc, *id, &utf8(name.as_str())),
            Ast::Descend => find_spans_below(c.doc, *id),
            Ast::DescendField(name) => find_member_spans_below(c.doc, *id, &utf8(name.as_str())),
            _ => no_span(),
        },
        _ => no_span(),
    }
}

} // verus!
