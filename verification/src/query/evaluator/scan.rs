//! One-level scans of a container: its members and elements as values.
//!
//! Primitives have no records, so a scan reads them from the source.
use vstd::prelude::*;

use super::super::number::{nums, Nums, Numbers};
use super::super::value::{text_of, read_text, utf8_text, Value, ValueV};
use crate::container_scan::{
    children, first_slot, next_slot, next_slot_range, opening, slot_at, slot_at_range, slots,
    slots_step, ContainerOpen, Opening, ScanSlot, Slot,
};
use crate::document::{Document, NodeKind, NULL_NODE};
use crate::json::{is_digit, word_at};
use crate::parser::{false_word, true_word};
use crate::source_scan::{
    number_stop, number_stop_range, parse_string_decoded, skip_number, starts_with_at, string_view,
};

verus! {

/// The primitive at `i`.
pub open spec fn inline_value(n: Nums, s: Seq<u8>, i: int) -> ValueV {
    if !(0 <= i < s.len()) {
        ValueV::Null
    } else if s[i] == 0x22 {
        match string_view(s, i) {
            Some(b) => ValueV::Str(text_of(b)),
            None => ValueV::Null,
        }
    } else if s[i] == 0x74 && word_at(s, i, true_word()) {
        ValueV::Bool(true)
    } else if s[i] == 0x66 && word_at(s, i, false_word()) {
        ValueV::Bool(false)
    } else if s[i] == 0x2D || is_digit(s[i]) {
        match (n.read)(s.subrange(i, number_stop(s, i))) {
            Some(x) => ValueV::Number(x),
            None => ValueV::Number(0),
        }
    } else {
        ValueV::Null
    }
}

/// The value of a slot: its record, or the primitive in the source.
pub open spec fn slot_value(n: Nums, o: Opening, s: Slot) -> ValueV {
    if s.id != NULL_NODE {
        ValueV::Node(s.id)
    } else {
        inline_value(n, o.source, s.value)
    }
}

/// The values of a container's children, in order.
pub open spec fn child_values(doc: Document, n: Nums, id: u32) -> Seq<ValueV> {
    match opening(doc, id) {
        None => Seq::empty(),
        Some(o) => Seq::new(
            children(doc, o).len(),
            |i: int| slot_value(n, o, children(doc, o)[i]),
        ),
    }
}

/// The member called `name` among the slots from `i` on. A key that cannot
/// be read ends the search.
pub open spec fn member_from(
    n: Nums,
    o: Opening,
    v: Seq<Slot>,
    name: Seq<u8>,
    i: int,
) -> Option<ValueV>
    decreases v.len() - i,
{
    if !(0 <= i < v.len()) {
        None
    } else {
        match string_view(o.source, v[i].start) {
            None => None,
            Some(k) => if k == name {
                Some(slot_value(n, o, v[i]))
            } else {
                member_from(n, o, v, name, i + 1)
            },
        }
    }
}

/// The member called `name` of object `id`.
pub open spec fn member(doc: Document, n: Nums, id: u32, name: Seq<u8>) -> Option<ValueV> {
    match opening(doc, id) {
        None => None,
        Some(o) => if o.kind == NodeKind::Object {
            member_from(n, o, children(doc, o), name, 0)
        } else {
            None
        },
    }
}

/// Element `i` of array `id`.
pub open spec fn element(doc: Document, n: Nums, id: u32, i: int) -> Option<ValueV> {
    match opening(doc, id) {
        None => None,
        Some(o) => if o.kind == NodeKind::Array && 0 <= i < children(doc, o).len() {
            Some(slot_value(n, o, children(doc, o)[i]))
        } else {
            None
        },
    }
}

/// One past the last record of the subtree of `id`.
pub open spec fn subtree_stop(doc: Document, id: u32) -> int {
    match doc.rec(id) {
        Some(r) => if id + r.subtree_size < doc.records@.len() {
            id + r.subtree_size
        } else {
            doc.records@.len() as int
        },
        None => id as int,
    }
}

/// The nodes from record `k` up to `end`.
pub open spec fn nodes(k: int, end: int) -> Seq<ValueV>
    decreases end - k,
{
    if k < end {
        seq![ValueV::Node(k as u32)] + nodes(k + 1, end)
    } else {
        Seq::empty()
    }
}

/// The primitives of the containers among the records from `k` to `end`.
pub open spec fn primitives(doc: Document, n: Nums, k: int, end: int) -> Seq<ValueV>
    decreases end - k,
{
    if k < end {
        child_values(doc, n, k as u32).filter(|v: ValueV| !(v is Node)) + primitives(
            doc,
            n,
            k + 1,
            end,
        )
    } else {
        Seq::empty()
    }
}

/// A node and its descendants: first those with records, then primitives.
pub open spec fn descendants(doc: Document, n: Nums, id: u32) -> Seq<ValueV> {
    nodes(id as int, subtree_stop(doc, id)) + primitives(
        doc,
        n,
        id as int,
        subtree_stop(doc, id),
    )
}

/// The members called `name` of the objects among the records from `k` to
/// `end`.
pub open spec fn members_below(
    doc: Document,
    n: Nums,
    name: Seq<u8>,
    k: int,
    end: int,
) -> Seq<ValueV>
    decreases end - k,
{
    if k < end {
        opt_seq(member(doc, n, k as u32, name)) + members_below(doc, n, name, k + 1, end)
    } else {
        Seq::empty()
    }
}

pub open spec fn opt_seq(o: Option<ValueV>) -> Seq<ValueV> {
    match o {
        Some(v) => seq![v],
        None => Seq::empty(),
    }
}

/// The members called `name` of the first `i` of these values.
pub open spec fn members_of(
    doc: Document,
    n: Nums,
    name: Seq<u8>,
    v: Seq<ValueV>,
) -> Seq<ValueV>
    decreases v.len(),
{
    if v.len() == 0 {
        Seq::empty()
    } else {
        members_of(doc, n, name, v.drop_last()) + (match v.last() {
            ValueV::Node(id) => opt_seq(member(doc, n, id, name)),
            _ => Seq::empty(),
        })
    }
}

/// The views of a run of values.
pub open spec fn seen(v: Seq<Value>) -> Seq<ValueV> {
    Seq::new(v.len(), |i: int| v[i]@)
}

/// Adds one value.
pub fn push_value(v: &mut Vec<Value>, x: Value)
    ensures
        seen(final(v)@) == seen(old(v)@).push(x@),
{
    v.push(x);
    assert(seen(v@) =~= seen(old(v)@).push(x@));
}

/// Reads the primitive at `i`.
fn parse_inline_value<N: Numbers>(num: &N, src: &[u8], i: usize) -> (v: Value)
    requires
        num.wf(),
    ensures
        v@ == inline_value(nums(num), src@, i as int),
{
    if i >= src.len() {
        return Value::Null;
    }
    let b = src[i];
    if b == 0x22 {
        let (text, _) = parse_string_decoded(src, i);
        return match text {
            Some(t) => Value::Str(read_text(t.as_slice())),
            None => Value::Null,
        };
    }
    if b == 0x74 {
        let word: [u8; 4] = [0x74, 0x72, 0x75, 0x65];
        assert(word@ =~= true_word());
        if starts_with_at(src, i, &word) {
            return Value::Bool(true);
        }
        return Value::Null;
    }
    if b == 0x66 {
        let word: [u8; 5] = [0x66, 0x61, 0x6C, 0x73, 0x65];
        assert(word@ =~= false_word());
        if starts_with_at(src, i, &word) {
            return Value::Bool(false);
        }
        return Value::Null;
    }
    if b == 0x2D || (b >= 0x30 && b <= 0x39) {
        let end = skip_number(src, i);
        proof {
            number_stop_range(src@, i as int);
        }
        return match num.parse(vstd::slice::slice_subrange(src, i, end)) {
            Some(x) => Value::Number(x),
            None => Value::Number(0),
        };
    }
    Value::Null
}

/// The slots of an open container.
pub fn all_slots(doc: &Document, open: &ContainerOpen) -> (out: Vec<ScanSlot>)
    requires
        open.fits(),
    ensures
        out@.len() == children(*doc, open@).len(),
        forall|i: int|
            0 <= i < out@.len() ==> (#[trigger] out@[i]).is_slot(children(*doc, open@)[i])
                && out@[i].start <= open.source@.len(),
{
    let mut out: Vec<ScanSlot> = Vec::new();
    let mut pos: usize = match open.first_slot() {
        Some(p) => p,
        None => return out,
    };
    let mut next: u32 = open.initial_next_skippable;
    let ghost all = children(*doc, open@);
    let size: usize = open.source.len();
    assert(all.skip(0) =~= all);
    loop
        invariant
            open.fits(),
            size == open.source@.len(),
            pos <= size,
            all == children(*doc, open@),
            out@.len() <= all.len(),
            all.skip(out@.len() as int) == slots(*doc, open@, pos as int, next),
            forall|i: int|
                0 <= i < out@.len() ==> (#[trigger] out@[i]).is_slot(all[i]) && out@[i].start
                    <= open.source@.len(),
        decreases size - pos,
    {
        proof {
            slots_step(*doc, open@, pos as int, next);
        }
        let rest = out.len();
        match open.slot(doc, pos, next) {
            None => {
                assert(all.skip(rest as int).len() == 0);
                return out;
            },
            Some(s) => {
                proof {
                    slot_at_range(*doc, open@, pos as int, next);
                    assert(all.skip(rest as int)[0] == slot_at(*doc, open@, pos as int, next)->0);
                    assert(all.skip(rest as int).len() == all.len() - rest);
                    assert(slots(*doc, open@, pos as int, next).len() > 0);
                    assert(all[rest as int] == all.skip(rest as int)[0]);
                }
                let end = s.end;
                let after = s.next;
                assert(s.start == pos);
                out.push(s);
                match open.next_slot(end) {
                    None => {
                        assert(all.skip(rest as int).len() == 1);
                        return out;
                    },
                    Some(p) => {
                        proof {
                            next_slot_range(open.source@, end as int);
                            assert(all.skip(rest + 1) =~= all.skip(rest as int).skip(1));
                            assert(all.skip(rest as int).skip(1) =~= slots(
                                *doc,
                                open@,
                                p as int,
                                after,
                            ));
                        }
                        pos = p;
                        next = after;
                    },
                }
            },
        }
    }
}

/// The value of a slot.
pub fn value_of_slot<N: Numbers>(num: &N, open: &ContainerOpen, s: &ScanSlot) -> (v: Value)
    requires
        num.wf(),
    ensures
        forall|t: Slot| #[trigger] s.is_slot(t) ==> v@ == slot_value(nums(num), open@, t),
{
    if s.id != NULL_NODE {
        Value::Node(s.id)
    } else {
        parse_inline_value(num, open.source, s.value)
    }
}

/// The children of a container, as values.
pub fn scan_iterate<N: Numbers>(doc: &Document, num: &N, id: u32) -> (out: Vec<Value>)
    requires
        num.wf(),
    ensures
        seen(out@) == child_values(*doc, nums(num), id),
{
    let mut out: Vec<Value> = Vec::new();
    let open = match ContainerOpen::new(doc, id) {
        Some(o) => o,
        None => {
            assert(seen(out@) =~= Seq::<ValueV>::empty());
            return out;
        },
    };
    let v = all_slots(doc, &open);
    let mut i: usize = 0;
    while i < v.len()
        invariant
            num.wf(),
            i <= v@.len(),
            v@.len() == children(*doc, open@).len(),
            forall|k: int|
                0 <= k < v@.len() ==> (#[trigger] v@[k]).is_slot(children(*doc, open@)[k]),
            out@.len() == i,
            forall|k: int|
                0 <= k < i ==> (#[trigger] out@[k])@ == slot_value(
                    nums(num),
                    open@,
                    children(*doc, open@)[k],
                ),
        decreases v@.len() - i,
    {
        assert(v@[i as int].is_slot(children(*doc, open@)[i as int]));
        out.push(value_of_slot(num, &open, &v[i]));
        i += 1;
    }
    assert(seen(out@) =~= child_values(*doc, nums(num), id));
    out
}

pub fn same_bytes(a: &Vec<u8>, b: &Vec<u8>) -> (r: bool)
    ensures
        r == (a@ == b@),
{
    if a.len() != b.len() {
        return false;
    }
    let mut i: usize = 0;
    while i < a.len()
        invariant
            i <= a@.len() == b@.len(),
            forall|k: int| 0 <= k < i ==> a@[k] == b@[k],
        decreases a@.len() - i,
    {
        if a[i] != b[i] {
            assert(a@[i as int] != b@[i as int]);
            return false;
        }
        i += 1;
    }
    assert(a@ =~= b@);
    true
}

/// The member of an object that has this key.
pub fn scan_object_field<N: Numbers>(doc: &Document, num: &N, id: u32, name: &Vec<u8>) -> (r: Option<
    Value,
>)
    requires
        num.wf(),
    ensures
        match member(*doc, nums(num), id, name@) {
            Some(x) => r matches Some(v) && v@ == x,
            None => r is None,
        },
{
    let open = match ContainerOpen::new(doc, id) {
        Some(o) => o,
        None => return None,
    };
    if open.kind != NodeKind::Object {
        return None;
    }
    let v = all_slots(doc, &open);
    let ghost all = children(*doc, open@);
    let mut i: usize = 0;
    while i < v.len()
        invariant
            num.wf(),
            i <= v@.len() == all.len(),
            all == children(*doc, open@),
            open.fits(),
            forall|k: int|
                0 <= k < v@.len() ==> (#[trigger] v@[k]).is_slot(all[k]) && v@[k].start
                    <= open.source@.len(),
            opening(*doc, id) == Some(open@),
            open.kind == NodeKind::Object,
            member(*doc, nums(num), id, name@) == member_from(
                nums(num),
                open@,
                all,
                name@,
                i as int,
            ),
        decreases v@.len() - i,
    {
        assert(v@[i as int].is_slot(all[i as int]));
        let at_pos = v[i].start;
        if at_pos >= open.source.len() || open.source[at_pos] != 0x22 {
            return None;
        }
        let (key, _) = parse_string_decoded(open.source, at_pos);
        match key {
            None => return None,
            Some(k) => {
                if same_bytes(&k, name) {
                    return Some(value_of_slot(num, &open, &v[i]));
                }
            },
        }
        i += 1;
    }
    None
}

/// The element of an array at this index.
pub fn scan_array_index<N: Numbers>(doc: &Document, num: &N, id: u32, slot: u64) -> (r: Option<
    Value,
>)
    requires
        num.wf(),
    ensures
        match element(*doc, nums(num), id, slot as int) {
            Some(x) => r matches Some(v) && v@ == x,
            None => r is None,
        },
{
    let open = match ContainerOpen::new(doc, id) {
        Some(o) => o,
        None => return None,
    };
    if open.kind != NodeKind::Array {
        return None;
    }
    let v = all_slots(doc, &open);
    let size: u64 = v.len() as u64;
    if slot >= size {
        return None;
    }
    let i: usize = slot as usize;
    assert(v@[i as int].is_slot(children(*doc, open@)[i as int]));
    Some(value_of_slot(num, &open, &v[i]))
}

pub fn stop_of(doc: &Document, id: u32) -> (e: usize)
    ensures
        e == subtree_stop(*doc, id),
        e <= doc.records@.len() || e == id,
        doc.rec(id) is Some ==> e <= doc.records@.len() <= usize::MAX,
{
    match doc.record(id) {
        Some(r) => {
            let size: u64 = doc.records.len() as u64;
            let e: u64 = id as u64 + r.subtree_size as u64;
            if e < size {
                e as usize
            } else {
                doc.records.len()
            }
        },
        None => id as usize,
    }
}

/// A node and its descendants, as values.
pub fn descend_emit<N: Numbers>(doc: &Document, num: &N, id: u32) -> (out: Vec<Value>)
    requires
        num.wf(),
        doc.records@.len() <= NULL_NODE,
    ensures
        seen(out@) == descendants(*doc, nums(num), id),
{
    let end = stop_of(doc, id);
    let ghost n = nums(num);
    let mut out: Vec<Value> = Vec::new();
    let mut k: usize = id as usize;
    assert(seen(out@) + nodes(k as int, end as int) =~= nodes(k as int, end as int));
    while k < end
        invariant
            doc.records@.len() <= NULL_NODE,
            id <= k,
            k <= end || k == id,
            end <= doc.records@.len() || end == id,
            seen(out@) + nodes(k as int, end as int) == nodes(id as int, end as int),
        decreases end - k,
    {
        let ghost before = seen(out@);
        push_value(&mut out, Value::Node(k as u32));
        assert(seen(out@) + nodes(k + 1, end as int) =~= before + (seq![ValueV::Node(k as u32)]
            + nodes(k + 1, end as int)));
        k += 1;
    }
    assert(seen(out@) =~= nodes(id as int, end as int));
    let ghost first = seen(out@);
    k = id as usize;
    assert(seen(out@) + primitives(*doc, n, k as int, end as int) =~= first + primitives(
        *doc,
        n,
        id as int,
        end as int,
    ));
    while k < end
        invariant
            num.wf(),
            n == nums(num),
            doc.records@.len() <= NULL_NODE,
            id <= k,
            k <= end || k == id,
            end <= doc.records@.len() || end == id,
            seen(out@) + primitives(*doc, n, k as int, end as int) == first + primitives(
                *doc,
                n,
                id as int,
                end as int,
            ),
        decreases end - k,
    {
        let ghost before = seen(out@);
        let kids = scan_iterate(doc, num, k as u32);
        push_primitives(&mut out, kids);
        let ghost mine = child_values(*doc, n, k as u32).filter(|v: ValueV| !(v is Node));
        assert(seen(out@) + primitives(*doc, n, k + 1, end as int) =~= before + (mine + primitives(
            *doc,
            n,
            k + 1,
            end as int,
        )));
        k += 1;
    }
    assert(seen(out@) =~= first + primitives(*doc, n, id as int, end as int));
    out
}

/// Adds the values that are no nodes.
fn push_primitives(out: &mut Vec<Value>, kids: Vec<Value>)
    ensures
        seen(final(out)@) == seen(old(out)@) + seen(kids@).filter(|v: ValueV| !(v is Node)),
{
    let ghost all = seen(kids@);
    let ghost before = seen(out@);
    let mut i: usize = 0;
    proof {
        reveal(Seq::filter);
    }
    assert(all.take(0) =~= Seq::<ValueV>::empty());
    assert(seen(out@) =~= before + all.take(0).filter(|v: ValueV| !(v is Node)));
    while i < kids.len()
        invariant
            i <= kids@.len(),
            all == seen(kids@),
            seen(out@) == before + all.take(i as int).filter(|v: ValueV| !(v is Node)),
        decreases kids@.len() - i,
    {
        proof {
            reveal(Seq::filter);
            assert(all.take(i + 1).drop_last() =~= all.take(i as int));
            assert(all.take(i + 1).last() == kids@[i as int]@);
        }
        let ghost mid = seen(out@);
        let v = kids[i].copy();
        if !matches!(v, Value::Node(_)) {
            push_value(out, v);
            assert(seen(out@) =~= before + all.take(i + 1).filter(|v: ValueV| !(v is Node)));
        } else {
            assert(seen(out@) =~= before + all.take(i + 1).filter(|v: ValueV| !(v is Node)));
        }
        i += 1;
    }
    assert(all.take(i as int) =~= all);
}

/// The members called `name` in a node and its descendants.
pub fn descend_field_emit<N: Numbers>(doc: &Document, num: &N, id: u32, name: &Vec<u8>) -> (out: Vec<
    Value,
>)
    requires
        num.wf(),
        doc.records@.len() <= NULL_NODE,
    ensures
        seen(out@) == members_below(
            *doc,
            nums(num),
            name@,
            id as int,
            subtree_stop(*doc, id),
        ),
{
    let end = stop_of(doc, id);
    let ghost n = nums(num);
    let mut out: Vec<Value> = Vec::new();
    let mut k: usize = id as usize;
    assert(seen(out@) + members_below(*doc, n, name@, k as int, end as int) =~= members_below(
        *doc,
        n,
        name@,
        k as int,
        end as int,
    ));
    while k < end
        invariant
            num.wf(),
            n == nums(num),
            doc.records@.len() <= NULL_NODE,
            id <= k,
            k <= end || k == id,
            end <= doc.records@.len() || end == id,
            seen(out@) + members_below(*doc, n, name@, k as int, end as int) == members_below(
                *doc,
                n,
                name@,
                id as int,
                end as int,
            ),
        decreases end - k,
    {
        let ghost before = seen(out@);
        match scan_object_field(doc, num, k as u32, name) {
            Some(v) => push_value(&mut out, v),
            None => {},
        }
        assert(seen(out@) =~= before + opt_seq(member(*doc, n, k as u32, name@)));
        assert(seen(out@) + members_below(*doc, n, name@, k + 1, end as int) =~= before + (opt_seq(
            member(*doc, n, k as u32, name@),
        ) + members_below(*doc, n, name@, k + 1, end as int)));
        k += 1;
    }
    assert(seen(out@) =~= members_below(*doc, n, name@, id as int, end as int));
    out
}

/// The members called `name` of a container's children.
pub fn scan_iterate_field<N: Numbers>(doc: &Document, num: &N, id: u32, name: &Vec<u8>) -> (out: Vec<
    Value,
>)
    requires
        num.wf(),
    ensures
        seen(out@) == members_of(*doc, nums(num), name@, child_values(*doc, nums(num), id)),
{
    let kids = scan_iterate(doc, num, id);
    let ghost all = seen(kids@);
    let ghost n = nums(num);
    let mut out: Vec<Value> = Vec::new();
    let mut i: usize = 0;
    assert(all.take(0) =~= Seq::<ValueV>::empty());
    assert(seen(out@) =~= Seq::<ValueV>::empty());
    while i < kids.len()
        invariant
            num.wf(),
            n == nums(num),
            i <= kids@.len(),
            all == seen(kids@),
            seen(out@) == members_of(*doc, n, name@, all.take(i as int)),
        decreases kids@.len() - i,
    {
        proof {
            assert(all.take(i + 1).drop_last() =~= all.take(i as int));
            assert(all.take(i + 1).last() == kids@[i as int]@);
        }
        let ghost before = seen(out@);
        if let Value::Node(child) = &kids[i] {
            match scan_object_field(doc, num, *child, name) {
                Some(v) => push_value(&mut out, v),
                None => {},
            }
            assert(seen(out@) =~= before + opt_seq(member(*doc, n, *child, name@)));
        } else {
            assert(seen(out@) =~= before + Seq::<ValueV>::empty());
        }
        i += 1;
    }
    assert(all.take(i as int) =~= all);
    out
}

/// The keys of object `id`, in order; one that is no text is left out.
pub open spec fn object_keys(doc: Document, id: u32) -> Seq<Seq<char>> {
    match opening(doc, id) {
        None => Seq::empty(),
        Some(o) => if o.kind == NodeKind::Object {
            keys_up_to(o, children(doc, o), children(doc, o).len())
        } else {
            Seq::empty()
        },
    }
}

/// The keys of the first `n` slots.
pub open spec fn keys_up_to(o: Opening, c: Seq<Slot>, n: nat) -> Seq<Seq<char>>
    decreases n,
{
    if n == 0 {
        Seq::empty()
    } else {
        match string_view(o.source, c[n - 1].start) {
            Some(b) => if vstd::utf8::valid_utf8(b) {
                keys_up_to(o, c, (n - 1) as nat).push(vstd::utf8::decode_utf8(b))
            } else {
                keys_up_to(o, c, (n - 1) as nat)
            },
            None => keys_up_to(o, c, (n - 1) as nat),
        }
    }
}

/// The keys of object `id`.
pub fn scan_object_keys(doc: &Document, id: u32) -> (out: Vec<String>)
    ensures
        Seq::new(out@.len(), |i: int| out@[i]@) == object_keys(*doc, id),
{
    let mut out: Vec<String> = Vec::new();
    let open = match ContainerOpen::new(doc, id) {
        Some(o) => o,
        None => {
            assert(Seq::new(out@.len(), |i: int| out@[i]@) =~= object_keys(*doc, id));
            return out;
        },
    };
    if open.kind != NodeKind::Object {
        assert(Seq::new(out@.len(), |i: int| out@[i]@) =~= object_keys(*doc, id));
        return out;
    }
    let v = all_slots(doc, &open);
    let ghost all = children(*doc, open@);
    let mut i: usize = 0;
    while i < v.len()
        invariant
            i <= v@.len() == all.len(),
            all == children(*doc, open@),
            open.fits(),
            forall|k: int|
                0 <= k < v@.len() ==> (#[trigger] v@[k]).is_slot(all[k]) && v@[k].start
                    <= open.source@.len(),
            Seq::new(out@.len(), |i: int| out@[i]@) =~= keys_up_to(open@, all, i as nat),
        decreases v@.len() - i,
    {
        assert(v@[i as int].is_slot(all[i as int]));
        let ghost before = Seq::new(out@.len(), |i: int| out@[i]@);
        let at_pos = v[i].start;
        let key = if at_pos < open.source.len() && open.source[at_pos] == 0x22 {
            parse_string_decoded(open.source, at_pos).0
        } else {
            None
        };
        if let Some(k) = key {
            if let Some(text) = utf8_text(k.as_slice()) {
                let ghost added = text@;
                out.push(text);
                assert(Seq::new(out@.len(), |i: int| out@[i]@) =~= before.push(added));
            }
        }
        i += 1;
    }
    out
}

} // verus!
