//! The jq-style path of a node.
//!
//! - root: `.`
//! - object member with a simple identifier key: `.foo`
//! - object member with another key: `["weird key"]`
//! - array element: `[0]`
//!
//! A path whose first segment is a bracket gets a leading dot.
use vstd::prelude::*;

use crate::container_scan::{
    children, first_slot, next_slot, opening, slot_at, slot_at_range, slots, slots_step,
    ContainerOpen, Opening, ScanSlot, Slot,
};
use crate::document::{
    Document, NodeKind, NodeRecord, FLAG_ARRAY_ELEMENT, FLAG_OBJECT_MEMBER, NULL_NODE,
};
use crate::layout::{layout_ok, layout_ok_at};
use crate::source_scan::{decode_json_string_inner, decoded};

verus! {

pub open spec fn is_alpha(b: u8) -> bool {
    0x41 <= b <= 0x5A || 0x61 <= b <= 0x7A
}

pub open spec fn is_word_byte(b: u8) -> bool {
    is_alpha(b) || 0x30 <= b <= 0x39 || b == 0x5F
}

/// A key that needs no brackets.
pub open spec fn is_simple(s: Seq<u8>) -> bool {
    &&& s.len() > 0
    &&& is_alpha(s[0]) || s[0] == 0x5F
    &&& forall|i: int| 1 <= i < s.len() ==> is_word_byte(#[trigger] s[i])
}

/// The lower-case hexadecimal digit of value `d`.
pub open spec fn hex_digit(d: int) -> u8 {
    if d < 10 {
        (0x30 + d) as u8
    } else {
        (0x57 + d) as u8
    }
}

/// How a byte is written inside a quoted key.
pub open spec fn escaped(b: u8) -> Seq<u8> {
    if b == 0x22 {
        seq![0x5Cu8, 0x22u8]
    } else if b == 0x5C {
        seq![0x5Cu8, 0x5Cu8]
    } else if b == 0x0A {
        seq![0x5Cu8, 0x6Eu8]
    } else if b == 0x0D {
        seq![0x5Cu8, 0x72u8]
    } else if b == 0x09 {
        seq![0x5Cu8, 0x74u8]
    } else if b == 0x08 {
        seq![0x5Cu8, 0x62u8]
    } else if b == 0x0C {
        seq![0x5Cu8, 0x66u8]
    } else if b < 0x20 {
        seq![0x5Cu8, 0x75u8, 0x30u8, 0x30u8, hex_digit(b as int / 16), hex_digit(b as int % 16)]
    } else {
        seq![b]
    }
}

/// The escaped bytes of `s`.
pub open spec fn escaped_all(s: Seq<u8>) -> Seq<u8>
    decreases s.len(),
{
    if s.len() == 0 {
        Seq::empty()
    } else {
        escaped_all(s.drop_last()) + escaped(s.last())
    }
}

/// `s` as a JSON string.
pub open spec fn quoted(s: Seq<u8>) -> Seq<u8> {
    seq![0x22u8] + escaped_all(s) + seq![0x22u8]
}

/// The decimal numeral of `n`, as bytes.
pub open spec fn decimal_bytes(n: nat) -> Seq<u8>
    decreases n,
{
    if n < 10 {
        seq![(0x30 + n) as u8]
    } else {
        decimal_bytes(n / 10).push((0x30 + n % 10) as u8)
    }
}

/// One step of a path.
pub enum Step {
    Key(Seq<u8>),
    Index(nat),
}

/// The text of a step; `first` tells whether nothing stands before it.
pub open spec fn step_text(step: Step, first: bool) -> Seq<u8> {
    let dot = if first {
        seq![0x2Eu8]
    } else {
        Seq::empty()
    };
    match step {
        Step::Key(key) => if is_simple(key) {
            seq![0x2Eu8] + key
        } else {
            dot + seq![0x5Bu8] + quoted(key) + seq![0x5Du8]
        },
        Step::Index(n) => dot + seq![0x5Bu8] + decimal_bytes(n) + seq![0x5Du8],
    }
}

/// The text of steps that follow each other from the root.
pub open spec fn steps_text(steps: Seq<Step>) -> Seq<u8>
    decreases steps.len(),
{
    if steps.len() == 0 {
        Seq::empty()
    } else {
        steps_text(steps.drop_last()) + step_text(steps.last(), steps.len() == 1)
    }
}

/// The text of a path.
pub open spec fn path_text(steps: Seq<Step>) -> Seq<u8> {
    if steps.len() == 0 {
        seq![0x2Eu8]
    } else {
        steps_text(steps)
    }
}

/// The step that leads from a node's parent to the node. A key outside the
/// arena leaves no step.
pub open spec fn own_step(doc: Document, r: NodeRecord) -> Seq<Step> {
    if r.flags & FLAG_OBJECT_MEMBER != 0 {
        match doc.key_span(r) {
            Some(key) => seq![Step::Key(key)],
            None => Seq::empty(),
        }
    } else if r.flags & FLAG_ARRAY_ELEMENT != 0 {
        seq![Step::Index(r.key_or_index as nat)]
    } else {
        Seq::empty()
    }
}

/// The steps from the root to node `id`.
pub open spec fn steps_to(doc: Document, id: u32) -> Seq<Step>
    decreases id,
{
    match doc.rec(id) {
        None => Seq::empty(),
        Some(r) => if r.parent == NULL_NODE {
            Seq::empty()
        } else if r.parent < id {
            steps_to(doc, r.parent) + own_step(doc, r)
        } else {
            own_step(doc, r)
        },
    }
}

/// Every parent has a smaller id than its child, or no record at all.
pub open spec fn parents_first(doc: Document) -> bool {
    forall|j: int|
        0 <= j < doc.records@.len() ==> (#[trigger] doc.records@[j]).parent < j
            || doc.records@[j].parent >= doc.records@.len()
}

/// A laid-out index has every parent before its children.
pub proof fn layout_parents_first(doc: Document)
    requires
        layout_ok(doc.records@),
        doc.records@.len() <= NULL_NODE,
    ensures
        parents_first(doc),
{
    assert forall|j: int| 0 <= j < doc.records@.len() implies (#[trigger] doc.records@[j]).parent
        < j || doc.records@[j].parent >= doc.records@.len() by {
        assert(layout_ok_at(doc.records@, j));
    }
}

/// Whether a document can be walked: its parents come first, and its records
/// and bytes have ids and offsets to spare.
pub open spec fn walkable(doc: Document) -> bool {
    &&& parents_first(doc)
    &&& doc.records@.len() <= NULL_NODE
    &&& doc.source@.len() < u64::MAX
}

/// Tests whether a document can be walked. One that was parsed can; a damaged
/// cache may hold one that cannot.
pub fn is_walkable(doc: &Document) -> (b: bool)
    ensures
        b == walkable(*doc),
{
    if doc.records.len() as u64 > NULL_NODE as u64 || doc.source.len() as u64 == u64::MAX {
        return false;
    }
    let n: usize = doc.records.len();
    let mut j: usize = 0;
    while j < n
        invariant
            n == doc.records@.len(),
            j <= n,
            forall|k: int|
                0 <= k < j ==> (#[trigger] doc.records@[k]).parent < k || doc.records@[k].parent
                    >= n,
        decreases n - j,
    {
        let p: usize = doc.records[j].parent as usize;
        if p >= j && p < n {
            assert(!(doc.records@[j as int].parent < j || doc.records@[j as int].parent >= n));
            return false;
        }
        j += 1;
    }
    true
}

fn is_simple_identifier(s: &[u8]) -> (b: bool)
    ensures
        b == is_simple(s@),
{
    if s.len() == 0 {
        return false;
    }
    let first: u8 = s[0];
    if !((first >= 0x41 && first <= 0x5A) || (first >= 0x61 && first <= 0x7A) || first == 0x5F) {
        return false;
    }
    let mut i: usize = 1;
    while i < s.len()
        invariant
            1 <= i <= s@.len(),
            forall|k: int| 1 <= k < i ==> is_word_byte(#[trigger] s@[k]),
        decreases s@.len() - i,
    {
        let c: u8 = s[i];
        if !((c >= 0x41 && c <= 0x5A) || (c >= 0x61 && c <= 0x7A) || (c >= 0x30 && c <= 0x39) || c
            == 0x5F) {
            return false;
        }
        i += 1;
    }
    true
}

/// Appends the lower-case hexadecimal digit of value `d`.
fn hex_digit_byte(d: u8) -> (b: u8)
    requires
        d < 16,
    ensures
        b == hex_digit(d as int),
{
    if d < 10 {
        0x30 + d
    } else {
        0x57 + d
    }
}

/// Appends `\u00XX`.
fn format_hex_escape(c: u8, out: &mut Vec<u8>)
    ensures
        final(out)@ == old(out)@ + seq![
            0x5Cu8,
            0x75u8,
            0x30u8,
            0x30u8,
            hex_digit(c as int / 16),
            hex_digit(c as int % 16),
        ],
{
    out.push(0x5C);
    out.push(0x75);
    out.push(0x30);
    out.push(0x30);
    out.push(hex_digit_byte(c / 16));
    out.push(hex_digit_byte(c % 16));
}

/// Appends a backslash and `c`.
fn push_pair(out: &mut Vec<u8>, c: u8)
    ensures
        final(out)@ == old(out)@ + seq![0x5Cu8, c],
{
    out.push(0x5C);
    out.push(c);
}

/// Appends `s` as a JSON string.
fn json_string_into(s: &[u8], out: &mut Vec<u8>)
    ensures
        final(out)@ == old(out)@ + quoted(s@),
{
    let ghost before = out@;
    out.push(0x22);
    let mut i: usize = 0;
    proof {
        assert(s@.take(0) =~= Seq::<u8>::empty());
        assert(out@ =~= before + seq![0x22u8] + escaped_all(s@.take(0)));
    }
    while i < s.len()
        invariant
            i <= s@.len(),
            out@ == before + seq![0x22u8] + escaped_all(s@.take(i as int)),
        decreases s@.len() - i,
    {
        let c: u8 = s[i];
        let ghost had = out@;
        match c {
            0x22 => push_pair(out, 0x22),
            0x5C => push_pair(out, 0x5C),
            0x0A => push_pair(out, 0x6E),
            0x0D => push_pair(out, 0x72),
            0x09 => push_pair(out, 0x74),
            0x08 => push_pair(out, 0x62),
            0x0C => push_pair(out, 0x66),
            _ => if c < 0x20 {
                format_hex_escape(c, out);
            } else {
                out.push(c);
            },
        }
        proof {
            assert(out@ =~= had + escaped(c));
            assert(s@.take(i + 1).drop_last() =~= s@.take(i as int));
            assert(s@.take(i + 1).last() == c);
            assert(out@ =~= before + seq![0x22u8] + escaped_all(s@.take(i + 1)));
        }
        i += 1;
    }
    out.push(0x22);
    proof {
        assert(s@.take(i as int) =~= s@);
        assert(out@ =~= before + quoted(s@));
    }
}

/// Appends `n` in decimal.
pub fn push_decimal(out: &mut Vec<u8>, n: u64)
    ensures
        final(out)@ == old(out)@ + decimal_bytes(n as nat),
    decreases n,
{
    if n >= 10 {
        push_decimal(out, n / 10);
    }
    out.push(0x30 + (n % 10) as u8);
    proof {
        assert(out@ =~= old(out)@ + decimal_bytes(n as nat));
    }
}

/// Appends the segment of an object key; a bracket at the very start gets a
/// leading dot.
fn push_key_segment(key: &[u8], out: &mut Vec<u8>)
    ensures
        final(out)@ == old(out)@ + step_text(Step::Key(key@), old(out)@.len() == 0),
{
    let ghost before = out@;
    if is_simple_identifier(key) {
        out.push(0x2E);
        out.extend_from_slice(key);
    } else {
        if out.len() == 0 {
            out.push(0x2E);
        }
        out.push(0x5B);
        json_string_into(key, out);
        out.push(0x5D);
    }
    proof {
        assert(out@ =~= before + step_text(Step::Key(key@), before.len() == 0));
    }
}

/// Appends the segment of an array slot.
fn push_index_segment(idx: u64, out: &mut Vec<u8>, needs_leading_dot: bool)
    ensures
        final(out)@ == old(out)@ + step_text(Step::Index(idx as nat), needs_leading_dot),
{
    let ghost before = out@;
    if needs_leading_dot {
        out.push(0x2E);
    }
    out.push(0x5B);
    push_decimal(out, idx);
    out.push(0x5D);
    proof {
        assert(out@ =~= before + step_text(Step::Index(idx as nat), needs_leading_dot));
    }
}

enum Segment<'a> {
    Key(&'a [u8]),
    Index(u64),
}

spec fn step_of(s: Segment) -> Step {
    match s {
        Segment::Key(k) => Step::Key(k@),
        Segment::Index(n) => Step::Index(n as nat),
    }
}

/// The steps of segments collected from the leaf upwards.
spec fn upward(segments: Seq<Segment>) -> Seq<Step>
    decreases segments.len(),
{
    if segments.len() == 0 {
        Seq::empty()
    } else {
        seq![step_of(segments.last())] + upward(segments.drop_last())
    }
}

proof fn upward_len(segments: Seq<Segment>)
    ensures
        upward(segments).len() == segments.len(),
    decreases segments.len(),
{
    if segments.len() > 0 {
        upward_len(segments.drop_last());
    }
}

/// The text of a step is never empty.
proof fn step_text_nonempty(step: Step, first: bool)
    ensures
        step_text(step, first).len() > 0,
{
}

proof fn steps_text_nonempty(steps: Seq<Step>)
    ensures
        steps_text(steps).len() == 0 <==> steps.len() == 0,
    decreases steps.len(),
{
    if steps.len() > 0 {
        step_text_nonempty(steps.last(), steps.len() == 1);
    }
}

/// The path of `node`.
pub fn compute_path(doc: &Document, node: u32) -> (out: Vec<u8>)
    requires
        parents_first(*doc),
    ensures
        out@ == path_text(steps_to(*doc, node)),
{
    let mut segments: Vec<Segment> = Vec::new();
    let mut cur: u32 = node;
    let ghost all = steps_to(*doc, node);
    proof {
        assert(all + upward(segments@) =~= all);
    }
    loop
        invariant_except_break
            parents_first(*doc),
            all == steps_to(*doc, cur) + upward(segments@),
        ensures
            all == upward(segments@),
        decreases cur,
    {
        let r = match doc.record(cur) {
            Some(r) => r,
            None => {
                assert(Seq::<Step>::empty() + upward(segments@) =~= upward(segments@));
                break;
            },
        };
        if r.parent == NULL_NODE {
            assert(Seq::<Step>::empty() + upward(segments@) =~= upward(segments@));
            break;
        }
        let ghost before = segments@;
        let ghost up = if r.parent < cur {
            steps_to(*doc, r.parent)
        } else {
            Seq::<Step>::empty()
        };
        proof {
            assert(doc.records@[cur as int] == r);
            assert(steps_to(*doc, cur) =~= up + own_step(*doc, r));
            assert(up =~= steps_to(*doc, r.parent));
        }
        if r.flags & FLAG_OBJECT_MEMBER != 0 {
            if let Some(key) = doc.record_key(&r) {
                segments.push(Segment::Key(key));
                proof {
                    assert(segments@.drop_last() =~= before);
                    assert(all =~= up + upward(segments@));
                }
            } else {
                assert(all =~= up + upward(segments@));
            }
        } else if r.flags & FLAG_ARRAY_ELEMENT != 0 {
            segments.push(Segment::Index(r.key_or_index));
            proof {
                assert(segments@.drop_last() =~= before);
                assert(all =~= up + upward(segments@));
            }
        } else {
            assert(all =~= up + upward(segments@));
        }
        if r.parent as usize >= doc.records.len() {
            assert(up =~= Seq::<Step>::empty());
            assert(up + upward(segments@) =~= upward(segments@));
            break;
        }
        cur = r.parent;
    }
    let mut out: Vec<u8> = Vec::new();
    if segments.len() == 0 {
        out.push(0x2E);
        assert(out@ =~= path_text(all));
        return out;
    }
    let total: usize = segments.len();
    let mut i: usize = total;
    proof {
        upward_len(segments@);
        assert(segments@.take(total as int) =~= segments@);
        assert(all.take(0) =~= Seq::<Step>::empty());
    }
    while i > 0
        invariant
            i <= total,
            total == segments@.len(),
            all == upward(segments@),
            all.len() == total,
            all.skip(total - i) == upward(segments@.take(i as int)),
            out@ == steps_text(all.take(total - i)),
        decreases i,
    {
        let first: bool = i == total;
        proof {
            let rest = segments@.take(i as int);
            assert(rest.last() == segments@[i - 1]);
            assert(rest.drop_last() =~= segments@.take(i - 1));
            assert(all.skip(total - i)[0] == step_of(segments@[i - 1]));
            assert(all.skip(total - (i - 1)) =~= all.skip(total - i).skip(1));
            assert(upward(rest).skip(1) =~= upward(rest.drop_last()));
            assert(all.take(total - (i - 1)).drop_last() =~= all.take(total - i));
            assert(all.take(total - (i - 1)).last() == step_of(segments@[i - 1]));
            steps_text_nonempty(all.take(total - i));
        }
        i -= 1;
        match &segments[i] {
            Segment::Key(key) => push_key_segment(key, &mut out),
            Segment::Index(n) => push_index_segment(*n, &mut out, first),
        }
    }
    assert(all.take(total as int) =~= all);
    out
}

/// The step to the child in `slot`; none if its key cannot be read.
pub open spec fn child_step(doc: Document, o: Opening, slot: Slot, index: nat) -> Option<Step> {
    if o.kind == NodeKind::Object {
        let key = if slot.id != NULL_NODE {
            doc.key_span(doc.rec(slot.id)->0)
        } else {
            decoded(o.source.subrange(slot.start + 1, slot.key_end))
        };
        match key {
            Some(k) => Some(Step::Key(k)),
            None => None,
        }
    } else {
        Some(Step::Index(index))
    }
}

/// The path of the `slot`-th child of `parent`, primitives included.
pub open spec fn child_path(doc: Document, parent: u32, slot: nat) -> Option<Seq<u8>> {
    match opening(doc, parent) {
        None => None,
        Some(o) => {
            let kids = children(doc, o);
            if slot < kids.len() {
                match child_step(doc, o, kids[slot as int], slot) {
                    Some(step) => Some(path_text(steps_to(doc, parent).push(step))),
                    None => None,
                }
            } else {
                None
            }
        },
    }
}

/// The key of the member in `slot`: a record's key lies decoded in the arena,
/// a primitive's is decoded from the source.
fn slot_key(doc: &Document, open: &ContainerOpen, slot: &ScanSlot) -> (r: Option<Vec<u8>>)
    requires
        slot.id != NULL_NODE ==> doc.rec(slot.id) is Some,
        slot.start < slot.key_end <= open.source@.len(),
    ensures
        ({
            let key = if slot.id != NULL_NODE {
                doc.key_span(doc.rec(slot.id)->0)
            } else {
                decoded(open.source@.subrange(slot.start + 1, slot.key_end as int))
            };
            match key {
                Some(k) => r matches Some(x) && x@ == k,
                None => r is None,
            }
        }),
{
    if slot.id != NULL_NODE {
        let rec = doc.record(slot.id).unwrap();
        match doc.record_key(&rec) {
            Some(k) => {
                let mut out: Vec<u8> = Vec::new();
                out.extend_from_slice(k);
                assert(out@ =~= k@);
                Some(out)
            },
            None => None,
        }
    } else {
        let raw = vstd::slice::slice_subrange(open.source, slot.start + 1, slot.key_end);
        decode_json_string_inner(raw)
    }
}

/// The path of the `slot`-th child, of any number of children.
pub fn child_path_at(doc: &Document, parent: u32, slot: usize) -> (r: Option<Vec<u8>>)
    requires
        parents_first(*doc),
    ensures
        match child_path(*doc, parent, slot as nat) {
            Some(p) => r matches Some(v) && v@ == p,
            None => r is None,
        },
{
    let open = match ContainerOpen::new(doc, parent) {
        Some(o) => o,
        None => return None,
    };
    let ghost o = open@;
    let mut pos: usize = match open.first_slot() {
        Some(p) => p,
        None => return None,
    };
    let mut next: u32 = open.initial_next_skippable;
    let mut current: usize = 0;
    let ghost kids = children(*doc, o);
    proof {
        assert(kids.skip(0) =~= kids);
    }
    loop
        invariant
            parents_first(*doc),
            open.fits(),
            o == open@,
            opening(*doc, parent) == Some(o),
            kids == children(*doc, o),
            pos <= o.source.len(),
            current <= slot,
            current <= kids.len(),
            kids.skip(current as int) == slots(*doc, o, pos as int, next),
        decreases slot - current,
    {
        proof {
            slots_step(*doc, o, pos as int, next);
            assert(kids.skip(current as int).len() == kids.len() - current);
        }
        let s = match open.slot(doc, pos, next) {
            Some(s) => s,
            None => return None,
        };
        let ghost gs = slot_at(*doc, o, pos as int, next)->0;
        proof {
            slot_at_range(*doc, o, pos as int, next);
            assert(kids.skip(current as int)[0] == gs);
            assert(kids[current as int] == gs);
            if o.kind == NodeKind::Object {
                crate::container_scan::key_at_range(o.source, pos as int);
            }
        }
        if current == slot {
            let mut out = compute_path(doc, parent);
            let ghost steps = steps_to(*doc, parent);
            proof {
                steps_text_nonempty(steps);
            }
            if is_dot(&out) {
                proof {
                    dot_is_root(steps);
                }
                out = Vec::new();
            }
            assert(out@ =~= steps_text(steps));
            if open.kind == NodeKind::Object {
                let key = match slot_key(doc, &open, &s) {
                    Some(k) => k,
                    None => return None,
                };
                push_key_segment(key.as_slice(), &mut out);
                proof {
                    assert(steps.push(Step::Key(key@)).drop_last() =~= steps);
                }
            } else {
                let needs_dot: bool = out.len() == 0;
                push_index_segment(current as u64, &mut out, needs_dot);
                proof {
                    assert(steps.push(Step::Index(current as nat)).drop_last() =~= steps);
                }
            }
            return Some(out);
        }
        match open.next_slot(s.end) {
            Some(p) => {
                proof {
                    let rest = slots(*doc, o, p as int, s.next);
                    assert(kids.skip(current + 1) =~= kids.skip(current as int).skip(1));
                    assert((seq![gs] + rest).skip(1) =~= rest);
                }
                pos = p;
                next = s.next;
            },
            None => {
                return None;
            },
        }
        current += 1;
    }
}

/// The path of the `slot`-th child of `parent`, including primitives, which
/// have no record. `None` if `parent` is no container, has no such child, or
/// the child's key cannot be read.
pub fn compute_child_path(doc: &Document, parent: u32, slot: u32) -> (r: Option<Vec<u8>>)
    requires
        parents_first(*doc),
    ensures
        match child_path(*doc, parent, slot as nat) {
            Some(p) => r matches Some(v) && v@ == p,
            None => r is None,
        },
{
    child_path_at(doc, parent, slot as usize)
}

/// Whether `bytes` is a lone dot.
fn is_dot(bytes: &Vec<u8>) -> (b: bool)
    ensures
        b == (bytes@ == seq![0x2Eu8]),
{
    if bytes.len() == 1 && bytes[0] == 0x2E {
        assert(bytes@ =~= seq![0x2Eu8]);
        true
    } else {
        proof {
            if bytes@ == seq![0x2Eu8] {
                assert(bytes@[0] == 0x2E);
            }
        }
        false
    }
}

/// Only the root's path is a lone dot.
proof fn dot_is_root(steps: Seq<Step>)
    requires
        path_text(steps) == seq![0x2Eu8],
    ensures
        steps.len() == 0,
{
    if steps.len() > 0 {
        let t = step_text(steps.last(), steps.len() == 1);
        assert(t.len() >= 2);
        assert(steps_text(steps).len() >= 2);
    }
}

} // verus!
