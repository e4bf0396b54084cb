//! The search for a text in the keys and the primitives of a document.
use vstd::prelude::*;

use super::super::number::{nums, Numbers, Nums};
use super::super::value::{read_text, text_of, Value, ValueV};
use super::queries::EvalOutput;
use super::render::{is_row_of, kind_of_value, make_result, value_kind, QueryResult};
use super::scan::{all_slots, slot_value, value_of_slot};
use crate::container_scan::{
    children, first_slot, next_slot, next_slot_range, opening, slot_at, slot_at_range, slots,
    slots_step, ContainerOpen, Opening, ScanSlot, Slot,
};
use crate::document::{Document, NodeKind, FLAG_OBJECT_MEMBER, NULL_NODE};
use crate::interleaving::{child_ok, met, scan_meets_children};
use crate::layout::{encloses, nested, parsed_is_pre_order, record_ok};
use crate::path::{child_path, child_path_at, parents_first};
use crate::source_scan::{decode_json_string_inner, decoded};

verus! {

/// An ASCII letter in lower case; other bytes as they are.
pub open spec fn folded(b: u8) -> u8 {
    if 0x41 <= b <= 0x5A {
        (b + 0x20) as u8
    } else {
        b
    }
}

fn fold(b: u8) -> (r: u8)
    ensures
        r == folded(b),
{
    if 0x41 <= b && b <= 0x5A {
        b + 0x20
    } else {
        b
    }
}

/// `needle` stands at `i`, whatever the case of its letters.
pub open spec fn stands_at(hay: Seq<u8>, needle: Seq<u8>, i: int) -> bool {
    0 <= i && i + needle.len() <= hay.len() && forall|j: int|
        0 <= j < needle.len() ==> folded(#[trigger] needle[j]) == folded(hay[i + j])
}

/// `needle` stands somewhere in `hay`.
pub open spec fn stands_in(hay: Seq<u8>, needle: Seq<u8>) -> bool {
    needle.len() > 0 && exists|i: int| #[trigger] stands_at(hay, needle, i)
}

fn byte_contains_ci(hay: &[u8], needle: &[u8]) -> (b: bool)
    ensures
        b == stands_in(hay@, needle@),
{
    let size: usize = hay.len();
    let n: usize = needle.len();
    if n == 0 || size < n {
        return false;
    }
    let mut i: usize = 0;
    while i <= size - n
        invariant
            size == hay@.len(),
            n == needle@.len(),
            0 < n <= size,
            i <= size - n + 1,
            forall|k: int| 0 <= k < i ==> !#[trigger] stands_at(hay@, needle@, k),
        decreases size - i,
    {
        let mut j: usize = 0;
        while j < n && fold(hay[i + j]) == fold(needle[j])
            invariant
                size == hay@.len(),
                n == needle@.len(),
                i + n <= size,
                j <= n,
                forall|k: int|
                    0 <= k < j ==> folded(#[trigger] needle@[k]) == folded(hay@[i + k]),
            decreases n - j,
        {
            j += 1;
        }
        if j == n {
            assert(stands_at(hay@, needle@, i as int));
            return true;
        }
        assert(folded(needle@[j as int]) != folded(hay@[i + j]));
        assert(!stands_at(hay@, needle@, i as int));
        i += 1;
    }
    false
}

/// Record `i` holds the text: in its key, or in the source of a primitive.
pub open spec fn record_holds(doc: Document, i: int, needle: Seq<u8>) -> bool {
    let r = doc.records@[i];
    let in_key = r.flags & FLAG_OBJECT_MEMBER != 0 && (doc.key_span(r) matches Some(k)
        && stands_in(k, needle));
    in_key || (!NodeKind::of_code(r.kind).is_container() && (crate::document::span(
        doc.source@,
        r.offset as int,
        r.length as int,
    ) matches Some(b) && stands_in(b, needle)))
}

/// A primitive without a record holds the text: in its key, or in its source.
pub open spec fn slot_holds(o: Opening, s: Slot, needle: Seq<u8>) -> bool {
    let in_key = o.kind == NodeKind::Object && 0 <= s.start < s.key_end <= o.source.len() && (
    decoded(o.source.subrange(s.start + 1, s.key_end)) matches Some(k) && stands_in(k, needle));
    in_key || (0 <= s.value <= s.end <= o.source.len() && stands_in(
        o.source.subrange(s.value, s.end),
        needle,
    ))
}

/// A place in the document: a record, or a child without a record.
pub enum PlaceV {
    Record(u32),
    Inline { parent: u32, slot: nat },
}

/// The places that hold the text in the subtree of `id`, in document order.
pub open spec fn hits_of(doc: Document, needle: Seq<u8>, id: u32) -> Seq<PlaceV>
    decreases doc.records@.len() - id, 1nat, 0nat,
{
    let own: Seq<PlaceV> = if id < doc.records@.len() && record_holds(doc, id as int, needle) {
        seq![PlaceV::Record(id)]
    } else {
        Seq::empty()
    };
    own + match opening(doc, id) {
        Some(o) => hits_from(doc, needle, id, o, 0),
        None => Seq::empty(),
    }
}

/// Those in the children of `id` from slot `k` on.
pub open spec fn hits_from(doc: Document, needle: Seq<u8>, id: u32, o: Opening, k: nat) -> Seq<PlaceV>
    decreases doc.records@.len() - id, 0nat, children(doc, o).len() - k,
{
    let all = children(doc, o);
    if k >= all.len() {
        Seq::empty()
    } else {
        let s = all[k as int];
        let here: Seq<PlaceV> = if s.id == NULL_NODE {
            if slot_holds(o, s, needle) {
                seq![PlaceV::Inline { parent: id, slot: k }]
            } else {
                Seq::empty()
            }
        } else if id < s.id < doc.records@.len() {
            hits_of(doc, needle, s.id)
        } else {
            Seq::empty()
        };
        here + hits_from(doc, needle, id, o, k + 1)
    }
}

/// All places that hold the text, in document order. Nothing holds an empty
/// text.
pub open spec fn holders(doc: Document, needle: Seq<u8>) -> Seq<PlaceV> {
    if needle.len() == 0 || doc.records@.len() == 0 {
        Seq::empty()
    } else {
        hits_of(doc, needle, 0)
    }
}

/// How many places the subtree of `id` has.
spec fn places_of(doc: Document, id: u32) -> nat
    decreases doc.records@.len() - id, 1nat, 0nat,
{
    1 + match opening(doc, id) {
        Some(o) => 1 + places_from(doc, id, o, 0),
        None => 0,
    }
}

spec fn places_from(doc: Document, id: u32, o: Opening, k: nat) -> nat
    decreases doc.records@.len() - id, 0nat, children(doc, o).len() - k,
{
    let all = children(doc, o);
    if k >= all.len() {
        0
    } else {
        let s = all[k as int];
        let here: nat = if s.id != NULL_NODE && id < s.id < doc.records@.len() {
            places_of(doc, s.id)
        } else {
            1
        };
        here + places_from(doc, id, o, k + 1)
    }
}

/// The path of a child, as text; empty if its key cannot be read.
pub open spec fn place_path(doc: Document, parent: u32, slot: nat) -> Seq<char> {
    match child_path(doc, parent, slot) {
        Some(p) => text_of(p),
        None => Seq::empty(),
    }
}

/// The row that a place makes: that of its node, or of a primitive at its
/// path.
pub open spec fn is_hit(r: QueryResult, doc: Document, n: Nums, p: PlaceV) -> bool {
    match p {
        PlaceV::Record(id) => is_row_of(r, doc, n, ValueV::Node(id)),
        PlaceV::Inline { parent, slot } => match opening(doc, parent) {
            Some(o) => {
                let v = slot_value(n, o, children(doc, o)[slot as int]);
                &&& r.kind == kind_of_value(doc, v).code()
                &&& r.path@ == place_path(doc, parent, slot)
                &&& r.value@ == v
            },
            None => false,
        },
    }
}

/// `r` are the rows of these places.
pub open spec fn hit_rows(r: Seq<QueryResult>, doc: Document, n: Nums, p: Seq<PlaceV>) -> bool {
    r.len() == p.len() && forall|i: int|
        0 <= i < p.len() ==> is_hit(#[trigger] r[i], doc, n, p[i])
}

/// `out` is what a search gives: the rows of the first places that hold the
/// text, and that every record and all of the source were read.
pub open spec fn finds(out: EvalOutput, doc: Document, n: Nums, needle: Seq<u8>, limit: nat) -> bool {
    let all = holders(doc, needle);
    &&& out.error is None
    &&& out.hit_limit == (all.len() > limit)
    &&& hit_rows(
        out.results@,
        doc,
        n,
        if all.len() > limit {
            all.take(limit as int)
        } else {
            all
        },
    )
    &&& out.lookup_calls == 0
    &&& out.scanned_rows == if needle.len() == 0 {
        0
    } else {
        doc.records@.len()
    }
    &&& out.scanned_bytes == if needle.len() == 0 {
        0
    } else {
        doc.source@.len()
    }
}

fn holds_text(doc: &Document, i: usize, needle: &[u8]) -> (b: bool)
    requires
        i < doc.records@.len(),
    ensures
        b == record_holds(*doc, i as int, needle@),
{
    let r = doc.records[i];
    if r.flags & FLAG_OBJECT_MEMBER != 0 {
        if let Some(k) = doc.record_key(&r) {
            if byte_contains_ci(k, needle) {
                return true;
            }
        }
    }
    let kind = NodeKind::from_u8(r.kind);
    if kind == NodeKind::Array || kind == NodeKind::Object {
        return false;
    }
    match crate::document::get_span(doc.source.as_slice(), r.offset, r.length) {
        Some(b) => byte_contains_ci(b, needle),
        None => false,
    }
}

fn slot_holds_text(open: &ContainerOpen, s: &ScanSlot, needle: &[u8]) -> (b: bool)
    ensures
        forall|t: Slot| #[trigger] s.is_slot(t) ==> b == slot_holds(open@, t, needle@),
{
    let n: usize = open.source.len();
    if open.kind == NodeKind::Object && s.start < s.key_end && s.key_end <= n {
        let raw = vstd::slice::slice_subrange(open.source, s.start + 1, s.key_end);
        if let Some(k) = decode_json_string_inner(raw) {
            if byte_contains_ci(k.as_slice(), needle) {
                return true;
            }
        }
    }
    if s.value <= s.end && s.end <= n {
        byte_contains_ci(vstd::slice::slice_subrange(open.source, s.value, s.end), needle)
    } else {
        false
    }
}

/// A container on the way down, and the slot that comes next in it.
struct Level<'a> {
    id: u32,
    open: ContainerOpen<'a>,
    slots: Vec<ScanSlot>,
    next: usize,
}

impl<'a> Level<'a> {
    spec fn wf(self, doc: Document) -> bool {
        &&& self.id < doc.records@.len()
        &&& opening(doc, self.id) == Some(self.open@)
        &&& self.open.fits()
        &&& self.slots@.len() == children(doc, self.open@).len()
        &&& forall|i: int|
            0 <= i < self.slots@.len() ==> (#[trigger] self.slots@[i]).is_slot(
                children(doc, self.open@)[i],
            )
        &&& self.next <= self.slots@.len()
    }
}

/// What is still to come, from the innermost level out.
spec fn to_come(doc: Document, needle: Seq<u8>, v: Seq<Level>) -> Seq<PlaceV>
    decreases v.len(),
{
    if v.len() == 0 {
        Seq::empty()
    } else {
        let l = v.last();
        hits_from(doc, needle, l.id, l.open@, l.next as nat) + to_come(doc, needle, v.drop_last())
    }
}

spec fn places_left(doc: Document, v: Seq<Level>) -> nat
    decreases v.len(),
{
    if v.len() == 0 {
        0
    } else {
        let l = v.last();
        1 + places_from(doc, l.id, l.open@, l.next as nat) + places_left(doc, v.drop_last())
    }
}

/// Adds the row of record `id` if it holds the text, and goes into it if it is
/// a container.
#[verifier::spinoff_prover]
fn enter<'a, N: Numbers>(
    doc: &'a Document,
    num: &N,
    needle: &[u8],
    id: u32,
    rows: &mut Vec<QueryResult>,
    levels: &mut Vec<Level<'a>>,
    Ghost(hits): Ghost<Seq<PlaceV>>,
) -> (r: Ghost<Seq<PlaceV>>)
    requires
        num.wf(),
        parents_first(*doc),
        id < doc.records@.len(),
        hit_rows(old(rows)@, *doc, nums(num), hits),
        forall|i: int| 0 <= i < old(levels)@.len() ==> (#[trigger] old(levels)@[i]).wf(*doc),
    ensures
        hit_rows(final(rows)@, *doc, nums(num), r@),
        forall|i: int| 0 <= i < final(levels)@.len() ==> (#[trigger] final(levels)@[i]).wf(*doc),
        r@ + to_come(*doc, needle@, final(levels)@) == hits + (hits_of(*doc, needle@, id)
            + to_come(*doc, needle@, old(levels)@)),
        places_left(*doc, final(levels)@) < places_of(*doc, id) + places_left(
            *doc,
            old(levels)@,
        ),
{
    let ghost mut got = hits;
    if holds_text(doc, id as usize, needle) {
        let row = make_result(doc, num, Value::Node(id));
        rows.push(row);
        proof {
            got = hits.push(PlaceV::Record(id));
        }
    }
    if let Some(open) = ContainerOpen::new(doc, id) {
        let slots = all_slots(doc, &open);
        let level = Level { id, open, slots, next: 0 };
        levels.push(level);
        assert(levels@.drop_last() =~= old(levels)@);
        assert(got + to_come(*doc, needle@, levels@) =~= hits + (hits_of(*doc, needle@, id)
            + to_come(*doc, needle@, old(levels)@)));
    } else {
        assert(got + to_come(*doc, needle@, levels@) =~= hits + (hits_of(*doc, needle@, id)
            + to_come(*doc, needle@, old(levels)@)));
    }
    Ghost(got)
}

/// The row of a primitive without a record.
fn inline_row<N: Numbers>(doc: &Document, num: &N, level: &Level, s: &ScanSlot, k: usize) -> (r:
    QueryResult)
    requires
        num.wf(),
        parents_first(*doc),
        level.wf(*doc),
        k < level.slots@.len(),
        *s == level.slots@[k as int],
    ensures
        is_hit(r, *doc, nums(num), (PlaceV::Inline { parent: level.id, slot: k as nat })),
{
    let value = value_of_slot(num, &level.open, s);
    let kind = value_kind(doc, &value).to_u8();
    let path = match child_path_at(doc, level.id, k) {
        Some(p) => read_text(p.as_slice()),
        None => String::new(),
    };
    assert(s.is_slot(children(*doc, level.open@)[k as int]));
    assert(path@ =~= place_path(*doc, level.id, k as nat));
    QueryResult { kind, path, value }
}

/// The nodes whose key or primitive value holds `needle`, without regard to
/// the case of ASCII letters, in document order and at most `limit`.
#[verifier::spinoff_prover]
pub fn text_search<N: Numbers>(doc: &Document, num: &N, needle: &[u8], limit: usize) -> (out:
    EvalOutput)
    requires
        num.wf(),
        parents_first(*doc),
    ensures
        finds(out, *doc, nums(num), needle@, limit as nat),
{
    let mut rows: Vec<QueryResult> = Vec::new();
    if needle.len() == 0 {
        return EvalOutput {
            results: rows,
            hit_limit: false,
            error: None,
            scanned_rows: 0,
            lookup_calls: 0,
            scanned_bytes: 0,
        };
    }
    let scanned_rows = doc.records.len() as u64;
    let scanned_bytes = doc.source.len() as u64;
    let mut levels: Vec<Level> = Vec::new();
    let ghost mut hits: Seq<PlaceV> = Seq::empty();
    let ghost all = holders(*doc, needle@);
    if doc.records.len() > 0 {
        let Ghost(got) = enter(doc, num, needle, 0, &mut rows, &mut levels, Ghost(hits));
        proof {
            assert(Seq::<PlaceV>::empty() + (hits_of(*doc, needle@, 0) + to_come(
                *doc,
                needle@,
                Seq::empty(),
            )) =~= all);
            hits = got;
        }
    }
    while levels.len() > 0 && rows.len() <= limit
        invariant
            num.wf(),
            parents_first(*doc),
            hit_rows(rows@, *doc, nums(num), hits),
            forall|i: int| 0 <= i < levels@.len() ==> (#[trigger] levels@[i]).wf(*doc),
            hits + to_come(*doc, needle@, levels@) == all,
        decreases places_left(*doc, levels@),
    {
        let ghost before = levels@;
        let level = levels.pop().unwrap();
        proof {
            assert(before.last() == level);
            assert(before.drop_last() =~= levels@);
            assert(level.wf(*doc));
        }
        let k = level.next;
        if k < level.slots.len() {
            let s = level.slots[k];
            let ghost gs = children(*doc, level.open@)[k as int];
            assert(s.is_slot(gs));
            let ghost rest = hits_from(*doc, needle@, level.id, level.open@, (k + 1) as nat)
                + to_come(*doc, needle@, levels@);
            if s.id == NULL_NODE {
                if slot_holds_text(&level.open, &s, needle) {
                    let row = inline_row(doc, num, &level, &s, k);
                    rows.push(row);
                    proof {
                        let p = PlaceV::Inline { parent: level.id, slot: k as nat };
                        assert(hits + to_come(*doc, needle@, before) =~= hits.push(p) + rest);
                        hits = hits.push(p);
                    }
                } else {
                    assert(hits + to_come(*doc, needle@, before) =~= hits + rest);
                }
                let Level { id, open, slots, next: _ } = level;
                levels.push(Level { id, open, slots, next: k + 1 });
                assert(levels@.drop_last() =~= before.drop_last());
            } else {
                let child = s.id;
                let deeper = level.id < child && (child as usize) < doc.records.len();
                let ghost parent = level.id;
                let ghost o = level.open@;
                let Level { id, open, slots, next: _ } = level;
                levels.push(Level { id, open, slots, next: k + 1 });
                assert(levels@.drop_last() =~= before.drop_last());
                if deeper {
                    let ghost here = hits_of(*doc, needle@, child);
                    assert(hits + to_come(*doc, needle@, before) =~= hits + (here + to_come(
                        *doc,
                        needle@,
                        levels@,
                    )));
                    let Ghost(got) = enter(
                        doc,
                        num,
                        needle,
                        child,
                        &mut rows,
                        &mut levels,
                        Ghost(hits),
                    );
                    proof {
                        hits = got;
                    }
                } else {
                    assert(hits + to_come(*doc, needle@, before) =~= hits + to_come(
                        *doc,
                        needle@,
                        levels@,
                    ));
                }
            }
        } else {
            assert(hits + to_come(*doc, needle@, before) =~= hits + to_come(
                *doc,
                needle@,
                levels@,
            ));
        }
    }
    let hit_limit = rows.len() > limit;
    if hit_limit {
        rows.truncate(limit);
        assert(all.take(limit as int) =~= hits.take(limit as int));
    } else {
        assert(hits =~= all);
    }
    EvalOutput { results: rows, hit_limit, error: None, scanned_rows, lookup_calls: 0, scanned_bytes }
}

/// The place holds the text.
pub open spec fn place_holds(doc: Document, needle: Seq<u8>, p: PlaceV) -> bool {
    match p {
        PlaceV::Record(id) => id < doc.records@.len() && record_holds(doc, id as int, needle),
        PlaceV::Inline { parent, slot } => opening(doc, parent) matches Some(o) && slot < children(
            doc,
            o,
        ).len() && children(doc, o)[slot as int].id == NULL_NODE && slot_holds(
            o,
            children(doc, o)[slot as int],
            needle,
        ),
    }
}

proof fn hits_hold(doc: Document, needle: Seq<u8>, id: u32)
    ensures
        forall|i: int|
            0 <= i < hits_of(doc, needle, id).len() ==> place_holds(
                doc,
                needle,
                #[trigger] hits_of(doc, needle, id)[i],
            ),
    decreases doc.records@.len() - id, 1nat, 0nat,
{
    let whole = hits_of(doc, needle, id);
    if let Some(o) = opening(doc, id) {
        hits_from_hold(doc, needle, id, o, 0);
        let below = hits_from(doc, needle, id, o, 0);
        let own = whole.len() - below.len();
        assert forall|i: int| 0 <= i < whole.len() implies place_holds(
            doc,
            needle,
            #[trigger] whole[i],
        ) by {
            if i >= own {
                assert(whole[i] == below[i - own]);
            }
        }
    }
}

proof fn hits_from_hold(doc: Document, needle: Seq<u8>, id: u32, o: Opening, k: nat)
    requires
        opening(doc, id) == Some(o),
    ensures
        forall|i: int|
            0 <= i < hits_from(doc, needle, id, o, k).len() ==> place_holds(
                doc,
                needle,
                #[trigger] hits_from(doc, needle, id, o, k)[i],
            ),
    decreases doc.records@.len() - id, 0nat, children(doc, o).len() - k,
{
    let all = children(doc, o);
    if k < all.len() {
        let t = all[k as int];
        let deeper = t.id != NULL_NODE && id < t.id < doc.records@.len();
        if deeper {
            hits_hold(doc, needle, t.id);
        }
        hits_from_hold(doc, needle, id, o, k + 1);
        let whole = hits_from(doc, needle, id, o, k);
        let rest = hits_from(doc, needle, id, o, k + 1);
        let here = whole.len() - rest.len();
        assert forall|i: int| 0 <= i < whole.len() implies place_holds(
            doc,
            needle,
            #[trigger] whole[i],
        ) by {
            if i >= here {
                assert(whole[i] == rest[i - here]);
            } else if deeper {
                assert(whole[i] == hits_of(doc, needle, t.id)[i]);
            }
        }
    }
}

/// A search reports only places that hold the text.
pub proof fn search_finds_only_holders(doc: Document, needle: Seq<u8>, i: int)
    requires
        0 <= i < holders(doc, needle).len(),
    ensures
        place_holds(doc, needle, holders(doc, needle)[i]),
{
    hits_hold(doc, needle, 0);
}

/// What the subtree of a child holds, the children from `k` on hold.
proof fn child_hits(doc: Document, needle: Seq<u8>, id: u32, o: Opening, k: nat, at: nat)
    requires
        k <= at < children(doc, o).len(),
        children(doc, o)[at as int].id != NULL_NODE,
        id < children(doc, o)[at as int].id < doc.records@.len(),
    ensures
        forall|p: PlaceV|
            hits_of(doc, needle, children(doc, o)[at as int].id).contains(p)
                ==> #[trigger] hits_from(doc, needle, id, o, k).contains(p),
    decreases at - k,
{
    let all = children(doc, o);
    let rest = hits_from(doc, needle, id, o, k + 1);
    let whole = hits_from(doc, needle, id, o, k);
    let head = whole.len() - rest.len();
    if k < at {
        child_hits(doc, needle, id, o, k + 1, at);
        assert forall|p: PlaceV| hits_of(doc, needle, all[at as int].id).contains(p) implies
            #[trigger] whole.contains(p) by {
            let i = choose|i: int| 0 <= i < rest.len() && rest[i] == p;
            assert(rest.contains(p));
            assert(whole[head + i] == p);
        }
    } else {
        let here = hits_of(doc, needle, all[at as int].id);
        assert forall|p: PlaceV| here.contains(p) implies #[trigger] whole.contains(p) by {
            let i = choose|i: int| 0 <= i < here.len() && here[i] == p;
            assert(whole[i] == p);
        }
    }
}

/// A primitive that holds the text is among the hits of its parent.
proof fn inline_hit(doc: Document, needle: Seq<u8>, id: u32, o: Opening, k: nat, at: nat)
    requires
        k <= at < children(doc, o).len(),
        children(doc, o)[at as int].id == NULL_NODE,
        slot_holds(o, children(doc, o)[at as int], needle),
    ensures
        hits_from(doc, needle, id, o, k).contains((PlaceV::Inline { parent: id, slot: at })),
    decreases at - k,
{
    let p = PlaceV::Inline { parent: id, slot: at };
    let rest = hits_from(doc, needle, id, o, k + 1);
    let whole = hits_from(doc, needle, id, o, k);
    if k < at {
        inline_hit(doc, needle, id, o, k + 1, at);
        let i = choose|i: int| 0 <= i < rest.len() && rest[i] == p;
        assert(whole[whole.len() - rest.len() + i] == p);
    } else {
        assert(whole[0] == p);
    }
}

/// What the subtree of a record holds, the whole document holds.
proof fn subtree_hits(doc: Document, source: Seq<u8>, needle: Seq<u8>, id: u32)
    requires
        source.len() <= u64::MAX,
        doc.indexes(source),
        id < doc.records@.len(),
    ensures
        forall|p: PlaceV|
            hits_of(doc, needle, id).contains(p) ==> #[trigger] hits_of(doc, needle, 0).contains(p),
    decreases id,
{
    if id > 0 {
        let recs = doc.records@;
        parsed_is_pre_order(source);
        assert(record_ok(recs, 0, NULL_NODE, 0, source.len() as int, id as int));
        assert(record_ok(recs, 0, NULL_NODE, 0, source.len() as int, 0));
        assert(encloses(recs, 0, id as int));
        let parent = recs[id as int].parent;
        assert(encloses(recs, parent as int, id as int));
        scan_meets_children(doc, source, parent);
        let o = opening(doc, parent)->0;
        let all = children(doc, o);
        assert(met(all, id as int));
        let k = choose|k: int| 0 <= k < all.len() && (#[trigger] all[k]).id == id;
        child_hits(doc, needle, parent, o, 0, k as nat);
        subtree_hits(doc, source, needle, parent);
        let below = hits_from(doc, needle, parent, o, 0);
        let whole = hits_of(doc, needle, parent);
        assert forall|p: PlaceV| hits_of(doc, needle, id).contains(p) implies #[trigger] hits_of(
            doc,
            needle,
            0,
        ).contains(p) by {
            assert(below.contains(p));
            let i = choose|i: int| 0 <= i < below.len() && below[i] == p;
            assert(whole[whole.len() - below.len() + i] == p);
            assert(whole.contains(p));
        }
    }
}

/// In a parsed document a search misses nothing: every record that holds the
/// text is reported, and every primitive without a record that does.
pub proof fn search_misses_nothing(doc: Document, source: Seq<u8>, needle: Seq<u8>, p: PlaceV)
    requires
        source.len() <= u64::MAX,
        doc.indexes(source),
        needle.len() > 0,
        place_holds(doc, needle, p),
    ensures
        holders(doc, needle).contains(p),
{
    match p {
        PlaceV::Record(id) => {
            subtree_hits(doc, source, needle, id);
            assert(hits_of(doc, needle, id)[0] == p);
            assert(hits_of(doc, needle, id).contains(p));
        },
        PlaceV::Inline { parent, slot } => {
            let o = opening(doc, parent)->0;
            subtree_hits(doc, source, needle, parent);
            inline_hit(doc, needle, parent, o, 0, slot);
            let below = hits_from(doc, needle, parent, o, 0);
            let whole = hits_of(doc, needle, parent);
            let i = choose|i: int| 0 <= i < below.len() && below[i] == p;
            assert(whole[whole.len() - below.len() + i] == p);
            assert(whole.contains(p));
        },
    }
    assert(hits_of(doc, needle, 0).contains(p));
}

/// Where a place stands in the source.
pub open spec fn place_at(doc: Document, p: PlaceV) -> int {
    match p {
        PlaceV::Record(id) => doc.records@[id as int].offset as int,
        PlaceV::Inline { parent, slot } => match opening(doc, parent) {
            Some(o) => o.offset + children(doc, o)[slot as int].value,
            None => 0,
        },
    }
}

/// The places stand in source order, between `lo` and `hi`.
pub open spec fn in_source_order(doc: Document, v: Seq<PlaceV>, lo: int, hi: int) -> bool {
    &&& forall|i: int| 0 <= i < v.len() ==> lo <= place_at(doc, #[trigger] v[i]) <= hi
    &&& forall|i: int, j: int|
        0 <= i < j < v.len() ==> place_at(doc, #[trigger] v[i]) < place_at(doc, #[trigger] v[j])
}

proof fn order_joins(
    doc: Document,
    a: Seq<PlaceV>,
    b: Seq<PlaceV>,
    lo: int,
    mid: int,
    from: int,
    hi: int,
)
    requires
        in_source_order(doc, a, lo, mid),
        in_source_order(doc, b, from, hi),
        lo <= mid < from <= hi,
    ensures
        in_source_order(doc, a + b, lo, hi),
{
    let c = a + b;
    assert forall|i: int| 0 <= i < c.len() implies lo <= place_at(doc, #[trigger] c[i]) <= hi by {
        if i < a.len() {
            assert(c[i] == a[i]);
        } else {
            assert(c[i] == b[i - a.len()]);
        }
    }
    assert forall|i: int, j: int| 0 <= i < j < c.len() implies place_at(doc, #[trigger] c[i])
        < place_at(doc, #[trigger] c[j]) by {
        if j < a.len() {
            assert(c[i] == a[i] && c[j] == a[j]);
        } else if i < a.len() {
            assert(c[i] == a[i] && c[j] == b[j - a.len()]);
        } else {
            assert(c[i] == b[i - a.len()] && c[j] == b[j - a.len()]);
        }
    }
}

/// The slots of a container follow each other, and a record stands where its
/// slot says.
pub open spec fn slots_follow_each_other(doc: Document, o: Opening, v: Seq<Slot>, lo: int) -> bool {
    &&& forall|k: int|
        0 <= k < v.len() ==> {
            &&& lo <= (#[trigger] v[k]).value <= v[k].end <= o.source.len()
            &&& v[k].id != NULL_NODE ==> (doc.rec(v[k].id) matches Some(r) && r.offset == o.offset
                + v[k].value && (v[k].value + r.length <= o.source.len() ==> v[k].end == v[k].value
                + r.length))
        }
    &&& forall|i: int, j: int|
        0 <= i < j < v.len() ==> (#[trigger] v[i]).end < (#[trigger] v[j]).value
}

proof fn slots_in_order(doc: Document, o: Opening, pos: int, next: u32)
    requires
        0 <= pos <= o.source.len(),
    ensures
        slots_follow_each_other(doc, o, slots(doc, o, pos, next), pos),
    decreases o.source.len() - pos,
{
    slots_step(doc, o, pos, next);
    let all = slots(doc, o, pos, next);
    if let Some(t) = slot_at(doc, o, pos, next) {
        slot_at_range(doc, o, pos, next);
        if let Some(p) = next_slot(o.source, t.end) {
            next_slot_range(o.source, t.end);
            slots_in_order(doc, o, p, t.next);
            let rest = slots(doc, o, p, t.next);
            assert(all == seq![t] + rest);
            assert forall|k: int| 0 <= k < all.len() implies {
                &&& pos <= (#[trigger] all[k]).value <= all[k].end <= o.source.len()
                &&& all[k].id != NULL_NODE ==> (doc.rec(all[k].id) matches Some(r) && r.offset
                    == o.offset + all[k].value && (all[k].value + r.length <= o.source.len()
                    ==> all[k].end == all[k].value + r.length))
            } by {
                if k > 0 {
                    assert(all[k] == rest[k - 1]);
                }
            }
            assert forall|i: int, j: int| 0 <= i < j < all.len() implies (#[trigger] all[i]).end < (
            #[trigger] all[j]).value by {
                assert(all[j] == rest[j - 1]);
                if i > 0 {
                    assert(all[i] == rest[i - 1]);
                }
            }
        } else {
            assert(all == seq![t]);
        }
    }
}

/// The hits of a subtree stand in source order, inside its record.
proof fn hits_in_order(doc: Document, source: Seq<u8>, needle: Seq<u8>, id: u32)
    requires
        source.len() <= u64::MAX,
        doc.indexes(source),
        id < doc.records@.len(),
    ensures
        in_source_order(
            doc,
            hits_of(doc, needle, id),
            doc.records@[id as int].offset as int,
            doc.records@[id as int].offset + doc.records@[id as int].length,
        ),
    decreases doc.records@.len() - id, 1nat, 0nat,
{
    let r = doc.records@[id as int];
    let lo = r.offset as int;
    let own: Seq<PlaceV> = if record_holds(doc, id as int, needle) {
        seq![PlaceV::Record(id)]
    } else {
        Seq::empty()
    };
    assert(in_source_order(doc, own, lo, lo));
    parsed_is_pre_order(source);
    assert(record_ok(doc.records@, 0, NULL_NODE, 0, source.len() as int, id as int));
    if let Some(o) = opening(doc, id) {
        hits_from_in_order(doc, source, needle, id, o, 0, lo + 1);
        order_joins(
            doc,
            own,
            hits_from(doc, needle, id, o, 0),
            lo,
            lo,
            lo + 1,
            lo + r.length,
        );
    } else {
        assert(hits_of(doc, needle, id) =~= own);
    }
}

#[verifier::spinoff_prover]
#[verifier::rlimit(30)]
proof fn hits_from_in_order(
    doc: Document,
    source: Seq<u8>,
    needle: Seq<u8>,
    id: u32,
    o: Opening,
    k: nat,
    lo: int,
)
    requires
        source.len() <= u64::MAX,
        doc.indexes(source),
        id < doc.records@.len(),
        opening(doc, id) == Some(o),
        (k == 0 && lo == o.offset + 1) || (k < children(doc, o).len() && lo == o.offset + children(
            doc,
            o,
        )[k as int].value),
    ensures
        in_source_order(
            doc,
            hits_from(doc, needle, id, o, k),
            lo,
            o.offset + doc.records@[id as int].length,
        ),
    decreases doc.records@.len() - id, 0nat, children(doc, o).len() - k,
{
    let all = children(doc, o);
    let recs = doc.records@;
    if k < all.len() {
        let t = all[k as int];
        let hi = o.offset + recs[id as int].length;
        crate::parser::ws_end_ge(o.source, 1);
        crate::json::ws_end_range(o.source, 1);
        slots_in_order(doc, o, first_slot(o)->0, o.first);
        scan_meets_children(doc, source, id);
        parsed_is_pre_order(source);
        let rest = hits_from(doc, needle, id, o, k + 1);
        let whole = hits_from(doc, needle, id, o, k);
        let deeper = t.id != NULL_NODE && id < t.id < recs.len();
        let here: Seq<PlaceV> = if t.id == NULL_NODE {
            if slot_holds(o, t, needle) {
                seq![PlaceV::Inline { parent: id, slot: k }]
            } else {
                Seq::empty()
            }
        } else if deeper {
            hits_of(doc, needle, t.id)
        } else {
            Seq::empty()
        };
        assert(whole == here + rest);
        let at = o.offset + t.value;
        let end = o.offset + t.end;
        if deeper {
            assert(child_ok(doc, o, id, t, k));
            assert(record_ok(recs, 0, NULL_NODE, 0, source.len() as int, t.id as int));
            assert(encloses(recs, id as int, t.id as int));
            assert(nested(recs, id as int, t.id as int));
            hits_in_order(doc, source, needle, t.id);
        }
        assert(in_source_order(doc, here, lo, end));
        if k + 1 < all.len() {
            let next = o.offset + all[k as int + 1].value;
            assert(t.end < all[k as int + 1].value);
            hits_from_in_order(doc, source, needle, id, o, k + 1, next);
            order_joins(doc, here, rest, lo, end, next, hi);
        } else {
            assert(rest =~= Seq::empty());
            assert(whole =~= here);
        }
    }
}

/// In a parsed document a search reports what it finds in the order of the
/// source.
pub proof fn search_follows_the_document(
    doc: Document,
    source: Seq<u8>,
    needle: Seq<u8>,
    i: int,
    j: int,
)
    requires
        source.len() <= u64::MAX,
        doc.indexes(source),
        0 <= i < j < holders(doc, needle).len(),
    ensures
        place_at(doc, holders(doc, needle)[i]) < place_at(doc, holders(doc, needle)[j]),
{
    hits_in_order(doc, source, needle, 0);
}

} // verus!
