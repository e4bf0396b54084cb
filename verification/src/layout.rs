//! The pre-order layout of the index, and the proof that the parser
//! produces it.
use vstd::prelude::*;

use crate::document::{NodeKind, NodeRecord, NULL_NODE};
use crate::json::{string_end_range, string_text, string_text_range, ws_end, ws_end_range};
use crate::parser::{
    after, container, document, elements, member, members, value, value_range, After, KeyInfo,
    wrap32,
};

verus! {

/// Record `q` is a container whose extent covers record `j`.
pub open spec fn encloses(recs: Seq<NodeRecord>, q: int, j: int) -> bool {
    &&& 0 <= q < recs.len()
    &&& q < j < q + recs[q].subtree_size
    &&& NodeKind::of_code(recs[q].kind).is_container()
}

/// The records `recs`, whose ids start at `base`, are whole subtrees of
/// children of `parent`, in pre-order, with their source spans in
/// `[lo, hi)`.
pub open spec fn laid(recs: Seq<NodeRecord>, base: int, parent: u32, lo: int, hi: int) -> bool {
    &&& forall|j: int| #![trigger recs[j]] 0 <= j < recs.len() ==> record_ok(recs, base, parent, lo, hi, j)
    &&& forall|q: int, j: int|
        #![trigger recs[q], recs[j]]
        0 <= q < j < recs.len() ==> recs[q].offset < recs[j].offset
    &&& forall|q: int, j: int|
        #![trigger encloses(recs, q, j)]
        0 <= q < j < recs.len() && encloses(recs, q, j) ==> nested(recs, q, j)
    &&& forall|q: int, j: int|
        #![trigger encloses(recs, q, j)]
        0 <= q < j < recs.len() && encloses(recs, q, j) ==> q <= recs[j].parent - base < j
}

/// Record `j` has a fitting extent, a fitting span, and the closest
/// enclosing container as its parent.
pub open spec fn record_ok(
    recs: Seq<NodeRecord>,
    base: int,
    parent: u32,
    lo: int,
    hi: int,
    j: int,
) -> bool {
    let r = recs[j];
    &&& 1 <= r.subtree_size <= recs.len() - j
    &&& NodeKind::of_code(r.kind).is_container() || r.subtree_size == 1
    &&& lo <= r.offset
    &&& r.offset + r.length <= hi
    &&& r.length >= 2
    &&& if 0 <= r.parent - base < j {
        encloses(recs, r.parent - base, j)
    } else {
        r.parent == parent
    }
}

/// The extent and the source span of `j` lie inside those of `q`.
pub open spec fn nested(recs: Seq<NodeRecord>, q: int, j: int) -> bool {
    &&& j + recs[j].subtree_size <= q + recs[q].subtree_size
    &&& recs[q].offset < recs[j].offset
    &&& recs[j].offset + recs[j].length <= recs[q].offset + recs[q].length
}

proof fn laid_empty(base: int, parent: u32, lo: int, hi: int)
    ensures
        laid(Seq::empty(), base, parent, lo, hi),
{
}

proof fn laid_widen(recs: Seq<NodeRecord>, base: int, parent: u32, lo: int, hi: int, lo2: int, hi2: int)
    requires
        laid(recs, base, parent, lo, hi),
        lo2 <= lo,
        hi <= hi2,
    ensures
        laid(recs, base, parent, lo2, hi2),
{
    assert forall|j: int| #![trigger recs[j]] 0 <= j < recs.len() implies record_ok(
        recs,
        base,
        parent,
        lo2,
        hi2,
        j,
    ) by {
        assert(record_ok(recs, base, parent, lo, hi, j));
    }
}

/// Sibling subtrees put one after the other.
proof fn laid_concat(
    a: Seq<NodeRecord>,
    b: Seq<NodeRecord>,
    base: int,
    parent: u32,
    lo: int,
    mid: int,
    hi: int,
)
    requires
        laid(a, base, parent, lo, mid),
        laid(b, base + a.len(), parent, mid, hi),
        lo <= mid <= hi,
        parent < base || base + a.len() + b.len() <= parent,
    ensures
        laid(a + b, base, parent, lo, hi),
{
    let c = a + b;
    let n = a.len() as int;
    assert forall|q: int, j: int| #[trigger] encloses(c, q, j) && 0 <= q < j < c.len() implies (j < n
        && encloses(a, q, j)) || (q >= n && encloses(b, q - n, j - n)) by {
        if q < n {
            assert(record_ok(a, base, parent, lo, mid, q)) by {
                assert(a[q] == c[q]);
            }
        } else {
            assert(c[q] == b[q - n]);
        }
    }
    assert forall|j: int| #![trigger c[j]] 0 <= j < c.len() implies record_ok(
        c,
        base,
        parent,
        lo,
        hi,
        j,
    ) by {
        if j < n {
            assert(c[j] == a[j]);
            assert(record_ok(a, base, parent, lo, mid, j));
            let p = a[j].parent - base;
            if 0 <= p < j {
                assert(c[p] == a[p]);
            }
        } else {
            assert(c[j] == b[j - n]);
            assert(record_ok(b, base + n, parent, mid, hi, j - n));
            let p = b[j - n].parent - (base + n);
            if 0 <= p < j - n {
                assert(c[p + n] == b[p]);
            }
        }
    }
    assert forall|q: int, j: int|
        #![trigger c[q], c[j]]
        0 <= q < j < c.len() implies c[q].offset < c[j].offset by {
        if j < n {
            assert(c[q] == a[q] && c[j] == a[j]);
        } else if q >= n {
            assert(c[q] == b[q - n] && c[j] == b[j - n]);
        } else {
            assert(c[q] == a[q] && c[j] == b[j - n]);
            assert(record_ok(a, base, parent, lo, mid, q));
            assert(record_ok(b, base + n, parent, mid, hi, j - n));
        }
    }
    assert forall|q: int, j: int|
        #![trigger encloses(c, q, j)]
        0 <= q < j < c.len() && encloses(c, q, j) implies nested(c, q, j) && q <= c[j].parent - base
        < j by {
        if j < n && encloses(a, q, j) {
            assert(c[q] == a[q] && c[j] == a[j]);
            assert(nested(a, q, j));
        } else {
            assert(c[q] == b[q - n] && c[j] == b[j - n]);
            assert(nested(b, q - n, j - n));
        }
    }
}

/// A container's record put in front of its children.
proof fn laid_container(
    r: NodeRecord,
    inner: Seq<NodeRecord>,
    base: int,
    parent: u32,
    start: int,
    end: int,
)
    requires
        0 <= base < NULL_NODE,
        laid(inner, base + 1, base as u32, start + 1, end),
        r.subtree_size == 1 + inner.len(),
        NodeKind::of_code(r.kind).is_container(),
        r.offset == start,
        r.length == end - start,
        r.parent == parent,
        end - start >= 2,
        0 <= start,
        parent < base || base + 1 + inner.len() <= parent,
    ensures
        laid(seq![r] + inner, base, parent, start, end),
{
    let c = seq![r] + inner;
    assert forall|j: int| 1 <= j < c.len() implies #[trigger] c[j] == inner[j - 1] by {}
    assert forall|q: int, j: int| #[trigger] encloses(c, q, j) && 1 <= q < j < c.len() implies encloses(
        inner,
        q - 1,
        j - 1,
    ) by {
        assert(c[q] == inner[q - 1]);
    }
    assert forall|j: int| #![trigger c[j]] 0 <= j < c.len() implies record_ok(
        c,
        base,
        parent,
        start,
        end,
        j,
    ) by {
        if j > 0 {
            assert(record_ok(inner, base + 1, base as u32, start + 1, end, j - 1));
            let p = inner[j - 1].parent - (base + 1);
            if 0 <= p < j - 1 {
                assert(c[p + 1] == inner[p]);
                assert(encloses(c, p + 1, j));
            } else {
                assert(inner[j - 1].parent - base == 0);
                assert(c[0] == r);
                assert(encloses(c, 0, j));
            }
        }
    }
    assert forall|q: int, j: int|
        #![trigger c[q], c[j]]
        0 <= q < j < c.len() implies c[q].offset < c[j].offset by {
        assert(record_ok(inner, base + 1, base as u32, start + 1, end, j - 1)) by {
            assert(c[j] == inner[j - 1]);
        }
        if q > 0 {
            assert(c[q] == inner[q - 1] && c[j] == inner[j - 1]);
        }
    }
    assert forall|q: int, j: int|
        #![trigger encloses(c, q, j)]
        0 <= q < j < c.len() && encloses(c, q, j) implies nested(c, q, j) && q <= c[j].parent - base
        < j by {
        assert(c[j] == inner[j - 1]);
        assert(record_ok(inner, base + 1, base as u32, start + 1, end, j - 1));
        if q > 0 {
            assert(encloses(inner, q - 1, j - 1));
            assert(nested(inner, q - 1, j - 1));
            assert(c[q] == inner[q - 1]);
        } else {
            let p = inner[j - 1].parent - (base + 1);
            assert(c[0] == r);
        }
    }
}

/// The records of one value form a subtree.
pub proof fn value_laid(s: Seq<u8>, i: int, parent: u32, key: KeyInfo, base: nat, key_base: nat)
    requires
        0 <= i <= s.len() <= u64::MAX,
        base <= NULL_NODE,
        parent < base || parent == NULL_NODE,
        value(s, i, parent, key, base, key_base) is Ok,
    ensures
        ({
            let v = value(s, i, parent, key, base, key_base)->Ok_0;
            &&& base + v.records.len() <= NULL_NODE
            &&& laid(v.records, base as int, parent, i, v.end)
        }),
    decreases s.len() - i, 2nat,
{
    let start = ws_end(s, i);
    ws_end_range(s, i);
    value_range(s, i, parent, key, base, key_base);
    let v = value(s, i, parent, key, base, key_base)->Ok_0;
    if s[start] == 0x7B || s[start] == 0x5B {
        container_laid(s, start, parent, key, base, key_base);
        laid_widen(v.records, base as int, parent, start, v.end, i, v.end);
    } else if s[start] == 0x22 {
        string_end_range(s, start + 1);
    } else {
        laid_empty(base as int, parent, i, v.end);
    }
}

proof fn container_laid(s: Seq<u8>, start: int, parent: u32, key: KeyInfo, base: nat, key_base: nat)
    requires
        0 <= start < s.len() <= u64::MAX,
        s[start] == 0x7B || s[start] == 0x5B,
        base <= NULL_NODE,
        parent < base || parent == NULL_NODE,
        container(s, start, parent, key, base, key_base) is Ok,
    ensures
        ({
            let v = container(s, start, parent, key, base, key_base)->Ok_0;
            &&& base + v.records.len() <= NULL_NODE
            &&& laid(v.records, base as int, parent, start, v.end)
        }),
    decreases s.len() - start, 1nat,
{
    let first = ws_end(s, start + 1);
    ws_end_range(s, start + 1);
    let v = container(s, start, parent, key, base, key_base)->Ok_0;
    let none = Seq::<NodeRecord>::empty();
    if s[start] == 0x7B {
        if !crate::json::at(s, first, 0x7D) {
            members_laid(s, first, base as u32, base + 1, key_base);
            let c = members(s, first, base as u32, base + 1, key_base)->Ok_0;
            laid_widen(c.records, base + 1int, base as u32, first, c.end, start + 1, c.end);
            laid_container(v.records[0], c.records, base as int, parent, start, v.end);
        } else {
            laid_empty(base + 1int, base as u32, start + 1, v.end);
            laid_container(v.records[0], none, base as int, parent, start, v.end);
            assert(v.records =~= seq![v.records[0]] + none);
        }
    } else {
        if !crate::json::at(s, first, 0x5D) {
            elements_laid(s, first, base as u32, 0, base + 1, key_base);
            let c = elements(s, first, base as u32, 0, base + 1, key_base)->Ok_0;
            laid_widen(c.records, base + 1int, base as u32, first, c.end, start + 1, c.end);
            laid_container(v.records[0], c.records, base as int, parent, start, v.end);
        } else {
            laid_empty(base + 1int, base as u32, start + 1, v.end);
            laid_container(v.records[0], none, base as int, parent, start, v.end);
            assert(v.records =~= seq![v.records[0]] + none);
        }
    }
}

proof fn member_laid(s: Seq<u8>, i: int, node: u32, base: nat, key_base: nat)
    requires
        0 <= i <= s.len() <= u64::MAX,
        node < base <= NULL_NODE,
        member(s, i, node, base, key_base) is Ok,
    ensures
        ({
            let v = member(s, i, node, base, key_base)->Ok_0;
            &&& i < v.end <= s.len()
            &&& base + v.records.len() <= NULL_NODE
            &&& laid(v.records, base as int, node, i, v.end)
        }),
    decreases s.len() - i, 3nat,
{
    let k = ws_end(s, i);
    ws_end_range(s, i);
    string_text_range(s, k + 1);
    let (key_end, text) = string_text(s, k + 1)->Ok_0;
    let c = ws_end(s, key_end);
    ws_end_range(s, key_end);
    let key = KeyInfo::ObjectMember { key_offset: key_base as u64, key_length: text.len() as u32 };
    value_laid(s, c + 1, node, key, base, key_base + text.len());
    value_range(s, c + 1, node, key, base, key_base + text.len());
    let v = value(s, c + 1, node, key, base, key_base + text.len())->Ok_0;
    laid_widen(v.records, base as int, node, c + 1, v.end, i, v.end);
}

pub proof fn members_laid(s: Seq<u8>, i: int, node: u32, base: nat, key_base: nat)
    requires
        0 <= i <= s.len() <= u64::MAX,
        node < base <= NULL_NODE,
        members(s, i, node, base, key_base) is Ok,
    ensures
        ({
            let c = members(s, i, node, base, key_base)->Ok_0;
            &&& i < c.end <= s.len()
            &&& base + c.records.len() <= NULL_NODE
            &&& laid(c.records, base as int, node, i, c.end)
        }),
    decreases s.len() - i, 4nat,
{
    member_laid(s, i, node, base, key_base);
    let v = member(s, i, node, base, key_base)->Ok_0;
    ws_end_range(s, v.end);
    match after(s, v.end, 0x7D) {
        After::More(e) => {
            members_laid(s, e, node, base + v.records.len(), key_base + v.keys.len());
            let rest = members(s, e, node, base + v.records.len(), key_base + v.keys.len())->Ok_0;
            laid_widen(v.records, base as int, node, i, v.end, i, e);
            laid_concat(v.records, rest.records, base as int, node, i, e, rest.end);
        },
        After::Closed(e) => {
            laid_widen(v.records, base as int, node, i, v.end, i, e);
        },
        After::Bad(_) => {},
    }
}

pub proof fn elements_laid(s: Seq<u8>, i: int, node: u32, index: nat, base: nat, key_base: nat)
    requires
        0 <= i <= s.len() <= u64::MAX,
        node < base <= NULL_NODE,
        elements(s, i, node, index, base, key_base) is Ok,
    ensures
        ({
            let c = elements(s, i, node, index, base, key_base)->Ok_0;
            &&& i < c.end <= s.len()
            &&& base + c.records.len() <= NULL_NODE
            &&& laid(c.records, base as int, node, i, c.end)
        }),
    decreases s.len() - i, 4nat,
{
    let key = KeyInfo::ArrayElement { index: wrap32(index) };
    value_laid(s, i, node, key, base, key_base);
    value_range(s, i, node, key, base, key_base);
    let v = value(s, i, node, key, base, key_base)->Ok_0;
    ws_end_range(s, v.end);
    match after(s, v.end, 0x5D) {
        After::More(e) => {
            elements_laid(s, e, node, index + 1, base + v.records.len(), key_base + v.keys.len());
            let rest = elements(
                s,
                e,
                node,
                index + 1,
                base + v.records.len(),
                key_base + v.keys.len(),
            )->Ok_0;
            laid_widen(v.records, base as int, node, i, v.end, i, e);
            laid_concat(v.records, rest.records, base as int, node, i, e, rest.end);
        },
        After::Closed(e) => {
            laid_widen(v.records, base as int, node, i, v.end, i, e);
        },
        After::Bad(_) => {},
    }
}

/// The layout that every traversal relies on: records in pre-order, with
/// fitting extents, the closest enclosing container as parent, and no
/// descendants below a non-container.
pub open spec fn pre_order(recs: Seq<NodeRecord>, source_len: int) -> bool {
    laid(recs, 0, NULL_NODE, 0, source_len)
}

/// `p` is the innermost container that encloses record `j`, or no id if
/// none does.
pub open spec fn closest_parent(recs: Seq<NodeRecord>, j: int, p: u32) -> bool {
    if p == NULL_NODE {
        forall|q: int| !#[trigger] encloses(recs, q, j)
    } else {
        encloses(recs, p as int, j) && forall|q: int| #[trigger] encloses(recs, q, j) ==> q <= p
    }
}

/// Record `j` has a fitting extent and points to its innermost enclosing
/// container; nothing hangs below a non-container.
pub open spec fn layout_ok_at(recs: Seq<NodeRecord>, j: int) -> bool {
    let r = recs[j];
    &&& 1 <= r.subtree_size <= recs.len() - j
    &&& NodeKind::of_code(r.kind).is_container() || r.subtree_size == 1
    &&& closest_parent(recs, j, r.parent)
}

/// All records are laid out as the traversals assume.
pub open spec fn layout_ok(recs: Seq<NodeRecord>) -> bool {
    forall|j: int| 0 <= j < recs.len() ==> #[trigger] layout_ok_at(recs, j)
}

/// Every index that parsing yields passes the layout check.
pub proof fn parsed_layout_ok(s: Seq<u8>)
    requires
        s.len() <= u64::MAX,
        document(s) is Ok,
    ensures
        layout_ok(document(s)->Ok_0.records),
{
    parsed_is_pre_order(s);
    let recs = document(s)->Ok_0.records;
    let n = s.len() as int;
    assert forall|j: int| 0 <= j < recs.len() implies #[trigger] layout_ok_at(recs, j) by {
        assert(record_ok(recs, 0, NULL_NODE, 0, n, j)) by {
            let r = recs[j];
        }
        if recs[j].parent == NULL_NODE {
            assert forall|q: int| !#[trigger] encloses(recs, q, j) by {
                if encloses(recs, q, j) {
                    assert(q <= recs[j].parent - 0 < j);
                }
            }
        }
    }
}

/// Record `j` hangs below record `k`, at any depth.
pub open spec fn descends(recs: Seq<NodeRecord>, j: int, k: int) -> bool
    decreases j,
{
    if !(0 <= j < recs.len()) {
        false
    } else {
        let p = recs[j].parent as int;
        0 <= p < j && (p == k || descends(recs, p, k))
    }
}

/// Every index that parsing yields is laid out in pre-order, starts with
/// the root, and gives each record a place in the id space.
pub proof fn parsed_is_pre_order(s: Seq<u8>)
    requires
        s.len() <= u64::MAX,
        document(s) is Ok,
    ensures
        pre_order(document(s)->Ok_0.records, s.len() as int),
        0 < document(s)->Ok_0.records.len() <= NULL_NODE,
        document(s)->Ok_0.records[0].parent == NULL_NODE,
        document(s)->Ok_0.records[0].subtree_size == document(s)->Ok_0.records.len(),
{
    value_laid(s, 0, NULL_NODE, KeyInfo::Root, 0, 0);
    value_range(s, 0, NULL_NODE, KeyInfo::Root, 0, 0);
    let v = value(s, 0, NULL_NODE, KeyInfo::Root, 0, 0)->Ok_0;
    laid_widen(v.records, 0, NULL_NODE, 0, v.end, 0, s.len() as int);
    assert(record_ok(v.records, 0, NULL_NODE, 0, s.len() as int, 0)) by {
        let first = v.records[0];
    }
}

/// The descendants of record `k` are exactly the records
/// `k + 1 .. k + subtree_size`.
pub proof fn descendants_are_contiguous(recs: Seq<NodeRecord>, source_len: int, j: int, k: int)
    requires
        pre_order(recs, source_len),
        0 <= j < recs.len() <= NULL_NODE,
        0 <= k < recs.len(),
    ensures
        descends(recs, j, k) <==> k < j < k + recs[k].subtree_size,
    decreases j,
{
    assert(record_ok(recs, 0, NULL_NODE, 0, source_len, j)) by {
        let r = recs[j];
    }
    assert(record_ok(recs, 0, NULL_NODE, 0, source_len, k)) by {
        let r = recs[k];
    }
    let p = recs[j].parent as int;
    if 0 <= p < j {
        assert(encloses(recs, p, j));
        descendants_are_contiguous(recs, source_len, p, k);
        if descends(recs, p, k) {
            assert(encloses(recs, k, p));
            assert(nested(recs, k, p));
        }
        if k < j < k + recs[k].subtree_size {
            assert(encloses(recs, k, j));
        }
    } else {
        if k < j < k + recs[k].subtree_size {
            assert(encloses(recs, k, j));
        }
    }
}

} // verus!
