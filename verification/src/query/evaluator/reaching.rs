//! What paths are for: the steps from a value to those below it.
use vstd::prelude::*;

use super::super::ast::AstV;
use super::super::value::ValueV;
use super::fingerprint::print_of;
use super::laws::{distinct_keeps_one_of_each, reads_a_stream};
use super::model::{
    all_of, distinct_rows, element_of, field_of, fields_below, kids_of, named, no_rows, one,
    opt_row, printed, CtxV, EnvV, RowV, StreamV,
};
use super::scan::{
    child_values, descendants, member, member_from, members_below, members_of, nodes, opt_seq,
    primitives, slot_value, subtree_stop,
};
use super::semantics::{after, each, followed, kid_fields, run};
use super::walk::{env_of_stage, run_of_pipe};
use crate::container_scan::{children, opening, Opening, Slot};
use crate::document::{Document, NULL_NODE, NodeKind};
use crate::interleaving::{child_ok, met, scan_meets_children};
use crate::layout::{descendants_are_contiguous, descends, record_ok};
use crate::parser::wrap32;
use crate::source_scan::string_view;
use crate::sidecar::utf8_of;

verus! {

/// An index gives the value that iteration gives in that place; a negative one
/// counts from the end, and beyond both ends there is nothing.
#[verifier::spinoff_prover]
pub proof fn indexes_count_elements(c: CtxV, source: Seq<u8>, id: u32, i: i64, env: EnvV)
    requires
        source.len() <= u64::MAX,
        c.doc.indexes(source),
        c.doc.kind_of(id) == NodeKind::Array,
        run(c, AstV::Iterate, env, ValueV::Node(id)).rows.len() <= u32::MAX,
    ensures
        ({
            let all = run(c, AstV::Iterate, env, ValueV::Node(id)).rows;
            let out = run(c, AstV::Index(i), env, ValueV::Node(id));
            let n = all.len();
            &&& out.err is None
            &&& 0 <= i < n ==> out.rows == seq![all[i as int]]
            &&& -n <= i < 0 ==> out.rows == seq![all[n + i]]
            &&& i >= n || i < -n ==> out.rows.len() == 0
        }),
{
    let v = ValueV::Node(id);
    assert(run(c, AstV::Iterate, env, v) == all_of(env, kids_of(c, v))) by {
        reveal(run);
    }
    assert(run(c, AstV::Index(i), env, v) == opt_row(env, element_of(c, i, v))) by {
        reveal(run);
    }
    let kids = kids_of(c, v);
    assert(kids == child_values(c.doc, c.n, id));
    assert(c.doc.rec(id) is Some);
    scan_meets_children(c.doc, source, id);
    let o = opening(c.doc, id)->0;
    assert(kids.len() == children(c.doc, o).len());
    assert(c.doc.rec(id)->0.child_count == kids.len());
    let all = run(c, AstV::Iterate, env, v).rows;
    let out = run(c, AstV::Index(i), env, v);
    if 0 <= i < kids.len() {
        assert(out.rows =~= seq![all[i as int]]);
    } else if -kids.len() <= i < 0 {
        assert(out.rows =~= seq![all[kids.len() + i]]);
    }
}

/// A stage that looks at one row at a time.
pub open spec fn row_stage(r: AstV) -> bool {
    !reads_a_stream(r)
}

/// Behind a stream, such a stage runs on each row of it.
#[verifier::spinoff_prover]
pub proof fn pipe_runs_on_each_row(c: CtxV, l: AstV, r: AstV, env: EnvV, v: ValueV)
    requires
        row_stage(r),
    ensures
        run(c, AstV::Pipe(Box::new(l), Box::new(r)), env, v) == followed(
            each(c, r, run(c, l, env, v).rows),
            run(c, l, env, v).err,
        ),
{
    run_of_pipe(c, AstV::Pipe(Box::new(l), Box::new(r)), env, v);
    env_of_stage(c, l, r, env, v);
    reveal(after);
    reveal(each);
}

/// A stage on no rows and on one more row.
#[verifier::spinoff_prover]
pub proof fn each_step(c: CtxV, r: AstV, rows: Seq<RowV>)
    ensures
        each(c, r, rows) == if rows.len() == 0 {
            no_rows()
        } else {
            let s = each(c, r, rows.drop_last());
            match s.err {
                Some(e) => s,
                None => {
                    let t = run(c, r, rows.last().env, rows.last().value);
                    StreamV { rows: s.rows + t.rows, err: t.err }
                },
            }
        },
{
    reveal_with_fuel(each, 2);
    reveal(run);
}

/// A stage on one row.
pub proof fn each_of_one(c: CtxV, r: AstV, row: RowV)
    ensures
        each(c, r, seq![row]) == run(c, r, row.env, row.value),
{
    each_step(c, r, seq![row]);
    each_step(c, r, seq![row].drop_last());
    let t = run(c, r, row.env, row.value);
    assert(Seq::<RowV>::empty() + t.rows =~= t.rows);
}

/// A stage that gives no error gives the rows of each row, one after the
/// other.
pub proof fn each_gives_all(c: CtxV, r: AstV, a: Seq<RowV>, b: Seq<RowV>)
    requires
        each(c, r, a).err is None,
    ensures
        each(c, r, a + b).rows == each(c, r, a).rows + each(c, r, b).rows,
        each(c, r, a + b).err == each(c, r, b).err,
    decreases b.len(),
{
    each_step(c, r, b);
    if b.len() == 0 {
        assert(a + b =~= a);
        assert(each(c, r, a).rows + each(c, r, b).rows =~= each(c, r, a).rows);
    } else {
        each_step(c, r, a + b);
        assert((a + b).drop_last() =~= a + b.drop_last());
        each_gives_all(c, r, a, b.drop_last());
        let t = run(c, r, b.last().env, b.last().value);
        assert(each(c, r, a).rows + each(c, r, b.drop_last()).rows + t.rows =~= each(c, r, a).rows
            + (each(c, r, b.drop_last()).rows + t.rows));
    }
}

/// A field of each child, read in one walk, is the field of each value that
/// iteration gives.
#[verifier::spinoff_prover]
pub proof fn iterated_fields_are_fields_of_children(
    c: CtxV,
    name: Seq<char>,
    env: EnvV,
    v: ValueV,
)
    ensures
        run(c, AstV::IterateField(name), env, v) == run(
            c,
            AstV::Pipe(Box::new(AstV::Iterate), Box::new(AstV::Field(name))),
            env,
            v,
        ),
{
    let kids = kids_of(c, v);
    let f = AstV::Field(name);
    assert(run(c, AstV::IterateField(name), env, v) == all_of(env, kid_fields(c, name, v))) by {
        reveal(run);
    }
    assert(run(c, AstV::Iterate, env, v) == all_of(env, kids)) by {
        reveal(run);
    }
    pipe_runs_on_each_row(c, AstV::Iterate, f, env, v);
    plain_kids(c, v);
    fields_of_each(c, name, env, kids);
}

/// Values that are no objects of the query's own making.
pub open spec fn plain(v: Seq<ValueV>) -> bool {
    forall|i: int|
        0 <= i < v.len() ==> !((#[trigger] v[i]) is Object) && !(v[i] is BucketRow)
}

proof fn plain_kids(c: CtxV, v: ValueV)
    ensures
        plain(kids_of(c, v)),
{
    let kids = kids_of(c, v);
    assert forall|i: int| 0 <= i < kids.len() implies !((#[trigger] kids[i]) is Object) && !(
    kids[i] is BucketRow) by {}
}

#[verifier::spinoff_prover]
proof fn fields_of_each(c: CtxV, name: Seq<char>, env: EnvV, v: Seq<ValueV>)
    requires
        plain(v),
    ensures
        each(c, AstV::Field(name), all_of(env, v).rows) == all_of(
            env,
            members_of(c.doc, c.n, utf8_of(name), v),
        ),
    decreases v.len(),
{
    let f = AstV::Field(name);
    let rows = all_of(env, v).rows;
    each_step(c, f, rows);
    if v.len() == 0 {
        assert(all_of(env, members_of(c.doc, c.n, utf8_of(name), v)).rows =~= Seq::empty());
    } else {
        let less = v.drop_last();
        assert forall|i: int| 0 <= i < less.len() implies !((#[trigger] less[i]) is Object) && !(
        less[i] is BucketRow) by {
            assert(less[i] == v[i]);
        }
        fields_of_each(c, name, env, less);
        assert(rows.drop_last() =~= all_of(env, less).rows);
        let x = v[v.len() - 1];
        assert(rows.last() == RowV { env, value: x });
        assert(run(c, f, env, x) == opt_row(env, field_of(c, name, x))) by {
            reveal(run);
        }
        if let ValueV::Node(id) = x {
            member_of_objects(c, id, utf8_of(name));
        }
        let all = members_of(c.doc, c.n, utf8_of(name), v);
        assert(all_of(env, members_of(c.doc, c.n, utf8_of(name), less)).rows + opt_row(
            env,
            field_of(c, name, x),
        ).rows =~= all_of(env, all).rows);
    }
}

/// Only objects have members.
proof fn member_of_objects(c: CtxV, id: u32, name: Seq<u8>)
    ensures
        c.doc.kind_of(id) != NodeKind::Object ==> member(c.doc, c.n, id, name) is None,
{
}

/// The rows of iteration over a container.
pub open spec fn iterated(c: CtxV, env: EnvV, id: u32) -> Seq<RowV> {
    run(c, AstV::Iterate, env, ValueV::Node(id)).rows
}

/// Iteration over a container gives its children: every record below it once
/// it comes to it, and an element of an array in its place.
#[verifier::spinoff_prover]
pub proof fn iteration_gives_the_children(c: CtxV, source: Seq<u8>, id: u32, env: EnvV)
    requires
        source.len() <= u64::MAX,
        c.doc.indexes(source),
        c.doc.kind_of(id) == NodeKind::Array || c.doc.kind_of(id) == NodeKind::Object,
    ensures
        forall|k: int|
            0 <= k < iterated(c, env, id).len() ==> ((#[trigger] iterated(
                c,
                env,
                id,
            )[k]).value matches ValueV::Node(j) ==> {
                &&& j < c.doc.records@.len()
                &&& c.doc.records@[j as int].parent == id
                &&& c.doc.kind_of(id) == NodeKind::Array ==> c.doc.records@[j as int].key_or_index
                    == wrap32(k as nat)
            }),
        forall|j: u32|
            j < c.doc.records@.len() && (#[trigger] c.doc.records@[j as int]).parent == id
                ==> exists|k: int|
                0 <= k < iterated(c, env, id).len() && (#[trigger] iterated(c, env, id)[k]).value
                    == ValueV::Node(j),
{
    let v = ValueV::Node(id);
    let kids = kids_of(c, v);
    let rows = iterated(c, env, id);
    assert(run(c, AstV::Iterate, env, v) == all_of(env, kids)) by {
        reveal(run);
    }
    scan_meets_children(c.doc, source, id);
    let o = opening(c.doc, id)->0;
    let all = children(c.doc, o);
    assert(kids.len() == all.len());
    assert forall|k: int| 0 <= k < rows.len() implies (#[trigger] rows[k]).value == slot_value(
        c.n,
        o,
        all[k],
    ) by {}
    assert forall|k: int| 0 <= k < rows.len() implies ((#[trigger] rows[k]).value matches ValueV::Node(
        j,
    ) ==> {
        &&& j < c.doc.records@.len()
        &&& c.doc.records@[j as int].parent == id
        &&& c.doc.kind_of(id) == NodeKind::Array ==> c.doc.records@[j as int].key_or_index
            == wrap32(k as nat)
    }) by {
        assert(child_ok(c.doc, o, id, all[k], k as nat));
        if let ValueV::Node(j) = rows[k].value {
            assert(slot_value(c.n, o, all[k]) == ValueV::Node(j));
            inline_is_no_node(c, o, all[k]);
            assert(all[k].id == j);
        }
    }
    assert forall|j: u32|
        j < c.doc.records@.len() && (#[trigger] c.doc.records@[j as int]).parent
            == id implies exists|k: int|
        0 <= k < rows.len() && (#[trigger] rows[k]).value == ValueV::Node(j) by {
        assert(met(all, j as int));
        let k = choose|k: int| 0 <= k < all.len() && (#[trigger] all[k]).id == j as int;
        assert(c.doc.records@.len() <= NULL_NODE) by {
            crate::layout::parsed_is_pre_order(source);
        }
        assert(rows[k].value == slot_value(c.n, o, all[k]));
    }
}

proof fn inline_is_no_node(c: CtxV, o: Opening, x: Slot)
    ensures
        slot_value(c.n, o, x) is Node <==> x.id != NULL_NODE,
{
}

/// The key of slot `k` of an object.
pub open spec fn slot_key(doc: Document, id: u32, k: int) -> Option<Seq<u8>> {
    string_view(opening(doc, id)->0.source, children(doc, opening(doc, id)->0)[k].start)
}

/// Slot `k` is the first of an object with this key, and the keys before it
/// can be read.
pub open spec fn first_with_key(doc: Document, id: u32, name: Seq<u8>, k: int) -> bool {
    &&& opening(doc, id) is Some
    &&& 0 <= k < children(doc, opening(doc, id)->0).len()
    &&& slot_key(doc, id, k) == Some(name)
    &&& forall|j: int|
        0 <= j < k ==> (#[trigger] slot_key(doc, id, j)) is Some && slot_key(doc, id, j) != Some(
            name,
        )
}

proof fn member_from_first(c: CtxV, o: Opening, v: Seq<Slot>, name: Seq<u8>, i: int, k: int)
    requires
        0 <= i <= k < v.len(),
        string_view(o.source, v[k].start) == Some(name),
        forall|j: int|
            i <= j < k ==> string_view(o.source, (#[trigger] v[j]).start) is Some && string_view(
                o.source,
                v[j].start,
            ) != Some(name),
    ensures
        member_from(c.n, o, v, name, i) == Some(slot_value(c.n, o, v[k])),
    decreases k - i,
{
    if i < k {
        assert(string_view(o.source, v[i].start) is Some);
        member_from_first(c, o, v, name, i + 1, k);
    }
}

proof fn member_from_none(c: CtxV, o: Opening, v: Seq<Slot>, name: Seq<u8>, i: int)
    requires
        0 <= i <= v.len(),
        forall|j: int|
            i <= j < v.len() ==> string_view(o.source, (#[trigger] v[j]).start) != Some(name),
    ensures
        member_from(c.n, o, v, name, i) is None,
    decreases v.len() - i,
{
    if i < v.len() {
        assert(string_view(o.source, v[i].start) != Some(name));
        member_from_none(c, o, v, name, i + 1);
    }
}

/// A field of an object is the value that iteration gives in the place of the
/// first key of that name; without such a key there is nothing.
#[verifier::spinoff_prover]
pub proof fn fields_are_found_by_their_key(c: CtxV, id: u32, name: Seq<char>, env: EnvV, k: int)
    requires
        c.doc.kind_of(id) == NodeKind::Object,
    ensures
        first_with_key(c.doc, id, utf8_of(name), k) ==> k < iterated(c, env, id).len() && run(
            c,
            AstV::Field(name),
            env,
            ValueV::Node(id),
        ) == (StreamV { rows: seq![iterated(c, env, id)[k]], err: None }),
        (forall|j: int|
            0 <= j < iterated(c, env, id).len() ==> #[trigger] slot_key(c.doc, id, j) != Some(
                utf8_of(name),
            )) ==> run(c, AstV::Field(name), env, ValueV::Node(id)) == no_rows(),
{
    let v = ValueV::Node(id);
    let n = utf8_of(name);
    let rows = iterated(c, env, id);
    assert(run(c, AstV::Iterate, env, v) == all_of(env, kids_of(c, v))) by {
        reveal(run);
    }
    assert(run(c, AstV::Field(name), env, v) == opt_row(env, member(c.doc, c.n, id, n))) by {
        reveal(run);
    }
    if let Some(o) = opening(c.doc, id) {
        let all = children(c.doc, o);
        assert(rows.len() == all.len());
        if first_with_key(c.doc, id, n, k) {
            assert forall|j: int| 0 <= j < k implies string_view(
                o.source,
                (#[trigger] all[j]).start,
            ) is Some && string_view(o.source, all[j].start) != Some(n) by {
                assert(slot_key(c.doc, id, j) is Some);
            }
            member_from_first(c, o, all, n, 0, k);
            assert(rows[k] == RowV { env, value: slot_value(c.n, o, all[k]) });
            assert(one(env, slot_value(c.n, o, all[k])).rows =~= seq![rows[k]]);
        }
        if forall|j: int| 0 <= j < rows.len() ==> #[trigger] slot_key(c.doc, id, j) != Some(n) {
            assert forall|j: int| 0 <= j < all.len() implies string_view(
                o.source,
                (#[trigger] all[j]).start,
            ) != Some(n) by {
                assert(slot_key(c.doc, id, j) != Some(n));
            }
            member_from_none(c, o, all, n, 0);
        }
    }
}

proof fn node_run(k: int, end: int, v: ValueV)
    requires
        0 <= k,
        end <= NULL_NODE + 1,
    ensures
        nodes(k, end).contains(v) <==> (v matches ValueV::Node(j) && k <= j < end),
        forall|i: int| 0 <= i < nodes(k, end).len() ==> (#[trigger] nodes(k, end)[i]) is Node,
    decreases end - k,
{
    if k < end {
        node_run(k + 1, end, v);
        let rest = nodes(k + 1, end);
        let all = nodes(k, end);
        assert(all == seq![ValueV::Node(k as u32)] + rest);
        if rest.contains(v) {
            let i = choose|i: int| 0 <= i < rest.len() && rest[i] == v;
            assert(all[i + 1] == v);
        }
        if v == ValueV::Node(k as u32) {
            assert(all[0] == v);
        }
        if all.contains(v) {
            let i = choose|i: int| 0 <= i < all.len() && all[i] == v;
            if i > 0 {
                assert(rest[i - 1] == v);
            }
        }
        assert forall|i: int| 0 <= i < all.len() implies (#[trigger] all[i]) is Node by {
            if i > 0 {
                assert(all[i] == rest[i - 1]);
            }
        }
    }
}

/// What a filter keeps was there.
proof fn kept_was_there(v: Seq<ValueV>, p: spec_fn(ValueV) -> bool, i: int)
    requires
        0 <= i < v.filter(p).len(),
    ensures
        v.contains(v.filter(p)[i]),
    decreases v.len(),
{
    reveal(Seq::filter);
    if v.len() > 0 {
        let less = v.drop_last();
        if i < less.filter(p).len() {
            kept_was_there(less, p, i);
            let k = choose|k: int| 0 <= k < less.len() && less[k] == less.filter(p)[i];
            assert(v[k] == v.filter(p)[i]);
        } else {
            assert(v[v.len() - 1] == v.filter(p)[i]);
        }
    }
}

/// The primitives of the containers of a run of records.
proof fn primitive_run(c: CtxV, k: int, end: int, v: ValueV)
    requires
        0 <= k,
        end <= NULL_NODE + 1,
    ensures
        primitives(c.doc, c.n, k, end).contains(v) <==> !(v is Node) && exists|j: u32|
            k <= j < end && #[trigger] child_values(c.doc, c.n, j).contains(v),
    decreases end - k,
{
    let all = primitives(c.doc, c.n, k, end);
    if k < end {
        primitive_run(c, k + 1, end, v);
        let kids = child_values(c.doc, c.n, k as u32);
        let own = kids.filter(|x: ValueV| !(x is Node));
        let rest = primitives(c.doc, c.n, k + 1, end);
        assert(all == own + rest);
        assert forall|i: int| 0 <= i < own.len() implies !((#[trigger] own[i]) is Node) by {
            kids.lemma_filter_pred(|x: ValueV| !(x is Node), i);
        }
        if own.contains(v) {
            let i = choose|i: int| 0 <= i < own.len() && own[i] == v;
            assert(all[i] == v);
            kept_was_there(kids, |x: ValueV| !(x is Node), i);
            assert(child_values(c.doc, c.n, k as u32).contains(v));
        }
        if rest.contains(v) {
            let i = choose|i: int| 0 <= i < rest.len() && rest[i] == v;
            assert(all[own.len() + i] == v);
        }
        if all.contains(v) {
            let i = choose|i: int| 0 <= i < all.len() && all[i] == v;
            if i < own.len() {
                assert(own[i] == v);
            } else {
                assert(rest[i - own.len()] == v);
            }
        }
        if !(v is Node) && exists|j: u32|
            k <= j < end && #[trigger] child_values(c.doc, c.n, j).contains(v) {
            let j = choose|j: u32|
                k <= j < end && #[trigger] child_values(c.doc, c.n, j).contains(v);
            if j == k {
                let i = choose|i: int| 0 <= i < kids.len() && kids[i] == v;
                kids.lemma_filter_contains(|x: ValueV| !(x is Node), i);
            } else {
                assert(k + 1 <= j < end);
            }
        }
    }
}

/// A descent gives the node, every node below it, and every primitive that is
/// a child of one of these; nothing else.
#[verifier::spinoff_prover]
pub proof fn descents_give_the_subtree(c: CtxV, source: Seq<u8>, id: u32, env: EnvV, v: ValueV)
    requires
        source.len() <= u64::MAX,
        c.doc.indexes(source),
        id < c.doc.records@.len(),
    ensures
        run(c, AstV::Descend, env, ValueV::Node(id)).rows.contains(RowV { env, value: v })
            <==> match v {
            ValueV::Node(j) => j == id || (j < c.doc.records@.len() && descends(
                c.doc.records@,
                j as int,
                id as int,
            )),
            _ => exists|j: u32|
                (j == id || (j < c.doc.records@.len() && descends(
                    c.doc.records@,
                    j as int,
                    id as int,
                ))) && #[trigger] child_values(c.doc, c.n, j).contains(v),
        },
{
    let recs = c.doc.records@;
    let start = ValueV::Node(id);
    crate::layout::parsed_is_pre_order(source);
    assert(run(c, AstV::Descend, env, start) == all_of(env, descendants(c.doc, c.n, id))) by {
        reveal(run);
    }
    let rows = run(c, AstV::Descend, env, start).rows;
    let all = descendants(c.doc, c.n, id);
    let end = subtree_stop(c.doc, id);
    assert(record_ok(recs, 0, NULL_NODE, 0, source.len() as int, id as int)) by {
        let r = recs[id as int];
    }
    assert(end == id + recs[id as int].subtree_size);
    node_run(id as int, end, v);
    primitive_run(c, id as int, end, v);
    let a = nodes(id as int, end);
    let b = primitives(c.doc, c.n, id as int, end);
    assert(all == a + b);
    assert(all.contains(v) == (a.contains(v) || b.contains(v))) by {
        if a.contains(v) {
            let i = choose|i: int| 0 <= i < a.len() && a[i] == v;
            assert(all[i] == v);
        }
        if b.contains(v) {
            let i = choose|i: int| 0 <= i < b.len() && b[i] == v;
            assert(all[a.len() + i] == v);
        }
        if all.contains(v) {
            let i = choose|i: int| 0 <= i < all.len() && all[i] == v;
            if i < a.len() {
                assert(a[i] == v);
            } else {
                assert(b[i - a.len()] == v);
            }
        }
    }
    let row = RowV { env, value: v };
    assert(rows.contains(row) == all.contains(v)) by {
        if all.contains(v) {
            let i = choose|i: int| 0 <= i < all.len() && all[i] == v;
            assert(rows[i] == row);
        }
        if rows.contains(row) {
            let i = choose|i: int| 0 <= i < rows.len() && rows[i] == row;
            assert(all[i] == v);
        }
    }
    assert forall|j: u32| id <= j < end implies (j == id || (j < recs.len() && descends(
        recs,
        j as int,
        id as int,
    ))) by {
        if j != id {
            descendants_are_contiguous(recs, source.len() as int, j as int, id as int);
        }
    }
    assert forall|j: u32|
        (j == id || (j < recs.len() && descends(recs, j as int, id as int))) implies id <= j < end by {
        if j != id {
            descendants_are_contiguous(recs, source.len() as int, j as int, id as int);
        }
    }
    match v {
        ValueV::Node(j) => {},
        _ => {
            if b.contains(v) {
                let j = choose|j: u32|
                    id <= j < end && #[trigger] child_values(c.doc, c.n, j).contains(v);
                assert(child_values(c.doc, c.n, j).contains(v));
            }
        },
    }
}

proof fn members_join(c: CtxV, name: Seq<u8>, a: Seq<ValueV>, b: Seq<ValueV>)
    ensures
        members_of(c.doc, c.n, name, a + b) == members_of(c.doc, c.n, name, a) + members_of(
            c.doc,
            c.n,
            name,
            b,
        ),
    decreases b.len(),
{
    if b.len() == 0 {
        assert(a + b =~= a);
        assert(members_of(c.doc, c.n, name, a) + members_of(c.doc, c.n, name, b) =~= members_of(
            c.doc,
            c.n,
            name,
            a,
        ));
    } else {
        assert((a + b).drop_last() =~= a + b.drop_last());
        members_join(c, name, a, b.drop_last());
        let last = match b.last() {
            ValueV::Node(id) => opt_seq(member(c.doc, c.n, id, name)),
            _ => Seq::empty(),
        };
        assert(members_of(c.doc, c.n, name, a) + members_of(c.doc, c.n, name, b.drop_last()) + last
            =~= members_of(c.doc, c.n, name, a) + (members_of(c.doc, c.n, name, b.drop_last())
            + last));
    }
}

proof fn members_of_nodes(c: CtxV, name: Seq<u8>, k: int, end: int)
    requires
        0 <= k,
        end <= NULL_NODE + 1,
    ensures
        members_of(c.doc, c.n, name, nodes(k, end)) == members_below(c.doc, c.n, name, k, end),
    decreases end - k,
{
    if k < end {
        members_of_nodes(c, name, k + 1, end);
        let one_node = seq![ValueV::Node(k as u32)];
        members_join(c, name, one_node, nodes(k + 1, end));
        assert(one_node.drop_last() =~= Seq::empty());
        assert(members_of(c.doc, c.n, name, one_node.drop_last()) == Seq::<ValueV>::empty());
        assert(members_of(c.doc, c.n, name, one_node) =~= opt_seq(
            member(c.doc, c.n, k as u32, name),
        ));
    } else {
        assert(nodes(k, end) =~= Seq::empty());
    }
}

proof fn no_members(c: CtxV, name: Seq<u8>, v: Seq<ValueV>)
    requires
        forall|i: int| 0 <= i < v.len() ==> !((#[trigger] v[i]) is Node),
    ensures
        members_of(c.doc, c.n, name, v) == Seq::<ValueV>::empty(),
    decreases v.len(),
{
    if v.len() > 0 {
        let less = v.drop_last();
        assert forall|i: int| 0 <= i < less.len() implies !((#[trigger] less[i]) is Node) by {
            assert(less[i] == v[i]);
        }
        no_members(c, name, less);
        assert(!(v[v.len() - 1] is Node));
        assert(Seq::<ValueV>::empty() + Seq::<ValueV>::empty() =~= Seq::<ValueV>::empty());
    }
}

proof fn primitives_are_plain(c: CtxV, k: int, end: int)
    ensures
        forall|i: int|
            0 <= i < primitives(c.doc, c.n, k, end).len() ==> !((#[trigger] primitives(
                c.doc,
                c.n,
                k,
                end,
            )[i]) is Node) && !(primitives(c.doc, c.n, k, end)[i] is Object) && !(primitives(
                c.doc,
                c.n,
                k,
                end,
            )[i] is BucketRow),
    decreases end - k,
{
    if k < end {
        primitives_are_plain(c, k + 1, end);
        let kids = child_values(c.doc, c.n, k as u32);
        let own = kids.filter(|x: ValueV| !(x is Node));
        let rest = primitives(c.doc, c.n, k + 1, end);
        let all = primitives(c.doc, c.n, k, end);
        assert(all == own + rest);
        assert forall|i: int| 0 <= i < all.len() implies !((#[trigger] all[i]) is Node) && !(all[i]
            is Object) && !(all[i] is BucketRow) by {
            if i < own.len() {
                kids.lemma_filter_pred(|x: ValueV| !(x is Node), i);
                kept_was_there(kids, |x: ValueV| !(x is Node), i);
                let j = choose|j: int| 0 <= j < kids.len() && kids[j] == own[i];
                assert(all[i] == own[i]);
                assert(kids[j] == own[i]);
            } else {
                assert(all[i] == rest[i - own.len()]);
            }
        }
    }
}

/// A field read in a descent from a node is the field of each value that the
/// descent gives.
#[verifier::spinoff_prover]
pub proof fn descended_fields_are_fields_below(c: CtxV, name: Seq<char>, env: EnvV, id: u32)
    requires
        c.doc.records@.len() <= NULL_NODE,
    ensures
        run(c, AstV::DescendField(name), env, ValueV::Node(id)) == run(
            c,
            AstV::Pipe(Box::new(AstV::Descend), Box::new(AstV::Field(name))),
            env,
            ValueV::Node(id),
        ),
{
    let v = ValueV::Node(id);
    let n = utf8_of(name);
    let end = subtree_stop(c.doc, id);
    let a = nodes(id as int, end);
    let b = primitives(c.doc, c.n, id as int, end);
    let all = descendants(c.doc, c.n, id);
    assert(run(c, AstV::DescendField(name), env, v) == all_of(env, fields_below(c, name, v))) by {
        reveal(run);
    }
    assert(run(c, AstV::Descend, env, v) == all_of(env, all)) by {
        reveal(run);
    }
    pipe_runs_on_each_row(c, AstV::Descend, AstV::Field(name), env, v);
    node_run(id as int, end, v);
    primitives_are_plain(c, id as int, end);
    assert forall|i: int| 0 <= i < all.len() implies !((#[trigger] all[i]) is Object) && !(all[i]
        is BucketRow) by {
        if i < a.len() {
            assert(all[i] == a[i]);
        } else {
            assert(all[i] == b[i - a.len()]);
        }
    }
    fields_of_each(c, name, env, all);
    members_join(c, n, a, b);
    members_of_nodes(c, n, id as int, end);
    no_members(c, n, b);
    assert(members_of(c.doc, c.n, n, a) + Seq::<ValueV>::empty() =~= members_of(c.doc, c.n, n, a));
}

/// A name that is bound has the value that it was bound to last; other names
/// keep theirs.
pub proof fn names_have_their_last_value(
    c: CtxV,
    env: EnvV,
    name: Seq<char>,
    x: ValueV,
    other: Seq<char>,
    v: ValueV,
)
    ensures
        run(c, AstV::Var(name), env.bind(name, x), v) == one(env.bind(name, x), x),
        other != name ==> run(c, AstV::Var(other), env.bind(name, x), v).rows.len() == run(
            c,
            AstV::Var(other),
            env,
            v,
        ).rows.len(),
        other != name && run(c, AstV::Var(other), env, v).rows.len() > 0 ==> run(
            c,
            AstV::Var(other),
            env.bind(name, x),
            v,
        ).rows[0].value == run(c, AstV::Var(other), env, v).rows[0].value,
{
    reveal(run);
    assert(env.bind(name, x).binds.drop_last() =~= env.binds);
}

/// The field of an object that a query made is the first of that name.
#[verifier::spinoff_prover]
pub proof fn made_objects_have_their_fields(
    c: CtxV,
    fields: Seq<(Seq<char>, ValueV)>,
    name: Seq<char>,
    env: EnvV,
    i: int,
)
    ensures
        0 <= i < fields.len() && fields[i].0 == name && (forall|j: int|
            0 <= j < i ==> (#[trigger] fields[j]).0 != name) ==> run(
            c,
            AstV::Field(name),
            env,
            ValueV::Object(fields),
        ) == one(env, fields[i].1) && run(c, AstV::Field(name), env, ValueV::BucketRow(fields))
            == one(env, fields[i].1),
        (forall|j: int| 0 <= j < fields.len() ==> (#[trigger] fields[j]).0 != name) ==> run(
            c,
            AstV::Field(name),
            env,
            ValueV::Object(fields),
        ) == no_rows(),
{
    reveal(run);
    if 0 <= i < fields.len() && fields[i].0 == name && (forall|j: int|
        0 <= j < i ==> (#[trigger] fields[j]).0 != name) {
        first_named(fields, name, 0, i);
    }
    if forall|j: int| 0 <= j < fields.len() ==> (#[trigger] fields[j]).0 != name {
        none_named(fields, name, 0);
    }
}

proof fn first_named(fields: Seq<(Seq<char>, ValueV)>, name: Seq<char>, from: int, i: int)
    requires
        0 <= from <= i < fields.len(),
        fields[i].0 == name,
        forall|j: int| from <= j < i ==> (#[trigger] fields[j]).0 != name,
    ensures
        named(fields, name, from) == Some(fields[i].1),
    decreases i - from,
{
    if from < i {
        assert(fields[from].0 != name);
        first_named(fields, name, from + 1, i);
    }
}

proof fn none_named(fields: Seq<(Seq<char>, ValueV)>, name: Seq<char>, from: int)
    requires
        0 <= from <= fields.len(),
        forall|j: int| 0 <= j < fields.len() ==> (#[trigger] fields[j]).0 != name,
    ensures
        named(fields, name, from) is None,
    decreases fields.len() - from,
{
    if from < fields.len() {
        assert(fields[from].0 != name);
        none_named(fields, name, from + 1);
    }
}

/// `distinct` keeps the first row of each fingerprint, in their order: a row
/// more is kept exactly if none before it is alike, and then comes last.
pub proof fn distinct_keeps_the_first(c: CtxV, rows: Seq<RowV>, row: RowV)
    ensures
        distinct_rows(c, Seq::empty()) == Seq::<RowV>::empty(),
        (exists|i: int|
            0 <= i < rows.len() && print_of(c.doc, c.n, (#[trigger] rows[i]).value) == print_of(
                c.doc,
                c.n,
                row.value,
            )) ==> distinct_rows(c, rows.push(row)) == distinct_rows(c, rows),
        !(exists|i: int|
            0 <= i < rows.len() && print_of(c.doc, c.n, (#[trigger] rows[i]).value) == print_of(
                c.doc,
                c.n,
                row.value,
            )) ==> distinct_rows(c, rows.push(row)) == distinct_rows(c, rows).push(row),
{
    let d = distinct_rows(c, rows);
    assert(rows.push(row).drop_last() =~= rows);
    distinct_keeps_one_of_each(c, rows);
    if exists|i: int|
        0 <= i < rows.len() && print_of(c.doc, c.n, (#[trigger] rows[i]).value) == print_of(
            c.doc,
            c.n,
            row.value,
        ) {
        let i = choose|i: int|
            0 <= i < rows.len() && print_of(c.doc, c.n, (#[trigger] rows[i]).value) == print_of(
                c.doc,
                c.n,
                row.value,
            );
        assert(printed(c, d, rows[i].value));
        let k = choose|k: int|
            0 <= k < d.len() && print_of(c.doc, c.n, (#[trigger] d[k]).value) == print_of(
                c.doc,
                c.n,
                rows[i].value,
            );
        assert(print_of(c.doc, c.n, d[k].value) == print_of(c.doc, c.n, row.value));
        assert(printed(c, d, row.value));
    } else {
        if printed(c, d, row.value) {
            let k = choose|k: int|
                0 <= k < d.len() && print_of(c.doc, c.n, (#[trigger] d[k]).value) == print_of(
                    c.doc,
                    c.n,
                    row.value,
                );
            assert(rows.contains(d[k]));
            let i = choose|i: int| 0 <= i < rows.len() && rows[i] == d[k];
            assert(print_of(c.doc, c.n, rows[i].value) == print_of(c.doc, c.n, row.value));
        }
    }
}

} // verus!
