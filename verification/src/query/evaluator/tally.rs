//! Counts the cost of a query.
use vstd::prelude::*;

use super::super::ast::{
    field_views, group_key_views, key_views, opt_view, output_views, reduction_views, views, AggGroup,
    AggGroupKey, AggOutputNode, AggReduction, Ast, AstV, ReducerOp, SortDir,
};
use super::super::number::Numbers;
use super::super::value::Value;
use super::counts::{
    agg_cost, agg_rows_cost, all_seen_cost, block_cost, by_cost, by_rows_cost, cost, each_cost,
    emitted, firsts_cost, group_cost, groups_cost, has_key, named_cost, nothing, output_cost,
    outputs_cost, plus, primitive_bytes, quiet, roll_cost, row_bytes, rows_bytes, seen_cost,
    slot_sets, sort_cost, sorted_cost, stage_cost, step_bytes, steps_bytes, takes_part,
    until_true, Cost,
};
use super::groups::{
    all_fit, bucket_fits, bucket_views, effective_topk, finalize_slots, fits, group_rows,
    key_pair, keyed_views, roll_up, Keyed,
};
use super::model::{slots_of, CtxV, EnvV, RowV, StreamV};
use super::semantics::{less, run, stage_env, with_slots};
use super::spans::{find_step_spans, span_sum, span_views};
use super::stream::{row_views, rows_true, Ctx, Env, Row, Stream};
use super::walk::{
    agg_all_fit, agg_fits, ask_for, env_of_stage, group_size, is_null, is_reading, leave, pull,
    reducer, reduction_ops, rest_of, take_of, value_or_null, walk, walk_agg_table, wanted,
};
use crate::document::Document;

verus! {

/// A count that stops at the largest it can hold.
pub open spec fn capped(n: nat) -> u64 {
    if n > u64::MAX {
        u64::MAX
    } else {
        n as u64
    }
}

/// Rows, bytes and lookups, as far as they were counted.
pub struct Counts {
    pub rows: u64,
    pub bytes: u64,
    pub lookups: u64,
    /// What was counted.
    pub total: Ghost<Cost>,
}

impl Counts {
    #[verifier::opaque]
    pub open spec fn fits(self) -> bool {
        &&& self.rows == capped(self.total@.rows)
        &&& self.bytes == capped(self.total@.bytes)
        &&& self.lookups == capped(self.total@.lookups)
    }

    /// These are the counts of `t`.
    pub open spec fn shows(self, t: Cost) -> bool {
        self.fits() && self.total@ == t
    }
}

fn none() -> (r: Counts)
    ensures
        r.shows(nothing()),
{
    let r = Counts { rows: 0, bytes: 0, lookups: 0, total: Ghost(nothing()) };
    assert(r.fits()) by {
        reveal(Counts::fits);
    }
    r
}

fn added(a: u64, b: u64) -> (r: u64)
    ensures
        r == capped((a + b) as nat),
{
    if a > u64::MAX - b {
        u64::MAX
    } else {
        a + b
    }
}

fn sum(a: Counts, b: Counts) -> (r: Counts)
    requires
        a.fits(),
        b.fits(),
    ensures
        r.shows(plus(a.total@, b.total@)),
{
    let r = Counts {
        rows: added(a.rows, b.rows),
        bytes: added(a.bytes, b.bytes),
        lookups: added(a.lookups, b.lookups),
        total: Ghost(plus(a.total@, b.total@)),
    };
    proof {
        reveal(Counts::fits);
    }
    r
}

/// Whether a tree is known to have neither a source nor a lookup in it.
#[verifier::spinoff_prover]
fn is_quiet(a: &Ast) -> (b: bool)
    ensures
        b == quiet(a@),
    decreases a,
{
    proof {
        reveal(quiet);
    }
    match a {
        Ast::Identity
        | Ast::Field(_)
        | Ast::Index(_)
        | Ast::Iterate
        | Ast::IterateField(_)
        | Ast::Descend
        | Ast::DescendField(_)
        | Ast::LitNumber(_)
        | Ast::LitString(_)
        | Ast::LitBool(_)
        | Ast::LitNull
        | Ast::Var(_)
        | Ast::ReducerSlot(_)
        | Ast::Not
        | Ast::Sum
        | Ast::Min
        | Ast::Max
        | Ast::Avg
        | Ast::Count
        | Ast::Limit(_)
        | Ast::Distinct => true,
        Ast::Pipe(l, r) => is_quiet(l) && is_quiet(r),
        Ast::Compare(l, _, r) => is_quiet(l) && is_quiet(r),
        Ast::And(l, r) => is_quiet(l) && is_quiet(r),
        Ast::Or(l, r) => is_quiet(l) && is_quiet(r),
        Ast::Binary { lhs, rhs, .. } => is_quiet(lhs) && is_quiet(rhs),
        Ast::Select(e) => is_quiet(e),
        Ast::Exists(e) => is_quiet(e),
        Ast::Neg(e) => is_quiet(e),
        Ast::Let { value, .. } => is_quiet(value),
        Ast::UnnestEach { source, .. } => is_quiet(source),
        Ast::TypeTest { value, .. } => is_quiet(value),
        Ast::FieldSetEquals { base, target, .. } => is_quiet(base) && is_quiet(target),
        _ => false,
    }
}

fn span_of(doc: &Document, v: &Value) -> (n: u64)
    ensures
        n == row_bytes(*doc, v@),
{
    match v {
        Value::Node(id) => match doc.record(*id) {
            Some(r) => r.length as u64,
            None => 0,
        },
        _ => 0,
    }
}

/// The cost of a source whose rows are taken.
fn tally_emitted(doc: &Document, rows: &Vec<Row>, k: Option<u128>) -> (r: Counts)
    ensures
        r.shows(emitted(*doc, row_views(rows@), wanted(k))),
{
    let n = take_of(k, rows.len());
    let mut bytes: u64 = 0;
    let mut i: usize = 0;
    while i < n
        invariant
            i <= n <= rows@.len(),
            bytes == capped(rows_bytes(*doc, row_views(rows@), i as nat)),
        decreases n - i,
    {
        assert(row_views(rows@)[i as int] == rows@[i as int]@);
        bytes = added(bytes, span_of(doc, &rows[i].value));
        i += 1;
    }
    let r = Counts {
        rows: n as u64,
        bytes,
        lookups: 0,
        total: Ghost(emitted(*doc, row_views(rows@), wanted(k))),
    };
    proof {
        reveal(Counts::fits);
    }
    r
}

/// How many rows a test takes.
fn first_true(doc: &Document, rows: &Vec<Row>) -> (r: Option<u128>)
    ensures
        wanted(r) == until_true(*doc, row_views(rows@), 0),
{
    let mut i: usize = 0;
    while i < rows.len()
        invariant
            i <= rows@.len(),
            until_true(*doc, row_views(rows@), 0) == until_true(*doc, row_views(rows@), i as nat),
        decreases rows@.len() - i,
    {
        assert(row_views(rows@)[i as int] == rows@[i as int]@);
        if rows[i].value.is_truthy(doc) {
            return Some(i as u128 + 1);
        }
        i += 1;
    }
    None
}

#[verifier::spinoff_prover]
fn tally_firsts<N: Numbers>(c: &Ctx<N>, v: &Vec<Ast>, env: &Env, x: &Value) -> (r: Counts)
    requires
        c.wf(),
    ensures
        r.shows(firsts_cost(c@, views(v@), env@, x@)),
    decreases v, 0nat,
{
    let ghost all = views(v@);
    let mut out = none();
    let mut i: usize = 0;
    proof {
        reveal(firsts_cost);
        assert(all.take(0) =~= Seq::empty());
    }
    while i < v.len()
        invariant
            c.wf(),
            i <= v@.len(),
            all == views(v@),
            all.len() == v@.len(),
            out.shows(firsts_cost(c@, all.take(i as int), env@, x@)),
        decreases v@.len() - i,
    {
        proof {
            reveal(firsts_cost);
            let next = all.take(i + 1);
            assert(next.drop_last() =~= all.take(i as int));
            assert(next.last() == all[i as int]);
            assert(decreases_to!(v => v@[i as int]));
        }
        let part = tally(c, &v[i], env, x, Some(1));
        out = sum(out, part);
        i += 1;
    }
    assert(all.take(i as int) =~= all);
    out
}

#[verifier::spinoff_prover]
fn tally_named<N: Numbers>(c: &Ctx<N>, v: &Vec<(String, Ast)>, env: &Env, x: &Value) -> (r: Counts)
    requires
        c.wf(),
    ensures
        r.shows(named_cost(c@, field_views(v@), env@, x@)),
    decreases v, 0nat,
{
    let ghost all = field_views(v@);
    let mut out = none();
    let mut i: usize = 0;
    proof {
        reveal(named_cost);
        assert(all.take(0) =~= Seq::empty());
    }
    while i < v.len()
        invariant
            c.wf(),
            i <= v@.len(),
            all == field_views(v@),
            all.len() == v@.len(),
            out.shows(named_cost(c@, all.take(i as int), env@, x@)),
        decreases v@.len() - i,
    {
        proof {
            reveal(named_cost);
            let next = all.take(i + 1);
            assert(next.drop_last() =~= all.take(i as int));
            assert(next.last() == all[i as int]);
            assert(decreases_to!(v => v@[i as int]));
        }
        let part = tally(c, &v[i].1, env, x, Some(1));
        out = sum(out, part);
        i += 1;
    }
    assert(all.take(i as int) =~= all);
    out
}

#[verifier::spinoff_prover]
fn tally_sort_keys<N: Numbers>(c: &Ctx<N>, v: &Vec<(Ast, SortDir)>, env: &Env, x: &Value) -> (r: Counts)
    requires
        c.wf(),
    ensures
        r.shows(sort_cost(c@, key_views(v@), env@, x@)),
    decreases v, 0nat,
{
    let ghost all = key_views(v@);
    let mut out = none();
    let mut i: usize = 0;
    proof {
        reveal(sort_cost);
        assert(all.take(0) =~= Seq::empty());
    }
    while i < v.len()
        invariant
            c.wf(),
            i <= v@.len(),
            all == key_views(v@),
            all.len() == v@.len(),
            out.shows(sort_cost(c@, all.take(i as int), env@, x@)),
        decreases v@.len() - i,
    {
        proof {
            reveal(sort_cost);
            let next = all.take(i + 1);
            assert(next.drop_last() =~= all.take(i as int));
            assert(next.last() == all[i as int]);
            assert(decreases_to!(v => v@[i as int]));
        }
        let part = tally(c, &v[i].0, env, x, Some(1));
        out = sum(out, part);
        i += 1;
    }
    assert(all.take(i as int) =~= all);
    out
}

#[verifier::spinoff_prover]
fn tally_roll_keys<N: Numbers>(c: &Ctx<N>, v: &Vec<AggGroupKey>, row: &Row) -> (r: Counts)
    requires
        c.wf(),
    ensures
        r.shows(roll_cost(c@, group_key_views(v@), row@)),
    decreases v, 0nat,
{
    let ghost all = group_key_views(v@);
    let mut out = none();
    let mut i: usize = 0;
    proof {
        reveal(roll_cost);
        assert(all.take(0) =~= Seq::empty());
    }
    while i < v.len()
        invariant
            c.wf(),
            i <= v@.len(),
            all == group_key_views(v@),
            all.len() == v@.len(),
            out.shows(roll_cost(c@, all.take(i as int), row@)),
        decreases v@.len() - i,
    {
        proof {
            reveal(roll_cost);
            let next = all.take(i + 1);
            assert(next.drop_last() =~= all.take(i as int));
            assert(next.last() == all[i as int]);
            assert(decreases_to!(v => v@[i as int]));
        }
        let part = tally(c, &*v[i].key, &row.env, &row.value, Some(1));
        out = sum(out, part);
        i += 1;
    }
    assert(all.take(i as int) =~= all);
    out
}

#[verifier::spinoff_prover]
fn tally_all_seen<N: Numbers>(c: &Ctx<N>, v: &Vec<AggReduction>, row: &Row) -> (r: Counts)
    requires
        c.wf(),
    ensures
        r.shows(all_seen_cost(c@, reduction_views(v@), row@)),
    decreases v, 0nat,
{
    let ghost all = reduction_views(v@);
    let mut out = none();
    let mut i: usize = 0;
    proof {
        reveal(all_seen_cost);
        assert(all.take(0) =~= Seq::empty());
    }
    while i < v.len()
        invariant
            c.wf(),
            i <= v@.len(),
            all == reduction_views(v@),
            all.len() == v@.len(),
            out.shows(all_seen_cost(c@, all.take(i as int), row@)),
        decreases v@.len() - i,
    {
        proof {
            reveal(all_seen_cost);
            let next = all.take(i + 1);
            assert(next.drop_last() =~= all.take(i as int));
            assert(next.last() == all[i as int]);
            assert(decreases_to!(v => v@[i as int]));
        }
        let part = tally_seen(c, &v[i], row);
        out = sum(out, part);
        i += 1;
    }
    assert(all.take(i as int) =~= all);
    out
}

#[verifier::spinoff_prover]
fn tally_outputs<N: Numbers>(c: &Ctx<N>, v: &Vec<(String, AggOutputNode)>, env: &Env) -> (r: Counts)
    requires
        c.wf(),
    ensures
        r.shows(outputs_cost(c@, output_views(v@), env@)),
    decreases v, 0nat,
{
    let ghost all = output_views(v@);
    let mut out = none();
    let mut i: usize = 0;
    proof {
        reveal(outputs_cost);
        assert(all.take(0) =~= Seq::empty());
    }
    while i < v.len()
        invariant
            c.wf(),
            i <= v@.len(),
            all == output_views(v@),
            all.len() == v@.len(),
            out.shows(outputs_cost(c@, all.take(i as int), env@)),
        decreases v@.len() - i,
    {
        proof {
            reveal(outputs_cost);
            let next = all.take(i + 1);
            assert(next.drop_last() =~= all.take(i as int));
            assert(next.last() == all[i as int]);
            assert(decreases_to!(v => v@[i as int]));
        }
        let part = tally_output(c, &v[i].1, env);
        out = sum(out, part);
        i += 1;
    }
    assert(all.take(i as int) =~= all);
    out
}

/// The cost of the sort keys of each row.
#[verifier::spinoff_prover]
fn tally_sorted<N: Numbers>(c: &Ctx<N>, keys: &Vec<(Ast, SortDir)>, rows: &Vec<Row>) -> (r: Counts)
    requires
        c.wf(),
    ensures
        r.shows(sorted_cost(c@, key_views(keys@), row_views(rows@))),
    decreases keys, 1nat,
{
    let ghost all = row_views(rows@);
    let mut out = none();
    let mut i: usize = 0;
    proof {
        reveal(sorted_cost);
        assert(all.take(0) =~= Seq::empty());
    }
    while i < rows.len()
        invariant
            c.wf(),
            i <= rows@.len(),
            all == row_views(rows@),
            out.shows(sorted_cost(c@, key_views(keys@), all.take(i as int))),
        decreases rows@.len() - i,
    {
        proof {
            reveal(sorted_cost);
            let next = all.take(i + 1);
            assert(next.drop_last() =~= all.take(i as int));
            assert(next.last() == all[i as int]);
            assert(all[i as int] == rows@[i as int]@);
        }
        let part = tally_sort_keys(c, keys, &rows[i].env, &rows[i].value);
        out = sum(out, part);
        i += 1;
    }
    assert(all.take(i as int) =~= all);
    out
}

#[verifier::spinoff_prover]
fn tally_by_rows<N: Numbers>(c: &Ctx<N>, a: &Ast, rows: &Vec<Row>) -> (r: Counts)
    requires
        c.wf(),
    ensures
        r.shows(by_rows_cost(c@, a@, row_views(rows@))),
    decreases a, 11nat,
{
    let ghost all = row_views(rows@);
    let mut out = none();
    let mut i: usize = 0;
    proof {
        reveal(by_rows_cost);
        assert(all.take(0) =~= Seq::empty());
    }
    while i < rows.len()
        invariant
            c.wf(),
            i <= rows@.len(),
            all == row_views(rows@),
            out.shows(by_rows_cost(c@, a@, all.take(i as int))),
        decreases rows@.len() - i,
    {
        proof {
            reveal(by_rows_cost);
            let next = all.take(i + 1);
            assert(next.drop_last() =~= all.take(i as int));
            assert(next.last() == all[i as int]);
            assert(all[i as int] == rows@[i as int]@);
        }
        let part = tally_by(c, a, &rows[i]);
        out = sum(out, part);
        i += 1;
    }
    assert(all.take(i as int) =~= all);
    out
}

#[verifier::spinoff_prover]
fn tally_agg_rows<N: Numbers>(c: &Ctx<N>, a: &Ast, rows: &Vec<Row>) -> (r: Counts)
    requires
        c.wf(),
    ensures
        r.shows(agg_rows_cost(c@, a@, row_views(rows@))),
    decreases a, 11nat,
{
    let ghost all = row_views(rows@);
    let mut out = none();
    let mut i: usize = 0;
    proof {
        reveal(agg_rows_cost);
        assert(all.take(0) =~= Seq::empty());
    }
    while i < rows.len()
        invariant
            c.wf(),
            i <= rows@.len(),
            all == row_views(rows@),
            out.shows(agg_rows_cost(c@, a@, all.take(i as int))),
        decreases rows@.len() - i,
    {
        proof {
            reveal(agg_rows_cost);
            let next = all.take(i + 1);
            assert(next.drop_last() =~= all.take(i as int));
            assert(next.last() == all[i as int]);
            assert(all[i as int] == rows@[i as int]@);
        }
        let part = tally_agg(c, a, &rows[i]);
        out = sum(out, part);
        i += 1;
    }
    assert(all.take(i as int) =~= all);
    out
}

/// Whether a row has its key.
fn finds_key<N: Numbers>(c: &Ctx<N>, key: &Ast, row: &Row) -> (b: bool)
    requires
        c.wf(),
    ensures
        b == has_key(c@, key@, row@),
{
    match walk(c, key, &row.env, &row.value).first() {
        Ok(o) => key_pair(c, o).is_some(),
        Err(_) => false,
    }
}

/// The cost of a row of a `by` stage.
#[verifier::spinoff_prover]
fn tally_by<N: Numbers>(c: &Ctx<N>, a: &Ast, row: &Row) -> (r: Counts)
    requires
        c.wf(),
    ensures
        r.shows(by_cost(c@, a@, row@)),
    decreases a, 10nat,
{
    proof {
        reveal(by_cost);
    }
    match a {
        Ast::By(e, k) => {
            let keys = tally(c, k, &row.env, &row.value, Some(1));
            let rest = if !finds_key(c, k, row) || reducer(e).is_some() {
                none()
            } else {
                match &**e {
                    Ast::Pipe(l, last) => if reducer(last).is_some() {
                        tally(c, l, &row.env, &row.value, None)
                    } else {
                        tally(c, e, &row.env, &row.value, None)
                    },
                    _ => tally(c, e, &row.env, &row.value, None),
                }
            };
            sum(keys, rest)
        },
        _ => none(),
    }
}

/// The cost of what a reduction sees of a row.
#[verifier::spinoff_prover]
fn tally_seen<N: Numbers>(c: &Ctx<N>, a: &AggReduction, row: &Row) -> (r: Counts)
    requires
        c.wf(),
    ensures
        r.shows(seen_cost(c@, a@, row@)),
    decreases a, 0nat,
{
    proof {
        reveal(seen_cost);
    }
    let mut out = none();
    let mut kept = true;
    if let Some(p) = &a.where_pred {
        out = tally(c, p, &row.env, &row.value, None);
        kept = rows_true(&walk(c, p, &row.env, &row.value).rows, c.doc);
    }
    let rest = if kept {
        match &a.value {
            None => none(),
            Some(x) => tally(c, x, &row.env, &row.value, None),
        }
    } else {
        none()
    };
    sum(out, rest)
}

/// The cost of a row of an aggregate block.
#[verifier::spinoff_prover]
fn tally_agg<N: Numbers>(c: &Ctx<N>, a: &Ast, row: &Row) -> (r: Counts)
    requires
        c.wf(),
    ensures
        r.shows(agg_cost(c@, a@, row@)),
    decreases a, 10nat,
{
    proof {
        reveal(agg_cost);
        reveal(group_cost);
    }
    match a {
        Ast::AggregateBlock { group, reductions, .. } => {
            let mut keys = none();
            let mut part = true;
            match group {
                None => {},
                Some(AggGroup::Single { key, .. }) => {
                    keys = tally(c, key, &row.env, &row.value, Some(1));
                    part = finds_key(c, key, row);
                },
                Some(AggGroup::Rollup(v)) => {
                    keys = tally_roll_keys(c, v, row);
                },
            }
            proof {
                let gv = match group {
                    Some(g) => Some(g@),
                    None => None,
                };
                assert(a@->group == gv);
                assert(a@->reductions == reduction_views(reductions@));
                assert(keys.total@ == group_cost(c@, gv, row@));
                assert(part == takes_part(c@, gv, row@));
            }
            let rest = if part {
                tally_all_seen(c, reductions, row)
            } else {
                none()
            };
            sum(keys, rest)
        },
        _ => none(),
    }
}

/// The cost of an output of an aggregate block.
#[verifier::spinoff_prover]
fn tally_output<N: Numbers>(c: &Ctx<N>, o: &AggOutputNode, env: &Env) -> (r: Counts)
    requires
        c.wf(),
    ensures
        r.shows(output_cost(c@, o@, env@)),
    decreases o, 0nat,
{
    proof {
        reveal(output_cost);
    }
    match o {
        AggOutputNode::Leaf { expr, default } => {
            let out = tally(c, expr, env, &Value::Null, Some(1));
            let rest = match walk(c, expr, env, &Value::Null).first() {
                Err(_) => none(),
                Ok(x) => if !is_null(&value_or_null(x)) {
                    none()
                } else {
                    match default {
                        None => none(),
                        Some(d) => tally(c, d, env, &Value::Null, Some(1)),
                    }
                },
            };
            sum(out, rest)
        },
        AggOutputNode::Object(fields) => tally_outputs(c, fields, env),
    }
}

/// The finished reductions of each group.
#[verifier::spinoff_prover]
fn finished_slots<N: Numbers>(
    c: &Ctx<N>,
    group: &Option<AggGroup>,
    ops: &Vec<ReducerOp>,
    t: &Vec<Keyed>,
) -> (out: Vec<Vec<Option<u64>>>)
    requires
        c.wf(),
        agg_all_fit(keyed_views(t@), *group, ops@.len()),
    ensures
        slot_lists(out@) == slot_sets(
            c@,
            match *group {
                Some(g) => Some(g@),
                None => None,
            },
            ops@,
            keyed_views(t@),
        ),
{
    let ghost tv = keyed_views(t@);
    let ghost n = ops@.len();
    proof {
        assert forall|i: int| 0 <= i < tv.len() implies fits(
            #[trigger] tv[i],
            n,
            group_size(*group),
        ) by {
            assert(agg_fits(tv[i], *group, n));
        }
        assert(all_fit(tv, n, group_size(*group)));
    }
    let b = match group {
        None => group_rows(c, ops, t, 0),
        Some(AggGroup::Single { .. }) => group_rows(c, ops, t, 1),
        Some(AggGroup::Rollup(keys)) => {
            let p: usize = keys.len();
            proof {
                assert(group_key_views(keys@).len() == keys@.len());
                assert forall|q: nat| q <= p implies #[trigger] all_fit(tv, n, q) by {
                    assert forall|i: int| 0 <= i < tv.len() implies fits(
                        #[trigger] tv[i],
                        n,
                        q,
                    ) by {
                        assert(agg_fits(tv[i], *group, n));
                    }
                }
            }
            roll_up(c, ops, t, p)
        },
    };
    let ghost all = bucket_views(b@);
    proof {
        assert forall|i: int| 0 <= i < b@.len() implies (#[trigger] all[i]).states.len() == n by {
            if group matches Some(AggGroup::Rollup(_)) {
            } else {
                assert(bucket_fits(all[i], n, group_size(*group)));
            }
        }
    }
    let mut out: Vec<Vec<Option<u64>>> = Vec::new();
    let mut i: usize = 0;
    while i < b.len()
        invariant
            c.wf(),
            n == ops@.len(),
            all == bucket_views(b@),
            i <= b@.len(),
            out@.len() == i,
            forall|j: int| 0 <= j < b@.len() ==> (#[trigger] all[j]).states.len() == n,
            forall|j: int| 0 <= j < i ==> (#[trigger] out@[j])@ == slots_of(c@, ops@, all[j]),
        decreases b@.len() - i,
    {
        assert(all[i as int] == b@[i as int]@);
        out.push(finalize_slots(c, ops, &b[i]));
        i += 1;
    }
    proof {
        let sets = slot_sets(
            c@,
            match group {
                Some(g) => Some(g@),
                None => None,
            },
            ops@,
            tv,
        );
        assert(sets.len() == all.len());
        assert forall|j: int| 0 <= j < sets.len() implies slot_lists(out@)[j] == sets[j] by {
            assert(out@[j]@ == slots_of(c@, ops@, all[j]));
        }
        assert(slot_lists(out@) =~= sets);
    }
    out
}

pub open spec fn slot_lists(v: Seq<Vec<Option<u64>>>) -> Seq<Seq<Option<u64>>> {
    Seq::new(v.len(), |i: int| v[i]@)
}

fn copied(v: &Vec<Option<u64>>) -> (out: Vec<Option<u64>>)
    ensures
        out@ == v@,
{
    let mut out: Vec<Option<u64>> = Vec::new();
    let mut i: usize = 0;
    while i < v.len()
        invariant
            i <= v@.len(),
            out@ =~= v@.take(i as int),
        decreases v@.len() - i,
    {
        out.push(v[i]);
        i += 1;
    }
    assert(out@ =~= v@);
    out
}

/// The cost of the outputs of the first `n` groups.
#[verifier::spinoff_prover]
fn tally_groups<N: Numbers>(
    c: &Ctx<N>,
    es: &Vec<(String, AggOutputNode)>,
    sets: &Vec<Vec<Option<u64>>>,
    n: usize,
    env: &Env,
) -> (r: Counts)
    requires
        c.wf(),
        n <= sets@.len(),
    ensures
        r.shows(
            groups_cost(c@, output_views(es@), slot_lists(sets@).take(n as int), env@),
        ),
    decreases es, 1nat,
{
    let ghost all = slot_lists(sets@).take(n as int);
    let mut out = none();
    let mut i: usize = 0;
    proof {
        reveal(groups_cost);
        assert(all.take(0) =~= Seq::empty());
    }
    while i < n
        invariant
            c.wf(),
            i <= n <= sets@.len(),
            all == slot_lists(sets@).take(n as int),
            out.shows(groups_cost(c@, output_views(es@), all.take(i as int), env@)),
        decreases n - i,
    {
        proof {
            reveal(groups_cost);
            let next = all.take(i + 1);
            assert(next.drop_last() =~= all.take(i as int));
            assert(next.last() == sets@[i as int]@);
        }
        let inside = env.with_slots(copied(&sets[i]));
        assert(inside@ == with_slots(env@, sets@[i as int]@));
        let part = tally_outputs(c, es, &inside);
        out = sum(out, part);
        i += 1;
    }
    assert(all.take(i as int) =~= all);
    out
}

/// The cost of an aggregate block on a stream.
#[verifier::spinoff_prover]
fn tally_block<N: Numbers>(c: &Ctx<N>, a: &Ast, env: &Env, s: &Stream, k: Option<u128>) -> (r: Counts)
    requires
        c.wf(),
        a is AggregateBlock,
    ensures
        r.shows(block_cost(c@, a@, env@, s@, wanted(k))),
    decreases a, 12nat,
{
    proof {
        reveal(block_cost);
    }
    let rows = tally_agg_rows(c, a, &s.rows);
    match a {
        Ast::AggregateBlock { group, reductions, outputs } => {
            let rest = match walk_agg_table(c, a, &s.rows) {
                Err(_) => none(),
                Ok(t) => if s.err.is_some() {
                    none()
                } else {
                    let sets = finished_slots(c, group, &reduction_ops(reductions), &t);
                    let all = if group.is_none() {
                        None
                    } else {
                        k
                    };
                    let n = take_of(all, sets.len());
                    tally_groups(c, outputs, &sets, n, env)
                },
            };
            sum(rows, rest)
        },
        _ => none(),
    }
}

/// The cost of a stage on each row, until it has given `k` rows.
#[verifier::spinoff_prover]
fn tally_each<N: Numbers>(c: &Ctx<N>, a: &Ast, rows: &Vec<Row>, k: Option<u128>) -> (r: Counts)
    requires
        c.wf(),
    ensures
        r.shows(each_cost(c@, a@, row_views(rows@), 0, wanted(k))),
    decreases a, 11nat,
{
    let ghost all = row_views(rows@);
    let ghost whole = each_cost(c@, a@, all, 0, wanted(k));
    let ghost mut so_far = nothing();
    let mut out = none();
    let mut left = k;
    let mut i: usize = 0;
    while i < rows.len() && left != Some(0u128)
        invariant
            c.wf(),
            i <= rows@.len(),
            all == row_views(rows@),
            out.shows(so_far),
            whole == each_cost(c@, a@, all, 0, wanted(k)),
            whole == plus(so_far, each_cost(c@, a@, all, i as nat, wanted(left))),
        decreases rows@.len() - i,
    {
        proof {
            reveal(each_cost);
            assert(all[i as int] == rows@[i as int]@);
        }
        let part = tally(c, a, &rows[i].env, &rows[i].value, left);
        out = sum(out, part);
        proof {
            so_far = plus(so_far, cost(c@, a@, rows@[i as int].env@, rows@[i as int].value@, wanted(left)));
        }
        let t = walk(c, a, &rows[i].env, &rows[i].value);
        if t.err.is_some() {
            assert(whole == so_far);
            return out;
        }
        assert(t@.rows.len() == t.rows@.len());
        left = rest_of(left, t.rows.len());
        i += 1;
    }
    proof {
        reveal(each_cost);
        assert(whole == so_far);
    }
    out
}

/// The cost of a stage on a stream.
#[verifier::spinoff_prover]
fn tally_stage<N: Numbers>(c: &Ctx<N>, a: &Ast, env: &Env, s: &Stream, k: Option<u128>) -> (r: Counts)
    requires
        c.wf(),
    ensures
        r.shows(stage_cost(c@, a@, env@, s@, wanted(k))),
    decreases a, 13nat,
{
    proof {
        reveal(stage_cost);
    }
    if is_quiet(a) {
        return none();
    }
    match a {
        Ast::By(_, _) => tally_by_rows(c, a, &s.rows),
        Ast::SortBy(keys) => if effective_topk(c, None) == Some(0u64) {
            none()
        } else {
            tally_sorted(c, keys, &s.rows)
        },
        Ast::AggregateBlock { .. } => tally_block(c, a, env, s, k),
        _ => tally_each(c, a, &s.rows, k),
    }
}

/// A quiet stage costs nothing under any bindings.
proof fn quiet_stage(c: CtxV, r: AstV, env: EnvV, other: EnvV, s: StreamV, k: Option<nat>)
    ensures
        quiet(r) ==> stage_cost(c, r, env, s, k) == stage_cost(c, r, other, s, k),
{
    reveal(stage_cost);
}

/// The cost of a pipe.
#[verifier::spinoff_prover]
fn tally_pipe<N: Numbers>(c: &Ctx<N>, a: &Ast, env: &Env, v: &Value, k: Option<u128>) -> (r: Counts)
    requires
        c.wf(),
        a is Pipe,
        !quiet(a@),
    ensures
        r.shows(cost(c@, a@, env@, v@, wanted(k))),
    decreases a, 8nat,
{
    proof {
        reveal(cost);
    }
    match a {
        Ast::Pipe(l, r) => {
            assert(a@ == AstV::Pipe(Box::new(l@), Box::new(r@)));
            assert(r@ matches AstV::Limit(n) ==> **r == Ast::Limit(n));
            assert(l@ is Pipe ==> **l is Pipe);
            if let Ast::Limit(n) = &**r {
                if let Ast::Pipe(source, mid) = &**l {
                    if let Ast::SortBy(keys) = &**mid {
                        proof {
                            assert(l@ == AstV::Pipe(Box::new(source@), Box::new(mid@)));
                            assert(mid@ == AstV::SortBy(key_views(keys@)));
                            assert(r@ == AstV::Limit(*n));
                        }
                        let s = walk(c, source, env, v);
                        let below = tally(c, source, env, v, None);
                        let rest = if effective_topk(c, Some(*n)) == Some(0u64) {
                            none()
                        } else {
                            tally_sorted(c, keys, &s.rows)
                        };
                        return sum(below, rest);
                    }
                }
            }
            proof {
                if **l is Pipe {
                    let source = *l->Pipe_0;
                    let mid = *l->Pipe_1;
                    assert(l@ == AstV::Pipe(Box::new(source@), Box::new(mid@)));
                    assert(mid@ is SortBy ==> mid is SortBy);
                }
            }
            let s = walk(c, l, env, v);
            let ask = ask_for(c, r, &s.rows, k);
            let below = tally(c, l, env, v, ask);
            proof {
                env_of_stage(c@, l@, r@, env@, v@);
            }
            let rest = if is_reading(r) && !is_quiet(r) {
                let bound = leave(c, l, env, v, None);
                tally_stage(c, r, &bound, &s, k)
            } else {
                proof {
                    quiet_stage(c@, r@, env@, stage_env(c@, l@, r@, env@, v@), s@, wanted(k));
                }
                tally_stage(c, r, env, &s, k)
            };
            sum(below, rest)
        },
        _ => none(),
    }
}

/// The cost of a test.
fn tally_until<N: Numbers>(c: &Ctx<N>, a: &Ast, env: &Env, v: &Value) -> (r: Counts)
    requires
        c.wf(),
    ensures
        r.shows(
            cost(
                c@,
                a@,
                env@,
                v@,
                until_true(c@.doc, run(c@, a@, env@, v@).rows, 0),
            ),
        ),
    decreases a, 10nat,
{
    if is_quiet(a) {
        proof {
            reveal(cost);
        }
        return none();
    }
    let s = walk(c, a, env, v);
    tally(c, a, env, v, first_true(c.doc, &s.rows))
}

/// The cost of conditions.
#[verifier::spinoff_prover]
fn tally_test<N: Numbers>(c: &Ctx<N>, a: &Ast, env: &Env, v: &Value, k: Option<u128>) -> (r: Counts)
    requires
        c.wf(),
        a is And || a is Or || a is Select || a is If || a is Compare || a is TypeTest || a is Exists
            || a is FieldSetEquals,
        !quiet(a@),
    ensures
        r.shows(cost(c@, a@, env@, v@, wanted(k))),
    decreases a, 8nat,
{
    proof {
        reveal(cost);
    }
    match a {
        Ast::And(l, r) => {
            let x = tally_until(c, l, env, v);
            let go = match walk(c, l, env, v).any_true(c.doc) {
                Ok(b) => b,
                Err(_) => false,
            };
            let y = if go {
                tally_until(c, r, env, v)
            } else {
                none()
            };
            sum(x, y)
        },
        Ast::Or(l, r) => {
            let x = tally_until(c, l, env, v);
            let go = match walk(c, l, env, v).any_true(c.doc) {
                Ok(b) => !b,
                Err(_) => false,
            };
            let y = if go {
                tally_until(c, r, env, v)
            } else {
                none()
            };
            sum(x, y)
        },
        Ast::Select(p) => tally_until(c, p, env, v),
        Ast::If { cond, then_branch, else_branch } => {
            let x = tally_until(c, cond, env, v);
            let y = match walk(c, cond, env, v).any_true(c.doc) {
                Err(_) => none(),
                Ok(b) => if b {
                    tally(c, then_branch, env, v, k)
                } else {
                    tally(c, else_branch, env, v, k)
                },
            };
            sum(x, y)
        },
        Ast::Compare(l, _, r) => {
            let x = tally(c, l, env, v, None);
            let y = tally(c, r, env, v, None);
            sum(x, y)
        },
        Ast::TypeTest { value, .. } => tally(c, value, env, v, k),
        Ast::Exists(e) => tally(c, e, env, v, Some(1)),
        Ast::FieldSetEquals { base, target, .. } => {
            let x = tally(c, target, env, v, Some(1));
            let y = match walk(c, target, env, v).first() {
                Ok(Some(_)) => tally(c, base, env, v, Some(1)),
                _ => none(),
            };
            sum(x, y)
        },
        _ => none(),
    }
}

fn one_lookup() -> (r: Counts)
    ensures
        r.shows((Cost { rows: 0, bytes: 0, lookups: 1 })),
{
    let r = Counts {
        rows: 0,
        bytes: 0,
        lookups: 1,
        total: Ghost(Cost { rows: 0, bytes: 0, lookups: 1 }),
    };
    proof {
        reveal(Counts::fits);
    }
    r
}

/// The first `n` spans, added to `bytes`.
fn add_spans(v: &Vec<usize>, n: usize, bytes: u64, Ghost(total): Ghost<nat>) -> (r: u64)
    requires
        n <= v@.len(),
        bytes == capped(total),
    ensures
        r == capped(total + span_sum(span_views(v@), n as nat)),
{
    let mut out = bytes;
    let mut i: usize = 0;
    while i < n
        invariant
            i <= n <= v@.len(),
            out == capped(total + span_sum(span_views(v@), i as nat)),
        decreases n - i,
    {
        out = added(out, v[i] as u64);
        i += 1;
    }
    out
}

/// The bytes of the primitives that a step emits from a row, added to
/// `bytes`, and what is left to take.
fn add_step<N: Numbers>(
    c: &Ctx<N>,
    a: &Ast,
    env: &Env,
    v: &Value,
    k: Option<u128>,
    bytes: u64,
    Ghost(total): Ghost<nat>,
) -> (r: (u64, Option<u128>))
    requires
        c.wf(),
        bytes == capped(total),
    ensures
        r.0 == capped(total + step_bytes(c@, a@, (RowV { env: env@, value: v@ }), wanted(k))),
        wanted(r.1) == less(wanted(k), run(c@, a@, env@, v@).rows.len()),
{
    let spans = find_step_spans(c, a, v);
    assert(span_views(spans@).len() == spans@.len());
    match k {
        None => (add_spans(&spans, spans.len(), bytes, Ghost(total)), None),
        Some(_) => {
            let t = walk(c, a, env, v);
            assert(t@.rows.len() == t.rows@.len());
            let n = take_of(k, t.rows.len());
            let n = take_of(Some(n as u128), spans.len());
            (add_spans(&spans, n, bytes, Ghost(total)), rest_of(k, t.rows.len()))
        },
    }
}

/// The bytes of the primitives that a step emits from each row, until `k`
/// values are taken.
fn steps_span<N: Numbers>(c: &Ctx<N>, a: &Ast, rows: &Vec<Row>, k: Option<u128>) -> (r: u64)
    requires
        c.wf(),
    ensures
        r == capped(steps_bytes(c@, a@, row_views(rows@), 0, wanted(k))),
{
    let ghost all = row_views(rows@);
    let ghost whole = steps_bytes(c@, a@, all, 0, wanted(k));
    let ghost mut so_far: nat = 0;
    let mut bytes: u64 = 0;
    let mut rest = k;
    let mut i: usize = 0;
    while i < rows.len() && rest != Some(0u128)
        invariant
            c.wf(),
            i <= rows@.len(),
            all == row_views(rows@),
            bytes == capped(so_far),
            whole == steps_bytes(c@, a@, all, 0, wanted(k)),
            whole == so_far + steps_bytes(c@, a@, all, i as nat, wanted(rest)),
        decreases rows@.len() - i,
    {
        assert(all[i as int] == rows@[i as int]@);
        let (more, after) = add_step(
            c,
            a,
            &rows[i].env,
            &rows[i].value,
            rest,
            bytes,
            Ghost(so_far),
        );
        proof {
            so_far = so_far + step_bytes(c@, a@, all[i as int], wanted(rest));
        }
        bytes = more;
        rest = after;
        i += 1;
    }
    bytes
}

/// The bytes of the primitives that a source emits.
#[verifier::spinoff_prover]
fn tally_primitives<N: Numbers>(
    c: &Ctx<N>,
    e: &Ast,
    env: &Env,
    v: &Value,
    k: Option<u128>,
) -> (r: Counts)
    requires
        c.wf(),
    ensures
        r.shows(
            (Cost {
                rows: 0,
                bytes: primitive_bytes(c@, e@, env@, v@, wanted(k)),
                lookups: 0,
            }),
        ),
{
    let ghost whole = primitive_bytes(c@, e@, env@, v@, wanted(k));
    let bytes: u64 = match e {
        Ast::Pipe(l, r) => {
            assert(e@ == AstV::Pipe(Box::new(l@), Box::new(r@)));
            let s = walk(c, l, env, v);
            steps_span(c, r, &s.rows, k)
        },
        _ => add_step(c, e, env, v, k, 0, Ghost(0)).0,
    };
    let r = Counts {
        rows: 0,
        bytes,
        lookups: 0,
        total: Ghost(Cost { rows: 0, bytes: whole, lookups: 0 }),
    };
    proof {
        reveal(Counts::fits);
    }
    r
}

/// The cost of sources and joins.
#[verifier::spinoff_prover]
fn tally_source<N: Numbers>(c: &Ctx<N>, a: &Ast, env: &Env, v: &Value, k: Option<u128>) -> (r: Counts)
    requires
        c.wf(),
        a is Tap || a is Lookup || a is JoinEach || a is Subquery || a is UnnestEach,
        !quiet(a@),
    ensures
        r.shows(cost(c@, a@, env@, v@, wanted(k))),
    decreases a, 8nat,
{
    proof {
        reveal(cost);
    }
    match a {
        Ast::Tap(e) => {
            let below = tally(c, e, env, v, k);
            let s = walk(c, e, env, v);
            let here = tally_emitted(c.doc, &s.rows, k);
            let inline = tally_primitives(c, e, env, v, k);
            sum(sum(below, here), inline)
        },
        Ast::Lookup { source_canon, key_canon, .. } => {
            match c.indexes.get(source_canon.as_str(), key_canon.as_str()) {
                Some(_) => one_lookup(),
                None => none(),
            }
        },
        Ast::JoinEach { outer_key, lookup, .. } => {
            let keys = walk(c, outer_key, env, v);
            let ask = pull(c, lookup, &keys.rows, k);
            let x = tally(c, outer_key, env, v, ask);
            let y = tally_each(c, lookup, &keys.rows, k);
            sum(x, y)
        },
        Ast::Subquery { pipeline } => tally(c, pipeline, env, &Value::Node(c.root), k),
        Ast::UnnestEach { source, .. } => tally(c, source, env, v, Some(1)),
        _ => none(),
    }
}

/// The cost of values that are put together.
#[verifier::spinoff_prover]
fn tally_build<N: Numbers>(c: &Ctx<N>, a: &Ast, env: &Env, v: &Value, k: Option<u128>) -> (r: Counts)
    requires
        c.wf(),
        a is KeyTuple || a is ArrayLit || a is Call || a is Project || a is Object || a is Let
            || a is Neg || a is Round || a is Binary,
        !quiet(a@),
    ensures
        r.shows(cost(c@, a@, env@, v@, wanted(k))),
    decreases a, 8nat,
{
    proof {
        reveal(cost);
    }
    match a {
        Ast::KeyTuple(parts) => tally_firsts(c, parts, env, v),
        Ast::ArrayLit(items) => tally_firsts(c, items, env, v),
        Ast::Call { args, .. } => tally_firsts(c, args, env, v),
        Ast::Project(fields) => tally_named(c, fields, env, v),
        Ast::Object(fields) => tally_named(c, fields, env, v),
        Ast::Let { value, .. } => tally(c, value, env, v, Some(1)),
        Ast::Neg(e) => tally(c, e, env, v, Some(1)),
        Ast::Round { value, precision } => {
            assert(a@ == (AstV::Round { value: Box::new(value@), precision: opt_view(*precision) }));
            let x = tally(c, value, env, v, Some(1));
            let y = match precision {
                None => none(),
                Some(p) => tally(c, p, env, v, Some(1)),
            };
            sum(x, y)
        },
        Ast::Binary { lhs, rhs, .. } => {
            let x = tally(c, lhs, env, v, Some(1));
            let y = tally(c, rhs, env, v, Some(1));
            sum(x, y)
        },
        _ => none(),
    }
}

/// The cost of a tree on a value, when `k` of its rows are taken, or all.
#[verifier::spinoff_prover]
pub fn tally<N: Numbers>(c: &Ctx<N>, a: &Ast, env: &Env, v: &Value, k: Option<u128>) -> (r: Counts)
    requires
        c.wf(),
    ensures
        r.shows(cost(c@, a@, env@, v@, wanted(k))),
    decreases a, 9nat,
{
    if is_quiet(a) {
        proof {
            reveal(cost);
        }
        return none();
    }
    match a {
        Ast::Pipe(..) => tally_pipe(c, a, env, v, k),
        Ast::Tap(..)
        | Ast::Lookup { .. }
        | Ast::JoinEach { .. }
        | Ast::Subquery { .. }
        | Ast::UnnestEach { .. } => tally_source(c, a, env, v, k),
        Ast::And(..)
        | Ast::Or(..)
        | Ast::Select(..)
        | Ast::If { .. }
        | Ast::Compare(..)
        | Ast::TypeTest { .. }
        | Ast::Exists(..)
        | Ast::FieldSetEquals { .. } => tally_test(c, a, env, v, k),
        Ast::KeyTuple(..)
        | Ast::ArrayLit(..)
        | Ast::Call { .. }
        | Ast::Project(..)
        | Ast::Object(..)
        | Ast::Let { .. }
        | Ast::Neg(..)
        | Ast::Round { .. }
        | Ast::Binary { .. } => tally_build(c, a, env, v, k),
        _ => {
            proof {
                reveal(cost);
            }
            none()
        },
    }
}

} // verus!
