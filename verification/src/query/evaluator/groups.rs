//! Reductions, groups and sorting.
use vstd::prelude::*;

use super::super::ast::{ReducerOp, SortDir};
use super::super::canonical::push_int;
use super::super::index::{ScalarKey, ScalarKeyV};
use super::super::number::{number_less, NumOp, Numbers};
use super::super::order::{Rank};
use super::super::value::{to_number, Scalar, ScalarV, Value, ValueV};
use super::functions::opt_value_view;
use super::model::{
    absorbed, consumed, consumed_all, empty_bucket, finished, fresh_state, group_lists, group_sums,
    grouped, key_text, keys_before, keys_to, next_count, node_ids,
    non_null, put_row, put_sorted, reduced_number, scalar_kind, slots_of, sort_rank, sorted_order,
    sorts_before, top, BucketV, KeyedV, ReducerState,
};
use super::scan::{push_value, seen};
use super::semantics::{in_order, keyed, rolled_up};
use super::stream::{row_views, Ctx, Env, Row, Stream};

verus! {

/// The number that a reduction makes of a value.
fn number_in<N: Numbers>(c: &Ctx<N>, v: &Value) -> (r: Option<u64>)
    requires
        c.wf(),
    ensures
        r == reduced_number(c@, v@),
{
    match v {
        Value::Bool(b) => Some(
            c.num.arith(
                NumOp::OfInt,
                if *b {
                    1
                } else {
                    0
                },
                0,
            ),
        ),
        Value::GroupList { members, .. } => Some(
            c.num.arith(NumOp::OfInt, members.len() as u64, 0),
        ),
        _ => to_number(c.doc, c.num, v),
    }
}

fn counted(n: u64) -> (r: u64)
    ensures
        r == next_count(n),
{
    if n < u64::MAX {
        n + 1
    } else {
        n
    }
}

impl ReducerState {
    pub fn new() -> (s: ReducerState)
        ensures
            s == fresh_state(),
    {
        ReducerState { sum: 0, count: 0, extreme: None }
    }

    /// The state after one more value.
    pub fn consume<N: Numbers>(self, c: &Ctx<N>, op: ReducerOp, v: &Value) -> (s: ReducerState)
        requires
            c.wf(),
        ensures
            s == consumed(c@, op, self, v@),
    {
        if op == ReducerOp::Count {
            return ReducerState {
                sum: self.sum,
                count: counted(self.count),
                extreme: self.extreme,
            };
        }
        match number_in(c, v) {
            Some(x) => {
                let kept = match self.extreme {
                    Some(cur) => {
                        if op == ReducerOp::Min && !number_less(x, cur) {
                            cur
                        } else if op == ReducerOp::Max && !number_less(cur, x) {
                            cur
                        } else {
                            x
                        }
                    },
                    None => x,
                };
                ReducerState {
                    sum: c.num.arith(NumOp::Add, self.sum, x),
                    count: counted(self.count),
                    extreme: Some(kept),
                }
            },
            None => self,
        }
    }

    /// The state after these values.
    pub fn consume_all<N: Numbers>(self, c: &Ctx<N>, op: ReducerOp, v: &Vec<Value>) -> (s:
        ReducerState)
        requires
            c.wf(),
        ensures
            s == consumed_all(c@, op, self, seen(v@)),
    {
        let ghost all = seen(v@);
        let mut s = self;
        let mut i: usize = 0;
        while i < v.len()
            invariant
                c.wf(),
                i <= v@.len(),
                all == seen(v@),
                s == consumed_all(c@, op, self, all.take(i as int)),
            decreases v@.len() - i,
        {
            proof {
                let next = all.take(i + 1);
                assert(next.drop_last() =~= all.take(i as int));
                assert(next.last() == v@[i as int]@);
            }
            s = s.consume(c, op, &v[i]);
            i += 1;
        }
        assert(all.take(i as int) =~= all);
        s
    }

    /// The result; `None` where the reduction saw nothing.
    pub fn finalize_optional<N: Numbers>(self, c: &Ctx<N>, op: ReducerOp) -> (r: Option<u64>)
        requires
            c.wf(),
        ensures
            r == finished(c@, op, self),
    {
        match op {
            ReducerOp::Sum => {
                if self.count == 0 {
                    None
                } else {
                    Some(self.sum)
                }
            },
            ReducerOp::Count => Some(c.num.arith(NumOp::OfInt, self.count, 0)),
            ReducerOp::Avg => {
                if self.count == 0 {
                    None
                } else {
                    let n = c.num.arith(NumOp::OfInt, self.count, 0);
                    Some(c.num.arith(NumOp::Div, self.sum, n))
                }
            },
            _ => self.extreme,
        }
    }
}

/// The values that are not null.
pub fn without_nulls(v: Vec<Value>) -> (out: Vec<Value>)
    ensures
        seen(out@) == non_null(seen(v@)),
{
    let ghost all = seen(v@);
    let mut out: Vec<Value> = Vec::new();
    let mut i: usize = 0;
    assert(seen(out@) =~= non_null(all.take(0)));
    while i < v.len()
        invariant
            i <= v@.len(),
            all == seen(v@),
            seen(out@) == non_null(all.take(i as int)),
        decreases v@.len() - i,
    {
        proof {
            let next = all.take(i + 1);
            assert(next.drop_last() =~= all.take(i as int));
            assert(next.last() == v@[i as int]@);
        }
        let null = match v[i] {
            Value::Null => true,
            _ => false,
        };
        if !null {
            push_value(&mut out, v[i].copy());
        }
        i += 1;
    }
    assert(all.take(i as int) =~= all);
    out
}

/// The nodes among these values.
pub fn nodes_in(v: &Vec<Value>) -> (out: Vec<u32>)
    ensures
        out@ == node_ids(seen(v@)),
{
    let ghost all = seen(v@);
    let mut out: Vec<u32> = Vec::new();
    let mut i: usize = 0;
    assert(out@ =~= node_ids(all.take(0)));
    while i < v.len()
        invariant
            i <= v@.len(),
            all == seen(v@),
            out@ == node_ids(all.take(i as int)),
        decreases v@.len() - i,
    {
        proof {
            let next = all.take(i + 1);
            assert(next.drop_last() =~= all.take(i as int));
            assert(next.last() == v@[i as int]@);
        }
        if let Value::Node(id) = &v[i] {
            out.push(*id);
        }
        i += 1;
    }
    assert(all.take(i as int) =~= all);
    out
}

/// A row on its way into a group.
pub struct Keyed {
    pub keys: Vec<Option<(ScalarKey, Value)>>,
    pub inputs: Vec<Vec<Value>>,
    pub nodes: Vec<u32>,
}

pub open spec fn pair_view(p: Option<(ScalarKey, Value)>) -> Option<(ScalarKeyV, ValueV)> {
    match p {
        Some(x) => Some((x.0@, x.1@)),
        None => None,
    }
}

pub open spec fn pair_views(v: Seq<Option<(ScalarKey, Value)>>) -> Seq<
    Option<(ScalarKeyV, ValueV)>,
> {
    Seq::new(v.len(), |i: int| pair_view(v[i]))
}

pub open spec fn input_views(v: Seq<Vec<Value>>) -> Seq<Seq<ValueV>> {
    Seq::new(v.len(), |i: int| seen(v[i]@))
}

impl View for Keyed {
    type V = KeyedV;

    open spec fn view(&self) -> KeyedV {
        KeyedV {
            keys: pair_views(self.keys@),
            inputs: input_views(self.inputs@),
            nodes: self.nodes@,
        }
    }
}

pub open spec fn keyed_views(v: Seq<Keyed>) -> Seq<KeyedV> {
    Seq::new(v.len(), |i: int| v[i]@)
}

/// A row that fits `n` reductions and groups of `p` keys.
pub open spec fn fits(k: KeyedV, n: nat, p: nat) -> bool {
    p <= k.keys.len() && (keys_to(k.keys, p) is Some ==> k.inputs.len() == n)
}

pub open spec fn all_fit(t: Seq<KeyedV>, n: nat, p: nat) -> bool {
    forall|i: int| 0 <= i < t.len() ==> fits(#[trigger] t[i], n, p)
}

/// The key of a value that may be missing.
pub fn key_pair<N: Numbers>(c: &Ctx<N>, o: Option<Value>) -> (r: Option<(ScalarKey, Value)>)
    requires
        c.wf(),
    ensures
        pair_view(r) == keyed(c@, opt_value_view(o)),
{
    match o {
        Some(v) => match ScalarKey::from_value(c.doc, c.num, &v) {
            Some(k) => Some((k, v)),
            None => None,
        },
        None => None,
    }
}

/// One group.
pub struct Bucket {
    pub keys: Vec<ScalarKey>,
    pub labels: Vec<Value>,
    pub states: Vec<ReducerState>,
    pub members: Vec<u32>,
}

pub open spec fn key_views(v: Seq<ScalarKey>) -> Seq<ScalarKeyV> {
    Seq::new(v.len(), |i: int| v[i]@)
}

impl View for Bucket {
    type V = BucketV;

    open spec fn view(&self) -> BucketV {
        BucketV {
            keys: key_views(self.keys@),
            labels: seen(self.labels@),
            states: self.states@,
            members: self.members@,
        }
    }
}

pub open spec fn bucket_views(v: Seq<Bucket>) -> Seq<BucketV> {
    Seq::new(v.len(), |i: int| v[i]@)
}

/// A group of `p` keys with `n` reductions.
pub open spec fn bucket_fits(b: BucketV, n: nat, p: nat) -> bool {
    b.keys.len() == p && b.labels.len() == p && b.states.len() == n
}

pub open spec fn buckets_fit(b: Seq<BucketV>, n: nat, p: nat) -> bool {
    forall|i: int| 0 <= i < b.len() ==> bucket_fits(#[trigger] b[i], n, p)
}

fn copy_key(k: &ScalarKey) -> (r: ScalarKey)
    ensures
        r@ == k@,
{
    match k {
        ScalarKey::Null => ScalarKey::Null,
        ScalarKey::Bool(b) => ScalarKey::Bool(*b),
        ScalarKey::Int(i) => ScalarKey::Int(*i),
        ScalarKey::Float(x) => ScalarKey::Float(*x),
        ScalarKey::Str(s) => ScalarKey::Str(s.clone()),
    }
}

fn new_bucket(ops: &Vec<ReducerOp>, keys: Vec<ScalarKey>, labels: Vec<Value>) -> (b: Bucket)
    ensures
        b@ == empty_bucket(ops@, key_views(keys@), seen(labels@)),
{
    let mut states: Vec<ReducerState> = Vec::new();
    let mut i: usize = 0;
    while i < ops.len()
        invariant
            i <= ops@.len(),
            states@ =~= Seq::new(i as nat, |k: int| fresh_state()),
        decreases ops@.len() - i,
    {
        states.push(ReducerState::new());
        i += 1;
    }
    let b = Bucket { keys, labels, states, members: Vec::new() };
    assert(b@.members =~= Seq::empty());
    b
}

/// Adds a row to a group.
fn absorb<N: Numbers>(c: &Ctx<N>, ops: &Vec<ReducerOp>, b: Bucket, r: &Keyed) -> (out: Bucket)
    requires
        c.wf(),
        b.states@.len() == ops@.len(),
        r.inputs@.len() == ops@.len(),
    ensures
        out@ == absorbed(c@, ops@, b@, r@),
{
    let mut states: Vec<ReducerState> = Vec::new();
    let ghost all = absorbed(c@, ops@, b@, r@).states;
    let mut i: usize = 0;
    while i < ops.len()
        invariant
            c.wf(),
            i <= ops@.len(),
            b.states@.len() == ops@.len(),
            r.inputs@.len() == ops@.len(),
            all == absorbed(c@, ops@, b@, r@).states,
            states@ =~= all.take(i as int),
        decreases ops@.len() - i,
    {
        assert(r@.inputs[i as int] == seen(r.inputs@[i as int]@));
        let s = b.states[i].consume_all(c, ops[i], &r.inputs[i]);
        states.push(s);
        i += 1;
    }
    assert(states@ =~= all);
    let mut members = b.members;
    let ghost start = members@;
    let mut j: usize = 0;
    while j < r.nodes.len()
        invariant
            j <= r.nodes@.len(),
            members@ =~= start + r.nodes@.take(j as int),
        decreases r.nodes@.len() - j,
    {
        members.push(r.nodes[j]);
        j += 1;
    }
    assert(members@ =~= start + r.nodes@);
    Bucket { keys: b.keys, labels: b.labels, states, members }
}

fn same_keys(a: &Vec<ScalarKey>, b: &Vec<ScalarKey>) -> (r: bool)
    ensures
        r == (key_views(a@) == key_views(b@)),
{
    if a.len() != b.len() {
        assert(key_views(a@).len() != key_views(b@).len());
        return false;
    }
    let mut i: usize = 0;
    while i < a.len()
        invariant
            a@.len() == b@.len(),
            i <= a@.len(),
            forall|k: int| 0 <= k < i ==> (#[trigger] a@[k])@ == b@[k]@,
        decreases a@.len() - i,
    {
        if !a[i].same(&b[i]) {
            assert(key_views(a@)[i as int] != key_views(b@)[i as int]);
            return false;
        }
        i += 1;
    }
    assert(key_views(a@) =~= key_views(b@));
    true
}

fn keys_less(a: &Vec<ScalarKey>, b: &Vec<ScalarKey>) -> (r: bool)
    ensures
        r == keys_before(key_views(a@), key_views(b@), 0),
{
    let ghost x = key_views(a@);
    let ghost y = key_views(b@);
    let mut i: usize = 0;
    while i < a.len() && i < b.len()
        invariant
            i <= a@.len(),
            i <= b@.len(),
            x == key_views(a@),
            y == key_views(b@),
            keys_before(x, y, 0) == keys_before(x, y, i as int),
        decreases a@.len() - i,
    {
        if !a[i].same(&b[i]) {
            return a[i].comes_before(&b[i]);
        }
        i += 1;
    }
    false
}

/// Puts a row into the group of its keys.
#[verifier::spinoff_prover]
fn put<N: Numbers>(
    c: &Ctx<N>,
    ops: &Vec<ReducerOp>,
    buckets: Vec<Bucket>,
    keys: Vec<ScalarKey>,
    labels: Vec<Value>,
    r: &Keyed,
) -> (out: Vec<Bucket>)
    requires
        c.wf(),
        buckets_fit(bucket_views(buckets@), ops@.len(), keys@.len()),
        labels@.len() == keys@.len(),
        r.inputs@.len() == ops@.len(),
    ensures
        bucket_views(out@) == put_row(
            c@,
            ops@,
            bucket_views(buckets@),
            key_views(keys@),
            seen(labels@),
            r@,
        ),
        buckets_fit(bucket_views(out@), ops@.len(), keys@.len()),
{
    let ghost all = bucket_views(buckets@);
    let ghost kv = key_views(keys@);
    let ghost lv = seen(labels@);
    let mut kept = buckets;
    let mut p: usize = kept.len();
    proof {
        assert(all.take(p as int) =~= all);
        assert(all.subrange(p as int, all.len() as int) =~= Seq::empty());
        assert(put_row(c@, ops@, all, kv, lv, r@) + Seq::<BucketV>::empty() =~= put_row(
            c@,
            ops@,
            all,
            kv,
            lv,
            r@,
        ));
    }
    while p > 0
        invariant
            c.wf(),
            all == bucket_views(buckets@),
            all == bucket_views(kept@),
            buckets_fit(all, ops@.len(), keys@.len()),
            kv == key_views(keys@),
            lv == seen(labels@),
            labels@.len() == keys@.len(),
            r.inputs@.len() == ops@.len(),
            p <= kept@.len(),
            put_row(c@, ops@, all, kv, lv, r@) == put_row(c@, ops@, all.take(p as int), kv, lv, r@)
                + all.subrange(p as int, all.len() as int),
        ensures
            c.wf(),
            all == bucket_views(kept@),
            p <= kept@.len(),
            put_row(c@, ops@, all, kv, lv, r@) == all.take(p as int).push(
                absorbed(c@, ops@, empty_bucket(ops@, kv, lv), r@),
            ) + all.subrange(p as int, all.len() as int),
        decreases p,
    {
        let ghost t = all.take(p as int);
        proof {
            assert(t.last() == all[p - 1]);
            assert(all[p - 1] == kept@[p - 1]@);
            assert(t.drop_last() =~= all.take(p - 1));
        }
        if same_keys(&kept[p - 1].keys, &keys) {
            assert(put_row(c@, ops@, t, kv, lv, r@) == t.drop_last().push(
                absorbed(c@, ops@, t.last(), r@),
            ));
            let b = kept.remove(p - 1);
            let grown = absorb(c, ops, b, r);
            kept.insert(p - 1, grown);
            proof {
                assert(bucket_views(kept@) =~= all.take(p - 1).push(
                    absorbed(c@, ops@, all[p - 1], r@),
                ) + all.subrange(p as int, all.len() as int));
                assert forall|i: int| 0 <= i < bucket_views(kept@).len() implies bucket_fits(
                    #[trigger] bucket_views(kept@)[i],
                    ops@.len(),
                    keys@.len(),
                ) by {
                    assert(bucket_fits(all[i], ops@.len(), keys@.len()));
                }
            }
            return kept;
        }
        if keys_less(&kept[p - 1].keys, &keys) {
            break;
        }
        proof {
            let rest = put_row(c@, ops@, all.take(p - 1), kv, lv, r@);
            assert(rest.push(all[p - 1]) + all.subrange(p as int, all.len() as int) =~= rest
                + all.subrange(p - 1, all.len() as int));
        }
        p -= 1;
        proof {
            if p == 0 {
                assert(all.take(0) =~= Seq::empty());
                assert(seq![absorbed(c@, ops@, empty_bucket(ops@, kv, lv), r@)]
                    =~= all.take(0).push(absorbed(c@, ops@, empty_bucket(ops@, kv, lv), r@)));
            }
        }
    }
    let fresh = absorb(c, ops, new_bucket(ops, keys, labels), r);
    let ghost added = fresh@;
    kept.insert(p, fresh);
    proof {
        assert(bucket_views(kept@) =~= all.take(p as int).push(added) + all.subrange(
            p as int,
            all.len() as int,
        ));
        assert forall|i: int| 0 <= i < bucket_views(kept@).len() implies bucket_fits(
            #[trigger] bucket_views(kept@)[i],
            ops@.len(),
            kv.len(),
        ) by {
            if i < p {
                assert(bucket_fits(all[i], ops@.len(), kv.len()));
            } else if i > p {
                assert(bucket_fits(all[i - 1], ops@.len(), kv.len()));
            }
        }
    }
    kept
}

/// The first `p` keys of a row, with their values.
fn prefix(k: &Vec<Option<(ScalarKey, Value)>>, p: usize) -> (r: Option<
    (Vec<ScalarKey>, Vec<Value>),
>)
    requires
        p <= k@.len(),
    ensures
        match keys_to(pair_views(k@), p as nat) {
            Some(x) => r matches Some(y) && key_views(y.0@) == x.0 && seen(y.1@) == x.1
                && y.0@.len() == p && y.1@.len() == p,
            None => r is None,
        },
{
    let ghost all = pair_views(k@);
    let mut keys: Vec<ScalarKey> = Vec::new();
    let mut labels: Vec<Value> = Vec::new();
    let mut i: usize = 0;
    proof {
        assert(key_views(keys@) =~= Seq::empty());
        assert(seen(labels@) =~= Seq::empty());
    }
    while i < p
        invariant
            i <= p <= k@.len(),
            all == pair_views(k@),
            keys@.len() == i,
            labels@.len() == i,
            keys_to(all, i as nat) == Some((key_views(keys@), seen(labels@))),
        decreases p - i,
    {
        let ghost before = key_views(keys@);
        assert(all[i as int] == pair_view(k@[i as int]));
        match &k[i] {
            Some(x) => {
                keys.push(copy_key(&x.0));
                push_value(&mut labels, x.1.copy());
                assert(seen(labels@).len() == labels@.len());
                assert(key_views(keys@) =~= before.push(x.0@));
            },
            None => {
                proof {
                    no_keys_after(all, (i + 1) as nat, p as nat);
                }
                return None;
            },
        }
        i += 1;
    }
    Some((keys, labels))
}

/// Without a key among the first `i`, there are no first `p` keys.
proof fn no_keys_after(k: Seq<Option<(ScalarKeyV, ValueV)>>, i: nat, p: nat)
    requires
        keys_to(k, i) is None,
        i <= p,
    ensures
        keys_to(k, p) is None,
    decreases p,
{
    if i < p {
        no_keys_after(k, i, (p - 1) as nat);
    }
}

/// The groups of these rows by their first `p` keys.
#[verifier::spinoff_prover]
pub fn group_rows<N: Numbers>(
    c: &Ctx<N>,
    ops: &Vec<ReducerOp>,
    rows: &Vec<Keyed>,
    p: usize,
) -> (out: Vec<Bucket>)
    requires
        c.wf(),
        all_fit(keyed_views(rows@), ops@.len(), p as nat),
    ensures
        bucket_views(out@) == grouped(c@, ops@, keyed_views(rows@), p as nat),
        buckets_fit(bucket_views(out@), ops@.len(), p as nat),
{
    let ghost all = keyed_views(rows@);
    let mut out: Vec<Bucket> = Vec::new();
    if p == 0 {
        let none: Vec<ScalarKey> = Vec::new();
        let bare: Vec<Value> = Vec::new();
        proof {
            assert(key_views(none@) =~= Seq::empty());
            assert(seen(bare@) =~= Seq::empty());
        }
        out.push(new_bucket(ops, none, bare));
    }
    proof {
        assert(all.take(0) =~= Seq::empty());
        assert(bucket_views(out@) =~= grouped(c@, ops@, all.take(0), p as nat));
    }
    let mut i: usize = 0;
    while i < rows.len()
        invariant
            c.wf(),
            i <= rows@.len(),
            all == keyed_views(rows@),
            all_fit(all, ops@.len(), p as nat),
            bucket_views(out@) == grouped(c@, ops@, all.take(i as int), p as nat),
            buckets_fit(bucket_views(out@), ops@.len(), p as nat),
        decreases rows@.len() - i,
    {
        proof {
            let next = all.take(i + 1);
            assert(next.drop_last() =~= all.take(i as int));
            assert(next.last() == all[i as int]);
            assert(all[i as int] == rows@[i as int]@);
            assert(fits(all[i as int], ops@.len(), p as nat));
        }
        if let Some((keys, labels)) = prefix(&rows[i].keys, p) {
            out = put(c, ops, out, keys, labels, &rows[i]);
        }
        i += 1;
    }
    assert(all.take(i as int) =~= all);
    out
}

/// The groups of each prefix of `p` keys, the longest first.
pub fn roll_up<N: Numbers>(
    c: &Ctx<N>,
    ops: &Vec<ReducerOp>,
    rows: &Vec<Keyed>,
    p: usize,
) -> (out: Vec<Bucket>)
    requires
        c.wf(),
        forall|q: nat| q <= p ==> #[trigger] all_fit(keyed_views(rows@), ops@.len(), q),
    ensures
        bucket_views(out@) == rolled_up(c@, ops@, keyed_views(rows@), p as nat),
        forall|i: int|
            0 <= i < out@.len() ==> (#[trigger] bucket_views(out@)[i]).states.len() == ops@.len(),
    decreases p,
{
    let mut out = group_rows(c, ops, rows, p);
    let ghost first = bucket_views(out@);
    if p > 0 {
        let mut rest = roll_up(c, ops, rows, p - 1);
        let ghost more = bucket_views(rest@);
        out.append(&mut rest);
        assert(bucket_views(out@) =~= first + more);
        proof {
            assert forall|i: int| 0 <= i < out@.len() implies (#[trigger] bucket_views(
                out@,
            )[i]).states.len() == ops@.len() by {
                if i < first.len() {
                    assert(bucket_fits(first[i], ops@.len(), p as nat));
                } else {
                    assert(bucket_views(out@)[i] == more[i - first.len()]);
                }
            }
        }
    } else {
        proof {
            assert forall|i: int| 0 <= i < out@.len() implies (#[trigger] bucket_views(
                out@,
            )[i]).states.len() == ops@.len() by {
                assert(bucket_fits(first[i], ops@.len(), p as nat));
            }
        }
    }
    out
}

/// Without keys all rows are one group.
pub proof fn one_group<N: Numbers>(c: &Ctx<N>, ops: Seq<ReducerOp>, rows: Seq<KeyedV>)
    ensures
        grouped(c@, ops, rows, 0).len() == 1,
        grouped(c@, ops, rows, 0)[0].keys == Seq::<ScalarKeyV>::empty(),
    decreases rows.len(),
{
    if rows.len() > 0 {
        one_group(c, ops, rows.drop_last());
        let b = grouped(c@, ops, rows.drop_last(), 0);
        assert(b.last() == b[0]);
        assert(keys_to(rows.last().keys, 0) == Some(
            (Seq::<ScalarKeyV>::empty(), Seq::<ValueV>::empty()),
        ));
    }
}

/// The text of a group key.
pub fn write_key<N: Numbers>(c: &Ctx<N>, k: &ScalarKey) -> (s: String)
    requires
        c.wf(),
    ensures
        s@ == key_text(c@, k@),
{
    match k {
        ScalarKey::Null => "null".to_owned(),
        ScalarKey::Bool(b) => {
            if *b {
                "true".to_owned()
            } else {
                "false".to_owned()
            }
        },
        ScalarKey::Int(i) => {
            let mut out = String::new();
            push_int(&mut out, *i);
            assert(out@ =~= super::super::canonical::int_text(*i as int));
            out
        },
        ScalarKey::Float(x) => c.num.write(*x),
        ScalarKey::Str(s) => s.clone(),
    }
}

fn copy_nodes(v: &Vec<u32>) -> (out: Vec<u32>)
    ensures
        out@ == v@,
{
    let mut out: Vec<u32> = Vec::new();
    let mut i: usize = 0;
    while i < v.len()
        invariant
            i <= v@.len(),
            out@ =~= v@.take(i as int),
        decreases v@.len() - i,
    {
        out.push(v[i]);
        i += 1;
    }
    assert(out@ =~= v@);
    out
}

/// The values of groups: one reduction each, or the nodes in them.
pub fn group_values<N: Numbers>(c: &Ctx<N>, op: Option<ReducerOp>, b: &Vec<Bucket>) -> (out: Vec<
    Value,
>)
    requires
        c.wf(),
        buckets_fit(
            bucket_views(b@),
            if op is Some {
                1
            } else {
                0
            },
            1,
        ),
    ensures
        seen(out@) == match op {
            Some(o) => group_sums(c@, o, bucket_views(b@)),
            None => group_lists(c@, bucket_views(b@)),
        },
{
    let ghost all = match op {
        Some(o) => group_sums(c@, o, bucket_views(b@)),
        None => group_lists(c@, bucket_views(b@)),
    };
    let mut out: Vec<Value> = Vec::new();
    let mut i: usize = 0;
    while i < b.len()
        invariant
            c.wf(),
            i <= b@.len(),
            buckets_fit(
                bucket_views(b@),
                if op is Some {
                    1
                } else {
                    0
                },
                1,
            ),
            all == match op {
                Some(o) => group_sums(c@, o, bucket_views(b@)),
                None => group_lists(c@, bucket_views(b@)),
            },
            seen(out@) =~= all.take(i as int),
        decreases b@.len() - i,
    {
        proof {
            assert(bucket_views(b@)[i as int] == b@[i as int]@);
            assert(bucket_fits(
                bucket_views(b@)[i as int],
                if op is Some {
                    1
                } else {
                    0
                },
                1,
            ));
        }
        let key = write_key(c, &b[i].keys[0]);
        let value = match op {
            Some(o) => {
                let n = b[i].states[0].finalize_optional(c, o);
                Value::Group { key, n }
            },
            None => Value::GroupList { key, members: copy_nodes(&b[i].members) },
        };
        push_value(&mut out, value);
        i += 1;
    }
    assert(seen(out@) =~= all);
    out
}

/// The finished reductions of a group.
pub fn finalize_slots<N: Numbers>(c: &Ctx<N>, ops: &Vec<ReducerOp>, b: &Bucket) -> (out: Vec<
    Option<u64>,
>)
    requires
        c.wf(),
        b.states@.len() == ops@.len(),
    ensures
        out@ == slots_of(c@, ops@, b@),
{
    let ghost all = slots_of(c@, ops@, b@);
    let mut out: Vec<Option<u64>> = Vec::new();
    let mut i: usize = 0;
    while i < ops.len()
        invariant
            c.wf(),
            i <= ops@.len(),
            b.states@.len() == ops@.len(),
            all == slots_of(c@, ops@, b@),
            out@ =~= all.take(i as int),
        decreases ops@.len() - i,
    {
        out.push(b.states[i].finalize_optional(c, ops[i]));
        i += 1;
    }
    assert(out@ =~= all);
    out
}

fn kind_rank(s: &Scalar) -> (n: u8)
    ensures
        n == scalar_kind(s@),
{
    match s {
        Scalar::Null => 0,
        Scalar::Bool(_) => 1,
        Scalar::Number(_) => 2,
        Scalar::Str(_) => 3,
        Scalar::Container(_) => 4,
    }
}

/// How two sort keys stand to each other.
fn rank_scalars(a: &Scalar, b: &Scalar) -> (r: Rank)
    ensures
        r == sort_rank(a@, b@),
{
    match a.compare(b) {
        Some(r) => r,
        None => {
            if kind_rank(a) < kind_rank(b) {
                Rank::Less
            } else if kind_rank(a) > kind_rank(b) {
                Rank::Greater
            } else {
                Rank::Equal
            }
        },
    }
}

pub open spec fn scalar_views(v: Seq<Scalar>) -> Seq<ScalarV> {
    Seq::new(v.len(), |i: int| v[i]@)
}

pub open spec fn table_views(v: Seq<Vec<Scalar>>) -> Seq<Seq<ScalarV>> {
    Seq::new(v.len(), |i: int| scalar_views(v[i]@))
}

/// Whether a row sorts before another.
fn row_less(x: &Vec<Scalar>, y: &Vec<Scalar>, dirs: &Vec<SortDir>) -> (r: bool)
    requires
        x@.len() == dirs@.len(),
        y@.len() == dirs@.len(),
    ensures
        r == sorts_before(scalar_views(x@), scalar_views(y@), dirs@, 0),
{
    let ghost a = scalar_views(x@);
    let ghost b = scalar_views(y@);
    let mut i: usize = 0;
    while i < dirs.len()
        invariant
            x@.len() == dirs@.len(),
            y@.len() == dirs@.len(),
            a == scalar_views(x@),
            b == scalar_views(y@),
            i <= dirs@.len(),
            sorts_before(a, b, dirs@, 0) == sorts_before(a, b, dirs@, i as int),
        decreases dirs@.len() - i,
    {
        match rank_scalars(&x[i], &y[i]) {
            Rank::Less => {
                return dirs[i] == SortDir::Asc;
            },
            Rank::Greater => {
                return dirs[i] == SortDir::Desc;
            },
            Rank::Equal => {},
        }
        i += 1;
    }
    false
}

pub open spec fn places(v: Seq<usize>) -> Seq<int> {
    Seq::new(v.len(), |i: int| v[i] as int)
}

/// The rows in the order of their keys.
#[verifier::spinoff_prover]
fn sort_places(keys: &Vec<Vec<Scalar>>, dirs: &Vec<SortDir>) -> (out: Vec<usize>)
    requires
        forall|i: int| 0 <= i < keys@.len() ==> (#[trigger] keys@[i])@.len() == dirs@.len(),
    ensures
        places(out@) == sorted_order(table_views(keys@), dirs@, keys@.len()),
        forall|i: int| 0 <= i < out@.len() ==> #[trigger] out@[i] < keys@.len(),
        out@.len() == keys@.len(),
{
    let ghost t = table_views(keys@);
    let mut out: Vec<usize> = Vec::new();
    let mut i: usize = 0;
    assert(places(out@) =~= Seq::empty());
    while i < keys.len()
        invariant
            forall|k: int| 0 <= k < keys@.len() ==> (#[trigger] keys@[k])@.len() == dirs@.len(),
            t == table_views(keys@),
            i <= keys@.len(),
            out@.len() == i,
            places(out@) == sorted_order(t, dirs@, i as nat),
            forall|k: int| 0 <= k < out@.len() ==> #[trigger] out@[k] < keys@.len(),
        decreases keys@.len() - i,
    {
        let ghost all = places(out@);
        let mut p: usize = out.len();
        proof {
            assert(all.take(p as int) =~= all);
            assert(all.subrange(p as int, all.len() as int) =~= Seq::empty());
            assert(put_sorted(all, t, dirs@, i as int) + Seq::<int>::empty() =~= put_sorted(
                all,
                t,
                dirs@,
                i as int,
            ));
        }
        while p > 0 && row_less(&keys[i], &keys[out[p - 1]], dirs)
            invariant
                forall|k: int| 0 <= k < keys@.len() ==> (#[trigger] keys@[k])@.len() == dirs@.len(),
                t == table_views(keys@),
                i < keys@.len(),
                all == places(out@),
                p <= out@.len(),
                forall|k: int| 0 <= k < out@.len() ==> #[trigger] out@[k] < keys@.len(),
                put_sorted(all, t, dirs@, i as int) == put_sorted(
                    all.take(p as int),
                    t,
                    dirs@,
                    i as int,
                ) + all.subrange(p as int, all.len() as int),
            decreases p,
        {
            proof {
                let s = all.take(p as int);
                assert(s.last() == all[p - 1]);
                assert(s.drop_last() =~= all.take(p - 1));
                let rest = put_sorted(all.take(p - 1), t, dirs@, i as int);
                assert(rest.push(all[p - 1]) + all.subrange(p as int, all.len() as int) =~= rest
                    + all.subrange(p - 1, all.len() as int));
            }
            p -= 1;
        }
        proof {
            let s = all.take(p as int);
            if p > 0 {
                assert(s.last() == all[p - 1]);
            } else {
                assert(s =~= Seq::empty());
                assert(seq![i as int] =~= s.push(i as int));
            }
        }
        let ghost before = out@;
        out.insert(p, i);
        proof {
            assert(places(out@) =~= all.take(p as int).push(i as int) + all.subrange(
                p as int,
                all.len() as int,
            ));
            assert forall|k: int| 0 <= k < out@.len() implies #[trigger] out@[k]
                < keys@.len() by {
                if k < p {
                    assert(out@[k] == before[k]);
                } else if k > p {
                    assert(out@[k] == before[k - 1]);
                }
            }
        }
        i += 1;
    }
    out
}

/// The most rows of a sorted stream that are wanted.
pub fn effective_topk<N: Numbers>(c: &Ctx<N>, limit: Option<u64>) -> (r: Option<u64>)
    ensures
        top(
            c@,
            match limit {
                Some(n) => Some(n as nat),
                None => None,
            },
        ) == match r {
            Some(n) => Some(n as nat),
            None => None,
        },
{
    match (c.cap, limit) {
        (None, l) => l,
        (Some(k), None) => Some(k as u64),
        (Some(k), Some(l)) => {
            if l < k as u64 {
                Some(l)
            } else {
                Some(k as u64)
            }
        },
    }
}

/// Rows in the order of their keys, as many as are wanted.
pub fn emit_sorted<N: Numbers>(
    c: &Ctx<N>,
    keys: &Vec<Vec<Scalar>>,
    dirs: &Vec<SortDir>,
    limit: Option<u64>,
    env: &Env,
    rows: &Vec<Row>,
) -> (s: Stream)
    requires
        keys@.len() == rows@.len(),
        forall|i: int| 0 <= i < keys@.len() ==> (#[trigger] keys@[i])@.len() == dirs@.len(),
    ensures
        s@ == in_order(
            c@,
            table_views(keys@),
            dirs@,
            match limit {
                Some(n) => Some(n as nat),
                None => None,
            },
            env@,
            row_views(rows@),
        ),
{
    let mut order = sort_places(keys, dirs);
    let ghost all = sorted_order(table_views(keys@), dirs@, keys@.len());
    let ghost whole = order@;
    if let Some(k) = effective_topk(c, limit) {
        if k < order.len() as u64 {
            order.truncate(k as usize);
            assert(places(order@) =~= all.take(k as int));
        }
    }
    let ghost wanted = places(order@);
    assert(forall|i: int| 0 <= i < order@.len() ==> #[trigger] order@[i] == whole[i]);
    let ghost values = Seq::new(wanted.len(), |i: int| row_views(rows@)[wanted[i]].value);
    let mut out: Vec<Value> = Vec::new();
    let mut i: usize = 0;
    while i < order.len()
        invariant
            i <= order@.len(),
            wanted == places(order@),
            forall|k: int| 0 <= k < order@.len() ==> #[trigger] order@[k] < rows@.len(),
            values == Seq::new(wanted.len(), |i: int| row_views(rows@)[wanted[i]].value),
            seen(out@) =~= values.take(i as int),
        decreases order@.len() - i,
    {
        let v = rows[order[i]].value.copy();
        assert(v@ == values[i as int]);
        push_value(&mut out, v);
        i += 1;
    }
    assert(seen(out@) =~= values);
    Stream::all_of(env, out)
}

} // verus!
