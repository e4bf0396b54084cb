//! What a query tree gives on a row.
//!
//! A stage turns a row into a stream: rows, then the end or an error. A row
//! is a value with the names bound so far.
use vstd::prelude::*;

use super::super::ast::{AggReductionV, AstV, BinaryOp, ReducerOp, SortDir};
use super::super::index::{key_before, ForeignKeyIndex, IndexName, IndexRegistry, ScalarKeyV};
use super::super::number::{finite, num_lt, whole_of, zero, NumOp, Nums};
use super::super::order::{Rank};
use super::super::value::{number_of, scalar, scalars_equal, scalars_rank, truthy, ScalarV, ValueV};
use super::fingerprint::{group_key_text, print_of};
use super::scan::{child_values, descendants, element, member, members_below, subtree_stop};
use crate::document::{Document, NodeKind};
use crate::sidecar::utf8_of;

verus! {

/// A `lookup` without its index.
pub struct Missing {
    pub source: Seq<char>,
    pub key: Seq<char>,
}

/// The names bound on the way to a row, and the reductions of the group that
/// is being written.
pub struct EnvV {
    pub binds: Seq<(Seq<char>, ValueV)>,
    pub slots: Seq<Option<u64>>,
}

impl EnvV {
    pub open spec fn bind(self, name: Seq<char>, v: ValueV) -> EnvV {
        EnvV { binds: self.binds.push((name, v)), slots: self.slots }
    }

    /// The latest value of a name.
    pub open spec fn get(self, name: Seq<char>) -> Option<ValueV> {
        latest(self.binds, name)
    }

    pub open spec fn slot(self, i: int) -> Option<u64> {
        if 0 <= i < self.slots.len() {
            self.slots[i]
        } else {
            None
        }
    }
}

pub open spec fn latest(b: Seq<(Seq<char>, ValueV)>, name: Seq<char>) -> Option<ValueV>
    decreases b.len(),
{
    if b.len() == 0 {
        None
    } else if b.last().0 == name {
        Some(b.last().1)
    } else {
        latest(b.drop_last(), name)
    }
}

pub struct RowV {
    pub env: EnvV,
    pub value: ValueV,
}

pub struct StreamV {
    pub rows: Seq<RowV>,
    pub err: Option<Missing>,
}

/// What an evaluation runs on. `cap` is the most rows the caller takes.
pub struct CtxV {
    pub doc: Document,
    pub n: Nums,
    pub indexes: IndexRegistry,
    pub root: u32,
    pub cap: Option<nat>,
}

pub open spec fn one(env: EnvV, v: ValueV) -> StreamV {
    StreamV { rows: seq![RowV { env, value: v }], err: None }
}

pub open spec fn no_rows() -> StreamV {
    StreamV { rows: Seq::empty(), err: None }
}

pub open spec fn broken(e: Missing) -> StreamV {
    StreamV { rows: Seq::empty(), err: Some(e) }
}

/// Rows of these values, with the same names bound.
pub open spec fn all_of(env: EnvV, v: Seq<ValueV>) -> StreamV {
    StreamV { rows: Seq::new(v.len(), |i: int| RowV { env, value: v[i] }), err: None }
}

pub open spec fn opt_row(env: EnvV, o: Option<ValueV>) -> StreamV {
    match o {
        Some(v) => one(env, v),
        None => no_rows(),
    }
}

pub open spec fn values_of(rows: Seq<RowV>) -> Seq<ValueV> {
    Seq::new(rows.len(), |i: int| rows[i].value)
}

/// The first value of a stream.
pub open spec fn first(s: StreamV) -> Result<Option<ValueV>, Missing> {
    if s.rows.len() > 0 {
        Ok(Some(s.rows[0].value))
    } else {
        match s.err {
            Some(e) => Err(e),
            None => Ok(None),
        }
    }
}

/// Some value of a stream is truthy.
pub open spec fn any_true(doc: Document, s: StreamV) -> Result<bool, Missing> {
    if has_true(doc, s.rows) {
        Ok(true)
    } else {
        match s.err {
            Some(e) => Err(e),
            None => Ok(false),
        }
    }
}

pub open spec fn has_true(doc: Document, rows: Seq<RowV>) -> bool {
    exists|i: int| 0 <= i < rows.len() && truthy(doc, (#[trigger] rows[i]).value)
}

pub open spec fn or_null(o: Option<ValueV>) -> ValueV {
    match o {
        Some(v) => v,
        None => ValueV::Null,
    }
}

pub open spec fn flag(env: EnvV, r: Result<bool, Missing>) -> StreamV {
    match r {
        Ok(b) => one(env, ValueV::Bool(b)),
        Err(e) => broken(e),
    }
}

/// The member called `name` of a value.
pub open spec fn field_of(c: CtxV, name: Seq<char>, v: ValueV) -> Option<ValueV> {
    match v {
        ValueV::Object(fields) => named(fields, name, 0),
        ValueV::BucketRow(fields) => named(fields, name, 0),
        ValueV::Node(id) => if c.doc.kind_of(id) == NodeKind::Object {
            member(c.doc, c.n, id, utf8_of(name))
        } else {
            None
        },
        _ => None,
    }
}

pub open spec fn named(fields: Seq<(Seq<char>, ValueV)>, name: Seq<char>, i: int) -> Option<ValueV>
    decreases fields.len() - i,
{
    if !(0 <= i < fields.len()) {
        None
    } else if fields[i].0 == name {
        Some(fields[i].1)
    } else {
        named(fields, name, i + 1)
    }
}

/// Element `i` of a value; a negative index counts from the end.
pub open spec fn element_of(c: CtxV, i: i64, v: ValueV) -> Option<ValueV> {
    match v {
        ValueV::Node(id) => if c.doc.kind_of(id) == NodeKind::Array {
            let count = match c.doc.rec(id) {
                Some(r) => r.child_count as int,
                None => 0,
            };
            let at = if i < 0 {
                count + i
            } else {
                i as int
            };
            if 0 <= at < count {
                element(c.doc, c.n, id, at)
            } else {
                None
            }
        } else {
            None
        },
        _ => None,
    }
}

pub open spec fn is_container_node(c: CtxV, v: ValueV) -> bool {
    v matches ValueV::Node(id) && (c.doc.kind_of(id) == NodeKind::Array || c.doc.kind_of(id)
        == NodeKind::Object)
}

/// The children of a value.
pub open spec fn kids_of(c: CtxV, v: ValueV) -> Seq<ValueV> {
    match v {
        ValueV::Node(id) => if is_container_node(c, v) {
            child_values(c.doc, c.n, id)
        } else {
            Seq::empty()
        },
        _ => Seq::empty(),
    }
}

pub open spec fn below_of(c: CtxV, v: ValueV) -> Seq<ValueV> {
    match v {
        ValueV::Node(id) => descendants(c.doc, c.n, id),
        _ => seq![v],
    }
}

pub open spec fn fields_below(c: CtxV, name: Seq<char>, v: ValueV) -> Seq<ValueV> {
    match v {
        ValueV::Node(id) => members_below(
            c.doc,
            c.n,
            utf8_of(name),
            id as int,
            subtree_stop(c.doc, id),
        ),
        _ => Seq::empty(),
    }
}

/// An operation on two numbers; null where one is missing or the result is
/// not finite, and for a division by zero.
pub open spec fn computed(c: CtxV, op: NumOp, a: Option<u64>, b: Option<u64>) -> ValueV {
    match (a, b) {
        (Some(x), Some(y)) => if op == NumOp::Div && zero(y) {
            ValueV::Null
        } else if finite((c.n.apply)(op, x, y)) {
            ValueV::Number((c.n.apply)(op, x, y))
        } else {
            ValueV::Null
        },
        _ => ValueV::Null,
    }
}

pub open spec fn binary_num(op: BinaryOp) -> NumOp {
    match op {
        BinaryOp::Add => NumOp::Add,
        BinaryOp::Sub => NumOp::Sub,
        BinaryOp::Mul => NumOp::Mul,
        BinaryOp::Div => NumOp::Div,
    }
}

pub open spec fn number_opt(c: CtxV, o: Option<ValueV>) -> Option<u64> {
    match o {
        Some(v) => number_of(c.doc, c.n, v),
        None => None,
    }
}

/// The key of a value in an index or a group.
pub open spec fn key_of(doc: Document, n: Nums, v: ValueV) -> Option<ScalarKeyV> {
    match scalar(doc, n, v) {
        ScalarV::Null => Some(ScalarKeyV::Null),
        ScalarV::Bool(b) => Some(ScalarKeyV::Bool(b)),
        ScalarV::Number(x) => Some(
            match whole_of(x) {
                Some(i) => ScalarKeyV::Int(i as i64),
                None => ScalarKeyV::Float(x),
            },
        ),
        ScalarV::Str(s) => Some(ScalarKeyV::Str(s)),
        ScalarV::Container(_) => None,
    }
}

/// The nodes under a value's key in an index.
pub open spec fn nodes_under(
    c: CtxV,
    x: ForeignKeyIndex,
    v: ValueV,
) -> Seq<ValueV> {
    match key_of(c.doc, c.n, v) {
        Some(k) => match x.rows(k) {
            Some(ids) => Seq::new(ids.len(), |i: int| ValueV::Node(ids[i])),
            None => Seq::empty(),
        },
        None => Seq::empty(),
    }
}

/// The index of a name.
pub open spec fn index_named(
    r: IndexRegistry,
    name: IndexName,
) -> ForeignKeyIndex {
    choose|x: ForeignKeyIndex| r.holds(name, x)
}

pub open spec fn lookup_rows(
    c: CtxV,
    source: Seq<char>,
    key: Seq<char>,
    env: EnvV,
    v: ValueV,
) -> StreamV {
    let name = IndexName { source, key };
    if c.indexes.has(name) {
        all_of(env, nodes_under(c, index_named(c.indexes, name), v))
    } else {
        broken(Missing { source, key })
    }
}

/// Parts of a group key, joined by the unit separator.
pub open spec fn joined_key(c: CtxV, parts: Seq<Option<ValueV>>) -> Seq<char>
    decreases parts.len(),
{
    if parts.len() == 0 {
        Seq::empty()
    } else {
        joined_key(c, parts.drop_last()) + (if parts.len() > 1 {
            "\u{1f}"@
        } else {
            Seq::empty()
        }) + (match parts.last() {
            Some(v) => group_key_text(c.doc, c.n, v),
            None => Seq::empty(),
        })
    }
}

/// An object of these names and values; a missing value is null.
pub open spec fn object_of(names: Seq<Seq<char>>, v: Seq<Option<ValueV>>) -> ValueV {
    ValueV::Object(Seq::new(names.len(), |i: int| (names[i], or_null(v[i]))))
}

pub open spec fn names_of(fields: Seq<(Seq<char>, AstV)>) -> Seq<Seq<char>> {
    Seq::new(fields.len(), |i: int| fields[i].0)
}

/// All of `fields` of the object equal `target`.
pub open spec fn fields_equal(
    c: CtxV,
    id: u32,
    fields: Seq<Seq<char>>,
    target: ValueV,
) -> bool {
    forall|i: int| 0 <= i < fields.len() ==> field_equals(c, id, #[trigger] fields[i], target)
}

pub open spec fn field_equals(c: CtxV, id: u32, name: Seq<char>, target: ValueV) -> bool {
    match member(c.doc, c.n, id, utf8_of(name)) {
        Some(v) => scalars_equal(scalar(c.doc, c.n, v), scalar(c.doc, c.n, target)),
        None => false,
    }
}

/// Each row once, by its value's fingerprint.
pub open spec fn distinct_rows(c: CtxV, rows: Seq<RowV>) -> Seq<RowV>
    decreases rows.len(),
{
    if rows.len() == 0 {
        Seq::empty()
    } else {
        let kept = distinct_rows(c, rows.drop_last());
        if printed(c, kept, rows.last().value) {
            kept
        } else {
            kept.push(rows.last())
        }
    }
}

/// A row of this fingerprint is among `rows`.
pub open spec fn printed(c: CtxV, rows: Seq<RowV>, v: ValueV) -> bool {
    exists|i: int|
        0 <= i < rows.len() && print_of(c.doc, c.n, (#[trigger] rows[i]).value) == print_of(
            c.doc,
            c.n,
            v,
        )
}

/// At most `n` rows; an error beyond them is not reached.
pub open spec fn limited(s: StreamV, n: nat) -> StreamV {
    if s.rows.len() > n {
        StreamV { rows: s.rows.take(n as int), err: None }
    } else {
        s
    }
}

/// The state of a reduction.
#[derive(Clone, Copy, Debug)]
pub struct ReducerState {
    pub sum: u64,
    pub count: u64,
    pub extreme: Option<u64>,
}

pub open spec fn fresh_state() -> ReducerState {
    ReducerState { sum: 0, count: 0, extreme: None }
}

pub open spec fn next_count(n: u64) -> u64 {
    if n < u64::MAX {
        (n + 1) as u64
    } else {
        n
    }
}

/// The number that a reduction makes of a value.
pub open spec fn reduced_number(c: CtxV, v: ValueV) -> Option<u64> {
    match v {
        ValueV::Bool(b) => Some((c.n.apply)(NumOp::OfInt, if b {
            1
        } else {
            0
        }, 0)),
        ValueV::GroupList { members, .. } => Some(
            (c.n.apply)(NumOp::OfInt, members.len() as u64, 0),
        ),
        _ => number_of(c.doc, c.n, v),
    }
}

pub open spec fn consumed(c: CtxV, op: ReducerOp, s: ReducerState, v: ValueV) -> ReducerState {
    if op == ReducerOp::Count {
        ReducerState { count: next_count(s.count), ..s }
    } else {
        match reduced_number(c, v) {
            Some(x) => ReducerState {
                sum: (c.n.apply)(NumOp::Add, s.sum, x),
                count: next_count(s.count),
                extreme: Some(
                    match s.extreme {
                        Some(cur) => if op == ReducerOp::Min && !num_lt(x, cur) {
                            cur
                        } else if op == ReducerOp::Max && !num_lt(cur, x) {
                            cur
                        } else {
                            x
                        },
                        None => x,
                    },
                ),
            },
            None => s,
        }
    }
}

pub open spec fn consumed_all(c: CtxV, op: ReducerOp, s: ReducerState, v: Seq<ValueV>) -> ReducerState
    decreases v.len(),
{
    if v.len() == 0 {
        s
    } else {
        consumed(c, op, consumed_all(c, op, s, v.drop_last()), v.last())
    }
}

/// The result of a reduction; `None` where it saw nothing.
pub open spec fn finished(c: CtxV, op: ReducerOp, s: ReducerState) -> Option<u64> {
    match op {
        ReducerOp::Sum => if s.count == 0 {
            None
        } else {
            Some(s.sum)
        },
        ReducerOp::Count => Some((c.n.apply)(NumOp::OfInt, s.count, 0)),
        ReducerOp::Avg => if s.count == 0 {
            None
        } else {
            Some((c.n.apply)(NumOp::Div, s.sum, (c.n.apply)(NumOp::OfInt, s.count, 0)))
        },
        _ => s.extreme,
    }
}

pub open spec fn opt_number(o: Option<u64>) -> ValueV {
    match o {
        Some(x) => ValueV::Number(x),
        None => ValueV::Null,
    }
}

/// A row on its way into a group: its keys, with the values that gave them,
/// what each reduction sees of it, and the nodes to collect.
pub struct KeyedV {
    pub keys: Seq<Option<(ScalarKeyV, ValueV)>>,
    pub inputs: Seq<Seq<ValueV>>,
    pub nodes: Seq<u32>,
}

/// One group: its keys, the values that first gave them, the state of its
/// reductions and the nodes in it.
pub struct BucketV {
    pub keys: Seq<ScalarKeyV>,
    pub labels: Seq<ValueV>,
    pub states: Seq<ReducerState>,
    pub members: Seq<u32>,
}

/// A group before its first row.
pub open spec fn empty_bucket(
    ops: Seq<ReducerOp>,
    keys: Seq<ScalarKeyV>,
    labels: Seq<ValueV>,
) -> BucketV {
    BucketV {
        keys,
        labels,
        states: Seq::new(ops.len(), |i: int| fresh_state()),
        members: Seq::empty(),
    }
}

/// A group with one more row.
pub open spec fn absorbed(c: CtxV, ops: Seq<ReducerOp>, b: BucketV, r: KeyedV) -> BucketV {
    BucketV {
        keys: b.keys,
        labels: b.labels,
        states: Seq::new(
            ops.len(),
            |i: int| consumed_all(c, ops[i], b.states[i], r.inputs[i]),
        ),
        members: b.members + r.nodes,
    }
}

/// Keys in order: by the first that differs.
pub open spec fn keys_before(a: Seq<ScalarKeyV>, b: Seq<ScalarKeyV>, i: int) -> bool
    decreases a.len() - i,
{
    if !(0 <= i < a.len() && i < b.len()) {
        false
    } else if a[i] == b[i] {
        keys_before(a, b, i + 1)
    } else {
        key_before(a[i], b[i])
    }
}

/// Puts a row into the group of its keys. Groups stand in the order of their
/// keys.
pub open spec fn put_row(
    c: CtxV,
    ops: Seq<ReducerOp>,
    b: Seq<BucketV>,
    keys: Seq<ScalarKeyV>,
    labels: Seq<ValueV>,
    r: KeyedV,
) -> Seq<BucketV>
    decreases b.len(),
{
    if b.len() == 0 {
        seq![absorbed(c, ops, empty_bucket(ops, keys, labels), r)]
    } else if b.last().keys == keys {
        b.drop_last().push(absorbed(c, ops, b.last(), r))
    } else if keys_before(b.last().keys, keys, 0) {
        b.push(absorbed(c, ops, empty_bucket(ops, keys, labels), r))
    } else {
        put_row(c, ops, b.drop_last(), keys, labels, r).push(b.last())
    }
}

/// The first `p` keys of a row; `None` where one is missing.
pub open spec fn keys_to(k: Seq<Option<(ScalarKeyV, ValueV)>>, p: nat) -> Option<
    (Seq<ScalarKeyV>, Seq<ValueV>),
>
    decreases p,
{
    if p == 0 {
        Some((Seq::empty(), Seq::empty()))
    } else {
        match keys_to(k, (p - 1) as nat) {
            Some(rest) => match k[p - 1] {
                Some(x) => Some((rest.0.push(x.0), rest.1.push(x.1))),
                None => None,
            },
            None => None,
        }
    }
}

/// The groups of these rows by their first `p` keys; a row without one of
/// them is dropped. Without keys all rows are one group.
pub open spec fn grouped(c: CtxV, ops: Seq<ReducerOp>, rows: Seq<KeyedV>, p: nat) -> Seq<BucketV>
    decreases rows.len(),
{
    if rows.len() == 0 {
        if p == 0 {
            seq![empty_bucket(ops, Seq::empty(), Seq::empty())]
        } else {
            Seq::empty()
        }
    } else {
        let b = grouped(c, ops, rows.drop_last(), p);
        match keys_to(rows.last().keys, p) {
            Some(k) => put_row(c, ops, b, k.0, k.1, rows.last()),
            None => b,
        }
    }
}

/// The text of a group key.
pub open spec fn key_text(c: CtxV, k: ScalarKeyV) -> Seq<char> {
    match k {
        ScalarKeyV::Null => "null"@,
        ScalarKeyV::Bool(b) => if b {
            "true"@
        } else {
            "false"@
        },
        ScalarKeyV::Int(i) => super::super::canonical::int_text(i as int),
        ScalarKeyV::Float(x) => (c.n.text)(x),
        ScalarKeyV::Str(s) => s,
    }
}

/// The nodes among these values.
pub open spec fn node_ids(v: Seq<ValueV>) -> Seq<u32>
    decreases v.len(),
{
    if v.len() == 0 {
        Seq::empty()
    } else {
        match v.last() {
            ValueV::Node(id) => node_ids(v.drop_last()).push(id),
            _ => node_ids(v.drop_last()),
        }
    }
}

/// Groups with the nodes in them.
pub open spec fn group_lists(c: CtxV, b: Seq<BucketV>) -> Seq<ValueV> {
    Seq::new(
        b.len(),
        |i: int| ValueV::GroupList { key: key_text(c, b[i].keys[0]), members: b[i].members },
    )
}

/// Groups with one reduction each.
pub open spec fn group_sums(c: CtxV, op: ReducerOp, b: Seq<BucketV>) -> Seq<ValueV> {
    Seq::new(
        b.len(),
        |i: int|
            ValueV::Group {
                key: key_text(c, b[i].keys[0]),
                n: finished(c, op, b[i].states[0]),
            },
    )
}

/// The reducer that a stage is.
pub open spec fn reducer_of(a: AstV) -> Option<ReducerOp> {
    match a {
        AstV::Sum => Some(ReducerOp::Sum),
        AstV::Min => Some(ReducerOp::Min),
        AstV::Max => Some(ReducerOp::Max),
        AstV::Avg => Some(ReducerOp::Avg),
        AstV::Count => Some(ReducerOp::Count),
        _ => None,
    }
}

pub open spec fn non_null(v: Seq<ValueV>) -> Seq<ValueV>
    decreases v.len(),
{
    if v.len() == 0 {
        Seq::empty()
    } else if v.last() is Null {
        non_null(v.drop_last())
    } else {
        non_null(v.drop_last()).push(v.last())
    }
}

/// The finished reductions of a group.
pub open spec fn slots_of(c: CtxV, ops: Seq<ReducerOp>, b: BucketV) -> Seq<Option<u64>> {
    Seq::new(ops.len(), |i: int| finished(c, ops[i], b.states[i]))
}

pub open spec fn ops_of(r: Seq<AggReductionV>) -> Seq<ReducerOp> {
    Seq::new(r.len(), |i: int| r[i].op)
}

/// The key columns of a group: rolled-up keys are null.
pub open spec fn key_columns(names: Seq<Seq<char>>, b: BucketV) -> Seq<(Seq<char>, ValueV)> {
    Seq::new(
        names.len(),
        |i: int|
            (
                names[i],
                if i < b.labels.len() {
                    b.labels[i]
                } else {
                    ValueV::Null
                },
            ),
    )
}

/// An output of an aggregate without groups, under its name.
pub open spec fn named_output(name: Seq<char>, v: ValueV) -> ValueV {
    match v {
        ValueV::Number(x) => ValueV::Group { key: name, n: Some(x) },
        ValueV::Null => ValueV::Group { key: name, n: None },
        _ => ValueV::NamedValue { name, value: Box::new(v) },
    }
}

/// The rank of a scalar's kind.
pub open spec fn scalar_kind(s: ScalarV) -> int {
    match s {
        ScalarV::Null => 0,
        ScalarV::Bool(_) => 1,
        ScalarV::Number(_) => 2,
        ScalarV::Str(_) => 3,
        ScalarV::Container(_) => 4,
    }
}

/// How two sort keys stand to each other; across kinds, by kind.
pub open spec fn sort_rank(a: ScalarV, b: ScalarV) -> Rank {
    match scalars_rank(a, b) {
        Some(r) => r,
        None => if scalar_kind(a) < scalar_kind(b) {
            Rank::Less
        } else if scalar_kind(a) > scalar_kind(b) {
            Rank::Greater
        } else {
            Rank::Equal
        },
    }
}

/// Row `x` sorts before row `y`, from key `i` on.
pub open spec fn sorts_before(
    x: Seq<ScalarV>,
    y: Seq<ScalarV>,
    dirs: Seq<SortDir>,
    i: int,
) -> bool
    decreases dirs.len() - i,
{
    if !(0 <= i < dirs.len()) {
        false
    } else {
        match sort_rank(x[i], y[i]) {
            Rank::Equal => sorts_before(x, y, dirs, i + 1),
            Rank::Less => dirs[i] == SortDir::Asc,
            Rank::Greater => dirs[i] == SortDir::Desc,
        }
    }
}

/// Puts row `i` behind all rows that do not sort after it.
pub open spec fn put_sorted(
    order: Seq<int>,
    keys: Seq<Seq<ScalarV>>,
    dirs: Seq<SortDir>,
    i: int,
) -> Seq<int>
    decreases order.len(),
{
    if order.len() == 0 {
        seq![i]
    } else if sorts_before(keys[i], keys[order.last()], dirs, 0) {
        put_sorted(order.drop_last(), keys, dirs, i).push(order.last())
    } else {
        order.push(i)
    }
}

/// The rows in the order of their keys; equal rows keep their order.
pub open spec fn sorted_order(keys: Seq<Seq<ScalarV>>, dirs: Seq<SortDir>, n: nat) -> Seq<int>
    decreases n,
{
    if n == 0 {
        Seq::empty()
    } else {
        put_sorted(sorted_order(keys, dirs, (n - 1) as nat), keys, dirs, n - 1)
    }
}

pub open spec fn scalars_of(c: CtxV, v: Seq<Option<ValueV>>) -> Seq<ScalarV> {
    Seq::new(v.len(), |i: int| scalar(c.doc, c.n, or_null(v[i])))
}

/// The most rows of a sorted stream that are wanted.
pub open spec fn top(c: CtxV, limit: Option<nat>) -> Option<nat> {
    match (c.cap, limit) {
        (None, l) => l,
        (k, None) => k,
        (Some(k), Some(l)) => Some(
            if l < k {
                l
            } else {
                k
            },
        ),
    }
}

/// The elements of a value, for `unnest`.
pub open spec fn elements_of(c: CtxV, o: Option<ValueV>) -> Seq<ValueV> {
    match o {
        Some(ValueV::Array(items)) => items,
        Some(ValueV::Node(id)) => if c.doc.kind_of(id) == NodeKind::Array {
            child_values(c.doc, c.n, id)
        } else {
            Seq::empty()
        },
        _ => Seq::empty(),
    }
}

/// A row for each value, bound to `alias`.
pub open spec fn bound_rows(
    env: EnvV,
    alias: Seq<char>,
    v: Seq<ValueV>,
    value: ValueV,
) -> Seq<RowV> {
    Seq::new(v.len(), |i: int| RowV { env: env.bind(alias, v[i]), value })
}

} // verus!
