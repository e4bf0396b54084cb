//! The steps of an evaluation that look at values already in hand.
use vstd::prelude::*;

use super::super::ast::{Ast, BinaryOp, CompareOp, JsonTypeKind};
use super::super::number::{NumOp, Numbers};
use super::super::value::{member_views, value_type, value_views, Scalar, Value, ValueV};
use super::compare::compare_values;
use super::fingerprint::{print_of, value_to_group_key, write_fingerprint};
use super::functions::{arg_views, opt_value_view};
use super::model::{
    below_of, binary_num, bound_rows, distinct_rows, element_of, elements_of, field_equals,
    field_of, fields_below, fields_equal, joined_key, kids_of, limited, named, names_of, object_of,
    or_null, printed, RowV, StreamV,
};
use super::scan::{
    descend_emit, descend_field_emit, push_value, scan_array_index, scan_iterate,
    scan_iterate_field, scan_object_field, seen,
};
use super::semantics::{
    comparisons, compared_with, followed, joined, kid_fields, literal, pulled_distinct,
    type_tests,
};
use super::stream::{err_view, push_row, row_views, Ctx, Env, EvalError, Row, Stream};
use crate::document::NodeKind;
use crate::sidecar::utf8;

verus! {

/// The member called `name` of a value.
pub fn field<N: Numbers>(c: &Ctx<N>, name: &str, v: &Value) -> (r: Option<Value>)
    requires
        c.wf(),
    ensures
        opt_value_view(r) == field_of(c@, name@, v@),
{
    match v {
        Value::Object(fields) => named_member(fields, name),
        Value::BucketRow(fields) => named_member(fields, name),
        Value::Node(id) => {
            if c.doc.node_kind(*id) == NodeKind::Object {
                scan_object_field(c.doc, c.num, *id, &utf8(name))
            } else {
                None
            }
        },
        _ => None,
    }
}

fn named_member(fields: &Vec<(String, Value)>, name: &str) -> (r: Option<Value>)
    ensures
        opt_value_view(r) == named(member_views(fields@), name@, 0),
{
    let ghost all = member_views(fields@);
    let mut i: usize = 0;
    while i < fields.len()
        invariant
            i <= fields@.len(),
            all == member_views(fields@),
            named(all, name@, 0) == named(all, name@, i as int),
        decreases fields@.len() - i,
    {
        assert(all[i as int] == (fields@[i as int].0@, fields@[i as int].1@));
        if *fields[i].0.as_str() == *name {
            return Some(fields[i].1.copy());
        }
        i += 1;
    }
    None
}

/// Element `i` of a value; a negative index counts from the end.
pub fn element<N: Numbers>(c: &Ctx<N>, i: i64, v: &Value) -> (r: Option<Value>)
    requires
        c.wf(),
    ensures
        opt_value_view(r) == element_of(c@, i, v@),
{
    match v {
        Value::Node(id) => {
            if c.doc.node_kind(*id) != NodeKind::Array {
                return None;
            }
            let count: i128 = match c.doc.record(*id) {
                Some(r) => r.child_count as i128,
                None => 0,
            };
            let at: i128 = if i < 0 {
                count + (i as i128)
            } else {
                i as i128
            };
            if 0 <= at && at < count {
                scan_array_index(c.doc, c.num, *id, at as u64)
            } else {
                None
            }
        },
        _ => None,
    }
}

/// The children of a value.
pub fn kids<N: Numbers>(c: &Ctx<N>, v: &Value) -> (out: Vec<Value>)
    requires
        c.wf(),
    ensures
        seen(out@) == kids_of(c@, v@),
{
    match v {
        Value::Node(id) => {
            let kind = c.doc.node_kind(*id);
            if kind == NodeKind::Array || kind == NodeKind::Object {
                return scan_iterate(c.doc, c.num, *id);
            }
        },
        _ => {},
    }
    no_values()
}

pub fn no_values() -> (out: Vec<Value>)
    ensures
        seen(out@) == Seq::<ValueV>::empty(),
{
    let out: Vec<Value> = Vec::new();
    assert(seen(out@) =~= Seq::empty());
    out
}

/// A value and everything below it.
pub fn below<N: Numbers>(c: &Ctx<N>, v: &Value) -> (out: Vec<Value>)
    requires
        c.wf(),
    ensures
        seen(out@) == below_of(c@, v@),
{
    match v {
        Value::Node(id) => descend_emit(c.doc, c.num, *id),
        _ => {
            let mut out = no_values();
            push_value(&mut out, v.copy());
            assert(seen(out@) =~= seq![v@]);
            out
        },
    }
}

pub fn below_fields<N: Numbers>(c: &Ctx<N>, name: &str, v: &Value) -> (out: Vec<Value>)
    requires
        c.wf(),
    ensures
        seen(out@) == fields_below(c@, name@, v@),
{
    match v {
        Value::Node(id) => descend_field_emit(c.doc, c.num, *id, &utf8(name)),
        _ => no_values(),
    }
}

/// The members called `name` of the children of a value.
pub fn fields_of_kids<N: Numbers>(c: &Ctx<N>, name: &str, v: &Value) -> (out: Vec<Value>)
    requires
        c.wf(),
    ensures
        seen(out@) == kid_fields(c@, name@, v@),
{
    match v {
        Value::Node(id) => {
            let kind = c.doc.node_kind(*id);
            if kind == NodeKind::Array || kind == NodeKind::Object {
                return scan_iterate_field(c.doc, c.num, *id, &utf8(name));
            }
        },
        _ => {},
    }
    no_values()
}

/// The value of a number as it is written.
pub fn number_literal<N: Numbers>(c: &Ctx<N>, text: &str) -> (v: Value)
    requires
        c.wf(),
    ensures
        v@ == literal(c@, text@),
{
    match c.num.parse(utf8(text).as_slice()) {
        Some(x) => Value::Number(x),
        None => Value::Null,
    }
}

/// Each of the left values compared with each of the right ones.
pub fn compare_all<N: Numbers>(
    c: &Ctx<N>,
    l: &Vec<Value>,
    op: CompareOp,
    r: &Vec<Value>,
) -> (out: Vec<Value>)
    requires
        c.wf(),
    ensures
        seen(out@) == comparisons(c@, seen(l@), op, seen(r@)),
{
    let ghost left = seen(l@);
    let ghost right = seen(r@);
    let mut out = no_values();
    let mut i: usize = 0;
    while i < l.len()
        invariant
            c.wf(),
            i <= l@.len(),
            left == seen(l@),
            right == seen(r@),
            seen(out@) == comparisons(c@, left.take(i as int), op, right),
        decreases l@.len() - i,
    {
        let ghost done = seen(out@);
        let ghost row = compared_with(c@, left[i as int], op, right);
        let mut j: usize = 0;
        while j < r.len()
            invariant
                c.wf(),
                i < l@.len(),
                j <= r@.len(),
                left == seen(l@),
                right == seen(r@),
                row == compared_with(c@, left[i as int], op, right),
                seen(out@) =~= done + row.take(j as int),
            decreases r@.len() - j,
        {
            let b = compare_values(c.doc, c.num, &l[i], op, &r[j]);
            push_value(&mut out, Value::Bool(b));
            assert(row.take(j + 1) =~= row.take(j as int).push(row[j as int]));
            j += 1;
        }
        proof {
            let next = left.take(i + 1);
            assert(next.drop_last() =~= left.take(i as int));
            assert(next.last() == left[i as int]);
            assert(row.take(j as int) =~= row);
        }
        i += 1;
    }
    assert(left.take(i as int) =~= left);
    out
}

/// A type test of each value of a stream.
pub fn test_types<N: Numbers>(
    c: &Ctx<N>,
    env: &Env,
    s: Stream,
    kind: JsonTypeKind,
    negated: bool,
) -> (t: Stream)
    requires
        c.wf(),
    ensures
        t@ == type_tests(c@, env@, s@, kind, negated),
{
    let ghost all = type_tests(c@, env@, s@, kind, negated).rows;
    let mut rows: Vec<Row> = Vec::new();
    let mut i: usize = 0;
    while i < s.rows.len()
        invariant
            c.wf(),
            i <= s.rows@.len(),
            all == type_tests(c@, env@, s@, kind, negated).rows,
            row_views(rows@) =~= all.take(i as int),
        decreases s.rows@.len() - i,
    {
        assert(s@.rows[i as int] == s.rows@[i as int]@);
        let b = (value_type(c.doc, &s.rows[i].value) == kind) != negated;
        push_row(&mut rows, Row { env: env.copy(), value: Value::Bool(b) });
        i += 1;
    }
    assert(row_views(rows@) =~= all);
    Stream { rows, err: s.err }
}

/// Parts of a group key, joined by the unit separator.
pub fn join_key<N: Numbers>(c: &Ctx<N>, parts: &Vec<Option<Value>>) -> (out: String)
    requires
        c.wf(),
    ensures
        out@ == joined_key(c@, arg_views(parts@)),
{
    let ghost all = arg_views(parts@);
    let mut out = String::new();
    let mut i: usize = 0;
    proof {
        assert(all.take(0) =~= Seq::empty());
        assert(out@ =~= Seq::empty());
    }
    while i < parts.len()
        invariant
            c.wf(),
            i <= parts@.len(),
            all == arg_views(parts@),
            out@ == joined_key(c@, all.take(i as int)),
        decreases parts@.len() - i,
    {
        let ghost next = all.take(i + 1);
        proof {
            assert(next.drop_last() =~= all.take(i as int));
            assert(next.last() == all[i as int]);
        }
        if i > 0 {
            out.append("\u{1f}");
        } else {
            assert(out@ + Seq::<char>::empty() =~= out@);
        }
        match &parts[i] {
            Some(v) => {
                let text = value_to_group_key(c.doc, c.num, v);
                out.append(text.as_str());
            },
            None => {
                assert(out@ + Seq::<char>::empty() =~= out@);
            },
        }
        i += 1;
    }
    assert(all.take(i as int) =~= all);
    out
}

/// An object of the names of `fields` and these values; a missing value is
/// null.
pub fn make_object(fields: &Vec<(String, Ast)>, v: Vec<Option<Value>>) -> (r: Value)
    requires
        fields@.len() == v@.len(),
    ensures
        r@ == object_of(names_of(super::super::ast::field_views(fields@)), arg_views(v@)),
{
    let ghost names = names_of(super::super::ast::field_views(fields@));
    let ghost all = Seq::new(names.len(), |i: int| (names[i], or_null(arg_views(v@)[i])));
    let mut out: Vec<(String, Value)> = Vec::new();
    let mut i: usize = 0;
    while i < fields.len()
        invariant
            i <= fields@.len() == v@.len(),
            names == names_of(super::super::ast::field_views(fields@)),
            names.len() == fields@.len(),
            all == Seq::new(names.len(), |i: int| (names[i], or_null(arg_views(v@)[i]))),
            out@.len() == i,
            forall|k: int| 0 <= k < i ==> (#[trigger] out@[k]).0@ == all[k].0,
            forall|k: int| 0 <= k < i ==> (#[trigger] out@[k]).1@ == all[k].1,
        decreases fields@.len() - i,
    {
        let value = match &v[i] {
            Some(x) => x.copy(),
            None => Value::Null,
        };
        assert(super::super::ast::field_views(fields@)[i as int].0 == fields@[i as int].0@);
        assert(value@ == or_null(arg_views(v@)[i as int]));
        out.push((fields[i].0.clone(), value));
        i += 1;
    }
    assert(member_views(out@) =~= all);
    Value::Object(out)
}

/// An array of these values; a missing value is null.
pub fn make_array(v: Vec<Option<Value>>) -> (r: Value)
    ensures
        r@ == ValueV::Array(
            Seq::new(arg_views(v@).len(), |i: int| or_null(arg_views(v@)[i])),
        ),
{
    let ghost x = arg_views(v@);
    let ghost all = Seq::new(x.len(), |i: int| or_null(x[i]));
    let mut out: Vec<Value> = Vec::new();
    let mut i: usize = 0;
    while i < v.len()
        invariant
            i <= v@.len(),
            x == arg_views(v@),
            all == Seq::new(x.len(), |i: int| or_null(x[i])),
            out@.len() == i,
            forall|k: int| 0 <= k < i ==> (#[trigger] out@[k])@ == all[k],
        decreases v@.len() - i,
    {
        let value = match &v[i] {
            Some(y) => y.copy(),
            None => Value::Null,
        };
        assert(value@ == or_null(x[i as int]));
        out.push(value);
        i += 1;
    }
    assert(value_views(out@) =~= all);
    Value::Array(out)
}

/// All of `fields` of the object equal `target`.
pub fn scan_field_set_equals<N: Numbers>(
    c: &Ctx<N>,
    id: u32,
    fields: &Vec<String>,
    target: &Value,
) -> (b: bool)
    requires
        c.wf(),
    ensures
        b == fields_equal(c@, id, super::super::ast::texts(fields@), target@),
{
    let ghost names = super::super::ast::texts(fields@);
    let wanted = Scalar::from_value(c.doc, c.num, target);
    let mut i: usize = 0;
    while i < fields.len()
        invariant
            c.wf(),
            i <= fields@.len(),
            names == super::super::ast::texts(fields@),
            wanted@ == super::super::value::scalar(c@.doc, c@.n, target@),
            forall|k: int| 0 <= k < i ==> field_equals(c@, id, #[trigger] names[k], target@),
        decreases fields@.len() - i,
    {
        assert(names[i as int] == fields@[i as int]@);
        match scan_object_field(c.doc, c.num, id, &utf8(fields[i].as_str())) {
            Some(v) => {
                if !Scalar::from_value(c.doc, c.num, &v).equal(&wanted) {
                    assert(!field_equals(c@, id, names[i as int], target@));
                    return false;
                }
            },
            None => {
                assert(!field_equals(c@, id, names[i as int], target@));
                return false;
            },
        }
        i += 1;
    }
    true
}

fn same_bytes(a: &Vec<u8>, b: &Vec<u8>) -> (r: bool)
    ensures
        r == (a@ == b@),
{
    if a.len() != b.len() {
        return false;
    }
    let mut i: usize = 0;
    while i < a.len()
        invariant
            a@.len() == b@.len(),
            i <= a@.len(),
            forall|k: int| 0 <= k < i ==> a@[k] == b@[k],
        decreases a@.len() - i,
    {
        if a[i] != b[i] {
            return false;
        }
        i += 1;
    }
    assert(a@ =~= b@);
    true
}

/// Each row once, by its value's fingerprint.
pub fn run_distinct<N: Numbers>(c: &Ctx<N>, s: Stream) -> (t: Stream)
    requires
        c.wf(),
    ensures
        t@ == (StreamV { rows: distinct_rows(c@, s@.rows), err: s@.err }),
{
    let ghost all = s@.rows;
    let mut rows: Vec<Row> = Vec::new();
    let mut prints: Vec<Vec<u8>> = Vec::new();
    let mut i: usize = 0;
    proof {
        assert(row_views(rows@) =~= Seq::empty());
    }
    while i < s.rows.len()
        invariant
            c.wf(),
            i <= s.rows@.len(),
            all == row_views(s.rows@),
            row_views(rows@) == distinct_rows(c@, all.take(i as int)),
            prints@.len() == rows@.len(),
            forall|k: int|
                0 <= k < prints@.len() ==> (#[trigger] prints@[k])@ == print_of(
                    c@.doc,
                    c@.n,
                    row_views(rows@)[k].value,
                ),
        decreases s.rows@.len() - i,
    {
        let ghost kept = row_views(rows@);
        proof {
            let next = all.take(i + 1);
            assert(next.drop_last() =~= all.take(i as int));
            assert(next.last() == all[i as int]);
            assert(all[i as int] == s.rows@[i as int]@);
        }
        let print = write_fingerprint(c.doc, c.num, &s.rows[i].value);
        let known = known_print(&prints, &print);
        proof {
            if known {
                let k = choose|k: int| 0 <= k < prints@.len() && (#[trigger] prints@[k])@ == print@;
                assert(print_of(c@.doc, c@.n, kept[k].value) == print@);
            } else {
                assert forall|k: int| 0 <= k < kept.len() implies print_of(
                    c@.doc,
                    c@.n,
                    (#[trigger] kept[k]).value,
                ) != print@ by {
                    assert(prints@[k]@ != print@);
                }
            }
            assert(known == printed(c@, kept, all[i as int].value));
        }
        if !known {
            push_row(
                &mut rows,
                Row { env: s.rows[i].env.copy(), value: s.rows[i].value.copy() },
            );
            prints.push(print);
        }
        i += 1;
    }
    assert(all.take(i as int) =~= all);
    Stream { rows, err: s.err }
}

/// How many rows it takes to have `m` different ones.
pub fn distinct_prefix<N: Numbers>(c: &Ctx<N>, rows: &Vec<Row>, m: u128) -> (r: Option<usize>)
    requires
        c.wf(),
    ensures
        match r {
            Some(n) => pulled_distinct(c@, row_views(rows@), 0, Some(m as nat)) == Some(n as nat),
            None => pulled_distinct(c@, row_views(rows@), 0, Some(m as nat)) is None,
        },
{
    let ghost all = row_views(rows@);
    let ghost mut kept: Seq<RowV> = Seq::empty();
    let mut prints: Vec<Vec<u8>> = Vec::new();
    let mut i: usize = 0;
    while i < rows.len()
        invariant
            c.wf(),
            i <= rows@.len(),
            all == row_views(rows@),
            kept == distinct_rows(c@, all.take(i as int)),
            prints@.len() == kept.len(),
            forall|k: int|
                0 <= k < prints@.len() ==> (#[trigger] prints@[k])@ == print_of(
                    c@.doc,
                    c@.n,
                    kept[k].value,
                ),
            pulled_distinct(c@, all, 0, Some(m as nat)) == pulled_distinct(
                c@,
                all,
                i as nat,
                Some(m as nat),
            ),
        decreases rows@.len() - i,
    {
        proof {
            let next = all.take(i + 1);
            assert(next.drop_last() =~= all.take(i as int));
            assert(next.last() == all[i as int]);
            assert(all[i as int] == rows@[i as int]@);
        }
        let print = write_fingerprint(c.doc, c.num, &rows[i].value);
        let known = known_print(&prints, &print);
        proof {
            if known {
                let k = choose|k: int| 0 <= k < prints@.len() && (#[trigger] prints@[k])@ == print@;
                assert(print_of(c@.doc, c@.n, kept[k].value) == print@);
            } else {
                assert forall|k: int| 0 <= k < kept.len() implies print_of(
                    c@.doc,
                    c@.n,
                    (#[trigger] kept[k]).value,
                ) != print@ by {
                    assert(prints@[k]@ != print@);
                }
            }
            assert(known == printed(c@, kept, all[i as int].value));
        }
        if !known {
            prints.push(print);
            proof {
                kept = kept.push(all[i as int]);
            }
        }
        i += 1;
        if prints.len() as u128 >= m {
            return Some(i);
        }
    }
    None
}

fn known_print(prints: &Vec<Vec<u8>>, print: &Vec<u8>) -> (b: bool)
    ensures
        b == exists|k: int| 0 <= k < prints@.len() && (#[trigger] prints@[k])@ == print@,
{
    let mut i: usize = 0;
    while i < prints.len()
        invariant
            i <= prints@.len(),
            forall|k: int| 0 <= k < i ==> (#[trigger] prints@[k])@ != print@,
        decreases prints@.len() - i,
    {
        if same_bytes(&prints[i], print) {
            return true;
        }
        i += 1;
    }
    false
}

/// At most `n` rows; an error beyond them is not reached.
pub fn run_limit(s: Stream, n: u64) -> (t: Stream)
    ensures
        t@ == limited(s@, n as nat),
{
    if s.rows.len() as u64 > n {
        let mut rows = s.rows;
        let ghost all = rows@;
        rows.truncate(n as usize);
        assert(row_views(rows@) =~= row_views(all).take(n as int));
        Stream { rows, err: None }
    } else {
        s
    }
}

/// The elements of a value.
pub fn elements<N: Numbers>(c: &Ctx<N>, o: &Option<Value>) -> (out: Vec<Value>)
    requires
        c.wf(),
    ensures
        seen(out@) == elements_of(c@, opt_value_view(*o)),
{
    match o {
        Some(Value::Array(items)) => {
            let mut out = no_values();
            let ghost all = value_views(items@);
            let mut i: usize = 0;
            while i < items.len()
                invariant
                    i <= items@.len(),
                    all == value_views(items@),
                    seen(out@) =~= all.take(i as int),
                decreases items@.len() - i,
            {
                push_value(&mut out, items[i].copy());
                i += 1;
            }
            assert(seen(out@) =~= all);
            out
        },
        Some(Value::Node(id)) => {
            if c.doc.node_kind(*id) == NodeKind::Array {
                scan_iterate(c.doc, c.num, *id)
            } else {
                no_values()
            }
        },
        _ => no_values(),
    }
}

/// A row for each value, bound to `alias`.
pub fn bind_rows(env: &Env, alias: &str, v: &Vec<Value>, value: &Value) -> (rows: Vec<Row>)
    ensures
        row_views(rows@) == bound_rows(env@, alias@, seen(v@), value@),
{
    let ghost all = bound_rows(env@, alias@, seen(v@), value@);
    let mut rows: Vec<Row> = Vec::new();
    let mut i: usize = 0;
    while i < v.len()
        invariant
            i <= v@.len(),
            all == bound_rows(env@, alias@, seen(v@), value@),
            row_views(rows@) =~= all.take(i as int),
        decreases v@.len() - i,
    {
        assert(seen(v@)[i as int] == v@[i as int]@);
        push_row(&mut rows, Row { env: env.bind(alias, v[i].copy()), value: value.copy() });
        i += 1;
    }
    assert(row_views(rows@) =~= all);
    rows
}

/// The joined rows of one row.
pub fn join_rows(env: &Env, alias: &str, inner: bool, v: &Value, s: Stream) -> (t: Stream)
    ensures
        t@ == joined(alias@, inner, env@, v@, s@),
{
    if s.rows.len() == 0 && s.err.is_none() && !inner {
        Stream::one(&env.bind(alias, Value::Null), v.copy())
    } else {
        let values = super::stream::row_values(&s.rows);
        Stream { rows: bind_rows(env, alias, &values, v), err: s.err }
    }
}

/// Adds the error of the stream that a stage ran on.
pub fn follow(s: Stream, err: Option<EvalError>) -> (t: Stream)
    ensures
        t@ == followed(s@, err_view(err)),
{
    if s.err.is_none() {
        Stream { rows: s.rows, err }
    } else {
        s
    }
}

pub fn num_op(op: BinaryOp) -> (r: NumOp)
    ensures
        r == binary_num(op),
{
    match op {
        BinaryOp::Add => NumOp::Add,
        BinaryOp::Sub => NumOp::Sub,
        BinaryOp::Mul => NumOp::Mul,
        BinaryOp::Div => NumOp::Div,
    }
}

} // verus!
