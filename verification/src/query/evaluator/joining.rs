//! What joins are for: pairs of rows whose keys are equal.
use vstd::prelude::*;

use super::super::ast::AstV;
use super::super::index::{ForeignKeyIndex, IndexName, ScalarKeyV};
use super::super::number::{nan, num_eq, whole_of, zero};
use super::super::number_laws::{whole_numbers_are_in_order, whole_numbers_fit};
use super::super::value::{scalar, ScalarV, ValueV};
use super::fingerprint::group_key_text;
use super::laws::index_finds_every_match;
use super::model::{
    bound_rows, first, index_named, joined_key, key_of, key_text, lookup_rows, no_rows, nodes_under,
    one, values_of, CtxV, EnvV, Missing, RowV,
};
use super::queries::{candidates, filed, is_index_of, key_at, no_env, some_rows};
use super::semantics::{each, firsts, followed, joined, run};

use crate::text::decimal_text;

verus! {

/// The character between the parts of a key.
pub open spec fn separator() -> char {
    '\u{1f}'
}

/// The text of one part of a key; a missing part is empty.
pub open spec fn part_text(c: CtxV, o: Option<ValueV>) -> Seq<char> {
    match o {
        Some(v) => group_key_text(c.doc, c.n, v),
        None => Seq::empty(),
    }
}

/// No separator in the text of any part.
pub open spec fn separable(c: CtxV, parts: Seq<Option<ValueV>>) -> bool {
    forall|i: int|
        0 <= i < parts.len() ==> !part_text(c, #[trigger] parts[i]).contains(separator())
}

/// The texts of two keys are equal part by part.
pub open spec fn parts_equal(
    c: CtxV,
    a: Seq<Option<ValueV>>,
    b: Seq<Option<ValueV>>,
) -> bool {
    &&& a.len() == b.len()
    &&& forall|i: int|
        0 <= i < a.len() ==> part_text(c, #[trigger] a[i]) == part_text(c, b[i])
}

/// Texts that hold no `x` behind the last `x` of a text end it in one way.
proof fn split_once(a: Seq<char>, p: Seq<char>, b: Seq<char>, q: Seq<char>, x: char)
    requires
        !p.contains(x),
        !q.contains(x),
        a + seq![x] + p == b + seq![x] + q,
    ensures
        a == b,
        p == q,
{
    let s = a + seq![x] + p;
    let t = b + seq![x] + q;
    assert(s.len() == t.len());
    assert(s[a.len() as int] == x);
    assert(t[b.len() as int] == x);
    if a.len() < b.len() {
        assert(b.len() < s.len());
        let i = b.len() - a.len() - 1;
        assert(0 <= i < p.len());
        assert(s[b.len() as int] == p[i]);
        assert(p.contains(x));
    }
    if b.len() < a.len() {
        assert(t[a.len() as int] == q[a.len() - b.len() - 1]);
        assert(q.contains(x));
    }
    assert forall|i: int| 0 <= i < a.len() implies a[i] == b[i] by {
        assert(s[i] == t[i]);
    }
    assert(a =~= b);
    assert forall|i: int| 0 <= i < p.len() implies p[i] == q[i] by {
        assert(s[a.len() + 1 + i] == t[a.len() + 1 + i]);
    }
    assert(p =~= q);
}

/// Two keys of as many parts, none of which holds a separator, are equal
/// exactly if they are equal part by part.
#[verifier::spinoff_prover]
pub proof fn tuple_keys_compare_each_part(
    c: CtxV,
    a: Seq<Option<ValueV>>,
    b: Seq<Option<ValueV>>,
)
    requires
        a.len() == b.len(),
        separable(c, a),
        separable(c, b),
    ensures
        joined_key(c, a) == joined_key(c, b) <==> parts_equal(c, a, b),
    decreases a.len(),
{
    if a.len() > 0 {
        let x = a.drop_last();
        let y = b.drop_last();
        let m = a.len() - 1;
        assert forall|i: int| 0 <= i < x.len() implies !part_text(c, #[trigger] x[i]).contains(
            separator(),
        ) by {
            assert(x[i] == a[i]);
        }
        assert forall|i: int| 0 <= i < y.len() implies !part_text(c, #[trigger] y[i]).contains(
            separator(),
        ) by {
            assert(y[i] == b[i]);
        }
        tuple_keys_compare_each_part(c, x, y);
        let p = part_text(c, a[m]);
        let q = part_text(c, b[m]);
        reveal_strlit("\u{1f}");
        assert("\u{1f}"@ =~= seq![separator()]);
        if a.len() == 1 {
            assert(x =~= Seq::empty());
            assert(y =~= Seq::empty());
            assert(joined_key(c, x) =~= Seq::empty());
            assert(joined_key(c, a) =~= p);
            assert(joined_key(c, b) =~= q);
        } else {
            assert(joined_key(c, a) == joined_key(c, x) + seq![separator()] + p);
            assert(joined_key(c, b) == joined_key(c, y) + seq![separator()] + q);
            if joined_key(c, a) == joined_key(c, b) {
                split_once(joined_key(c, x), p, joined_key(c, y), q, separator());
            }
        }
        if parts_equal(c, a, b) {
            assert forall|i: int| 0 <= i < x.len() implies part_text(c, #[trigger] x[i])
                == part_text(c, y[i]) by {
                assert(x[i] == a[i] && y[i] == b[i]);
            }
            assert(p == q);
        }
        if parts_equal(c, x, y) && p == q {
            assert forall|i: int| 0 <= i < a.len() implies part_text(c, #[trigger] a[i])
                == part_text(c, b[i]) by {
                if i < m {
                    assert(x[i] == a[i] && y[i] == b[i]);
                }
            }
        }
        if joined_key(c, a) == joined_key(c, b) {
            assert(parts_equal(c, x, y) && p == q);
        }
    }
}

/// The first value of each part of a key, on a row.
pub open spec fn parts_at(c: CtxV, es: Seq<AstV>, env: EnvV, v: ValueV) -> Seq<Option<ValueV>> {
    Seq::new(es.len(), |i: int| part_at(c, es[i], env, v))
}

/// The first value of an expression.
pub open spec fn part_at(c: CtxV, e: AstV, env: EnvV, v: ValueV) -> Option<ValueV> {
    let s = run(c, e, env, v);
    if s.rows.len() > 0 {
        Some(s.rows[0].value)
    } else {
        None
    }
}

/// No part of a key runs into an error.
pub open spec fn parts_sound(c: CtxV, es: Seq<AstV>, env: EnvV, v: ValueV) -> bool {
    forall|i: int| 0 <= i < es.len() ==> run(c, #[trigger] es[i], env, v).err is None
}

#[verifier::spinoff_prover]
pub proof fn firsts_are_parts(c: CtxV, es: Seq<AstV>, env: EnvV, v: ValueV)
    requires
        parts_sound(c, es, env, v),
    ensures
        firsts(c, es, env, v) == Ok::<Seq<Option<ValueV>>, Missing>(parts_at(c, es, env, v)),
    decreases es.len(),
{
    if es.len() == 0 {
        reveal(firsts);
        assert(parts_at(c, es, env, v) =~= Seq::empty());
    } else {
        let less = es.drop_last();
        assert forall|i: int| 0 <= i < less.len() implies run(c, #[trigger] less[i], env, v).err is None by {
            assert(less[i] == es[i]);
        }
        firsts_are_parts(c, less, env, v);
        let rest = parts_at(c, less, env, v);
        let s = run(c, es.last(), env, v);
        assert(run(c, es[es.len() - 1], env, v).err is None);
        assert(firsts(c, es, env, v) == Ok::<Seq<Option<ValueV>>, Missing>(
            rest.push(first(s)->Ok_0),
        )) by {
            reveal_with_fuel(firsts, 2);
            reveal(run);
        }
        assert(rest.push(first(s)->Ok_0) =~= parts_at(c, es, env, v));
    }
}

#[verifier::spinoff_prover]
proof fn tuple_gives_key(c: CtxV, es: Seq<AstV>, env: EnvV, v: ValueV)
    requires
        parts_sound(c, es, env, v),
    ensures
        run(c, AstV::KeyTuple(es), env, v) == one(
            env,
            ValueV::Str(joined_key(c, parts_at(c, es, env, v))),
        ),
{
    firsts_are_parts(c, es, env, v);
    reveal(run);
    reveal(firsts);
}

/// The rows of a join, by the nodes that its lookup finds.
#[verifier::spinoff_prover]
proof fn join_binds_the_nodes(
    c: CtxV,
    alias: Seq<char>,
    outer: AstV,
    lookup: AstV,
    inner: bool,
    env: EnvV,
    v: ValueV,
    d: EnvV,
    key: ValueV,
)
    requires
        lookup is Lookup,
        run(c, outer, env, v) == one(d, key),
        c.indexes.has(
            IndexName { source: lookup->source_canon, key: lookup->key_canon },
        ),
    ensures
        ({
            let x = index_named(
                c.indexes,
                IndexName { source: lookup->source_canon, key: lookup->key_canon },
            );
            let found = nodes_under(c, x, key);
            let out = run(
                c,
                AstV::JoinEach {
                    alias,
                    outer_key: Box::new(outer),
                    lookup: Box::new(lookup),
                    inner,
                },
                env,
                v,
            );
            &&& out.err is None
            &&& found.len() > 0 || inner ==> out.rows == bound_rows(env, alias, found, v)
            &&& found.len() == 0 && !inner ==> out == one(env.bind(alias, ValueV::Null), v)
        }),
{
    let a = AstV::JoinEach {
        alias,
        outer_key: Box::new(outer),
        lookup: Box::new(lookup),
        inner,
    };
    let keys = one(d, key);
    let s = run(c, lookup, d, key);
    let name = IndexName { source: lookup->source_canon, key: lookup->key_canon };
    let found = nodes_under(c, index_named(c.indexes, name), key);
    assert(s == lookup_rows(c, name.source, name.key, d, key)) by {
        reveal(run);
    }
    assert(each(c, lookup, keys.rows) == s) by {
        reveal(each);
        reveal(run);
        assert(keys.rows.drop_last() =~= Seq::empty());
        assert(each(c, lookup, keys.rows.drop_last()) == no_rows());
        assert(keys.rows.last() == RowV { env: d, value: key });
        assert(no_rows().rows + s.rows =~= s.rows);
    }
    assert(run(c, a, env, v) == joined(
        alias,
        inner,
        env,
        v,
        followed(each(c, lookup, keys.rows), keys.err),
    )) by {
        reveal(run);
        reveal(each);
    }
    assert(values_of(s.rows) =~= found);
}

/// A node is among those that an index holds under a key exactly if it is a
/// node of the index's source with that key.
proof fn index_gives(
    c: CtxV,
    x: ForeignKeyIndex,
    d: CtxV,
    source: AstV,
    key: AstV,
    v: ValueV,
    k: ScalarKeyV,
    id: u32,
)
    requires
        is_index_of(x, d, source, key),
        key_of(c.doc, c.n, v) == Some(k),
    ensures
        nodes_under(c, x, v).contains(ValueV::Node(id)) <==> candidates(d, source).contains(id)
            && key_at(d, key, id) == Some(k),
        nodes_under(c, x, v).len() == filed(d, key, candidates(d, source), k).len(),
{
    let ids = candidates(d, source);
    let f = filed(d, key, ids, k);
    let n = nodes_under(c, x, v);
    index_finds_every_match(d, key, ids, k, id);
    assert(x.rows(k) == some_rows(f));
    assert(n.len() == f.len());
    assert forall|i: int| 0 <= i < n.len() implies n[i] == ValueV::Node(f[i]) by {}
    if f.contains(id) {
        let i = choose|i: int| 0 <= i < f.len() && f[i] == id;
        assert(n[i] == ValueV::Node(id));
    }
    if n.contains(ValueV::Node(id)) {
        let i = choose|i: int| 0 <= i < n.len() && n[i] == ValueV::Node(id);
        assert(f[i] == id);
    }
}

/// Row `v` of a join comes out bound to a node.
pub open spec fn pairs_with(rows: Seq<RowV>, env: EnvV, alias: Seq<char>, v: ValueV, id: u32) -> bool {
    rows.contains(RowV { env: env.bind(alias, ValueV::Node(id)), value: v })
}

/// A join on several equalities binds a row to a node of its source exactly
/// if every equality holds of the two: the texts of both sides are equal at
/// every place. An inner join gives no other row; an outer join binds a row
/// without a partner to null.
#[verifier::spinoff_prover]
pub proof fn joins_pair_rows_with_equal_keys(
    c: CtxV,
    alias: Seq<char>,
    outer: Seq<AstV>,
    source: AstV,
    keys: Seq<AstV>,
    name: IndexName,
    inner: bool,
    d: CtxV,
    env: EnvV,
    v: ValueV,
    id: u32,
)
    requires
        outer.len() == keys.len(),
        d.doc == c.doc,
        d.n == c.n,
        c.indexes.has(name),
        is_index_of(index_named(c.indexes, name), d, source, AstV::KeyTuple(keys)),
        parts_sound(c, outer, env, v),
        parts_sound(d, keys, no_env(), ValueV::Node(id)),
        separable(c, parts_at(c, outer, env, v)),
        separable(c, parts_at(d, keys, no_env(), ValueV::Node(id))),
    ensures
        ({
            let join = AstV::JoinEach {
                alias,
                outer_key: Box::new(AstV::KeyTuple(outer)),
                lookup: Box::new(
                    AstV::Lookup {
                        source: Box::new(source),
                        key: Box::new(AstV::KeyTuple(keys)),
                        source_canon: name.source,
                        key_canon: name.key,
                    },
                ),
                inner,
            };
            let out = run(c, join, env, v);
            &&& out.err is None
            &&& pairs_with(out.rows, env, alias, v, id) <==> candidates(d, source).contains(id)
                && forall|i: int|
                0 <= i < keys.len() ==> part_text(c, #[trigger] part_at(c, outer[i], env, v))
                    == part_text(c, part_at(d, keys[i], no_env(), ValueV::Node(id)))
        }),
{
    let left = parts_at(c, outer, env, v);
    let right = parts_at(d, keys, no_env(), ValueV::Node(id));
    let key = AstV::KeyTuple(keys);
    let text = joined_key(c, left);
    let k = ScalarKeyV::Str(text);
    let lookup = AstV::Lookup {
        source: Box::new(source),
        key: Box::new(key),
        source_canon: name.source,
        key_canon: name.key,
    };
    let join = AstV::JoinEach {
        alias,
        outer_key: Box::new(AstV::KeyTuple(outer)),
        lookup: Box::new(lookup),
        inner,
    };
    let out = run(c, join, env, v);
    tuple_gives_key(c, outer, env, v);
    tuple_gives_key(d, keys, no_env(), ValueV::Node(id));
    same_join(c, d, right);
    assert(key_at(d, key, id) == Some(ScalarKeyV::Str(joined_key(c, right))));
    assert(key_of(c.doc, c.n, ValueV::Str(text)) == Some(k));
    let x = index_named(c.indexes, name);
    join_binds_the_nodes(c, alias, AstV::KeyTuple(outer), lookup, inner, env, v, env, ValueV::Str(text));
    let found = nodes_under(c, x, ValueV::Str(text));
    index_gives(c, x, d, source, key, ValueV::Str(text), k, id);
    tuple_keys_compare_each_part(c, left, right);
    let all = forall|i: int|
        0 <= i < keys.len() ==> part_text(c, #[trigger] part_at(c, outer[i], env, v)) == part_text(
            c,
            part_at(d, keys[i], no_env(), ValueV::Node(id)),
        );
    if parts_equal(c, left, right) {
        assert forall|i: int| 0 <= i < keys.len() implies part_text(
            c,
            #[trigger] part_at(c, outer[i], env, v),
        ) == part_text(c, part_at(d, keys[i], no_env(), ValueV::Node(id))) by {
            assert(part_text(c, left[i]) == part_text(c, right[i]));
        }
    }
    if all {
        assert forall|i: int| 0 <= i < left.len() implies part_text(c, #[trigger] left[i])
            == part_text(c, right[i]) by {
            assert(left[i] == part_at(c, outer[i], env, v));
        }
    }
    assert(all == parts_equal(c, left, right));
    bound_pairs(out.rows, env, alias, v, id, found, inner);
}

/// Keys are joined alike in both evaluations.
proof fn same_join(c: CtxV, d: CtxV, parts: Seq<Option<ValueV>>)
    requires
        d.doc == c.doc,
        d.n == c.n,
    ensures
        joined_key(d, parts) == joined_key(c, parts),
    decreases parts.len(),
{
    if parts.len() > 0 {
        same_join(c, d, parts.drop_last());
    }
}

proof fn bound_pairs(
    rows: Seq<RowV>,
    env: EnvV,
    alias: Seq<char>,
    v: ValueV,
    id: u32,
    found: Seq<ValueV>,
    inner: bool,
)
    requires
        found.len() > 0 || inner ==> rows == bound_rows(env, alias, found, v),
        found.len() == 0 && !inner ==> rows == one(env.bind(alias, ValueV::Null), v).rows,
    ensures
        pairs_with(rows, env, alias, v, id) <==> found.contains(ValueV::Node(id)),
{
    let want = RowV { env: env.bind(alias, ValueV::Node(id)), value: v };
    if found.contains(ValueV::Node(id)) {
        let i = choose|i: int| 0 <= i < found.len() && found[i] == ValueV::Node(id);
        assert(rows[i] == want);
    }
    if rows.contains(want) {
        let i = choose|i: int| 0 <= i < rows.len() && rows[i] == want;
        let x = if found.len() == 0 && !inner {
            ValueV::Null
        } else {
            found[i]
        };
        assert(rows[i].env == env.bind(alias, x));
        assert(env.bind(alias, x).binds.last() == (alias, x));
        assert(want.env.binds.last() == (alias, ValueV::Node(id)));
    }
}

/// A join on one equality binds a row to a node of its source exactly if the
/// two have the same key. Without a partner an inner join drops the row, and
/// an outer join binds it to null.
#[verifier::spinoff_prover]
pub proof fn joins_pair_rows_with_the_same_key(
    c: CtxV,
    alias: Seq<char>,
    outer: AstV,
    source: AstV,
    key: AstV,
    name: IndexName,
    inner: bool,
    d: CtxV,
    env: EnvV,
    v: ValueV,
    e: EnvV,
    w: ValueV,
    k: ScalarKeyV,
    id: u32,
)
    requires
        c.indexes.has(name),
        is_index_of(index_named(c.indexes, name), d, source, key),
        run(c, outer, env, v) == one(e, w),
        key_of(c.doc, c.n, w) == Some(k),
    ensures
        ({
            let join = AstV::JoinEach {
                alias,
                outer_key: Box::new(outer),
                lookup: Box::new(
                    AstV::Lookup {
                        source: Box::new(source),
                        key: Box::new(key),
                        source_canon: name.source,
                        key_canon: name.key,
                    },
                ),
                inner,
            };
            let out = run(c, join, env, v);
            let partners = filed(d, key, candidates(d, source), k).len();
            &&& out.err is None
            &&& pairs_with(out.rows, env, alias, v, id) <==> candidates(d, source).contains(id)
                && key_at(d, key, id) == Some(k)
            &&& partners == 0 ==> out.rows == if inner {
                Seq::empty()
            } else {
                seq![RowV { env: env.bind(alias, ValueV::Null), value: v }]
            }
        }),
{
    let lookup = AstV::Lookup {
        source: Box::new(source),
        key: Box::new(key),
        source_canon: name.source,
        key_canon: name.key,
    };
    let join = AstV::JoinEach {
        alias,
        outer_key: Box::new(outer),
        lookup: Box::new(lookup),
        inner,
    };
    let out = run(c, join, env, v);
    let x = index_named(c.indexes, name);
    let found = nodes_under(c, x, w);
    join_binds_the_nodes(c, alias, outer, lookup, inner, env, v, e, w);
    index_gives(c, x, d, source, key, w, k, id);
    bound_pairs(out.rows, env, alias, v, id, found, inner);
    if found.len() == 0 {
        if inner {
            assert(out.rows =~= Seq::empty());
        }
    }
}

/// The key of a text, a boolean or null is itself; containers have none.
pub proof fn keys_are_scalars(c: CtxV, a: ValueV)
    ensures
        key_of(c.doc, c.n, a) is None <==> scalar(c.doc, c.n, a) is Container,
        scalar(c.doc, c.n, a) matches ScalarV::Str(s) ==> key_of(c.doc, c.n, a) == Some(
            ScalarKeyV::Str(s),
        ),
        scalar(c.doc, c.n, a) matches ScalarV::Bool(s) ==> key_of(c.doc, c.n, a) == Some(
            ScalarKeyV::Bool(s),
        ),
        scalar(c.doc, c.n, a) is Null ==> key_of(c.doc, c.n, a) == Some(ScalarKeyV::Null),
{
}

/// Numbers have the same key exactly if they are equal.
pub proof fn number_keys_are_equal_as_numbers(c: CtxV, a: ValueV, b: ValueV, x: u64, y: u64)
    requires
        scalar(c.doc, c.n, a) == ScalarV::Number(x),
        scalar(c.doc, c.n, b) == ScalarV::Number(y),
        !nan(x),
        !nan(y),
    ensures
        key_of(c.doc, c.n, a) == key_of(c.doc, c.n, b) <==> num_eq(x, y),
{
    whole_numbers_fit(x);
    whole_numbers_fit(y);
    if whole_of(x) is Some && whole_of(y) is Some {
        whole_numbers_are_in_order(x, y);
    } else if num_eq(x, y) {
        assert(x == y || (zero(x) && zero(y)));
        assert(zero(x) ==> whole_of(x) == Some(0int));
        assert(zero(y) ==> whole_of(y) == Some(0int));
    }
}

/// The text of a part of a key: a text is itself, a number as it is written,
/// and null, true and false are three different words.
pub proof fn parts_have_their_text(c: CtxV, v: ValueV)
    ensures
        scalar(c.doc, c.n, v) matches ScalarV::Str(s) ==> part_text(c, Some(v)) == s,
        scalar(c.doc, c.n, v) matches ScalarV::Number(x) ==> part_text(c, Some(v)) == (c.n.text)(x),
        scalar(c.doc, c.n, v) is Null ==> part_text(c, Some(v)) == seq!['n', 'u', 'l', 'l'],
        scalar(c.doc, c.n, v) == ScalarV::Bool(true) ==> part_text(c, Some(v)) == seq![
            't',
            'r',
            'u',
            'e',
        ],
        scalar(c.doc, c.n, v) == ScalarV::Bool(false) ==> part_text(c, Some(v)) == seq![
            'f',
            'a',
            'l',
            's',
            'e',
        ],
        part_text(c, None) == Seq::<char>::empty(),
{
    reveal_strlit("null");
    reveal_strlit("true");
    reveal_strlit("false");
    assert("null"@ =~= seq!['n', 'u', 'l', 'l']);
    assert("true"@ =~= seq!['t', 'r', 'u', 'e']);
    assert("false"@ =~= seq!['f', 'a', 'l', 's', 'e']);
}

/// The text of a group's key: a text is itself, a whole number its digits.
pub proof fn keys_have_their_text(c: CtxV, k: ScalarKeyV)
    ensures
        k matches ScalarKeyV::Str(s) ==> key_text(c, k) == s,
        k matches ScalarKeyV::Float(x) ==> key_text(c, k) == (c.n.text)(x),
        k matches ScalarKeyV::Int(i) ==> (i >= 0 ==> key_text(c, k) == decimal_text(i as nat)),
        k matches ScalarKeyV::Int(i) ==> (i < 0 ==> key_text(c, k) == seq!['-'] + decimal_text(
            (-i) as nat,
        )),
        k is Null ==> key_text(c, k) == seq!['n', 'u', 'l', 'l'],
        k == ScalarKeyV::Bool(true) ==> key_text(c, k) == seq!['t', 'r', 'u', 'e'],
{
    reveal_strlit("null");
    reveal_strlit("true");
    reveal_strlit("-");
    assert("null"@ =~= seq!['n', 'u', 'l', 'l']);
    assert("true"@ =~= seq!['t', 'r', 'u', 'e']);
    assert("-"@ =~= seq!['-']);
}

} // verus!
