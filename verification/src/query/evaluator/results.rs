//! What callers get of a query's rows.
use vstd::prelude::*;

use super::super::ast::{AstV, JsonTypeKind};
use super::super::index::IndexRegistry;
use super::super::number::Nums;
use super::super::value::{type_of, unquoted, ValueV};
use super::queries::{answers, asked, no_env, EvalOutput};
use super::render::{byte_len, fitting, is_row_of, items_json, json_of, kind_of_value, shortened};
use super::semantics::run;
use crate::document::{Document, NodeKind};

verus! {

/// A query that runs into no error gives its first rows, at most as many as
/// are wanted, each with its value and the kind of that; it tells exactly if
/// there are more.
pub proof fn results_are_the_first_rows(
    out: EvalOutput,
    doc: Document,
    n: Nums,
    indexes: IndexRegistry,
    a: AstV,
    root: u32,
    limit: nat,
    i: int,
)
    requires
        answers(out, doc, n, indexes, a, root, limit),
        run(asked(doc, n, indexes, root, limit), a, no_env(), ValueV::Node(root)).err is None,
        0 <= i < out.results@.len(),
    ensures
        ({
            let rows = run(asked(doc, n, indexes, root, limit), a, no_env(), ValueV::Node(root)).rows;
            &&& out.error is None
            &&& out.hit_limit == (rows.len() > limit)
            &&& out.results@.len() == if rows.len() > limit {
                limit
            } else {
                rows.len()
            }
            &&& out.results@[i].value@ == rows[i].value
            &&& out.results@[i].kind == kind_of_value(doc, rows[i].value).code()
        }),
{
    assert(is_row_of(out.results@[i], doc, n, out.results@[i].value@));
}

/// The kind of a value is that of its type.
pub open spec fn kind_of_type(t: JsonTypeKind) -> NodeKind {
    match t {
        JsonTypeKind::Null => NodeKind::Null,
        JsonTypeKind::Bool => NodeKind::Bool,
        JsonTypeKind::Number => NodeKind::Number,
        JsonTypeKind::String => NodeKind::String,
        JsonTypeKind::Array => NodeKind::Array,
        JsonTypeKind::Object => NodeKind::Object,
    }
}

/// A value has one kind, whether it is asked for in a query or shown as a row.
pub proof fn kinds_are_types(doc: Document, v: ValueV)
    ensures
        kind_of_value(doc, v) == kind_of_type(type_of(doc, v)),
    decreases v,
{
    if let ValueV::NamedValue { value, .. } = v {
        kinds_are_types(doc, *value);
    }
}

/// A text is shortened to the longest beginning that fits, with an ellipsis
/// behind it; a text that fits stays.
pub proof fn texts_are_shortened_to_fit(s: Seq<char>, cap: nat, k: int)
    requires
        0 <= k <= s.len(),
        byte_len(s.take(k)) <= cap,
    ensures
        byte_len(s) <= cap ==> shortened(s, cap) == s,
        byte_len(s) > cap ==> {
            let t = shortened(s, cap);
            &&& t.len() > k
            &&& t.last() == '\u{2026}'
            &&& t.drop_last() == s.take(t.len() - 1)
            &&& byte_len(t.drop_last()) <= cap
        },
{
    reveal_strlit("\u{2026}");
    let m = fitting(s, cap, s.len());
    fitting_fits(s, cap, s.len(), k);
    if byte_len(s) > cap {
        assert(shortened(s, cap).drop_last() =~= s.take(m as int));
    }
}

proof fn fitting_fits(s: Seq<char>, cap: nat, i: nat, k: int)
    requires
        0 <= k <= i <= s.len(),
        byte_len(s.take(k)) <= cap,
    ensures
        k <= fitting(s, cap, i) <= i,
        byte_len(s.take(fitting(s, cap, i) as int)) <= cap,
    decreases i,
{
    if i == 0 {
        assert(s.take(0) =~= Seq::empty());
    } else if byte_len(s.take(i as int)) > cap {
        fitting_fits(s, cap, (i - 1) as nat, k);
    }
}

/// A text that a query prints reads back as that text.
pub proof fn printed_texts_read_back(doc: Document, n: Nums, s: Seq<char>)
    ensures
        unquoted(vstd::utf8::encode_utf8(json_of(doc, n, ValueV::Str(s)))) == s,
{
    reveal_strlit("\"");
    assert("\""@ =~= seq!['"']);
    super::super::escaping::escaping_reads_back(s);
}

/// The items of a printed list stand in their order, with commas between them.
pub proof fn printed_lists_hold_their_items(doc: Document, n: Nums, v: Seq<ValueV>, x: ValueV)
    ensures
        items_json(doc, n, seq![x]) == json_of(doc, n, x),
        v.len() > 0 ==> items_json(doc, n, v.push(x)) == items_json(doc, n, v) + seq![',', ' ']
            + json_of(doc, n, x),
{
    reveal_strlit(", ");
    assert(", "@ =~= seq![',', ' ']);
    assert(seq![x].drop_last() =~= Seq::empty());
    assert(v.push(x).drop_last() =~= v);
    assert(items_json(doc, n, seq![x].drop_last()) == Seq::<char>::empty());
    assert(items_json(doc, n, seq![x]) =~= json_of(doc, n, x));
}

} // verus!
