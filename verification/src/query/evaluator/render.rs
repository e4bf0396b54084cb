//! Rows as text: their JSON, a short preview and a path.
use vstd::prelude::*;

use super::super::number::{nums, Numbers, Nums};
use super::super::value::{text_of, read_text, member_views, utf8_text, value_views, Value, ValueV};
use crate::document::{Document, NodeKind};
use crate::path::{compute_path, parents_first, path_text, steps_to};
use crate::text::{
    chars_of, decimal, decimal_text, encode_char, json_escaped, push_json_escaped, string_from,
    utf8_bytes,
};

verus! {

/// The source of a node, as it stands; `null` where it is no text.
pub open spec fn node_json(doc: Document, id: u32) -> Seq<char> {
    match doc.value_span(id) {
        Some(b) => if vstd::utf8::valid_utf8(b) {
            vstd::utf8::decode_utf8(b)
        } else {
            "null"@
        },
        None => "null"@,
    }
}

/// Between two elements.
pub open spec fn comma(first: bool) -> Seq<char> {
    if first {
        Seq::empty()
    } else {
        ", "@
    }
}

pub open spec fn nodes_json(doc: Document, ids: Seq<u32>) -> Seq<char>
    decreases ids.len(),
{
    if ids.len() == 0 {
        Seq::empty()
    } else {
        nodes_json(doc, ids.drop_last()) + comma(ids.len() == 1) + node_json(doc, ids.last())
    }
}

/// The JSON of a value. Nodes keep their source.
pub open spec fn json_of(doc: Document, n: Nums, v: ValueV) -> Seq<char>
    decreases v,
{
    match v {
        ValueV::Null => "null"@,
        ValueV::Bool(b) => if b {
            "true"@
        } else {
            "false"@
        },
        ValueV::Number(x) => (n.text)(x),
        ValueV::Str(s) => "\""@ + json_escaped(s) + "\""@,
        ValueV::Group { n: Some(x), .. } => (n.text)(x),
        ValueV::Group { n: None, .. } => "null"@,
        ValueV::GroupList { members, .. } => "["@ + nodes_json(doc, members) + "]"@,
        ValueV::Object(f) => "{"@ + members_json(doc, n, f) + "}"@,
        ValueV::BucketRow(f) => "{"@ + members_json(doc, n, f) + "}"@,
        ValueV::Array(items) => "["@ + items_json(doc, n, items) + "]"@,
        ValueV::NamedValue { value, .. } => json_of(doc, n, *value),
        ValueV::Node(id) => node_json(doc, id),
    }
}

pub open spec fn members_json(doc: Document, n: Nums, v: Seq<(Seq<char>, ValueV)>) -> Seq<char>
    decreases v,
{
    if v.len() == 0 {
        Seq::empty()
    } else {
        members_json(doc, n, v.drop_last()) + comma(v.len() == 1) + "\""@ + json_escaped(
            v.last().0,
        ) + "\": "@ + json_of(doc, n, v.last().1)
    }
}

pub open spec fn items_json(doc: Document, n: Nums, v: Seq<ValueV>) -> Seq<char>
    decreases v,
{
    if v.len() == 0 {
        Seq::empty()
    } else {
        items_json(doc, n, v.drop_last()) + comma(v.len() == 1) + json_of(doc, n, v.last())
    }
}

fn node_source(doc: &Document, id: u32) -> (s: String)
    ensures
        s@ == node_json(*doc, id),
{
    match doc.value_bytes(id) {
        Some(b) => match utf8_text(b) {
            Some(s) => s,
            None => "null".to_owned(),
        },
        None => "null".to_owned(),
    }
}

fn put_comma(out: String, first: bool) -> (r: String)
    ensures
        r@ == out@ + comma(first),
{
    let mut out = out;
    if first {
        assert(out@ + Seq::<char>::empty() =~= out@);
    } else {
        out.append(", ");
    }
    out
}

/// The JSON of a value.
#[verifier::spinoff_prover]
pub fn write_value_json<N: Numbers>(doc: &Document, num: &N, v: &Value) -> (out: String)
    requires
        num.wf(),
    ensures
        out@ == json_of(*doc, nums(num), v@),
    decreases v,
{
    match v {
        Value::Null => "null".to_owned(),
        Value::Bool(b) => {
            if *b {
                "true".to_owned()
            } else {
                "false".to_owned()
            }
        },
        Value::Number(x) => num.write(*x),
        Value::Str(s) => {
            let mut out = "\"".to_owned();
            push_json_escaped(&mut out, s.as_str());
            out.append("\"");
            out
        },
        Value::Group { n, .. } => match n {
            Some(x) => num.write(*x),
            None => "null".to_owned(),
        },
        Value::GroupList { members, .. } => {
            let mut out = "[".to_owned();
            let part = write_nodes(doc, members);
            out.append(part.as_str());
            out.append("]");
            out
        },
        Value::Object(f) => {
            let mut out = "{".to_owned();
            let part = write_members(doc, num, f);
            out.append(part.as_str());
            out.append("}");
            out
        },
        Value::BucketRow(f) => {
            let mut out = "{".to_owned();
            let part = write_members(doc, num, f);
            out.append(part.as_str());
            out.append("}");
            out
        },
        Value::Array(items) => {
            let mut out = "[".to_owned();
            let part = write_items(doc, num, items);
            out.append(part.as_str());
            out.append("]");
            out
        },
        Value::NamedValue { value, .. } => write_value_json(doc, num, value),
        Value::Node(id) => node_source(doc, *id),
    }
}

fn write_nodes(doc: &Document, ids: &Vec<u32>) -> (out: String)
    ensures
        out@ == nodes_json(*doc, ids@),
{
    let mut out = String::new();
    let mut i: usize = 0;
    assert(out@ =~= nodes_json(*doc, ids@.take(0)));
    while i < ids.len()
        invariant
            i <= ids@.len(),
            out@ == nodes_json(*doc, ids@.take(i as int)),
        decreases ids@.len() - i,
    {
        proof {
            let next = ids@.take(i + 1);
            assert(next.drop_last() =~= ids@.take(i as int));
        }
        out = put_comma(out, i == 0);
        let part = node_source(doc, ids[i]);
        out.append(part.as_str());
        i += 1;
    }
    assert(ids@.take(i as int) =~= ids@);
    out
}

/// Appends one member.
fn put_member<N: Numbers>(out: String, first: bool, doc: &Document, num: &N, k: &str, v: &Value) -> (r:
    String)
    requires
        num.wf(),
    ensures
        r@ == out@ + comma(first) + "\""@ + json_escaped(k@) + "\": "@ + json_of(
            *doc,
            nums(num),
            v@,
        ),
    decreases v, 1nat,
{
    let mut out = put_comma(out, first);
    out.append("\"");
    push_json_escaped(&mut out, k);
    out.append("\": ");
    let part = write_value_json(doc, num, v);
    out.append(part.as_str());
    out
}

#[verifier::spinoff_prover]
fn write_members<N: Numbers>(doc: &Document, num: &N, v: &Vec<(String, Value)>) -> (out: String)
    requires
        num.wf(),
    ensures
        out@ == members_json(*doc, nums(num), member_views(v@)),
    decreases v,
{
    let ghost all = member_views(v@);
    let mut out = String::new();
    let mut i: usize = 0;
    assert(out@ =~= members_json(*doc, nums(num), all.take(0)));
    while i < v.len()
        invariant
            num.wf(),
            i <= v@.len(),
            all == member_views(v@),
            out@ == members_json(*doc, nums(num), all.take(i as int)),
        decreases v@.len() - i,
    {
        let ghost next = all.take(i + 1);
        assert(next.drop_last() =~= all.take(i as int));
        assert(next.last() == all[i as int]);
        assert(decreases_to!(v => v@[i as int]));
        out = put_comma(out, i == 0);
        out.append("\"");
        push_json_escaped(&mut out, v[i].0.as_str());
        out.append("\": ");
        let part = write_value_json(doc, num, &v[i].1);
        out.append(part.as_str());
        i += 1;
        assert(out@ == members_json(*doc, nums(num), next));
    }
    assert(all.take(i as int) =~= all);
    out
}

#[verifier::spinoff_prover]
fn write_items<N: Numbers>(doc: &Document, num: &N, v: &Vec<Value>) -> (out: String)
    requires
        num.wf(),
    ensures
        out@ == items_json(*doc, nums(num), value_views(v@)),
    decreases v,
{
    let ghost all = value_views(v@);
    let mut out = String::new();
    let mut i: usize = 0;
    assert(out@ =~= items_json(*doc, nums(num), all.take(0)));
    while i < v.len()
        invariant
            num.wf(),
            i <= v@.len(),
            all == value_views(v@),
            out@ == items_json(*doc, nums(num), all.take(i as int)),
        decreases v@.len() - i,
    {
        let ghost next = all.take(i + 1);
        assert(next.drop_last() =~= all.take(i as int));
        assert(next.last() == all[i as int]);
        assert(decreases_to!(v => v@[i as int]));
        out = put_comma(out, i == 0);
        let part = write_value_json(doc, num, &v[i]);
        out.append(part.as_str());
        i += 1;
        assert(out@ == items_json(*doc, nums(num), next));
    }
    assert(all.take(i as int) =~= all);
    out
}

/// The kind of a value.
pub open spec fn kind_of_value(doc: Document, v: ValueV) -> NodeKind
    decreases v,
{
    match v {
        ValueV::Null => NodeKind::Null,
        ValueV::Bool(_) => NodeKind::Bool,
        ValueV::Number(_) => NodeKind::Number,
        ValueV::Str(_) => NodeKind::String,
        ValueV::Group { n: Some(_), .. } => NodeKind::Number,
        ValueV::Group { n: None, .. } => NodeKind::Null,
        ValueV::GroupList { .. } => NodeKind::Array,
        ValueV::Array(_) => NodeKind::Array,
        ValueV::Object(_) => NodeKind::Object,
        ValueV::BucketRow(_) => NodeKind::Object,
        ValueV::NamedValue { value, .. } => kind_of_value(doc, *value),
        ValueV::Node(id) => doc.kind_of(id),
    }
}

pub fn value_kind(doc: &Document, v: &Value) -> (k: NodeKind)
    ensures
        k == kind_of_value(*doc, v@),
    decreases v,
{
    match v {
        Value::Null => NodeKind::Null,
        Value::Bool(_) => NodeKind::Bool,
        Value::Number(_) => NodeKind::Number,
        Value::Str(_) => NodeKind::String,
        Value::Group { n, .. } => {
            if n.is_some() {
                NodeKind::Number
            } else {
                NodeKind::Null
            }
        },
        Value::GroupList { .. } => NodeKind::Array,
        Value::Array(_) => NodeKind::Array,
        Value::Object(_) => NodeKind::Object,
        Value::BucketRow(_) => NodeKind::Object,
        Value::NamedValue { value, .. } => value_kind(doc, value),
        Value::Node(id) => doc.node_kind(*id),
    }
}

/// The bytes of a text in UTF-8.
pub open spec fn byte_len(s: Seq<char>) -> nat
    decreases s.len(),
{
    if s.len() == 0 {
        0
    } else {
        byte_len(s.drop_last()) + utf8_bytes(s.last() as u32 as nat).len()
    }
}

/// How many of the first `i` characters fit into `cap` bytes.
pub open spec fn fitting(s: Seq<char>, cap: nat, i: nat) -> nat
    decreases i,
{
    if i == 0 || byte_len(s.take(i as int)) <= cap {
        i
    } else {
        fitting(s, cap, (i - 1) as nat)
    }
}

/// A text of at most `cap` bytes; what does not fit becomes an ellipsis.
pub open spec fn shortened(s: Seq<char>, cap: nat) -> Seq<char> {
    if byte_len(s) <= cap {
        s
    } else {
        s.take(fitting(s, cap, s.len()) as int) + "\u{2026}"@
    }
}

/// A longer prefix has no fewer bytes.
proof fn byte_len_grows(s: Seq<char>, i: int, j: int)
    requires
        0 <= i <= j <= s.len(),
    ensures
        byte_len(s.take(i)) <= byte_len(s.take(j)),
    decreases j,
{
    if i < j {
        assert(s.take(j).drop_last() =~= s.take(j - 1));
        byte_len_grows(s, i, j - 1);
    }
}

/// The prefix before the first character that does not fit is the longest.
proof fn fitting_is_longest(s: Seq<char>, cap: nat, k: nat, i: nat)
    requires
        k <= i <= s.len(),
        byte_len(s.take(k as int)) <= cap,
        k < s.len() ==> byte_len(s.take((k + 1) as int)) > cap,
    ensures
        fitting(s, cap, i) == k,
    decreases i,
{
    if i > k {
        byte_len_grows(s, (k + 1) as int, i as int);
        fitting_is_longest(s, cap, k, (i - 1) as nat);
    }
}

pub fn truncate(s: &str, cap: usize) -> (out: String)
    ensures
        out@ == shortened(s@, cap as nat),
{
    let chars = chars_of(s);
    let mut used: usize = 0;
    let mut i: usize = 0;
    assert(chars@.take(0) =~= Seq::empty());
    while i < chars.len()
        invariant
            chars@ == s@,
            i <= chars@.len(),
            used == byte_len(s@.take(i as int)),
            used <= cap,
        decreases chars@.len() - i,
    {
        let size = encode_char(chars[i]).len();
        proof {
            let next = s@.take(i + 1);
            assert(next.drop_last() =~= s@.take(i as int));
            assert(next.last() == s@[i as int]);
            assert(byte_len(next) == used + utf8_bytes(next.last() as u32 as nat).len());
            assert(size == utf8_bytes(next.last() as u32 as nat).len());
        }
        if size > cap - used {
            proof {
                byte_len_grows(s@, i + 1, s@.len() as int);
                assert(s@.take(s@.len() as int) =~= s@);
                fitting_is_longest(s@, cap as nat, i as nat, s@.len());
            }
            let mut out = string_from(chars.as_slice(), 0, i);
            assert(out@ =~= s@.take(i as int));
            out.append("\u{2026}");
            return out;
        }
        used = used + size;
        i += 1;
    }
    assert(s@.take(i as int) =~= s@);
    s.to_owned()
}

/// "item" or "items".
pub open spec fn counted_text(k: nat, one: Seq<char>, many: Seq<char>) -> Seq<char> {
    decimal_text(k) + " "@ + if k == 1 {
        one
    } else {
        many
    }
}

fn write_counted(k: u64, one: &str, many: &str) -> (out: String)
    ensures
        out@ == counted_text(k as nat, one@, many@),
{
    let mut out = decimal(k);
    out.append(" ");
    if k == 1 {
        out.append(one);
    } else {
        out.append(many);
    }
    out
}

/// A short text of a value: containers by their size, everything else by its
/// JSON.
pub open spec fn preview_of(doc: Document, n: Nums, v: ValueV, cap: nat) -> Seq<char>
    decreases v,
{
    match v {
        ValueV::GroupList { members, .. } => "["@ + counted_text(members.len(), "item"@, "items"@)
            + "]"@,
        ValueV::Array(items) => "["@ + counted_text(items.len(), "item"@, "items"@) + "]"@,
        ValueV::BucketRow(f) => shortened(
            "{"@ + members_json(
                doc,
                n,
                if f.len() > 0 {
                    f.subrange(1, f.len() as int)
                } else {
                    f
                },
            ) + "}"@,
            cap,
        ),
        ValueV::NamedValue { value, .. } => preview_of(doc, n, *value, cap),
        ValueV::Node(id) => node_preview(doc, id, cap),
        _ => shortened(json_of(doc, n, v), cap),
    }
}

pub open spec fn node_preview(doc: Document, id: u32, cap: nat) -> Seq<char> {
    match doc.kind_of(id) {
        NodeKind::Object => "{ "@ + counted_text(kids_count(doc, id), "key"@, "keys"@) + " }"@,
        NodeKind::Array => "[ "@ + counted_text(kids_count(doc, id), "item"@, "items"@) + " ]"@,
        _ => shortened(
            match doc.value_span(id) {
                Some(b) => text_of(b),
                None => Seq::empty(),
            },
            cap,
        ),
    }
}

pub open spec fn kids_count(doc: Document, id: u32) -> nat {
    match doc.rec(id) {
        Some(r) => r.child_count as nat,
        None => 0,
    }
}

fn count_kids(doc: &Document, id: u32) -> (k: u64)
    ensures
        k == kids_count(*doc, id),
{
    match doc.record(id) {
        Some(r) => r.child_count as u64,
        None => 0,
    }
}

fn wrapped(open: &str, inside: String, close: &str) -> (out: String)
    ensures
        out@ == open@ + inside@ + close@,
{
    let mut out = open.to_owned();
    out.append(inside.as_str());
    out.append(close);
    out
}

fn preview_node(doc: &Document, id: u32, cap: usize) -> (out: String)
    ensures
        out@ == node_preview(*doc, id, cap as nat),
{
    match doc.node_kind(id) {
        NodeKind::Object => wrapped("{ ", write_counted(count_kids(doc, id), "key", "keys"), " }"),
        NodeKind::Array => wrapped(
            "[ ",
            write_counted(count_kids(doc, id), "item", "items"),
            " ]",
        ),
        _ => match doc.value_bytes(id) {
            Some(b) => truncate(read_text(b).as_str(), cap),
            None => {
                let none = String::new();
                assert(none@ =~= Seq::empty());
                truncate(none.as_str(), cap)
            },
        },
    }
}

/// The members after the first.
fn write_outputs<N: Numbers>(doc: &Document, num: &N, v: &Vec<(String, Value)>) -> (out: String)
    requires
        num.wf(),
    ensures
        out@ == members_json(
            *doc,
            nums(num),
            if v@.len() > 0 {
                member_views(v@).subrange(1, v@.len() as int)
            } else {
                member_views(v@)
            },
        ),
{
    let ghost all = if v@.len() > 0 {
        member_views(v@).subrange(1, v@.len() as int)
    } else {
        member_views(v@)
    };
    let mut out = String::new();
    let mut i: usize = 1;
    assert(out@ =~= members_json(*doc, nums(num), all.take(0)));
    while i < v.len()
        invariant
            num.wf(),
            1 <= i,
            i <= v@.len() || v@.len() == 0,
            all == if v@.len() > 0 {
                member_views(v@).subrange(1, v@.len() as int)
            } else {
                member_views(v@)
            },
            v@.len() == 0 ==> i == 1 && out@ == members_json(*doc, nums(num), all.take(0)),
            v@.len() > 0 ==> out@ == members_json(*doc, nums(num), all.take(i - 1)),
        decreases v@.len() - i,
    {
        proof {
            let next = all.take(i as int);
            assert(next.drop_last() =~= all.take(i - 1));
            assert(next.last() == member_views(v@)[i as int]);
        }
        out = put_member(out, i == 1, doc, num, v[i].0.as_str(), &v[i].1);
        i += 1;
    }
    proof {
        assert(all.take(all.len() as int) =~= all);
    }
    out
}

pub fn value_preview<N: Numbers>(doc: &Document, num: &N, v: &Value, cap: usize) -> (out: String)
    requires
        num.wf(),
    ensures
        out@ == preview_of(*doc, nums(num), v@, cap as nat),
    decreases v,
{
    match v {
        Value::GroupList { members, .. } => wrapped(
            "[",
            write_counted(members.len() as u64, "item", "items"),
            "]",
        ),
        Value::Array(items) => {
            assert(value_views(items@).len() == items@.len());
            wrapped("[", write_counted(items.len() as u64, "item", "items"), "]")
        },
        Value::BucketRow(f) => {
            assert(member_views(f@).len() == f@.len());
            let text = wrapped("{", write_outputs(doc, num, f), "}");
            truncate(text.as_str(), cap)
        },
        Value::NamedValue { value, .. } => value_preview(doc, num, value, cap),
        Value::Node(id) => preview_node(doc, *id, cap),
        _ => {
            let text = write_value_json(doc, num, v);
            truncate(text.as_str(), cap)
        },
    }
}

/// Without the quotes at its ends.
pub open spec fn bare_front(s: Seq<char>) -> Seq<char>
    decreases s.len(),
{
    if s.len() > 0 && s[0] == '"' {
        bare_front(s.subrange(1, s.len() as int))
    } else {
        s
    }
}

pub open spec fn bare_back(s: Seq<char>) -> Seq<char>
    decreases s.len(),
{
    if s.len() > 0 && s.last() == '"' {
        bare_back(s.drop_last())
    } else {
        s
    }
}

fn trim_quotes(s: &str) -> (r: String)
    ensures
        r@ == bare_back(bare_front(s@)),
{
    let chars = chars_of(s);
    let mut a: usize = 0;
    assert(chars@.subrange(0, chars@.len() as int) =~= chars@);
    while a < chars.len() && chars[a] == '"'
        invariant
            a <= chars@.len(),
            bare_front(chars@) == bare_front(chars@.subrange(a as int, chars@.len() as int)),
        decreases chars@.len() - a,
    {
        proof {
            let t = chars@.subrange(a as int, chars@.len() as int);
            assert(t.subrange(1, t.len() as int) =~= chars@.subrange(
                a + 1,
                chars@.len() as int,
            ));
        }
        a += 1;
    }
    let mut b: usize = chars.len();
    while b > a && chars[b - 1] == '"'
        invariant
            a <= b <= chars@.len(),
            bare_back(chars@.subrange(a as int, chars@.len() as int)) == bare_back(
                chars@.subrange(a as int, b as int),
            ),
        decreases b,
    {
        proof {
            let t = chars@.subrange(a as int, b as int);
            assert(t.drop_last() =~= chars@.subrange(a as int, b - 1));
        }
        b -= 1;
    }
    string_from(chars.as_slice(), a, b)
}

/// The path of a row: that of a node, the name of a group or an output, or a
/// marked text for a value that stands nowhere in the document.
pub open spec fn row_path(doc: Document, n: Nums, v: ValueV) -> Seq<char> {
    match v {
        ValueV::Node(id) => text_of(path_text(steps_to(doc, id))),
        ValueV::Null => "(synthetic) null"@,
        ValueV::Bool(b) => "(synthetic) "@ + if b {
            "true"@
        } else {
            "false"@
        },
        ValueV::Number(x) => "(synthetic) "@ + shortened((n.text)(x), 64),
        ValueV::Str(s) => "(synthetic) \""@ + shortened(json_escaped(s), 60) + "\""@,
        ValueV::Group { key, .. } => key,
        ValueV::GroupList { key, .. } => key,
        ValueV::Object(f) => "(synthetic) { "@ + decimal_text(f.len()) + " keys }"@,
        ValueV::Array(v) => "(synthetic) [ "@ + decimal_text(v.len()) + " items ]"@,
        ValueV::NamedValue { name, .. } => name,
        ValueV::BucketRow(f) => if f.len() == 0 {
            "(synthetic) { }"@
        } else {
            bare_back(bare_front(json_of(doc, n, f[0].1)))
        },
    }
}

pub fn value_path<N: Numbers>(doc: &Document, num: &N, v: &Value) -> (out: String)
    requires
        num.wf(),
        parents_first(*doc),
    ensures
        out@ == row_path(*doc, nums(num), v@),
{
    match v {
        Value::Node(id) => read_text(compute_path(doc, *id).as_slice()),
        Value::Null => "(synthetic) null".to_owned(),
        Value::Bool(b) => {
            let mut out = "(synthetic) ".to_owned();
            if *b {
                out.append("true");
            } else {
                out.append("false");
            }
            out
        },
        Value::Number(x) => {
            let mut out = "(synthetic) ".to_owned();
            let text = num.write(*x);
            let part = truncate(text.as_str(), 64);
            out.append(part.as_str());
            out
        },
        Value::Str(s) => {
            let mut text = String::new();
            push_json_escaped(&mut text, s.as_str());
            assert(text@ =~= json_escaped(s@));
            wrapped("(synthetic) \"", truncate(text.as_str(), 60), "\"")
        },
        Value::Group { key, .. } => key.clone(),
        Value::GroupList { key, .. } => key.clone(),
        Value::Object(f) => {
            assert(member_views(f@).len() == f@.len());
            wrapped("(synthetic) { ", decimal(f.len() as u64), " keys }")
        },
        Value::Array(items) => {
            assert(value_views(items@).len() == items@.len());
            wrapped("(synthetic) [ ", decimal(items.len() as u64), " items ]")
        },
        Value::NamedValue { name, .. } => name.clone(),
        Value::BucketRow(f) => {
            assert(member_views(f@).len() == f@.len());
            if f.len() == 0 {
                return "(synthetic) { }".to_owned();
            }
            assert(member_views(f@)[0].1 == f@[0].1@);
            let text = write_value_json(doc, num, &f[0].1);
            trim_quotes(text.as_str())
        },
    }
}

/// A row of a result: its kind, its path and its value.
#[derive(Debug)]
pub struct QueryResult {
    pub kind: u8,
    pub path: String,
    pub value: Value,
}

/// The row that a value makes.
pub open spec fn is_row_of(r: QueryResult, doc: Document, n: Nums, v: ValueV) -> bool {
    r.kind == kind_of_value(doc, v).code() && r.path@ == row_path(doc, n, v) && r.value@ == v
}

pub fn make_result<N: Numbers>(doc: &Document, num: &N, v: Value) -> (r: QueryResult)
    requires
        num.wf(),
        parents_first(*doc),
    ensures
        is_row_of(r, *doc, nums(num), v@),
{
    let kind = value_kind(doc, &v).to_u8();
    let path = value_path(doc, num, &v);
    QueryResult { kind, path, value: v }
}

} // verus!
