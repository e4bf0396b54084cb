//! Fingerprints: bytes that tell values apart, for `distinct`.
//!
//! A node's fingerprint is its source text, and a string's is the JSON that it
//! is written as, so a string and a node that spells it are the same. The
//! fingerprints of other values are tagged.
use vstd::bytes::{spec_u32_to_le_bytes, spec_u64_to_le_bytes, u32_to_le_bytes, u64_to_le_bytes};
use vstd::prelude::*;

use super::super::number::{nums, Nums, Numbers};
use super::super::value::{member_views, scalar, value_views, Scalar, ScalarV, Value, ValueV};
use crate::document::Document;
use crate::interleaving::plain_string_bytes;
use crate::sidecar::{utf8, utf8_of};
use crate::text::{json_escaped, push_json_escaped, utf8_bytes};

verus! {

/// A comma, except before the first item.
pub open spec fn between(first: bool) -> Seq<u8> {
    if first {
        Seq::empty()
    } else {
        utf8_of(","@)
    }
}

/// A string as JSON.
pub open spec fn spelled(s: Seq<char>) -> Seq<u8> {
    utf8_of("\""@) + utf8_of(json_escaped(s)) + utf8_of("\""@)
}

/// The fingerprint of a value.
pub open spec fn print_of(doc: Document, n: Nums, v: ValueV) -> Seq<u8>
    decreases v,
{
    match v {
        ValueV::Node(id) => match doc.value_span(id) {
            Some(b) => utf8_of("N"@) + b,
            None => utf8_of("N#"@) + spec_u32_to_le_bytes(id),
        },
        ValueV::Null => utf8_of("Snull"@),
        ValueV::Bool(b) => if b {
            utf8_of("Strue"@)
        } else {
            utf8_of("Sfalse"@)
        },
        ValueV::Number(x) => utf8_of("#"@) + utf8_of((n.text)(x)),
        ValueV::Str(s) => utf8_of("N"@) + spelled(s),
        ValueV::Group { key, n: x } => utf8_of("G("@) + utf8_of(key) + utf8_of(","@) + (match x {
            Some(y) => utf8_of((n.text)(y)),
            None => utf8_of("-"@),
        }) + utf8_of(")"@),
        ValueV::GroupList { key, members } => utf8_of("GL("@) + utf8_of(key) + utf8_of(","@)
            + spec_u64_to_le_bytes(members.len() as u64) + utf8_of(")"@),
        ValueV::Object(fields) => utf8_of("O{"@) + members_print(doc, n, fields) + utf8_of("}"@),
        ValueV::BucketRow(fields) => utf8_of("O{"@) + members_print(doc, n, fields) + utf8_of("}"@),
        ValueV::Array(items) => utf8_of("A["@) + items_print(doc, n, items) + utf8_of("]"@),
        ValueV::NamedValue { name, value } => utf8_of("V{\""@) + utf8_of(name) + utf8_of("\":"@)
            + print_of(doc, n, *value) + utf8_of("}"@),
    }
}

pub open spec fn members_print(doc: Document, n: Nums, v: Seq<(Seq<char>, ValueV)>) -> Seq<u8>
    decreases v,
{
    if v.len() == 0 {
        Seq::empty()
    } else {
        members_print(doc, n, v.drop_last()) + between(v.len() == 1) + utf8_of("\""@) + utf8_of(
            v.last().0,
        ) + utf8_of("\":"@) + print_of(doc, n, v.last().1)
    }
}

pub open spec fn items_print(doc: Document, n: Nums, v: Seq<ValueV>) -> Seq<u8>
    decreases v,
{
    if v.len() == 0 {
        Seq::empty()
    } else {
        items_print(doc, n, v.drop_last()) + between(v.len() == 1) + print_of(doc, n, v.last())
    }
}

/// The text of a value inside a group key of several parts.
pub open spec fn group_key_text(doc: Document, n: Nums, v: ValueV) -> Seq<char> {
    match scalar(doc, n, v) {
        ScalarV::Null => "null"@,
        ScalarV::Bool(b) => if b {
            "true"@
        } else {
            "false"@
        },
        ScalarV::Number(x) => (n.text)(x),
        ScalarV::Str(s) => s,
        ScalarV::Container(_) => "(container)"@,
    }
}

/// A string and a node whose source text spells it have one fingerprint.
pub proof fn strings_print_like_nodes(doc: Document, n: Nums, id: u32, s: Seq<char>)
    requires
        doc.value_span(id) == Some(spelled(s)),
    ensures
        print_of(doc, n, ValueV::Str(s)) == print_of(doc, n, ValueV::Node(id)),
{
}

/// Where a character stands in the bytes of a text.
proof fn char_bytes(s: Seq<char>, i: int)
    requires
        0 <= i < s.len(),
    ensures
        (s[i] as u32) < 0x80 ==> exists|j: int|
            0 <= j < utf8_of(s).len() && #[trigger] utf8_of(s)[j] == s[i] as u32,
    decreases s.len(),
{
    let head = utf8_of(s.drop_last());
    let last = utf8_bytes(s.last() as u32 as nat);
    assert(utf8_of(s) == head + last);
    if (s[i] as u32) < 0x80 {
        if i == s.len() - 1 {
            assert(utf8_of(s)[head.len() as int] == last[0]);
        } else {
            char_bytes(s.drop_last(), i);
            let j = choose|j: int| 0 <= j < head.len() && #[trigger] head[j] == s[i] as u32;
            assert(utf8_of(s)[j] == head[j]);
        }
    }
}

/// A backslash among the bytes of a text is one among its characters.
proof fn no_backslash(s: Seq<char>, j: int)
    requires
        forall|i: int| 0 <= i < s.len() ==> s[i] != '\\',
        0 <= j < utf8_of(s).len(),
    ensures
        utf8_of(s)[j] != 0x5C,
    decreases s.len(),
{
    let head = utf8_of(s.drop_last());
    let last = utf8_bytes(s.last() as u32 as nat);
    assert(utf8_of(s) == head + last);
    if j < head.len() {
        assert(utf8_of(s)[j] == head[j]);
        no_backslash(s.drop_last(), j);
    } else {
        assert(utf8_of(s)[j] == last[j - head.len()]);
        let c = s[s.len() - 1];
        assert(c != '\\');
        let u = c as u32;
        if u == 0x5C {
            vstd::utf8::char_u32_cast(c, u);
            vstd::utf8::char_u32_cast('\\', u);
        }
        vstd::utf8::char_is_scalar(c);
        assert(forall|k: int| 0 <= k < last.len() ==> #[trigger] last[k] == u || last[k] >= 0x80);
    }
}

proof fn unescaped_as_it_stands(s: Seq<char>)
    requires
        forall|i: int|
            0 <= i < s.len() ==> (#[trigger] s[i]) != '"' && s[i] != '\\' && s[i] as u32 >= 0x20,
    ensures
        json_escaped(s) == s,
    decreases s.len(),
{
    if s.len() > 0 {
        assert forall|i: int| 0 <= i < s.drop_last().len() implies (#[trigger] s.drop_last()[i])
            != '"' && s.drop_last()[i] != '\\' && s.drop_last()[i] as u32 >= 0x20 by {
            assert(s.drop_last()[i] == s[i]);
        }
        unescaped_as_it_stands(s.drop_last());
        assert(json_escaped(s) =~= s);
    } else {
        assert(json_escaped(s) =~= s);
    }
}

/// In a parsed document a string without quotes and backslashes has the
/// fingerprint of every node whose bytes are the string in quotes.
pub proof fn plain_strings_print_like_nodes(
    doc: Document,
    source: Seq<u8>,
    n: Nums,
    id: u32,
    s: Seq<char>,
)
    requires
        source.len() <= u64::MAX,
        doc.indexes(source),
        doc.value_span(id) == Some(utf8_of("\""@) + utf8_of(s) + utf8_of("\""@)),
        forall|i: int| 0 <= i < s.len() ==> (#[trigger] s[i]) != '"' && s[i] != '\\',
    ensures
        print_of(doc, n, ValueV::Str(s)) == print_of(doc, n, ValueV::Node(id)),
{
    let quote = utf8_of("\""@);
    let b = quote + utf8_of(s) + quote;
    reveal_strlit("\"");
    let q = "\""@;
    assert(q =~= seq!['"']);
    assert(q.drop_last() =~= Seq::empty());
    assert(q.last() == '"');
    assert(utf8_of(q.drop_last()) =~= Seq::<u8>::empty());
    assert(quote == utf8_of(q.drop_last()) + utf8_bytes('"' as u32 as nat));
    assert(quote =~= seq![0x22u8]);
    assert forall|j: int| 0 <= j < b.len() implies #[trigger] b[j] != 0x5C by {
        if 1 <= j < b.len() - 1 {
            no_backslash(s, j - 1);
            assert(b[j] == utf8_of(s)[j - 1]);
        }
    }
    plain_string_bytes(doc, source, id, b);
    assert forall|i: int| 0 <= i < s.len() implies (#[trigger] s[i]) != '"' && s[i] != '\\'
        && s[i] as u32 >= 0x20 by {
        if (s[i] as u32) < 0x20 {
            char_bytes(s, i);
            let j = choose|j: int| 0 <= j < utf8_of(s).len() && #[trigger] utf8_of(s)[j] == s[i] as u32;
            assert(b[j + 1] == utf8_of(s)[j]);
        }
    }
    unescaped_as_it_stands(s);
    strings_print_like_nodes(doc, n, id, s);
}

fn spell(s: &str) -> (out: Vec<u8>)
    ensures
        out@ == spelled(s@),
{
    let mut inside = String::new();
    push_json_escaped(&mut inside, s);
    assert(inside@ =~= json_escaped(s@));
    let mut out = utf8("\"");
    put_text(&mut out, inside.as_str());
    put_text(&mut out, "\"");
    out
}

/// The value as a part of a group key.
pub fn value_to_group_key<N: Numbers>(doc: &Document, num: &N, v: &Value) -> (s: String)
    requires
        num.wf(),
    ensures
        s@ == group_key_text(*doc, nums(num), v@),
{
    match Scalar::from_value(doc, num, v) {
        Scalar::Null => "null".to_string(),
        Scalar::Bool(b) => if b {
            "true".to_string()
        } else {
            "false".to_string()
        },
        Scalar::Number(x) => num.write(x),
        Scalar::Str(s) => s,
        Scalar::Container(_) => "(container)".to_string(),
    }
}

fn put(out: &mut Vec<u8>, part: &Vec<u8>)
    ensures
        final(out)@ == old(out)@ + part@,
{
    out.extend_from_slice(part.as_slice());
}

fn put_text(out: &mut Vec<u8>, s: &str)
    ensures
        final(out)@ == old(out)@ + utf8_of(s@),
{
    let part = utf8(s);
    put(out, &part);
}

/// The fingerprint of a value.
#[verifier::spinoff_prover]
pub fn write_fingerprint<N: Numbers>(doc: &Document, num: &N, v: &Value) -> (out: Vec<u8>)
    requires
        num.wf(),
    ensures
        out@ == print_of(*doc, nums(num), v@),
    decreases v,
{
    match v {
        Value::Node(id) => match doc.value_bytes(*id) {
            Some(b) => {
                let mut out = utf8("N");
                out.extend_from_slice(b);
                out
            },
            None => {
                let mut out = utf8("N#");
                let part = u32_to_le_bytes(*id);
                put(&mut out, &part);
                out
            },
        },
        Value::Null => utf8("Snull"),
        Value::Bool(b) => if *b {
            utf8("Strue")
        } else {
            utf8("Sfalse")
        },
        Value::Number(x) => {
            let mut out = utf8("#");
            put_text(&mut out, num.write(*x).as_str());
            out
        },
        Value::Str(s) => {
            let mut out = utf8("N");
            let part = spell(s.as_str());
            put(&mut out, &part);
            out
        },
        Value::Group { key, n } => {
            let mut out = utf8("G(");
            put_text(&mut out, key.as_str());
            put_text(&mut out, ",");
            match n {
                Some(y) => put_text(&mut out, num.write(*y).as_str()),
                None => put_text(&mut out, "-"),
            }
            put_text(&mut out, ")");
            out
        },
        Value::GroupList { key, members } => {
            let mut out = utf8("GL(");
            put_text(&mut out, key.as_str());
            put_text(&mut out, ",");
            let part = u64_to_le_bytes(members.len() as u64);
            put(&mut out, &part);
            put_text(&mut out, ")");
            out
        },
        Value::Object(fields) => {
            let mut out = utf8("O{");
            let part = members_fingerprint(doc, num, fields);
            put(&mut out, &part);
            put_text(&mut out, "}");
            out
        },
        Value::BucketRow(fields) => {
            let mut out = utf8("O{");
            let part = members_fingerprint(doc, num, fields);
            put(&mut out, &part);
            put_text(&mut out, "}");
            out
        },
        Value::Array(items) => {
            let mut out = utf8("A[");
            let part = items_fingerprint(doc, num, items);
            put(&mut out, &part);
            put_text(&mut out, "]");
            out
        },
        Value::NamedValue { name, value } => {
            let mut out = utf8("V{\"");
            put_text(&mut out, name.as_str());
            put_text(&mut out, "\":");
            let part = write_fingerprint(doc, num, value);
            put(&mut out, &part);
            put_text(&mut out, "}");
            out
        },
    }
}

fn put_between(out: &mut Vec<u8>, first: bool)
    ensures
        final(out)@ == old(out)@ + between(first),
{
    let ghost before = out@;
    if !first {
        put_text(out, ",");
    }
    assert(out@ =~= before + between(first));
}

#[verifier::spinoff_prover]
fn members_fingerprint<N: Numbers>(doc: &Document, num: &N, v: &Vec<(String, Value)>) -> (out: Vec<
    u8,
>)
    requires
        num.wf(),
    ensures
        out@ == members_print(*doc, nums(num), member_views(v@)),
    decreases v,
{
    let ghost all = member_views(v@);
    let mut out: Vec<u8> = Vec::new();
    let mut i: usize = 0;
    assert(out@ =~= members_print(*doc, nums(num), all.take(0)));
    while i < v.len()
        invariant
            num.wf(),
            i <= v@.len(),
            all == member_views(v@),
            out@ == members_print(*doc, nums(num), all.take(i as int)),
        decreases v@.len() - i,
    {
        let ghost next = all.take(i + 1);
        assert(next.drop_last() =~= all.take(i as int));
        assert(next.last() == all[i as int]);
        assert(decreases_to!(v => v@[i as int]));
        put_between(&mut out, i == 0);
        put_text(&mut out, "\"");
        put_text(&mut out, v[i].0.as_str());
        put_text(&mut out, "\":");
        let part = write_fingerprint(doc, num, &v[i].1);
        put(&mut out, &part);
        i += 1;
        assert(out@ == members_print(*doc, nums(num), next));
    }
    assert(all.take(i as int) =~= all);
    out
}

#[verifier::spinoff_prover]
fn items_fingerprint<N: Numbers>(doc: &Document, num: &N, v: &Vec<Value>) -> (out: Vec<u8>)
    requires
        num.wf(),
    ensures
        out@ == items_print(*doc, nums(num), value_views(v@)),
    decreases v,
{
    let ghost all = value_views(v@);
    let mut out: Vec<u8> = Vec::new();
    let mut i: usize = 0;
    assert(out@ =~= items_print(*doc, nums(num), all.take(0)));
    while i < v.len()
        invariant
            num.wf(),
            i <= v@.len(),
            all == value_views(v@),
            out@ == items_print(*doc, nums(num), all.take(i as int)),
        decreases v@.len() - i,
    {
        let ghost next = all.take(i + 1);
        assert(next.drop_last() =~= all.take(i as int));
        assert(next.last() == all[i as int]);
        assert(decreases_to!(v => v@[i as int]));
        put_between(&mut out, i == 0);
        let part = write_fingerprint(doc, num, &v[i]);
        put(&mut out, &part);
        i += 1;
        assert(out@ == items_print(*doc, nums(num), next));
    }
    assert(all.take(i as int) =~= all);
    out
}

} // verus!
