//! Scanning the source of a container meets its children in order, those with
//! a record and those without: the proof that the scan agrees with the parser.
use vstd::prelude::*;

use crate::container_scan::{
    children, key_at, next_slot, opening, slot_at, slots, value_slot, Opening, Slot,
};
use crate::document::{
    Document, NodeKind, NodeRecord, FLAG_ARRAY_ELEMENT, FLAG_OBJECT_MEMBER, NULL_NODE,
};
use crate::json::{
    at, digit_at, digits_end, digits_end_range, fraction_part, hex4, hex4_at,
    hex_stop, hex_stop_range, integer_part, is_digit, is_hex, is_high_surrogate, is_ws, number_end,
    number_end_range, string_end, string_end_range, string_text,
    string_text_range, unicode_escape, unicode_escape_range, word_at, ws_end, ws_end_range,
};
use crate::layout::{elements_laid, encloses, members_laid, parsed_is_pre_order, record_ok};
use crate::parser::{
    after, container, document, elements, false_word, member, members, null_word, true_word, value,
    value_range, wrap32, KeyInfo,
};
use crate::path::{child_path, child_step, own_step, path_text, steps_to};
use crate::source_scan::{
    closing_quote, decoded, decoded_from, inline_end, is_number_byte, literal_stop,
    number_stop, string_at,
};

verus! {

/// Whitespace that ends inside a part of the source ends there in the part.
proof fn ws_inside(s: Seq<u8>, a: int, b: int, i: int)
    requires
        0 <= a <= i <= b <= s.len(),
        ws_end(s, i) < b,
    ensures
        ws_end(s.subrange(a, b), i - a) == ws_end(s, i) - a,
        i <= ws_end(s, i),
    decreases b - i,
{
    let t = s.subrange(a, b);
    if is_ws(s[i]) {
        ws_end_range(s, i + 1);
        ws_inside(s, a, b, i + 1);
        assert(t[i - a] == s[i]);
    } else {
        assert(t[i - a] == s[i]);
    }
}

/// A byte that neither closes a string nor escapes is stepped over.
proof fn plain_byte(s: Seq<u8>, a: int, b: int, i: int)
    requires
        0 <= a <= i < b <= s.len(),
        s[i] != 0x22,
        s[i] != 0x5C,
    ensures
        closing_quote(s.subrange(a, b), i - a) == closing_quote(s.subrange(a, b), i + 1 - a),
{
    assert(s.subrange(a, b)[i - a] == s[i]);
}

/// Four hexadecimal digits are stepped over.
proof fn hex_bytes(s: Seq<u8>, a: int, b: int, i: int)
    requires
        0 <= a <= i,
        i + 4 <= b <= s.len(),
        forall|k: int| i <= k < i + 4 ==> is_hex(#[trigger] s[k]),
    ensures
        closing_quote(s.subrange(a, b), i - a) == closing_quote(s.subrange(a, b), i + 4 - a),
{
    assert(is_hex(s[i]) && is_hex(s[i + 1]) && is_hex(s[i + 2]) && is_hex(s[i + 3]));
    plain_byte(s, a, b, i);
    plain_byte(s, a, b, i + 1);
    plain_byte(s, a, b, i + 2);
    plain_byte(s, a, b, i + 3);
}

/// An escape of two bytes is stepped over.
proof fn escape_bytes(s: Seq<u8>, a: int, b: int, i: int)
    requires
        0 <= a <= i,
        i + 1 < b <= s.len(),
        s[i] == 0x5C,
    ensures
        closing_quote(s.subrange(a, b), i - a) == closing_quote(s.subrange(a, b), i + 2 - a),
{
    assert(s.subrange(a, b)[i - a] == s[i]);
}

/// The closing quote of a decoded string.
proof fn quote_of_text(s: Seq<u8>, a: int, b: int, i: int)
    requires
        0 <= a <= i <= s.len(),
        string_text(s, i) is Ok,
        string_text(s, i)->Ok_0.0 <= b <= s.len(),
    ensures
        closing_quote(s.subrange(a, b), i - a) == Some(string_text(s, i)->Ok_0.0 - 1 - a),
        i < string_text(s, i)->Ok_0.0,
    decreases s.len() - i,
{
    string_text_range(s, i);
    let t = s.subrange(a, b);
    if s[i] == 0x22 {
        assert(t[i - a] == s[i]);
    } else if s[i] == 0x5C {
        if at(s, i + 1, 0x75) {
            let (end, code) = unicode_escape(s, i + 2)->Ok_0;
            unicode_escape_range(s, i + 2);
            string_text_range(s, end);
            quote_of_text(s, a, b, end);
            hex_stop_range(s, i + 2, 4);
            escape_bytes(s, a, b, i);
            hex_bytes(s, a, b, i + 2);
            if is_high_surrogate(hex4(s, i + 2)) {
                hex_stop_range(s, i + 8, 4);
                escape_bytes(s, a, b, i + 6);
                hex_bytes(s, a, b, i + 8);
            }
        } else {
            string_text_range(s, i + 2);
            quote_of_text(s, a, b, i + 2);
            escape_bytes(s, a, b, i);
        }
    } else {
        string_text_range(s, i + 1);
        quote_of_text(s, a, b, i + 1);
        plain_byte(s, a, b, i);
    }
}

/// The closing quote of a string that is not decoded.
proof fn quote_of_end(s: Seq<u8>, a: int, b: int, i: int)
    requires
        0 <= a <= i <= s.len(),
        string_end(s, i) is Ok,
        string_end(s, i)->Ok_0 <= b <= s.len(),
    ensures
        closing_quote(s.subrange(a, b), i - a) == Some(string_end(s, i)->Ok_0 - 1 - a),
        i < string_end(s, i)->Ok_0,
    decreases s.len() - i,
{
    string_end_range(s, i);
    let t = s.subrange(a, b);
    if s[i] == 0x22 {
        assert(t[i - a] == s[i]);
    } else if s[i] == 0x5C {
        if s[i + 1] == 0x75 {
            hex_stop_range(s, i + 2, 4);
            string_end_range(s, i + 6);
            quote_of_end(s, a, b, i + 6);
            escape_bytes(s, a, b, i);
            hex_bytes(s, a, b, i + 2);
        } else {
            string_end_range(s, i + 2);
            quote_of_end(s, a, b, i + 2);
            escape_bytes(s, a, b, i);
        }
    } else {
        string_end_range(s, i + 1);
        quote_of_end(s, a, b, i + 1);
        plain_byte(s, a, b, i);
    }
}

proof fn digits_are_number_bytes(s: Seq<u8>, i: int)
    requires
        0 <= i <= s.len(),
    ensures
        i <= digits_end(s, i) <= s.len(),
        forall|k: int| i <= k < digits_end(s, i) ==> is_number_byte(#[trigger] s[k]),
    decreases s.len() - i,
{
    digits_end_range(s, i);
    if digit_at(s, i) {
        digits_are_number_bytes(s, i + 1);
    }
}

/// A number is made of the bytes that the scan steps over.
proof fn number_bytes(s: Seq<u8>, i: int)
    requires
        0 <= i <= s.len(),
        number_end(s, i) is Ok,
    ensures
        i < number_end(s, i)->Ok_0 <= s.len(),
        forall|k: int| i <= k < number_end(s, i)->Ok_0 ==> is_number_byte(#[trigger] s[k]),
{
    number_end_range(s, i);
    let j = if at(s, i, 0x2D) {
        i + 1
    } else {
        i
    };
    if !at(s, j, 0x30) {
        digits_are_number_bytes(s, j + 1);
    }
    let x = integer_part(s, i)->Ok_0;
    if at(s, x, 0x2E) {
        digits_are_number_bytes(s, x + 1);
    }
    let y = fraction_part(s, x)->Ok_0;
    if at(s, y, 0x65) || at(s, y, 0x45) {
        let k = if at(s, y + 1, 0x2B) || at(s, y + 1, 0x2D) {
            y + 2
        } else {
            y + 1
        };
        digits_are_number_bytes(s, k);
    }
}

proof fn number_stops(s: Seq<u8>, a: int, b: int, i: int, e: int)
    requires
        0 <= a <= i <= e < b <= s.len(),
        forall|k: int| i <= k < e ==> is_number_byte(#[trigger] s[k]),
        !is_number_byte(s[e]),
    ensures
        number_stop(s.subrange(a, b), i - a) == e - a,
    decreases e - i,
{
    let t = s.subrange(a, b);
    assert(t[i - a] == s[i]);
    if i < e {
        number_stops(s, a, b, i + 1, e);
    }
}

proof fn word_inside(s: Seq<u8>, a: int, b: int, i: int, word: Seq<u8>)
    requires
        0 <= a <= i,
        i + word.len() <= b <= s.len(),
        word_at(s, i, word),
    ensures
        literal_stop(s.subrange(a, b), i - a, word) == i + word.len() - a,
{
    let t = s.subrange(a, b);
    assert(t.subrange(i - a, i - a + word.len()) =~= s.subrange(i, i + word.len()));
}

/// A primitive without a record ends where the scan says, if it is followed
/// by what may follow a value.
proof fn primitive_ends(
    s: Seq<u8>,
    a: int,
    b: int,
    i: int,
    parent: u32,
    key: KeyInfo,
    base: nat,
    key_base: nat,
)
    requires
        0 <= a <= i <= b <= s.len(),
        value(s, i, parent, key, base, key_base) is Ok,
        value(s, i, parent, key, base, key_base)->Ok_0.records.len() == 0,
        value(s, i, parent, key, base, key_base)->Ok_0.end < b,
        !is_number_byte(s[value(s, i, parent, key, base, key_base)->Ok_0.end]),
    ensures
        inline_end(s.subrange(a, b), ws_end(s, i) - a) == value(
            s,
            i,
            parent,
            key,
            base,
            key_base,
        )->Ok_0.end - a,
{
    let v = value(s, i, parent, key, base, key_base)->Ok_0;
    let start = ws_end(s, i);
    ws_end_range(s, i);
    let t = s.subrange(a, b);
    if s[start] == 0x7B || s[start] == 0x5B {
        value_range(s, i, parent, key, base, key_base);
        assert(container(s, start, parent, key, base, key_base)->Ok_0.records.len() > 0);
    } else if s[start] == 0x22 {
        quote_of_end(s, a, b, start + 1);
        assert(t[start - a] == s[start]);
    } else if s[start] == 0x74 {
        assert(t[start - a] == s[start]);
        word_inside(s, a, b, start, true_word());
    } else if s[start] == 0x66 {
        assert(t[start - a] == s[start]);
        word_inside(s, a, b, start, false_word());
    } else if s[start] == 0x6E {
        assert(t[start - a] == s[start]);
        word_inside(s, a, b, start, null_word());
    } else {
        number_bytes(s, start);
        assert(t[start - a] == s[start]);
        number_stops(s, a, b, start, v.end);
    }
}

proof fn hex_inside(s: Seq<u8>, a: int, b: int, i: int, n: nat)
    requires
        0 <= a <= i,
        hex_stop(s, i, n) == i + n,
        i + n <= b <= s.len(),
    ensures
        hex_stop(s.subrange(a, b), i - a, n) == i + n - a,
    decreases n,
{
    if n > 0 {
        hex_stop_range(s, i, n);
        assert(s.subrange(a, b)[i - a] == s[i]);
        if is_hex(s[i]) {
            hex_inside(s, a, b, i + 1, (n - 1) as nat);
        }
    }
}

proof fn hex4_inside(s: Seq<u8>, a: int, b: int, i: int)
    requires
        0 <= a <= i,
        hex_stop(s, i, 4) == i + 4,
        i + 4 <= b <= s.len(),
    ensures
        hex4_at(s.subrange(a, b), i - a) == hex4_at(s, i),
{
    hex_inside(s, a, b, i, 4);
    let t = s.subrange(a, b);
    assert(t[i - a] == s[i] && t[i - a + 1] == s[i + 1] && t[i - a + 2] == s[i + 2] && t[i - a + 3]
        == s[i + 3]);
}

/// A `\\u` escape reads the same inside a part of the source.
#[verifier::spinoff_prover]
proof fn escape_inside(s: Seq<u8>, a: int, b: int, i: int)
    requires
        0 <= a <= i <= s.len(),
        unicode_escape(s, i) is Ok,
        unicode_escape(s, i)->Ok_0.0 <= b <= s.len(),
    ensures
        unicode_escape(s.subrange(a, b), i - a) == Ok::<(int, nat), crate::error::Fault>(
            (unicode_escape(s, i)->Ok_0.0 - a, unicode_escape(s, i)->Ok_0.1),
        ),
{
    let t = s.subrange(a, b);
    unicode_escape_range(s, i);
    hex_stop_range(s, i, 4);
    hex4_inside(s, a, b, i);
    if is_high_surrogate(hex4(s, i)) {
        hex_stop_range(s, i + 6, 4);
        hex4_inside(s, a, b, i + 6);
        assert(t[i + 4 - a] == s[i + 4] && t[i + 5 - a] == s[i + 5]);
    }
}

/// A key decodes to the same text from the raw bytes between its quotes.
#[verifier::spinoff_prover]
proof fn decoded_text(s: Seq<u8>, a: int, b: int, i: int)
    requires
        0 <= a <= i <= s.len(),
        string_text(s, i) is Ok,
        string_text(s, i)->Ok_0.0 == b + 1,
        b < s.len(),
    ensures
        decoded_from(s.subrange(a, b), i - a) == Some(string_text(s, i)->Ok_0.1),
    decreases s.len() - i,
{
    string_text_range(s, i);
    let t = s.subrange(a, b);
    if s[i] == 0x22 {
        assert(i == b);
    } else if s[i] == 0x5C {
        if at(s, i + 1, 0x75) {
            let (end, code) = unicode_escape(s, i + 2)->Ok_0;
            unicode_escape_range(s, i + 2);
            string_text_range(s, end);
            decoded_text(s, a, b, end);
            escape_inside(s, a, b, i + 2);
            assert(t[i - a] == s[i] && t[i + 1 - a] == s[i + 1]);
        } else {
            string_text_range(s, i + 2);
            decoded_text(s, a, b, i + 2);
            assert(t[i - a] == s[i] && t[i + 1 - a] == s[i + 1]);
        }
    } else {
        string_text_range(s, i + 1);
        decoded_text(s, a, b, i + 1);
        assert(t[i - a] == s[i]);
    }
}

/// Record `j` of an index is what parsing a container gives: `parent`, `key`
/// and `key_base` are what the parser knew when it opened the container.
pub open spec fn parsed_at(
    s: Seq<u8>,
    recs: Seq<NodeRecord>,
    keys: nat,
    j: int,
    parent: u32,
    key: KeyInfo,
    key_base: nat,
) -> bool {
    let start = recs[j].offset as int;
    &&& 0 <= start < s.len()
    &&& s[start] == 0x7B || s[start] == 0x5B
    &&& container(s, start, parent, key, j as nat, key_base) matches Ok(v) && {
        &&& j + v.records.len() <= recs.len()
        &&& v.records == recs.subrange(j, j + v.records.len())
        &&& key_base + v.keys.len() <= keys
    }
}

/// How a container of the index was parsed.
pub struct Origin {
    pub parent: u32,
    pub key: KeyInfo,
    pub key_base: nat,
}

/// Container `j` among the records of a value comes from a parse.
proof fn value_origin(
    s: Seq<u8>,
    recs: Seq<NodeRecord>,
    keys: nat,
    i: int,
    parent: u32,
    key: KeyInfo,
    base: nat,
    key_base: nat,
    j: int,
) -> (o: Origin)
    requires
        0 <= i <= s.len() <= u64::MAX,
        value(s, i, parent, key, base, key_base) is Ok,
        ({
            let v = value(s, i, parent, key, base, key_base)->Ok_0;
            &&& base + v.records.len() <= recs.len()
            &&& v.records == recs.subrange(base as int, (base + v.records.len()) as int)
            &&& key_base + v.keys.len() <= keys
            &&& base <= j < base + v.records.len()
        }),
        NodeKind::of_code(recs[j].kind).is_container(),
    ensures
        parsed_at(s, recs, keys, j, o.parent, o.key, o.key_base),
    decreases s.len() - i, 2nat,
{
    let start = ws_end(s, i);
    ws_end_range(s, i);
    let v = value(s, i, parent, key, base, key_base)->Ok_0;
    assert(v.records[j - base] == recs[j]);
    if s[start] == 0x7B || s[start] == 0x5B {
        container_origin(s, recs, keys, start, parent, key, base, key_base, j)
    } else {
        assert(false);
        arbitrary()
    }
}

proof fn container_origin(
    s: Seq<u8>,
    recs: Seq<NodeRecord>,
    keys: nat,
    start: int,
    parent: u32,
    key: KeyInfo,
    base: nat,
    key_base: nat,
    j: int,
) -> (o: Origin)
    requires
        0 <= start < s.len() <= u64::MAX,
        s[start] == 0x7B || s[start] == 0x5B,
        container(s, start, parent, key, base, key_base) is Ok,
        ({
            let v = container(s, start, parent, key, base, key_base)->Ok_0;
            &&& base + v.records.len() <= recs.len()
            &&& v.records == recs.subrange(base as int, (base + v.records.len()) as int)
            &&& key_base + v.keys.len() <= keys
            &&& base <= j < base + v.records.len()
        }),
        NodeKind::of_code(recs[j].kind).is_container(),
    ensures
        parsed_at(s, recs, keys, j, o.parent, o.key, o.key_base),
    decreases s.len() - start, 1nat,
{
    let v = container(s, start, parent, key, base, key_base)->Ok_0;
    assert(v.records[0] == recs[base as int]);
    if j == base {
        Origin { parent, key, key_base }
    } else {
        let first = ws_end(s, start + 1);
        ws_end_range(s, start + 1);
        if s[start] == 0x7B {
            let c = members(s, first, base as u32, base + 1, key_base)->Ok_0;
            assert(v.records =~= seq![v.records[0]] + c.records);
            assert(forall|x: int|
                0 <= x < c.records.len() ==> #[trigger] c.records[x] == v.records[x + 1]);
            assert(forall|x: int|
                0 <= x < v.records.len() ==> #[trigger] v.records[x] == recs[base + x]);
            assert(c.records =~= recs.subrange(base + 1int, base + 1int + c.records.len()));
            members_origin(s, recs, keys, first, base as u32, base + 1, key_base, j)
        } else {
            let c = elements(s, first, base as u32, 0, base + 1, key_base)->Ok_0;
            assert(v.records =~= seq![v.records[0]] + c.records);
            assert(forall|x: int|
                0 <= x < c.records.len() ==> #[trigger] c.records[x] == v.records[x + 1]);
            assert(forall|x: int|
                0 <= x < v.records.len() ==> #[trigger] v.records[x] == recs[base + x]);
            assert(c.records =~= recs.subrange(base + 1int, base + 1int + c.records.len()));
            elements_origin(s, recs, keys, first, base as u32, 0, base + 1, key_base, j)
        }
    }
}

proof fn elements_origin(
    s: Seq<u8>,
    recs: Seq<NodeRecord>,
    keys: nat,
    i: int,
    node: u32,
    index: nat,
    base: nat,
    key_base: nat,
    j: int,
) -> (o: Origin)
    requires
        0 <= i <= s.len() <= u64::MAX,
        elements(s, i, node, index, base, key_base) is Ok,
        ({
            let c = elements(s, i, node, index, base, key_base)->Ok_0;
            &&& base + c.records.len() <= recs.len()
            &&& c.records == recs.subrange(base as int, (base + c.records.len()) as int)
            &&& key_base + c.keys.len() <= keys
            &&& base <= j < base + c.records.len()
        }),
        NodeKind::of_code(recs[j].kind).is_container(),
    ensures
        parsed_at(s, recs, keys, j, o.parent, o.key, o.key_base),
    decreases s.len() - i, 4nat,
{
    let key = KeyInfo::ArrayElement { index: wrap32(index) };
    let c = elements(s, i, node, index, base, key_base)->Ok_0;
    let v = value(s, i, node, key, base, key_base)->Ok_0;
    value_range(s, i, node, key, base, key_base);
    ws_end_range(s, v.end);
    let n = v.records.len();
    assert(v.records =~= c.records.take(n as int));
    assert(v.records =~= recs.subrange(base as int, (base + n) as int));
    if j < base + n {
        value_origin(s, recs, keys, i, node, key, base, key_base, j)
    } else {
        let e = after(s, v.end, 0x5D)->More_0;
        let rest = elements(s, e, node, index + 1, base + n, key_base + v.keys.len())->Ok_0;
        assert(rest.records =~= c.records.skip(n as int));
        assert(rest.records =~= recs.subrange(
            (base + n) as int,
            (base + n + rest.records.len()) as int,
        ));
        elements_origin(s, recs, keys, e, node, index + 1, base + n, key_base + v.keys.len(), j)
    }
}

proof fn members_origin(
    s: Seq<u8>,
    recs: Seq<NodeRecord>,
    keys: nat,
    i: int,
    node: u32,
    base: nat,
    key_base: nat,
    j: int,
) -> (o: Origin)
    requires
        0 <= i <= s.len() <= u64::MAX,
        members(s, i, node, base, key_base) is Ok,
        ({
            let c = members(s, i, node, base, key_base)->Ok_0;
            &&& base + c.records.len() <= recs.len()
            &&& c.records == recs.subrange(base as int, (base + c.records.len()) as int)
            &&& key_base + c.keys.len() <= keys
            &&& base <= j < base + c.records.len()
        }),
        NodeKind::of_code(recs[j].kind).is_container(),
    ensures
        parsed_at(s, recs, keys, j, o.parent, o.key, o.key_base),
    decreases s.len() - i, 4nat,
{
    let c = members(s, i, node, base, key_base)->Ok_0;
    let m = member(s, i, node, base, key_base)->Ok_0;
    let k = ws_end(s, i);
    ws_end_range(s, i);
    string_text_range(s, k + 1);
    let (key_end, text) = string_text(s, k + 1)->Ok_0;
    let colon = ws_end(s, key_end);
    ws_end_range(s, key_end);
    let key = KeyInfo::ObjectMember { key_offset: key_base as u64, key_length: text.len() as u32 };
    let v = value(s, colon + 1, node, key, base, key_base + text.len())->Ok_0;
    value_range(s, colon + 1, node, key, base, key_base + text.len());
    ws_end_range(s, v.end);
    let n = v.records.len();
    assert(m.records == v.records);
    assert(v.records =~= c.records.take(n as int));
    assert(v.records =~= recs.subrange(base as int, (base + n) as int));
    if j < base + n {
        value_origin(s, recs, keys, colon + 1, node, key, base, key_base + text.len(), j)
    } else {
        let e = after(s, v.end, 0x7D)->More_0;
        let rest = members(s, e, node, base + n, key_base + m.keys.len())->Ok_0;
        assert(rest.records =~= c.records.skip(n as int));
        assert(rest.records =~= recs.subrange(
            (base + n) as int,
            (base + n + rest.records.len()) as int,
        ));
        members_origin(s, recs, keys, e, node, base + n, key_base + m.keys.len(), j)
    }
}

/// The first record of a value is its own.
proof fn value_head(s: Seq<u8>, i: int, parent: u32, key: KeyInfo, base: nat, key_base: nat)
    requires
        0 <= i <= s.len() <= u64::MAX,
        base <= NULL_NODE,
        parent < base,
        value(s, i, parent, key, base, key_base) is Ok,
        value(s, i, parent, key, base, key_base)->Ok_0.records.len() > 0,
    ensures
        ({
            let v = value(s, i, parent, key, base, key_base)->Ok_0;
            let r = v.records[0];
            &&& r.offset == ws_end(s, i)
            &&& r.length == v.end - ws_end(s, i)
            &&& r.subtree_size == v.records.len()
            &&& r.parent == parent
            &&& match key {
                KeyInfo::Root => r.flags == 0,
                KeyInfo::ObjectMember { key_offset, key_length } => r.flags == FLAG_OBJECT_MEMBER
                    && r.key_or_index == key_offset && r.key_length == key_length,
                KeyInfo::ArrayElement { index } => r.flags == FLAG_ARRAY_ELEMENT && r.key_or_index
                    == index,
            }
        }),
{
    ws_end_range(s, i);
    value_range(s, i, parent, key, base, key_base);
    crate::layout::value_laid(s, i, parent, key, base, key_base);
    let start = ws_end(s, i);
    if s[start] == 0x7B || s[start] == 0x5B {
        ws_end_range(s, start + 1);
    } else if s[start] == 0x22 {
        string_end_range(s, start + 1);
    }
}

/// The chain's record from `base` on, when the children end before `end_id`.
pub open spec fn next_record(base: int, end_id: int) -> u32 {
    if base < end_id {
        base as u32
    } else {
        NULL_NODE
    }
}

/// What follows a value is no part of a number.
proof fn value_is_cut_off(s: Seq<u8>, end: int, close: u8)
    requires
        0 <= end <= s.len(),
        close == 0x7D || close == 0x5D,
        !(after(s, end, close) is Bad),
    ensures
        end <= ws_end(s, end) < s.len(),
        !is_number_byte(s[end]),
{
    ws_end_range(s, end);
}

/// The slot of a value.
#[verifier::spinoff_prover]
proof fn value_slot_of(
    doc: Document,
    o: Opening,
    b: int,
    i: int,
    node: u32,
    key: KeyInfo,
    base: nat,
    key_base: nat,
    start: int,
    key_end: int,
)
    requires
        0 <= o.offset <= i <= b <= doc.source@.len() <= u64::MAX,
        o.source == doc.source@.subrange(o.offset, b),
        node < base <= o.end_id <= doc.records@.len() <= NULL_NODE,
        value(doc.source@, i, node, key, base, key_base) is Ok,
        ({
            let v = value(doc.source@, i, node, key, base, key_base)->Ok_0;
            &&& v.end < b
            &&& !is_number_byte(doc.source@[v.end])
            &&& base + v.records.len() <= o.end_id
            &&& v.records == doc.records@.subrange(base as int, (base + v.records.len()) as int)
            &&& v.records.len() == 0 && base < o.end_id ==> doc.records@[base as int].offset
                > ws_end(doc.source@, i)
        }),
    ensures
        ({
            let v = value(doc.source@, i, node, key, base, key_base)->Ok_0;
            let t = value_slot(
                doc,
                o,
                start,
                key_end,
                ws_end(doc.source@, i) - o.offset,
                next_record(base as int, o.end_id),
            );
            &&& i <= ws_end(doc.source@, i) < v.end
            &&& t.start == start
            &&& t.key_end == key_end
            &&& t.end == v.end - o.offset
            &&& t.next == next_record((base + v.records.len()) as int, o.end_id)
            &&& t.id == if v.records.len() > 0 {
                base as u32
            } else {
                NULL_NODE
            }
        }),
{
    let s = doc.source@;
    let v = value(s, i, node, key, base, key_base)->Ok_0;
    ws_end_range(s, i);
    value_range(s, i, node, key, base, key_base);
    let next = next_record(base as int, o.end_id);
    if v.records.len() > 0 {
        value_head(s, i, node, key, base, key_base);
        assert(doc.records@[base as int] == v.records[0]);
        assert(doc.rec(next) == Some(v.records[0]));
    } else {
        primitive_ends(s, o.offset, b, i, node, key, base, key_base);
        assert(!o.meets(doc, ws_end(s, i) - o.offset, next));
    }
    no_value_before(s, i, node, key, base, key_base);
}

/// The child in a slot: a record that knows its place, or a primitive whose
/// key can be read.
pub open spec fn child_ok(doc: Document, o: Opening, node: u32, slot: Slot, index: nat) -> bool {
    if slot.id != NULL_NODE {
        &&& node < slot.id
        &&& doc.rec(slot.id) matches Some(r) && r.parent == node && if o.kind == NodeKind::Object {
            r.flags == FLAG_OBJECT_MEMBER && doc.key_span(r) is Some
        } else {
            r.flags == FLAG_ARRAY_ELEMENT && r.key_or_index == wrap32(index)
        }
    } else {
        o.kind == NodeKind::Object ==> decoded(
            o.source.subrange(slot.start + 1, slot.key_end),
        ) is Some
    }
}

/// Record `j` is in one of the slots.
pub open spec fn met(all: Seq<Slot>, j: int) -> bool {
    exists|k: int| 0 <= k < all.len() && (#[trigger] all[k]).id == j
}

/// Of the records of a value only the first hangs in the value's parent.
proof fn only_child(
    s: Seq<u8>,
    i: int,
    node: u32,
    key: KeyInfo,
    base: nat,
    key_base: nat,
    j: int,
)
    requires
        0 <= i <= s.len() <= u64::MAX,
        node < base <= NULL_NODE,
        value(s, i, node, key, base, key_base) is Ok,
        base <= j < base + value(s, i, node, key, base, key_base)->Ok_0.records.len(),
    ensures
        value(s, i, node, key, base, key_base)->Ok_0.records[j - base].parent == node ==> j == base,
{
    let v = value(s, i, node, key, base, key_base)->Ok_0;
    value_head(s, i, node, key, base, key_base);
    crate::layout::value_laid(s, i, node, key, base, key_base);
    assert(record_ok(v.records, base as int, node, i, v.end, 0)) by {
        let r = v.records[0];
    }
    if j > base {
        assert(encloses(v.records, 0, j - base));
    }
}

/// The slots of an array's elements.
#[verifier::spinoff_prover]
#[verifier::rlimit(40)]
proof fn elements_slots(
    doc: Document,
    o: Opening,
    b: int,
    i: int,
    node: u32,
    index: nat,
    base: nat,
    key_base: nat,
)
    requires
        0 <= o.offset <= i <= b <= doc.source@.len() <= u64::MAX,
        o.source == doc.source@.subrange(o.offset, b),
        o.kind == NodeKind::Array,
        node < base <= o.end_id <= doc.records@.len() <= NULL_NODE,
        elements(doc.source@, i, node, index, base, key_base) is Ok,
        ({
            let c = elements(doc.source@, i, node, index, base, key_base)->Ok_0;
            &&& c.end == b
            &&& base + c.records.len() == o.end_id
            &&& c.records == doc.records@.subrange(base as int, o.end_id)
        }),
    ensures
        ({
            let c = elements(doc.source@, i, node, index, base, key_base)->Ok_0;
            let all = slots(
                doc,
                o,
                ws_end(doc.source@, i) - o.offset,
                next_record(base as int, o.end_id),
            );
            &&& i <= ws_end(doc.source@, i) < b
            &&& all.len() == c.count
            &&& forall|k: int|
                0 <= k < all.len() ==> child_ok(doc, o, node, #[trigger] all[k], (index + k) as nat)
            &&& forall|j: int|
                base <= j < o.end_id && #[trigger] doc.records@[j].parent == node ==> met(all, j)
        }),
    decreases doc.source@.len() - i,
{
    let s = doc.source@;
    let a = o.offset;
    let key = KeyInfo::ArrayElement { index: wrap32(index) };
    let c = elements(s, i, node, index, base, key_base)->Ok_0;
    let v = value(s, i, node, key, base, key_base)->Ok_0;
    let n = v.records.len();
    value_range(s, i, node, key, base, key_base);
    ws_end_range(s, v.end);
    value_is_cut_off(s, v.end, 0x5D);
    assert(v.records =~= c.records.take(n as int));
    assert(v.records =~= doc.records@.subrange(base as int, (base + n) as int));
    let e = ws_end(s, v.end);
    let pos = ws_end(s, i) - a;
    let next = next_record(base as int, o.end_id);
    if after(s, v.end, 0x5D) is More {
        let rest = elements(s, e + 1, node, index + 1, base + n, key_base + v.keys.len())->Ok_0;
        elements_laid(s, e + 1, node, index + 1, base + n, key_base + v.keys.len());
        assert(rest.records =~= c.records.skip(n as int));
        assert(rest.records =~= doc.records@.subrange((base + n) as int, o.end_id));
        if n == 0 && base < o.end_id {
            assert(record_ok(rest.records, base as int, node, e + 1, rest.end, 0)) by {
                let r = rest.records[0];
            }
            assert(rest.records[0] == doc.records@[base as int]);
            ws_end_range(s, i);
            no_value_before(s, i, node, key, base, key_base);
        }
        value_slot_of(doc, o, b, i, node, key, base, key_base, pos, pos);
        elements_slots(doc, o, b, e + 1, node, index + 1, base + n, key_base + v.keys.len());
    } else {
        if n == 0 {
            assert(base == o.end_id);
        }
        value_slot_of(doc, o, b, i, node, key, base, key_base, pos, pos);
    }
    let slot = slot_at(doc, o, pos, next)->0;
    ws_inside(s, a, b, v.end);
    assert(o.source[e - a] == s[e]);
    if n > 0 {
        value_head(s, i, node, key, base, key_base);
        assert(doc.records@[base as int] == v.records[0]);
    }
    assert(child_ok(doc, o, node, slot, index));
    let all = slots(doc, o, pos, next);
    if after(s, v.end, 0x5D) is More {
        ws_inside(s, a, b, e + 1);
        let p = ws_end(s, e + 1) - a;
        assert(next_slot(o.source, slot.end) == Some(p));
        let rest = slots(doc, o, p, slot.next);
        assert(all == seq![slot] + rest);
        slots_follow(doc, o, node, index, slot, rest, all);
        assert forall|j: int| base <= j < o.end_id && #[trigger] doc.records@[j].parent == node implies met(
            all,
            j,
        ) by {
            assert(all[0] == slot);
            if j >= base + n {
                let k = choose|k: int| 0 <= k < rest.len() && (#[trigger] rest[k]).id == j;
                assert(all[k + 1] == rest[k]);
            } else {
                only_child(s, i, node, key, base, key_base, j);
                assert(doc.records@[j] == v.records[j - base]);
            }
        }
    } else {
        assert(next_slot(o.source, slot.end) is None);
        assert(all == seq![slot]);
        assert forall|j: int| base <= j < o.end_id && #[trigger] doc.records@[j].parent == node implies met(
            all,
            j,
        ) by {
            assert(all[0] == slot);
            only_child(s, i, node, key, base, key_base, j);
            assert(doc.records@[j] == v.records[j - base]);
        }
    }
}

/// A value starts before it ends.
proof fn no_value_before(s: Seq<u8>, i: int, node: u32, key: KeyInfo, base: nat, key_base: nat)
    requires
        0 <= i <= s.len() <= u64::MAX,
        base <= NULL_NODE,
        node < base,
        value(s, i, node, key, base, key_base) is Ok,
    ensures
        i <= ws_end(s, i) < value(s, i, node, key, base, key_base)->Ok_0.end,
{
    ws_end_range(s, i);
    let start = ws_end(s, i);
    value_range(s, i, node, key, base, key_base);
    if s[start] == 0x7B || s[start] == 0x5B {
        value_head(s, i, node, key, base, key_base);
        crate::layout::value_laid(s, i, node, key, base, key_base);
        let v = value(s, i, node, key, base, key_base)->Ok_0;
        assert(record_ok(v.records, base as int, node, i, v.end, 0)) by {
            let r = v.records[0];
        }
    } else if s[start] == 0x22 {
        string_end_range(s, start + 1);
    } else if s[start] == 0x2D || is_digit(s[start]) {
        number_end_range(s, start);
    }
}

/// The slot of one member.
#[verifier::spinoff_prover]
#[verifier::rlimit(40)]
proof fn member_slot(
    doc: Document,
    o: Opening,
    b: int,
    i: int,
    node: u32,
    index: nat,
    base: nat,
    key_base: nat,
)
    requires
        0 <= o.offset <= i <= b <= doc.source@.len() <= u64::MAX,
        o.source == doc.source@.subrange(o.offset, b),
        o.kind == NodeKind::Object,
        node < base <= o.end_id <= doc.records@.len() <= NULL_NODE,
        member(doc.source@, i, node, base, key_base) is Ok,
        ({
            let m = member(doc.source@, i, node, base, key_base)->Ok_0;
            &&& m.end < b
            &&& !is_number_byte(doc.source@[m.end])
            &&& base + m.records.len() <= o.end_id
            &&& m.records == doc.records@.subrange(base as int, (base + m.records.len()) as int)
            &&& m.records.len() == 0 && base < o.end_id ==> doc.records@[base as int].offset
                >= m.end
            &&& key_base + m.keys.len() <= doc.keys@.len() <= u64::MAX
        }),
    ensures
        ({
            let s = doc.source@;
            let m = member(s, i, node, base, key_base)->Ok_0;
            let t = slot_at(doc, o, ws_end(s, i) - o.offset, next_record(base as int, o.end_id));
            &&& i <= ws_end(s, i) < m.end
            &&& t is Some
            &&& t->0.end == m.end - o.offset
            &&& t->0.next == next_record((base + m.records.len()) as int, o.end_id)
            &&& child_ok(doc, o, node, t->0, index)
            &&& forall|j: int|
                base <= j < base + m.records.len() && #[trigger] doc.records@[j].parent == node
                    ==> t->0.id == j
        }),
{
    let s = doc.source@;
    let a = o.offset;
    let m = member(s, i, node, base, key_base)->Ok_0;
    let k0 = ws_end(s, i);
    ws_end_range(s, i);
    string_text_range(s, k0 + 1);
    let (key_end, text) = string_text(s, k0 + 1)->Ok_0;
    let colon = ws_end(s, key_end);
    ws_end_range(s, key_end);
    let key = KeyInfo::ObjectMember { key_offset: key_base as u64, key_length: text.len() as u32 };
    let kb = key_base + text.len();
    let v = value(s, colon + 1, node, key, base, kb)->Ok_0;
    let n = v.records.len();
    value_range(s, colon + 1, node, key, base, kb);
    no_value_before(s, colon + 1, node, key, base, kb);
    assert(m.records == v.records && m.end == v.end);
    let pos = k0 - a;
    let next = next_record(base as int, o.end_id);
    value_slot_of(doc, o, b, colon + 1, node, key, base, kb, pos, key_end - 1 - a);
    quote_of_text(s, a, b, k0 + 1);
    assert(o.source[k0 - a] == s[k0]);
    ws_inside(s, a, b, key_end);
    assert(o.source[colon - a] == s[colon]);
    ws_inside(s, a, b, colon + 1);
    assert(string_at(o.source, pos) == Some(key_end - 1 - a));
    assert(key_at(o.source, pos) == Some((key_end - 1 - a, ws_end(s, colon + 1) - a)));
    let slot = slot_at(doc, o, pos, next)->0;
    if n > 0 {
        value_head(s, colon + 1, node, key, base, kb);
        assert(doc.records@[base as int] == v.records[0]);
        assert(m.keys == text + v.keys);
        assert(key_base + text.len() <= doc.keys@.len());
    } else {
        decoded_text(s, k0 + 1, key_end - 1, k0 + 1);
        assert(o.source.subrange(slot.start + 1, slot.key_end) =~= s.subrange(
            k0 + 1,
            key_end - 1,
        ));
    }
    assert(child_ok(doc, o, node, slot, index));
    assert forall|j: int| base <= j < base + n && #[trigger] doc.records@[j].parent == node implies
        slot.id == j by {
        only_child(s, colon + 1, node, key, base, kb, j);
        assert(doc.records@[j] == v.records[j - base]);
    }
}

/// The slots of an object's members.
#[verifier::spinoff_prover]
#[verifier::rlimit(40)]
proof fn members_slots(
    doc: Document,
    o: Opening,
    b: int,
    i: int,
    node: u32,
    index: nat,
    base: nat,
    key_base: nat,
)
    requires
        0 <= o.offset <= i <= b <= doc.source@.len() <= u64::MAX,
        o.source == doc.source@.subrange(o.offset, b),
        o.kind == NodeKind::Object,
        node < base <= o.end_id <= doc.records@.len() <= NULL_NODE,
        members(doc.source@, i, node, base, key_base) is Ok,
        ({
            let c = members(doc.source@, i, node, base, key_base)->Ok_0;
            &&& c.end == b
            &&& base + c.records.len() == o.end_id
            &&& c.records == doc.records@.subrange(base as int, o.end_id)
            &&& key_base + c.keys.len() <= doc.keys@.len() <= u64::MAX
        }),
    ensures
        ({
            let c = members(doc.source@, i, node, base, key_base)->Ok_0;
            let all = slots(
                doc,
                o,
                ws_end(doc.source@, i) - o.offset,
                next_record(base as int, o.end_id),
            );
            &&& i <= ws_end(doc.source@, i) < b
            &&& all.len() == c.count
            &&& forall|k: int|
                0 <= k < all.len() ==> child_ok(doc, o, node, #[trigger] all[k], (index + k) as nat)
            &&& forall|j: int|
                base <= j < o.end_id && #[trigger] doc.records@[j].parent == node ==> met(all, j)
        }),
    decreases doc.source@.len() - i,
{
    let s = doc.source@;
    let a = o.offset;
    let c = members(s, i, node, base, key_base)->Ok_0;
    let m = member(s, i, node, base, key_base)->Ok_0;
    let n = m.records.len();
    crate::parser::member_range(s, i, node, base, key_base);
    ws_end_range(s, m.end);
    value_is_cut_off(s, m.end, 0x7D);
    assert(m.records =~= c.records.take(n as int));
    assert(m.records =~= doc.records@.subrange(base as int, (base + n) as int));
    let e = ws_end(s, m.end);
    let pos = ws_end(s, i) - a;
    let next = next_record(base as int, o.end_id);
    let more = after(s, m.end, 0x7D) is More;
    let rest_kb = key_base + m.keys.len();
    if more {
        let rest = members(s, e + 1, node, base + n, rest_kb)->Ok_0;
        members_laid(s, e + 1, node, base + n, rest_kb);
        assert(rest.records =~= c.records.skip(n as int));
        assert(rest.records =~= doc.records@.subrange((base + n) as int, o.end_id));
        if n == 0 && base < o.end_id {
            assert(record_ok(rest.records, base as int, node, e + 1, rest.end, 0)) by {
                let r = rest.records[0];
            }
            assert(rest.records[0] == doc.records@[base as int]);
        }
        members_slots(doc, o, b, e + 1, node, index + 1, base + n, rest_kb);
    } else {
        if n == 0 {
            assert(base == o.end_id);
        }
    }
    member_slot(doc, o, b, i, node, index, base, key_base);
    let slot = slot_at(doc, o, pos, next)->0;
    ws_inside(s, a, b, m.end);
    assert(o.source[e - a] == s[e]);
    let all = slots(doc, o, pos, next);
    if more {
        ws_inside(s, a, b, e + 1);
        let p = ws_end(s, e + 1) - a;
        assert(next_slot(o.source, slot.end) == Some(p));
        let rest = slots(doc, o, p, slot.next);
        assert(all == seq![slot] + rest);
        slots_follow(doc, o, node, index, slot, rest, all);
        assert forall|j: int| base <= j < o.end_id && #[trigger] doc.records@[j].parent == node implies met(
            all,
            j,
        ) by {
            assert(all[0] == slot);
            if j >= base + n {
                let k = choose|k: int| 0 <= k < rest.len() && (#[trigger] rest[k]).id == j;
                assert(all[k + 1] == rest[k]);
            }
        }
    } else {
        assert(next_slot(o.source, slot.end) is None);
        assert(all == seq![slot]);
        assert(all[0] == slot);
    }
}

/// A child in front of others.
proof fn slots_follow(
    doc: Document,
    o: Opening,
    node: u32,
    index: nat,
    slot: Slot,
    rest: Seq<Slot>,
    all: Seq<Slot>,
)
    requires
        all == seq![slot] + rest,
        child_ok(doc, o, node, slot, index),
        forall|k: int|
            0 <= k < rest.len() ==> child_ok(
                doc,
                o,
                node,
                #[trigger] rest[k],
                (index + 1 + k) as nat,
            ),
    ensures
        forall|k: int|
            0 <= k < all.len() ==> child_ok(doc, o, node, #[trigger] all[k], (index + k) as nat),
{
    assert forall|k: int| 0 <= k < all.len() implies child_ok(
        doc,
        o,
        node,
        #[trigger] all[k],
        (index + k) as nat,
    ) by {
        if k > 0 {
            assert(all[k] == rest[k - 1]);
        }
    }
}

/// The children that a scan meets in a container of a parsed document: as
/// many as the container counts, each a record that knows its place or a
/// primitive whose key can be read, and among them every record that names
/// the container as its parent.
#[verifier::spinoff_prover]
#[verifier::rlimit(40)]
pub proof fn scan_meets_children(doc: Document, source: Seq<u8>, parent: u32)
    requires
        source.len() <= u64::MAX,
        doc.indexes(source),
        doc.rec(parent) matches Some(r) && NodeKind::of_code(r.kind).is_container(),
    ensures
        ({
            let o = opening(doc, parent)->0;
            let all = children(doc, o);
            &&& opening(doc, parent) is Some
            &&& o.kind == NodeKind::of_code(doc.rec(parent)->0.kind)
            &&& doc.rec(parent)->0.child_count == wrap32(all.len())
            &&& forall|k: int|
                0 <= k < all.len() ==> child_ok(doc, o, parent, #[trigger] all[k], k as nat)
            &&& forall|j: int|
                0 <= j < doc.records@.len() && #[trigger] doc.records@[j].parent == parent ==> met(
                    all,
                    j,
                )
        }),
{
    let s = source;
    let whole = document(s)->Ok_0;
    let recs = doc.records@;
    parsed_is_pre_order(s);
    value_range(s, 0, NULL_NODE, KeyInfo::Root, 0, 0);
    assert(recs =~= recs.subrange(0, recs.len() as int));
    let from = value_origin(
        s,
        recs,
        whole.keys.len(),
        0,
        NULL_NODE,
        KeyInfo::Root,
        0,
        0,
        parent as int,
    );
    let r = recs[parent as int];
    let start = r.offset as int;
    let base = parent as nat;
    let v = container(s, start, from.parent, from.key, base, from.key_base)->Ok_0;
    assert(v.records[0] == r);
    assert(record_ok(recs, 0, NULL_NODE, 0, s.len() as int, parent as int));
    let first = ws_end(s, start + 1);
    ws_end_range(s, start + 1);
    let o = opening(doc, parent)->0;
    let b = v.end;
    assert forall|j: int| 0 <= j < recs.len() && #[trigger] recs[j].parent == parent implies parent
        < j < parent + r.subtree_size by {
        assert(record_ok(recs, 0, NULL_NODE, 0, s.len() as int, j));
        if 0 <= recs[j].parent - 0 < j {
            assert(encloses(recs, parent as int, j));
        }
    }
    if s[start] == 0x7B {
        if at(s, first, 0x7D) {
            ws_inside(s, start, b, start + 1);
            assert(o.source[first - start] == s[first]);
            assert(children(doc, o).len() == 0);
        } else {
            let c = members(s, first, base as u32, base + 1, from.key_base)->Ok_0;
            members_laid(s, first, base as u32, base + 1, from.key_base);
            inner_records(recs, v.records, c.records, base);
            assert(r.length == b - start);
            assert(r.subtree_size == 1 + c.records.len());
            members_slots(doc, o, b, first, parent, 0, base + 1, from.key_base);
            ws_end_twice(s, start + 1);
            ws_inside(s, start, b, start + 1);
            assert(o.source[first - start] == s[first]);
        }
    } else {
        if at(s, first, 0x5D) {
            ws_inside(s, start, b, start + 1);
            assert(o.source[first - start] == s[first]);
            assert(children(doc, o).len() == 0);
        } else {
            let c = elements(s, first, base as u32, 0, base + 1, from.key_base)->Ok_0;
            elements_laid(s, first, base as u32, 0, base + 1, from.key_base);
            inner_records(recs, v.records, c.records, base);
            assert(r.length == b - start);
            assert(r.subtree_size == 1 + c.records.len());
            elements_slots(doc, o, b, first, parent, 0, base + 1, from.key_base);
            ws_end_twice(s, start + 1);
            ws_inside(s, start, b, start + 1);
            assert(o.source[first - start] == s[first]);
        }
    }
}

proof fn ws_end_twice(s: Seq<u8>, i: int)
    requires
        0 <= i <= s.len(),
    ensures
        ws_end(s, ws_end(s, i)) == ws_end(s, i),
{
    ws_end_range(s, i);
}

/// The records behind a container's own are those of its children.
proof fn inner_records(
    recs: Seq<NodeRecord>,
    all: Seq<NodeRecord>,
    inner: Seq<NodeRecord>,
    base: nat,
)
    requires
        base + all.len() <= recs.len(),
        all == recs.subrange(base as int, (base + all.len()) as int),
        all.len() > 0,
        all == seq![all[0]] + inner,
    ensures
        all.len() == 1 + inner.len(),
        inner == recs.subrange(base + 1int, base + 1int + inner.len()),
{
    assert(forall|x: int| 0 <= x < inner.len() ==> #[trigger] inner[x] == all[x + 1]);
    assert(forall|x: int| 0 <= x < all.len() ==> #[trigger] all[x] == recs[base + x]);
    assert(inner =~= recs.subrange(base + 1int, base + 1int + inner.len()));
}

/// In a parsed document a child has a path exactly when its parent is a
/// container with that many children, and the path of a child with a record
/// is that of its record. The index that a record holds has 32 bits.
pub proof fn child_path_is_node_path(doc: Document, source: Seq<u8>, parent: u32, slot: nat)
    requires
        source.len() <= u64::MAX,
        doc.indexes(source),
        slot <= u32::MAX,
    ensures
        child_path(doc, parent, slot) is Some <==> (opening(doc, parent) matches Some(o) && slot
            < children(doc, o).len()),
        opening(doc, parent) is Some <==> (doc.rec(parent) matches Some(r) && NodeKind::of_code(
            r.kind,
        ).is_container()),
        opening(doc, parent) matches Some(o) ==> doc.rec(parent)->0.child_count == wrap32(
            children(doc, o).len(),
        ),
        opening(doc, parent) matches Some(o) ==> (slot < children(doc, o).len() && children(
            doc,
            o,
        )[slot as int].id != NULL_NODE ==> child_path(doc, parent, slot) == Some(
            path_text(steps_to(doc, children(doc, o)[slot as int].id)),
        )),
{
    let container = doc.rec(parent) matches Some(r) && NodeKind::of_code(r.kind).is_container();
    if container {
        scan_meets_children(doc, source, parent);
        let o = opening(doc, parent)->0;
        let all = children(doc, o);
        if slot < all.len() {
            let t = all[slot as int];
            assert(child_ok(doc, o, parent, t, slot));
            assert(1u8 & 1u8 != 0) by (bit_vector);
            assert(2u8 & 1u8 == 0) by (bit_vector);
            assert(2u8 & 2u8 != 0) by (bit_vector);
            assert(child_step(doc, o, t, slot) is Some);
            if t.id != NULL_NODE {
                let r = doc.rec(t.id)->0;
                let step = child_step(doc, o, t, slot)->0;
                parsed_is_pre_order(source);
                assert(own_step(doc, r) == seq![step]);
                assert(steps_to(doc, t.id) == steps_to(doc, parent) + seq![step]);
                assert(steps_to(doc, parent) + seq![step] =~= steps_to(doc, parent).push(step));
            }
        }
    }
}

/// The record is that of a container, or of a string and spans a string of the
/// source.
pub open spec fn spans_string(s: Seq<u8>, r: NodeRecord) -> bool {
    &&& r.kind == NodeKind::String.code() || NodeKind::of_code(r.kind).is_container()
    &&& r.kind == NodeKind::String.code() ==> at(s, r.offset as int, 0x22) && string_end(
        s,
        r.offset + 1,
    ) == Ok::<int, crate::error::Fault>(r.offset + r.length)
    &&& r.kind == NodeKind::Object.code() ==> at(s, r.offset as int, 0x7B)
    &&& r.kind == NodeKind::Array.code() ==> at(s, r.offset as int, 0x5B)
}

pub open spec fn span_strings(s: Seq<u8>, v: Seq<NodeRecord>) -> bool {
    forall|j: int| 0 <= j < v.len() ==> spans_string(s, #[trigger] v[j])
}

proof fn strings_join(s: Seq<u8>, a: Seq<NodeRecord>, b: Seq<NodeRecord>)
    requires
        span_strings(s, a),
        span_strings(s, b),
    ensures
        span_strings(s, a + b),
{
    assert forall|j: int| 0 <= j < (a + b).len() implies spans_string(s, #[trigger] (a + b)[j]) by {
        if j < a.len() {
            assert((a + b)[j] == a[j]);
        } else {
            assert((a + b)[j] == b[j - a.len()]);
        }
    }
}

proof fn value_strings(s: Seq<u8>, i: int, parent: u32, key: KeyInfo, base: nat, key_base: nat)
    requires
        0 <= i <= s.len() <= u64::MAX,
        value(s, i, parent, key, base, key_base) is Ok,
    ensures
        span_strings(s, value(s, i, parent, key, base, key_base)->Ok_0.records),
    decreases s.len() - i, 2nat,
{
    let start = ws_end(s, i);
    ws_end_range(s, i);
    if s[start] == 0x7B || s[start] == 0x5B {
        container_strings(s, start, parent, key, base, key_base);
    } else if s[start] == 0x22 {
        string_end_range(s, start + 1);
    }
}

proof fn container_strings(
    s: Seq<u8>,
    start: int,
    parent: u32,
    key: KeyInfo,
    base: nat,
    key_base: nat,
)
    requires
        0 <= start < s.len() <= u64::MAX,
        s[start] == 0x7B || s[start] == 0x5B,
        container(s, start, parent, key, base, key_base) is Ok,
    ensures
        span_strings(s, container(s, start, parent, key, base, key_base)->Ok_0.records),
    decreases s.len() - start, 1nat,
{
    let v = container(s, start, parent, key, base, key_base)->Ok_0;
    let first = ws_end(s, start + 1);
    ws_end_range(s, start + 1);
    let own = seq![v.records[0]];
    assert(span_strings(s, own));
    if s[start] == 0x7B {
        if !at(s, first, 0x7D) {
            members_strings(s, first, base as u32, base + 1, key_base);
            let c = members(s, first, base as u32, base + 1, key_base)->Ok_0;
            strings_join(s, own, c.records);
            assert(v.records =~= own + c.records);
        }
    } else {
        if !at(s, first, 0x5D) {
            elements_strings(s, first, base as u32, 0, base + 1, key_base);
            let c = elements(s, first, base as u32, 0, base + 1, key_base)->Ok_0;
            strings_join(s, own, c.records);
            assert(v.records =~= own + c.records);
        }
    }
}

proof fn elements_strings(
    s: Seq<u8>,
    i: int,
    node: u32,
    index: nat,
    base: nat,
    key_base: nat,
)
    requires
        0 <= i <= s.len() <= u64::MAX,
        elements(s, i, node, index, base, key_base) is Ok,
    ensures
        span_strings(s, elements(s, i, node, index, base, key_base)->Ok_0.records),
    decreases s.len() - i, 4nat,
{
    let key = KeyInfo::ArrayElement { index: wrap32(index) };
    let v = value(s, i, node, key, base, key_base)->Ok_0;
    value_range(s, i, node, key, base, key_base);
    value_strings(s, i, node, key, base, key_base);
    ws_end_range(s, v.end);
    if after(s, v.end, 0x5D) is More {
        let e = after(s, v.end, 0x5D)->More_0;
        let n = v.records.len();
        elements_strings(s, e, node, index + 1, base + n, key_base + v.keys.len());
        let rest = elements(s, e, node, index + 1, base + n, key_base + v.keys.len())->Ok_0;
        strings_join(s, v.records, rest.records);
    }
}

proof fn members_strings(s: Seq<u8>, i: int, node: u32, base: nat, key_base: nat)
    requires
        0 <= i <= s.len() <= u64::MAX,
        members(s, i, node, base, key_base) is Ok,
    ensures
        span_strings(s, members(s, i, node, base, key_base)->Ok_0.records),
    decreases s.len() - i, 4nat,
{
    let m = member(s, i, node, base, key_base)->Ok_0;
    let k = ws_end(s, i);
    ws_end_range(s, i);
    string_text_range(s, k + 1);
    let (key_end, text) = string_text(s, k + 1)->Ok_0;
    let colon = ws_end(s, key_end);
    ws_end_range(s, key_end);
    let key = KeyInfo::ObjectMember { key_offset: key_base as u64, key_length: text.len() as u32 };
    value_range(s, colon + 1, node, key, base, key_base + text.len());
    value_strings(s, colon + 1, node, key, base, key_base + text.len());
    ws_end_range(s, m.end);
    if after(s, m.end, 0x7D) is More {
        let e = after(s, m.end, 0x7D)->More_0;
        let n = m.records.len();
        members_strings(s, e, node, base + n, key_base + m.keys.len());
        let rest = members(s, e, node, base + n, key_base + m.keys.len())->Ok_0;
        strings_join(s, m.records, rest.records);
    }
}

/// A string without escapes has no control characters.
proof fn no_control_bytes(s: Seq<u8>, i: int, k: int)
    requires
        0 <= i <= k,
        string_end(s, i) is Ok,
        k < string_end(s, i)->Ok_0 - 1,
        forall|j: int| i <= j < string_end(s, i)->Ok_0 ==> s[j] != 0x5C,
    ensures
        s[k] >= 0x20,
        s[k] != 0x22,
    decreases k - i,
{
    assert(s[i] != 0x5C) by {
        if i < s.len() {
            string_end_range(s, i);
        }
    }
    if k > i {
        string_end_range(s, i + 1);
        no_control_bytes(s, i + 1, k);
    } else {
        if s[i] == 0x22 {
            assert(string_end(s, i)->Ok_0 == i + 1);
        }
    }
}

/// In a parsed document a node whose bytes start with a quote and hold no
/// backslash is a string without control characters.
pub proof fn plain_string_bytes(doc: Document, source: Seq<u8>, id: u32, b: Seq<u8>)
    requires
        source.len() <= u64::MAX,
        doc.indexes(source),
        doc.value_span(id) == Some(b),
        b.len() > 0,
        b[0] == 0x22,
        forall|j: int| 0 <= j < b.len() ==> #[trigger] b[j] != 0x5C,
    ensures
        forall|j: int| 1 <= j < b.len() - 1 ==> #[trigger] b[j] >= 0x20,
{
    let s = source;
    let whole = document(s)->Ok_0;
    let recs = doc.records@;
    let r = recs[id as int];
    parsed_is_pre_order(s);
    value_strings(s, 0, NULL_NODE, KeyInfo::Root, 0, 0);
    assert(record_ok(recs, 0, NULL_NODE, 0, s.len() as int, id as int));
    assert(spans_string(s, r));
    assert(b =~= s.subrange(r.offset as int, r.offset + r.length));
    if r.kind == NodeKind::String.code() {
        assert forall|j: int| 1 <= j < b.len() - 1 implies #[trigger] b[j] >= 0x20 by {
            let i = r.offset + 1;
            assert forall|k: int| i <= k < string_end(s, i)->Ok_0 implies s[k] != 0x5C by {
                assert(b[k - r.offset] == s[k]);
            }
            no_control_bytes(s, i, r.offset + j);
            assert(b[j] == s[r.offset + j]);
        }
    } else {
        value_range(s, 0, NULL_NODE, KeyInfo::Root, 0, 0);
        assert(recs =~= recs.subrange(0, recs.len() as int));
        let from = value_origin(
            s,
            recs,
            whole.keys.len(),
            0,
            NULL_NODE,
            KeyInfo::Root,
            0,
            0,
            id as int,
        );
        assert(b[0] == s[r.offset as int]);
    }
}

/// A record is of the kind that its text starts with: a brace for an object, a
/// bracket for an array, a quote for a string.
pub proof fn kinds_follow_the_text(doc: Document, source: Seq<u8>, id: u32, b: Seq<u8>)
    requires
        source.len() <= u64::MAX,
        doc.indexes(source),
        doc.value_span(id) == Some(b),
        b.len() > 0,
    ensures
        doc.kind_of(id) == NodeKind::Object <==> b[0] == 0x7B,
        doc.kind_of(id) == NodeKind::Array <==> b[0] == 0x5B,
        doc.kind_of(id) == NodeKind::String <==> b[0] == 0x22,
{
    let s = source;
    let recs = doc.records@;
    let r = recs[id as int];
    parsed_is_pre_order(s);
    value_strings(s, 0, NULL_NODE, KeyInfo::Root, 0, 0);
    assert(record_ok(recs, 0, NULL_NODE, 0, s.len() as int, id as int));
    assert(spans_string(s, r));
    assert(b =~= s.subrange(r.offset as int, r.offset + r.length));
    crate::document::kind_code_round_trip(NodeKind::of_code(r.kind));
}

} // verus!
