//! The values that flow through an evaluation: nodes of the document, and
//! values that the query makes.
use vstd::prelude::*;

use super::ast::JsonTypeKind;
use super::number::{
    finite, is_finite, num_eq, num_lt, number_less, numbers_equal, nums, Nums, Numbers,
};
use super::order::{before, rank_texts, Rank};
use crate::document::{Document, NodeKind};

verus! {

/// `std`'s `str::from_utf8` takes exactly the bytes that are UTF-8, and gives
/// the text that they encode.
#[verifier::external_body]
pub(crate) fn utf8_text(b: &[u8]) -> (r: Option<String>)
    ensures
        match r {
            Some(s) => vstd::utf8::valid_utf8(b@) && s@ == vstd::utf8::decode_utf8(b@),
            None => !vstd::utf8::valid_utf8(b@),
        },
{
    match std::str::from_utf8(b) {
        Ok(s) => Some(s.to_string()),
        Err(_) => None,
    }
}

/// The text that `String::from_utf8_lossy` makes of these bytes.
pub uninterp spec fn lossy(b: Seq<u8>) -> Seq<char>;

/// `std`'s `String::from_utf8_lossy` reads bytes as UTF-8 and puts a
/// replacement character for what is none. Bytes that are UTF-8 give the text
/// that they encode; bytes below 128 stand for themselves.
#[verifier::external_body]
pub(crate) fn lossy_text(b: &[u8]) -> (s: String)
    ensures
        s@ == lossy(b@),
        vstd::utf8::valid_utf8(b@) ==> s@ == vstd::utf8::decode_utf8(b@),
        (forall|i: int| 0 <= i < b@.len() ==> b@[i] < 128) ==> s@ == Seq::new(
            b@.len(),
            |i: int| b@[i] as char,
        ),
{
    String::from_utf8_lossy(b).into_owned()
}

/// The text of these bytes: what they encode, if they are UTF-8.
pub open spec fn text_of(b: Seq<u8>) -> Seq<char> {
    if vstd::utf8::valid_utf8(b) {
        vstd::utf8::decode_utf8(b)
    } else {
        lossy(b)
    }
}

/// The text of these bytes, with replacement characters for what is no UTF-8.
pub fn read_text(b: &[u8]) -> (s: String)
    ensures
        s@ == text_of(b@),
{
    lossy_text(b)
}

/// A value.
#[derive(Debug)]
pub enum Value {
    Node(u32),
    Null,
    Bool(bool),
    /// The bits of a double.
    Number(u64),
    Str(String),
    /// A reduction of a group; `None` where it saw nothing.
    Group { key: String, n: Option<u64> },
    /// The nodes of a group.
    GroupList { key: String, members: Vec<u32> },
    Object(Vec<(String, Value)>),
    /// A row of an aggregate: the group key first, then its reductions.
    BucketRow(Vec<(String, Value)>),
    /// A named output that is no number.
    NamedValue { name: String, value: Box<Value> },
    Array(Vec<Value>),
}

pub enum ValueV {
    Node(u32),
    Null,
    Bool(bool),
    Number(u64),
    Str(Seq<char>),
    Group { key: Seq<char>, n: Option<u64> },
    GroupList { key: Seq<char>, members: Seq<u32> },
    Object(Seq<(Seq<char>, ValueV)>),
    BucketRow(Seq<(Seq<char>, ValueV)>),
    NamedValue { name: Seq<char>, value: Box<ValueV> },
    Array(Seq<ValueV>),
}

pub open spec fn member_views(v: Seq<(String, Value)>) -> Seq<(Seq<char>, ValueV)>
    decreases v,
{
    Seq::new(
        v.len(),
        |i: int|
            if 0 <= i < v.len() {
                (v[i].0@, v[i].1.view())
            } else {
                arbitrary()
            },
    )
}

pub open spec fn value_views(v: Seq<Value>) -> Seq<ValueV>
    decreases v,
{
    Seq::new(
        v.len(),
        |i: int|
            if 0 <= i < v.len() {
                v[i].view()
            } else {
                arbitrary()
            },
    )
}

impl Value {
    pub open spec fn view(self) -> ValueV
        decreases self,
    {
        match self {
            Value::Node(id) => ValueV::Node(id),
            Value::Null => ValueV::Null,
            Value::Bool(b) => ValueV::Bool(b),
            Value::Number(n) => ValueV::Number(n),
            Value::Str(s) => ValueV::Str(s@),
            Value::Group { key, n } => ValueV::Group { key: key@, n },
            Value::GroupList { key, members } => ValueV::GroupList {
                key: key@,
                members: members@,
            },
            Value::Object(fields) => ValueV::Object(member_views(fields@)),
            Value::BucketRow(fields) => ValueV::BucketRow(member_views(fields@)),
            Value::NamedValue { name, value } => ValueV::NamedValue {
                name: name@,
                value: Box::new(value.view()),
            },
            Value::Array(items) => ValueV::Array(value_views(items@)),
        }
    }

    /// A copy of the value.
    pub fn copy(&self) -> (v: Value)
        ensures
            v@ == self@,
        decreases self,
    {
        match self {
            Value::Node(id) => Value::Node(*id),
            Value::Null => Value::Null,
            Value::Bool(b) => Value::Bool(*b),
            Value::Number(n) => Value::Number(*n),
            Value::Str(s) => Value::Str(s.clone()),
            Value::Group { key, n } => Value::Group { key: key.clone(), n: *n },
            Value::GroupList { key, members } => Value::GroupList {
                key: key.clone(),
                members: copy_ids(members),
            },
            Value::Object(fields) => Value::Object(copy_members(fields)),
            Value::BucketRow(fields) => Value::BucketRow(copy_members(fields)),
            Value::NamedValue { name, value } => Value::NamedValue {
                name: name.clone(),
                value: Box::new(value.copy()),
            },
            Value::Array(items) => Value::Array(copy_values(items)),
        }
    }
}

fn copy_ids(v: &Vec<u32>) -> (out: Vec<u32>)
    ensures
        out@ == v@,
{
    let mut out: Vec<u32> = Vec::new();
    out.extend_from_slice(v.as_slice());
    assert(out@ =~= v@);
    out
}

fn copy_members(v: &Vec<(String, Value)>) -> (out: Vec<(String, Value)>)
    ensures
        member_views(out@) == member_views(v@),
    decreases v,
{
    let mut out: Vec<(String, Value)> = Vec::new();
    let mut i: usize = 0;
    while i < v.len()
        invariant
            i <= v@.len(),
            out@.len() == i,
            forall|k: int|
                0 <= k < i ==> (#[trigger] out@[k]).0@ == v@[k].0@ && out@[k].1@ == v@[k].1@,
        decreases v@.len() - i,
    {
        assert(decreases_to!(v => v@[i as int]));
        let x = v[i].1.copy();
        out.push((v[i].0.clone(), x));
        i += 1;
    }
    assert(member_views(out@) =~= member_views(v@));
    out
}

fn copy_values(v: &Vec<Value>) -> (out: Vec<Value>)
    ensures
        value_views(out@) == value_views(v@),
    decreases v,
{
    let mut out: Vec<Value> = Vec::new();
    let mut i: usize = 0;
    while i < v.len()
        invariant
            i <= v@.len(),
            out@.len() == i,
            forall|k: int| 0 <= k < i ==> (#[trigger] out@[k])@ == v@[k]@,
        decreases v@.len() - i,
    {
        assert(decreases_to!(v => v@[i as int]));
        out.push(v[i].copy());
        i += 1;
    }
    assert(value_views(out@) =~= value_views(v@));
    out
}

/// `true`, as bytes.
pub open spec fn true_bytes() -> Seq<u8> {
    seq![0x74u8, 0x72u8, 0x75u8, 0x65u8]
}

/// The node's text is `true`.
pub open spec fn node_true(doc: Document, id: u32) -> bool {
    doc.value_span(id) == Some(true_bytes())
}

/// Whether the node's text is `true`.
pub fn is_true_node(doc: &Document, id: u32) -> (b: bool)
    ensures
        b == node_true(*doc, id),
{
    match doc.value_bytes(id) {
        Some(s) => {
            if s.len() == 4 && s[0] == 0x74 && s[1] == 0x72 && s[2] == 0x75 && s[3] == 0x65 {
                assert(s@ =~= true_bytes());
                true
            } else {
                assert(s@ != true_bytes());
                false
            }
        },
        None => false,
    }
}

/// Only null and false are not truthy.
pub open spec fn truthy(doc: Document, v: ValueV) -> bool
    decreases v,
{
    match v {
        ValueV::Null => false,
        ValueV::Bool(b) => b,
        ValueV::Number(_) => true,
        ValueV::Str(_) => true,
        ValueV::Group { n, .. } => n is Some,
        ValueV::GroupList { members, .. } => members.len() > 0,
        ValueV::Object(fields) => fields.len() > 0,
        ValueV::BucketRow(fields) => fields.len() > 0,
        ValueV::Array(_) => true,
        ValueV::NamedValue { value, .. } => truthy(doc, *value),
        ValueV::Node(id) => match doc.kind_of(id) {
            NodeKind::Null => false,
            NodeKind::Bool => node_true(doc, id),
            _ => true,
        },
    }
}

impl Value {
    /// Whether the value counts as true.
    pub fn is_truthy(&self, doc: &Document) -> (b: bool)
        ensures
            b == truthy(*doc, self@),
        decreases self,
    {
        match self {
            Value::Null => false,
            Value::Bool(b) => *b,
            Value::Number(_) => true,
            Value::Str(_) => true,
            Value::Group { n, .. } => n.is_some(),
            Value::GroupList { members, .. } => members.len() > 0,
            Value::Object(fields) => {
                assert(member_views(fields@).len() == fields@.len());
                fields.len() > 0
            },
            Value::BucketRow(fields) => {
                assert(member_views(fields@).len() == fields@.len());
                fields.len() > 0
            },
            Value::Array(_) => true,
            Value::NamedValue { value, .. } => value.is_truthy(doc),
            Value::Node(id) => match doc.node_kind(*id) {
                NodeKind::Null => false,
                NodeKind::Bool => is_true_node(doc, *id),
                _ => true,
            },
        }
    }
}

/// A value as a scalar, for comparisons.
#[derive(Debug)]
pub enum Scalar {
    Null,
    Bool(bool),
    Number(u64),
    Str(String),
    /// No scalar: equal to nothing but itself, and in no order.
    Container(u32),
}

pub enum ScalarV {
    Null,
    Bool(bool),
    Number(u64),
    Str(Seq<char>),
    Container(u32),
}

impl View for Scalar {
    type V = ScalarV;

    open spec fn view(&self) -> ScalarV {
        match self {
            Scalar::Null => ScalarV::Null,
            Scalar::Bool(b) => ScalarV::Bool(*b),
            Scalar::Number(n) => ScalarV::Number(*n),
            Scalar::Str(s) => ScalarV::Str(s@),
            Scalar::Container(id) => ScalarV::Container(*id),
        }
    }
}

/// The scalar of a node.
pub open spec fn node_scalar(doc: Document, n: Nums, id: u32) -> ScalarV {
    match doc.kind_of(id) {
        NodeKind::Null => ScalarV::Null,
        NodeKind::Bool => ScalarV::Bool(node_true(doc, id)),
        NodeKind::Number => match doc.value_span(id) {
            Some(b) => match (n.read)(b) {
                Some(x) => ScalarV::Number(x),
                None => ScalarV::Container(id),
            },
            None => ScalarV::Container(id),
        },
        NodeKind::String => match doc.value_span(id) {
            Some(b) => ScalarV::Str(unquoted(b)),
            None => ScalarV::Container(id),
        },
        _ => ScalarV::Container(id),
    }
}

pub open spec fn scalar(doc: Document, n: Nums, v: ValueV) -> ScalarV {
    match v {
        ValueV::Null => ScalarV::Null,
        ValueV::Bool(b) => ScalarV::Bool(b),
        ValueV::Number(x) => ScalarV::Number(x),
        ValueV::Str(s) => ScalarV::Str(s),
        ValueV::Group { n, .. } => match n {
            Some(x) => ScalarV::Number(x),
            None => ScalarV::Null,
        },
        ValueV::Node(id) => node_scalar(doc, n, id),
        _ => ScalarV::Container(0),
    }
}

pub open spec fn scalars_equal(a: ScalarV, b: ScalarV) -> bool {
    match (a, b) {
        (ScalarV::Number(x), ScalarV::Number(y)) => num_eq(x, y),
        _ => a == b,
    }
}

/// How two scalars of one kind stand to each other.
pub open spec fn scalars_rank(a: ScalarV, b: ScalarV) -> Option<Rank> {
    match (a, b) {
        (ScalarV::Null, ScalarV::Null) => Some(Rank::Equal),
        (ScalarV::Bool(x), ScalarV::Bool(y)) => Some(
            if x == y {
                Rank::Equal
            } else if y {
                Rank::Less
            } else {
                Rank::Greater
            },
        ),
        (ScalarV::Number(x), ScalarV::Number(y)) => if num_lt(x, y) {
            Some(Rank::Less)
        } else if num_lt(y, x) {
            Some(Rank::Greater)
        } else if num_eq(x, y) {
            Some(Rank::Equal)
        } else {
            None
        },
        (ScalarV::Str(x), ScalarV::Str(y)) => Some(super::order::rank(x, y)),
        _ => None,
    }
}

impl Scalar {
    /// The scalar of a value.
    pub fn from_value<N: Numbers>(doc: &Document, num: &N, v: &Value) -> (s: Scalar)
        requires
            num.wf(),
        ensures
            s@ == scalar(*doc, nums(num), v@),
    {
        match v {
            Value::Null => Scalar::Null,
            Value::Bool(b) => Scalar::Bool(*b),
            Value::Number(x) => Scalar::Number(*x),
            Value::Str(s) => Scalar::Str(s.clone()),
            Value::Group { n, .. } => match n {
                Some(x) => Scalar::Number(*x),
                None => Scalar::Null,
            },
            Value::Node(id) => match doc.node_kind(*id) {
                NodeKind::Null => Scalar::Null,
                NodeKind::Bool => Scalar::Bool(is_true_node(doc, *id)),
                NodeKind::Number => match doc.value_bytes(*id) {
                    Some(b) => match num.parse(b) {
                        Some(x) => Scalar::Number(x),
                        None => Scalar::Container(*id),
                    },
                    None => Scalar::Container(*id),
                },
                NodeKind::String => match doc.value_bytes(*id) {
                    Some(b) => Scalar::Str(decode_json_string(b)),
                    None => Scalar::Container(*id),
                },
                _ => Scalar::Container(*id),
            },
            _ => Scalar::Container(0),
        }
    }

    pub fn equal(&self, other: &Scalar) -> (r: bool)
        ensures
            r == scalars_equal(self@, other@),
    {
        match (self, other) {
            (Scalar::Null, Scalar::Null) => true,
            (Scalar::Bool(a), Scalar::Bool(b)) => *a == *b,
            (Scalar::Number(a), Scalar::Number(b)) => numbers_equal(*a, *b),
            (Scalar::Str(a), Scalar::Str(b)) => *a.as_str() == *b.as_str(),
            (Scalar::Container(a), Scalar::Container(b)) => *a == *b,
            _ => false,
        }
    }

    /// How two scalars stand to each other; `None` across kinds.
    pub fn compare(&self, other: &Scalar) -> (r: Option<Rank>)
        ensures
            r == scalars_rank(self@, other@),
    {
        match (self, other) {
            (Scalar::Null, Scalar::Null) => Some(Rank::Equal),
            (Scalar::Bool(a), Scalar::Bool(b)) => Some(
                if *a == *b {
                    Rank::Equal
                } else if *b {
                    Rank::Less
                } else {
                    Rank::Greater
                },
            ),
            (Scalar::Number(a), Scalar::Number(b)) => if number_less(*a, *b) {
                Some(Rank::Less)
            } else if number_less(*b, *a) {
                Some(Rank::Greater)
            } else if numbers_equal(*a, *b) {
                Some(Rank::Equal)
            } else {
                None
            },
            (Scalar::Str(a), Scalar::Str(b)) => Some(rank_texts(a.as_str(), b.as_str())),
            _ => None,
        }
    }

    pub fn kind_name(&self) -> (s: &'static str)
        ensures
            s@ == match self@ {
                ScalarV::Null => "null"@,
                ScalarV::Bool(_) => "boolean"@,
                ScalarV::Number(_) => "number"@,
                ScalarV::Str(_) => "string"@,
                ScalarV::Container(_) => "container"@,
            },
    {
        match self {
            Scalar::Null => "null",
            Scalar::Bool(_) => "boolean",
            Scalar::Number(_) => "number",
            Scalar::Str(_) => "string",
            Scalar::Container(_) => "container",
        }
    }
}

/// The value of a hexadecimal digit.
pub open spec fn hex_digit(b: u8) -> Option<int> {
    if 0x30 <= b <= 0x39 {
        Some(b - 0x30)
    } else if 0x61 <= b <= 0x66 {
        Some(b - 0x61 + 10)
    } else if 0x41 <= b <= 0x46 {
        Some(b - 0x41 + 10)
    } else {
        None
    }
}

/// The value of the four hexadecimal digits at `i`.
pub open spec fn hex_code(s: Seq<u8>, i: int) -> Option<int> {
    if i + 4 <= s.len() && hex_digit(s[i]) is Some && hex_digit(s[i + 1]) is Some && hex_digit(
        s[i + 2],
    ) is Some && hex_digit(s[i + 3]) is Some {
        Some(
            hex_digit(s[i])->Some_0 * 4096 + hex_digit(s[i + 1])->Some_0 * 256 + hex_digit(
                s[i + 2],
            )->Some_0 * 16 + hex_digit(s[i + 3])->Some_0,
        )
    } else {
        None
    }
}

/// The character of a code, if it has one.
pub open spec fn code_text(code: int) -> Seq<char> {
    if 0 <= code < 0xD800 || 0xE000 <= code <= 0x10FFFF {
        seq![code as char]
    } else {
        Seq::empty()
    }
}

/// The character that a one-letter escape stands for.
pub open spec fn escape_char(b: u8) -> char {
    if b == 0x22 {
        '"'
    } else if b == 0x5C {
        '\\'
    } else if b == 0x2F {
        '/'
    } else if b == 0x62 {
        '\u{8}'
    } else if b == 0x66 {
        '\u{c}'
    } else if b == 0x6E {
        '\n'
    } else if b == 0x72 {
        '\r'
    } else if b == 0x74 {
        '\t'
    } else {
        '\u{fffd}'
    }
}

/// The high half of a surrogate pair stands at `i`, and another code after it.
pub open spec fn pair_at(s: Seq<u8>, i: int) -> bool {
    &&& hex_code(s, i + 2) matches Some(h) && 0xD800 <= h <= 0xDBFF
    &&& i + 12 <= s.len()
    &&& s[i + 6] == 0x5C && s[i + 7] == 0x75
    &&& hex_code(s, i + 8) is Some
}

/// How many bytes the UTF-8 sequence that starts with `b` has.
pub open spec fn sequence_len(b: u8) -> int {
    if b < 0xC0 {
        1
    } else if b < 0xE0 {
        2
    } else if b < 0xF0 {
        3
    } else {
        4
    }
}

/// The text of a string, from byte `i` between its quotes on. Nothing is an
/// error: an escape that is none gives a replacement character, and half of a
/// surrogate pair gives nothing. Behind a high half any code counts as the low
/// half.
pub open spec fn unescaped(s: Seq<u8>, i: int) -> Seq<char>
    decreases s.len() - i,
{
    if !(0 <= i < s.len()) {
        Seq::empty()
    } else if s[i] == 0x5C && i + 1 < s.len() {
        if s[i + 1] == 0x75 {
            if pair_at(s, i) {
                code_text(
                    0x10000 + (hex_code(s, i + 2)->Some_0 - 0xD800) * 1024 + (hex_code(
                        s,
                        i + 8,
                    )->Some_0 - 0xDC00),
                ) + unescaped(s, i + 12)
            } else {
                match hex_code(s, i + 2) {
                    Some(h) => code_text(h) + unescaped(s, i + 6),
                    None => seq!['\u{fffd}'] + unescaped(s, i + 2),
                }
            }
        } else {
            seq![escape_char(s[i + 1])] + unescaped(s, i + 2)
        }
    } else {
        let end = if i + sequence_len(s[i]) < s.len() {
            i + sequence_len(s[i])
        } else {
            s.len() as int
        };
        text_of(s.subrange(i, end)) + unescaped(s, end)
    }
}

/// The text of a string with its quotes.
pub open spec fn unquoted(b: Seq<u8>) -> Seq<char> {
    if b.len() < 2 || b[0] != 0x22 {
        text_of(b)
    } else {
        unescaped(b.subrange(1, b.len() - 1), 0)
    }
}

fn read_hex_digit(b: u8) -> (r: Option<u32>)
    ensures
        match hex_digit(b) {
            Some(d) => r matches Some(x) && x == d && x < 16,
            None => r is None,
        },
{
    if b >= 0x30 && b <= 0x39 {
        Some((b - 0x30) as u32)
    } else if b >= 0x61 && b <= 0x66 {
        Some((b - 0x61 + 10) as u32)
    } else if b >= 0x41 && b <= 0x46 {
        Some((b - 0x41 + 10) as u32)
    } else {
        None
    }
}

fn read_hex4(s: &[u8], i: usize) -> (r: Option<u32>)
    requires
        i <= s@.len(),
    ensures
        match hex_code(s@, i as int) {
            Some(d) => r matches Some(x) && x == d && x < 0x10000 && i + 4 <= s@.len(),
            None => r is None,
        },
{
    if s.len() - i < 4 {
        return None;
    }
    match (
        read_hex_digit(s[i]),
        read_hex_digit(s[i + 1]),
        read_hex_digit(s[i + 2]),
        read_hex_digit(s[i + 3]),
    ) {
        (Some(a), Some(b), Some(c), Some(d)) => Some(a * 4096 + b * 256 + c * 16 + d),
        _ => None,
    }
}

fn push_code(out: &mut String, code: u32)
    ensures
        final(out)@ == old(out)@ + code_text(code as int),
{
    let ghost before = out@;
    if code < 0xD800 || (code >= 0xE000 && code <= 0x10FFFF) {
        match char::from_u32(code) {
            Some(c) => out.push(c),
            None => {},
        }
    }
    assert(out@ =~= before + code_text(code as int));
}

/// Reads a string with its quotes. Malformed input gives a lossy result.
#[verifier::spinoff_prover]
pub fn decode_json_string(bytes: &[u8]) -> (out: String)
    ensures
        out@ == unquoted(bytes@),
{
    if bytes.len() < 2 || bytes[0] != 0x22 {
        return read_text(bytes);
    }
    let s = vstd::slice::slice_subrange(bytes, 1, bytes.len() - 1);
    let n: usize = s.len();
    let mut out = String::new();
    let mut i: usize = 0;
    assert(out@ + unescaped(s@, 0) =~= unescaped(s@, 0));
    while i < n
        invariant
            i <= n == s@.len(),
            out@ + unescaped(s@, i as int) == unescaped(s@, 0),
        decreases n - i,
    {
        let ghost before = out@;
        if s[i] == 0x5C && i + 1 < n {
            if s[i + 1] == 0x75 {
                let high = read_hex4(s, i + 2);
                match high {
                    Some(h) => {
                        let mut low: Option<u32> = None;
                        if h >= 0xD800 && h <= 0xDBFF && n - i >= 12 && s[i + 6] == 0x5C && s[i + 7]
                            == 0x75 {
                            low = read_hex4(s, i + 8);
                        }
                        let mut pair = false;
                        let mut code: u32 = h;
                        if let Some(l) = low {
                            pair = true;
                            code = 0x10000 + (h - 0xD800) * 1024 + l - 0xDC00;
                        }
                        assert(pair == pair_at(s@, i as int));
                        push_code(&mut out, code);
                        let step: usize = if pair {
                            12
                        } else {
                            6
                        };
                        assert(out@ + unescaped(s@, i + step) =~= before + (code_text(code as int)
                            + unescaped(s@, i + step)));
                        i = i + step;
                    },
                    None => {
                        out.push('\u{fffd}');
                        assert(out@ + unescaped(s@, i + 2) =~= before + (seq!['\u{fffd}']
                            + unescaped(s@, i + 2)));
                        i = i + 2;
                    },
                }
            } else {
                let b = s[i + 1];
                let c: char = if b == 0x22 {
                    '"'
                } else if b == 0x5C {
                    '\\'
                } else if b == 0x2F {
                    '/'
                } else if b == 0x62 {
                    '\u{8}'
                } else if b == 0x66 {
                    '\u{c}'
                } else if b == 0x6E {
                    '\n'
                } else if b == 0x72 {
                    '\r'
                } else if b == 0x74 {
                    '\t'
                } else {
                    '\u{fffd}'
                };
                out.push(c);
                assert(out@ + unescaped(s@, i + 2) =~= before + (seq![escape_char(b)] + unescaped(
                    s@,
                    i + 2,
                )));
                i = i + 2;
            }
        } else {
            let len: usize = if s[i] < 0xC0 {
                1
            } else if s[i] < 0xE0 {
                2
            } else if s[i] < 0xF0 {
                3
            } else {
                4
            };
            let end: usize = if len < n - i {
                i + len
            } else {
                n
            };
            let part = read_text(vstd::slice::slice_subrange(s, i, end));
            out.append(part.as_str());
            assert(out@ + unescaped(s@, end as int) =~= before + (text_of(
                s@.subrange(i as int, end as int),
            ) + unescaped(s@, end as int)));
            i = end;
        }
    }
    assert(out@ + unescaped(s@, i as int) =~= out@);
    out
}

/// The JSON type of a value.
pub open spec fn type_of(doc: Document, v: ValueV) -> JsonTypeKind
    decreases v,
{
    match v {
        ValueV::Null => JsonTypeKind::Null,
        ValueV::Bool(_) => JsonTypeKind::Bool,
        ValueV::Number(_) => JsonTypeKind::Number,
        ValueV::Str(_) => JsonTypeKind::String,
        ValueV::Group { n, .. } => if n is Some {
            JsonTypeKind::Number
        } else {
            JsonTypeKind::Null
        },
        ValueV::GroupList { .. } => JsonTypeKind::Array,
        ValueV::Array(_) => JsonTypeKind::Array,
        ValueV::Object(_) => JsonTypeKind::Object,
        ValueV::BucketRow(_) => JsonTypeKind::Object,
        ValueV::NamedValue { value, .. } => type_of(doc, *value),
        ValueV::Node(id) => match doc.kind_of(id) {
            NodeKind::Null => JsonTypeKind::Null,
            NodeKind::Bool => JsonTypeKind::Bool,
            NodeKind::Number => JsonTypeKind::Number,
            NodeKind::String => JsonTypeKind::String,
            NodeKind::Array => JsonTypeKind::Array,
            NodeKind::Object => JsonTypeKind::Object,
        },
    }
}

/// The JSON type of a value.
pub fn value_type(doc: &Document, v: &Value) -> (k: JsonTypeKind)
    ensures
        k == type_of(*doc, v@),
    decreases v,
{
    match v {
        Value::Null => JsonTypeKind::Null,
        Value::Bool(_) => JsonTypeKind::Bool,
        Value::Number(_) => JsonTypeKind::Number,
        Value::Str(_) => JsonTypeKind::String,
        Value::Group { n, .. } => if n.is_some() {
            JsonTypeKind::Number
        } else {
            JsonTypeKind::Null
        },
        Value::GroupList { .. } => JsonTypeKind::Array,
        Value::Array(_) => JsonTypeKind::Array,
        Value::Object(_) => JsonTypeKind::Object,
        Value::BucketRow(_) => JsonTypeKind::Object,
        Value::NamedValue { value, .. } => value_type(doc, value),
        Value::Node(id) => match doc.node_kind(*id) {
            NodeKind::Null => JsonTypeKind::Null,
            NodeKind::Bool => JsonTypeKind::Bool,
            NodeKind::Number => JsonTypeKind::Number,
            NodeKind::String => JsonTypeKind::String,
            NodeKind::Array => JsonTypeKind::Array,
            NodeKind::Object => JsonTypeKind::Object,
        },
    }
}

/// The number of a value, for arithmetic.
pub open spec fn number_of(doc: Document, n: Nums, v: ValueV) -> Option<u64> {
    let x = match v {
        ValueV::Number(x) => Some(x),
        ValueV::Group { n, .. } => n,
        ValueV::Node(id) => if doc.kind_of(id) == NodeKind::Number {
            match doc.value_span(id) {
                Some(b) => (n.read)(b),
                None => None,
            }
        } else {
            None
        },
        _ => None,
    };
    match x {
        Some(y) => if finite(y) {
            Some(y)
        } else {
            None
        },
        None => None,
    }
}

/// The number of a value; `None` where it has none or it is not finite.
pub fn to_number<N: Numbers>(doc: &Document, num: &N, v: &Value) -> (r: Option<u64>)
    requires
        num.wf(),
    ensures
        r == number_of(*doc, nums(num), v@),
{
    let x: Option<u64> = match v {
        Value::Number(x) => Some(*x),
        Value::Group { n, .. } => *n,
        Value::Node(id) => if matches!(doc.node_kind(*id), NodeKind::Number) {
            match doc.value_bytes(*id) {
                Some(b) => num.parse(b),
                None => None,
            }
        } else {
            None
        },
        _ => None,
    };
    match x {
        Some(y) => if is_finite(y) {
            Some(y)
        } else {
            None
        },
        None => None,
    }
}

} // verus!
