//! The functions of the query language. Each argument arrives as its first
//! value, if it has one.
use vstd::prelude::*;

use super::super::grammar::kw;
use super::super::number::{
    doubled, exponent, is_finite, is_zero, mantissa, negative, NumOp, Numbers,
};
use super::super::value::{
    decode_json_string, member_views, to_number, unquoted, value_views, Value, ValueV,
};
use super::model::{computed, number_opt, CtxV};
use super::stream::Ctx;
use crate::document::NodeKind;
use crate::text::{chars_of, string_from, whitespace};

verus! {

/// What `str::to_lowercase` makes of a text.
pub uninterp spec fn lowered(s: Seq<char>) -> Seq<char>;

/// What `str::to_uppercase` makes of a text.
pub uninterp spec fn raised(s: Seq<char>) -> Seq<char>;

/// `str::to_lowercase`: its result depends on the text alone. Which letters
/// it maps, and to what, is left unsaid.
#[verifier::external_body]
fn lower_text(s: &str) -> (r: String)
    ensures
        r@ == lowered(s@),
{
    s.to_lowercase()
}

/// `str::to_uppercase`: its result depends on the text alone. Which letters
/// it maps, and to what, is left unsaid.
#[verifier::external_body]
fn upper_text(s: &str) -> (r: String)
    ensures
        r@ == raised(s@),
{
    s.to_uppercase()
}

/// The views of arguments.
pub open spec fn arg_views(v: Seq<Option<Value>>) -> Seq<Option<ValueV>> {
    Seq::new(v.len(), |i: int| opt_value_view(v[i]))
}

pub open spec fn opt_value_view(v: Option<Value>) -> Option<ValueV> {
    match v {
        Some(x) => Some(x@),
        None => None,
    }
}

/// The text of a value, where it is one.
pub open spec fn text_of(c: CtxV, o: Option<ValueV>) -> Option<Seq<char>> {
    match o {
        Some(ValueV::Str(s)) => Some(s),
        Some(ValueV::Node(id)) => if c.doc.kind_of(id) == NodeKind::String {
            match c.doc.value_span(id) {
                Some(b) => Some(unquoted(b)),
                None => None,
            }
        } else {
            None
        },
        _ => None,
    }
}

/// Argument `i` of a call.
pub open spec fn arg(args: Seq<Option<ValueV>>, i: int) -> Option<ValueV> {
    if 0 <= i < args.len() {
        args[i]
    } else {
        None
    }
}

/// The length of a value: characters of a text, elements of a container, and
/// none for null. Numbers and booleans have no length.
pub open spec fn length_of(c: CtxV, o: Option<ValueV>) -> Option<nat> {
    match o {
        None => Some(0),
        Some(ValueV::Null) => Some(0),
        Some(ValueV::Str(s)) => Some(s.len()),
        Some(ValueV::Array(v)) => Some(v.len()),
        Some(ValueV::GroupList { members, .. }) => Some(members.len()),
        Some(ValueV::Object(f)) => Some(f.len()),
        Some(ValueV::BucketRow(f)) => Some(f.len()),
        Some(ValueV::Node(id)) => match c.doc.kind_of(id) {
            NodeKind::Null => Some(0),
            NodeKind::String => match c.doc.value_span(id) {
                Some(b) => Some(unquoted(b).len()),
                None => Some(0),
            },
            NodeKind::Array => Some(child_count(c, id)),
            NodeKind::Object => Some(child_count(c, id)),
            _ => None,
        },
        _ => None,
    }
}

pub open spec fn child_count(c: CtxV, id: u32) -> nat {
    match c.doc.rec(id) {
        Some(r) => r.child_count as nat,
        None => 0,
    }
}

/// A function of one number.
pub open spec fn unary(c: CtxV, op: NumOp, o: Option<ValueV>) -> ValueV {
    computed(c, op, number_opt(c, o), Some(0))
}

/// Without leading white space.
pub open spec fn trim_front(s: Seq<char>) -> Seq<char>
    decreases s.len(),
{
    if s.len() > 0 && whitespace(s[0]) {
        trim_front(s.subrange(1, s.len() as int))
    } else {
        s
    }
}

/// Without trailing white space.
pub open spec fn trim_back(s: Seq<char>) -> Seq<char>
    decreases s.len(),
{
    if s.len() > 0 && whitespace(s.last()) {
        trim_back(s.drop_last())
    } else {
        s
    }
}

/// `m` halved `k` times, rounded down.
pub open spec fn shrunk(m: int, k: nat) -> int
    decreases k,
{
    if k == 0 {
        m
    } else {
        shrunk(m / 2, (k - 1) as nat)
    }
}

/// The whole part of a finite double, where it is positive.
pub open spec fn whole_part(n: u64) -> int {
    let e = exponent(n);
    let m = mantissa(n) + 0x10_0000_0000_0000;
    if negative(n) || e < 1023 {
        0
    } else if e < 1075 {
        shrunk(m, (1075 - e) as nat)
    } else {
        doubled(m, (e - 1075) as nat)
    }
}

/// The whole part of a number, between 0 and `most`.
pub open spec fn clamped(n: u64, most: int) -> int {
    if whole_part(n) > most {
        most
    } else {
        whole_part(n)
    }
}

/// `len` characters of a text from `start` on, as far as there are.
pub open spec fn part_of(s: Seq<char>, start: u64, len: u64) -> Seq<char> {
    let begin = clamped(start, s.len() as int);
    s.subrange(begin, begin + clamped(len, s.len() - begin))
}

/// `s` from `i` on, with each `from` replaced by `to`, left to right.
pub open spec fn replaced(s: Seq<char>, from: Seq<char>, to: Seq<char>, i: int) -> Seq<char>
    decreases s.len() - i,
{
    if !(0 <= i < s.len()) || from.len() == 0 {
        Seq::empty()
    } else if i + from.len() <= s.len() && s.subrange(i, i + from.len()) == from {
        to + replaced(s, from, to, i + from.len())
    } else {
        seq![s[i]] + replaced(s, from, to, i + 1)
    }
}

/// What a call gives.
pub open spec fn called(c: CtxV, name: Seq<char>, args: Seq<Option<ValueV>>) -> ValueV {
    if name == kw::ROUND@ {
        computed(
            c,
            NumOp::Round,
            number_opt(c, arg(args, 0)),
            if args.len() > 1 {
                number_opt(c, args[1])
            } else {
                Some((c.n.apply)(NumOp::OfInt, 0, 0))
            },
        )
    } else if name == kw::LENGTH@ {
        match length_of(c, arg(args, 0)) {
            Some(k) => ValueV::Number((c.n.apply)(NumOp::OfInt, k as u64, 0)),
            None => ValueV::Null,
        }
    } else if name == kw::LOWER@ {
        match text_of(c, arg(args, 0)) {
            Some(s) => ValueV::Str(lowered(s)),
            None => ValueV::Null,
        }
    } else if name == kw::UPPER@ {
        match text_of(c, arg(args, 0)) {
            Some(s) => ValueV::Str(raised(s)),
            None => ValueV::Null,
        }
    } else if name == kw::ABS@ {
        unary(c, NumOp::Abs, arg(args, 0))
    } else if name == kw::FLOOR@ {
        unary(c, NumOp::Floor, arg(args, 0))
    } else if name == kw::CEIL@ {
        unary(c, NumOp::Ceil, arg(args, 0))
    } else if name == kw::SQRT@ {
        unary(c, NumOp::Sqrt, arg(args, 0))
    } else if name == kw::POW@ {
        computed(c, NumOp::Pow, number_opt(c, arg(args, 0)), number_opt(c, arg(args, 1)))
    } else if name == kw::MOD@ {
        computed(c, NumOp::Mod, number_opt(c, arg(args, 0)), number_opt(c, arg(args, 1)))
    } else if name == kw::TRIM@ {
        match text_of(c, arg(args, 0)) {
            Some(s) => ValueV::Str(trim_back(trim_front(s))),
            None => ValueV::Null,
        }
    } else if name == kw::SUBSTR@ {
        match (
            text_of(c, arg(args, 0)),
            number_opt(c, arg(args, 1)),
            number_opt(c, arg(args, 2)),
        ) {
            (Some(s), Some(start), Some(len)) => ValueV::Str(part_of(s, start, len)),
            _ => ValueV::Null,
        }
    } else if name == kw::REPLACE@ {
        match (text_of(c, arg(args, 0)), text_of(c, arg(args, 1)), text_of(c, arg(args, 2))) {
            (Some(s), Some(from), Some(to)) => ValueV::Str(
                if from.len() == 0 {
                    s
                } else {
                    replaced(s, from, to, 0)
                },
            ),
            _ => ValueV::Null,
        }
    } else {
        ValueV::Null
    }
}

/// An operation on two numbers; null where one is missing, where the result
/// is not finite, and for a division by zero.
pub fn compute<N: Numbers>(c: &Ctx<N>, op: NumOp, a: Option<u64>, b: Option<u64>) -> (v: Value)
    requires
        c.wf(),
    ensures
        v@ == computed(c@, op, a, b),
{
    match (a, b) {
        (Some(x), Some(y)) => {
            if op == NumOp::Div && is_zero(y) {
                return Value::Null;
            }
            let r = c.num.arith(op, x, y);
            if is_finite(r) {
                Value::Number(r)
            } else {
                Value::Null
            }
        },
        _ => Value::Null,
    }
}

/// The number of a value that may be missing.
pub fn opt_number<N: Numbers>(c: &Ctx<N>, o: &Option<Value>) -> (r: Option<u64>)
    requires
        c.wf(),
    ensures
        r == number_opt(c@, opt_value_view(*o)),
{
    match o {
        Some(v) => to_number(c.doc, c.num, v),
        None => None,
    }
}

fn number_arg<N: Numbers>(c: &Ctx<N>, args: &Vec<Option<Value>>, i: usize) -> (r: Option<u64>)
    requires
        c.wf(),
    ensures
        r == number_opt(c@, arg(arg_views(args@), i as int)),
{
    if i < args.len() {
        opt_number(c, &args[i])
    } else {
        None
    }
}

fn text_arg<N: Numbers>(c: &Ctx<N>, args: &Vec<Option<Value>>, i: usize) -> (r: Option<String>)
    requires
        c.wf(),
    ensures
        match text_of(c@, arg(arg_views(args@), i as int)) {
            Some(s) => r matches Some(x) && x@ == s,
            None => r is None,
        },
{
    if i >= args.len() {
        return None;
    }
    match &args[i] {
        Some(Value::Str(s)) => Some(s.clone()),
        Some(Value::Node(id)) => {
            if c.doc.node_kind(*id) != NodeKind::String {
                return None;
            }
            match c.doc.value_bytes(*id) {
                Some(b) => Some(decode_json_string(b)),
                None => None,
            }
        },
        _ => None,
    }
}

fn char_count(s: &str) -> (n: usize)
    ensures
        n == s@.len(),
{
    chars_of(s).len()
}

fn length<N: Numbers>(c: &Ctx<N>, args: &Vec<Option<Value>>) -> (r: Option<u64>)
    requires
        c.wf(),
    ensures
        match length_of(c@, arg(arg_views(args@), 0)) {
            Some(k) => r == Some(k as u64),
            None => r is None,
        },
{
    if args.len() == 0 {
        return Some(0);
    }
    match &args[0] {
        None => Some(0),
        Some(Value::Null) => Some(0),
        Some(Value::Str(s)) => Some(char_count(s.as_str()) as u64),
        Some(Value::Array(v)) => {
            assert(value_views(v@).len() == v@.len());
            Some(v.len() as u64)
        },
        Some(Value::GroupList { members, .. }) => Some(members.len() as u64),
        Some(Value::Object(f)) => {
            assert(member_views(f@).len() == f@.len());
            Some(f.len() as u64)
        },
        Some(Value::BucketRow(f)) => {
            assert(member_views(f@).len() == f@.len());
            Some(f.len() as u64)
        },
        Some(Value::Node(id)) => match c.doc.node_kind(*id) {
            NodeKind::Null => Some(0),
            NodeKind::String => match c.doc.value_bytes(*id) {
                Some(b) => Some(char_count(decode_json_string(b).as_str()) as u64),
                None => Some(0),
            },
            NodeKind::Array | NodeKind::Object => match c.doc.record(*id) {
                Some(r) => Some(r.child_count as u64),
                None => Some(0),
            },
            _ => None,
        },
        _ => None,
    }
}

fn trim(s: &str) -> (r: String)
    ensures
        r@ == trim_back(trim_front(s@)),
{
    let chars = chars_of(s);
    let mut a: usize = 0;
    assert(chars@.subrange(0, chars@.len() as int) =~= chars@);
    while a < chars.len() && chars[a].is_whitespace()
        invariant
            a <= chars@.len(),
            trim_front(chars@) == trim_front(chars@.subrange(a as int, chars@.len() as int)),
        decreases chars@.len() - a,
    {
        proof {
            let t = chars@.subrange(a as int, chars@.len() as int);
            assert(t.subrange(1, t.len() as int) =~= chars@.subrange(
                a + 1,
                chars@.len() as int,
            ));
        }
        a += 1;
    }
    let mut b: usize = chars.len();
    while b > a && chars[b - 1].is_whitespace()
        invariant
            a <= b <= chars@.len(),
            trim_back(chars@.subrange(a as int, chars@.len() as int)) == trim_back(
                chars@.subrange(a as int, b as int),
            ),
        decreases b,
    {
        proof {
            let t = chars@.subrange(a as int, b as int);
            assert(t.drop_last() =~= chars@.subrange(a as int, b - 1));
        }
        b -= 1;
    }
    string_from(chars.as_slice(), a, b)
}

/// Doubling does not shrink.
proof fn doubled_grows(m: int, j: nat, k: nat)
    requires
        m >= 0,
        j <= k,
    ensures
        0 <= doubled(m, j) <= doubled(m, k),
    decreases k,
{
    if j < k {
        doubled_grows(m, j, (k - 1) as nat);
    } else if j > 0 {
        doubled_grows(m, (j - 1) as nat, (j - 1) as nat);
    }
}

fn clamp(n: u64, most: usize) -> (r: usize)
    ensures
        r == clamped(n, most as int),
{
    let e: u64 = (n / 0x10_0000_0000_0000) % 2048;
    if n >= 0x8000_0000_0000_0000 || e < 1023 {
        return 0;
    }
    let start: u64 = n % 0x10_0000_0000_0000 + 0x10_0000_0000_0000;
    let mut m: u128 = start as u128;
    if e < 1075 {
        let mut k: u64 = 1075 - e;
        while k > 0
            invariant
                e < 1075,
                k <= 1075 - e,
                shrunk(start as int, (1075 - e) as nat) == shrunk(m as int, k as nat),
            decreases k,
        {
            m = m / 2;
            k = k - 1;
        }
    } else {
        let mut k: u64 = 0;
        while k < e - 1075 && m <= most as u128
            invariant
                e >= 1075,
                k <= e - 1075,
                m == doubled(start as int, k as nat),
            decreases e - k,
        {
            m = 2 * m;
            k = k + 1;
        }
        proof {
            doubled_grows(start as int, k as nat, (e - 1075) as nat);
        }
    }
    if m > most as u128 {
        most
    } else {
        m as usize
    }
}

fn substr(s: &str, start: u64, len: u64) -> (r: String)
    ensures
        r@ == part_of(s@, start, len),
{
    let chars = chars_of(s);
    let begin = clamp(start, chars.len());
    proof {
        clamped_range(start, chars@.len() as int);
    }
    let count = clamp(len, chars.len() - begin);
    proof {
        clamped_range(len, chars@.len() - begin);
    }
    string_from(chars.as_slice(), begin, begin + count)
}

proof fn shrunk_range(m: int, k: nat)
    requires
        m >= 0,
    ensures
        shrunk(m, k) >= 0,
    decreases k,
{
    if k > 0 {
        shrunk_range(m / 2, (k - 1) as nat);
    }
}

proof fn clamped_range(n: u64, most: int)
    requires
        most >= 0,
    ensures
        0 <= clamped(n, most) <= most,
{
    let e = exponent(n);
    let m = mantissa(n) + 0x10_0000_0000_0000;
    if e >= 1075 {
        doubled_grows(m, 0, (e - 1075) as nat);
    } else if e >= 1023 {
        shrunk_range(m, (1075 - e) as nat);
    }
}

fn text_here(s: &Vec<char>, i: usize, from: &Vec<char>) -> (b: bool)
    requires
        i <= s@.len(),
    ensures
        b == (i + from@.len() <= s@.len() && s@.subrange(i as int, i + from@.len()) == from@),
{
    let n: usize = s.len();
    if from.len() > n - i {
        return false;
    }
    let mut k: usize = 0;
    while k < from.len()
        invariant
            i + from@.len() <= s@.len() <= usize::MAX,
            k <= from@.len(),
            forall|j: int| 0 <= j < k ==> s@[i + j] == #[trigger] from@[j],
        decreases from@.len() - k,
    {
        if s[i + k] != from[k] {
            assert(s@.subrange(i as int, i + from@.len())[k as int] != from@[k as int]);
            return false;
        }
        k += 1;
    }
    assert(s@.subrange(i as int, i + from@.len()) =~= from@);
    true
}

fn replace(s: &str, from: &str, to: &str) -> (r: String)
    ensures
        r@ == (if from@.len() == 0 {
            s@
        } else {
            replaced(s@, from@, to@, 0)
        }),
{
    let chars = chars_of(s);
    let pat = chars_of(from);
    if pat.len() == 0 {
        return s.to_owned();
    }
    let mut out = String::new();
    let mut i: usize = 0;
    let ghost whole = replaced(s@, from@, to@, 0);
    assert(out@ + whole =~= whole);
    while i < chars.len()
        invariant
            chars@ == s@,
            pat@ == from@,
            from@.len() > 0,
            i <= chars@.len(),
            whole == out@ + replaced(s@, from@, to@, i as int),
        decreases chars@.len() - i,
    {
        let ghost before = out@;
        if text_here(&chars, i, &pat) {
            out.append(to);
            proof {
                assert(before + (to@ + replaced(s@, from@, to@, i + from@.len())) =~= before + to@
                    + replaced(s@, from@, to@, i + from@.len()));
            }
            i += pat.len();
        } else {
            out.push(chars[i]);
            proof {
                let rest = replaced(s@, from@, to@, i + 1);
                assert(before + (seq![s@[i as int]] + rest) =~= before.push(s@[i as int]) + rest);
            }
            i += 1;
        }
    }
    assert(out@ + Seq::<char>::empty() =~= out@);
    out
}

/// Runs a function on its arguments; an unknown name gives null.
pub fn call<N: Numbers>(c: &Ctx<N>, name: &str, args: &Vec<Option<Value>>) -> (v: Value)
    requires
        c.wf(),
    ensures
        v@ == called(c@, name@, arg_views(args@)),
{
    if *name == *kw::ROUND {
        let places = if args.len() > 1 {
            opt_number(c, &args[1])
        } else {
            Some(c.num.arith(NumOp::OfInt, 0, 0))
        };
        compute(c, NumOp::Round, number_arg(c, args, 0), places)
    } else if *name == *kw::LENGTH {
        match length(c, args) {
            Some(k) => Value::Number(c.num.arith(NumOp::OfInt, k, 0)),
            None => Value::Null,
        }
    } else if *name == *kw::LOWER {
        match text_arg(c, args, 0) {
            Some(s) => Value::Str(lower_text(s.as_str())),
            None => Value::Null,
        }
    } else if *name == *kw::UPPER {
        match text_arg(c, args, 0) {
            Some(s) => Value::Str(upper_text(s.as_str())),
            None => Value::Null,
        }
    } else if *name == *kw::ABS {
        compute(c, NumOp::Abs, number_arg(c, args, 0), Some(0))
    } else if *name == *kw::FLOOR {
        compute(c, NumOp::Floor, number_arg(c, args, 0), Some(0))
    } else if *name == *kw::CEIL {
        compute(c, NumOp::Ceil, number_arg(c, args, 0), Some(0))
    } else if *name == *kw::SQRT {
        compute(c, NumOp::Sqrt, number_arg(c, args, 0), Some(0))
    } else if *name == *kw::POW {
        compute(c, NumOp::Pow, number_arg(c, args, 0), number_arg(c, args, 1))
    } else if *name == *kw::MOD {
        compute(c, NumOp::Mod, number_arg(c, args, 0), number_arg(c, args, 1))
    } else if *name == *kw::TRIM {
        match text_arg(c, args, 0) {
            Some(s) => Value::Str(trim(s.as_str())),
            None => Value::Null,
        }
    } else if *name == *kw::SUBSTR {
        match (text_arg(c, args, 0), number_arg(c, args, 1), number_arg(c, args, 2)) {
            (Some(s), Some(start), Some(len)) => Value::Str(substr(s.as_str(), start, len)),
            _ => Value::Null,
        }
    } else if *name == *kw::REPLACE {
        match (text_arg(c, args, 0), text_arg(c, args, 1), text_arg(c, args, 2)) {
            (Some(s), Some(from), Some(to)) => Value::Str(
                replace(s.as_str(), from.as_str(), to.as_str()),
            ),
            _ => Value::Null,
        }
    } else {
        Value::Null
    }
}

} // verus!
