//! The canonical text of a query tree. It is the key under which an index is
//! registered, so trees of the same shape share an index.
//!
//! Pipes into a field, an index or an iteration collapse to dot and bracket
//! notation: `.foo[]`, not `.foo | .[]`.
use vstd::prelude::*;

use super::ast::{
    AggGroup, AggGroupKey, AggGroupKeyV, AggGroupV, AggOutputNode, AggOutputV, AggReduction,
    AggReductionV, Ast, AstV, SortDir, field_views, group_key_views, key_views, opt_view,
    output_views, reduction_views, texts, views,
};
use super::grammar::kw;
use super::lexer::{word_char, word_start};
use super::numeral::{
    digits, is_json_number, is_zero, json_number, plain, plain_numeral, zeros_from,
};
use crate::text::{chars_of, decimal, decimal_text, json_escaped, push_json_escaped};

verus! {

/// `name` needs no quotes.
pub open spec fn is_bare(name: Seq<char>) -> bool {
    &&& name.len() > 0
    &&& word_start(name[0])
    &&& forall|i: int| 1 <= i < name.len() ==> word_char(#[trigger] name[i])
}

/// `s` as a quoted string.
pub open spec fn quoted(s: Seq<char>) -> Seq<char> {
    "\""@ + json_escaped(s) + "\""@
}

/// A name, quoted where it is no bare identifier.
pub open spec fn name_text(name: Seq<char>) -> Seq<char> {
    if is_bare(name) {
        name
    } else {
        quoted(name)
    }
}

/// A whole number with its sign.
pub open spec fn int_text(i: int) -> Seq<char> {
    if i < 0 {
        "-"@ + decimal_text((-i) as nat)
    } else {
        decimal_text(i as nat)
    }
}

/// A number literal in plain digits. Zero has no sign. A text that is no
/// number stays as it is.
pub open spec fn number_text(s: Seq<char>) -> Seq<char> {
    if !json_number(s) {
        s
    } else if zeros_from(digits(s), 0) {
        seq!['0']
    } else {
        plain(s)
    }
}

/// A step that follows its input without a pipe.
pub open spec fn is_step(a: AstV) -> bool {
    a is Field || a is Index || a is Iterate || a is IterateField
}

pub open spec fn step_suffix(a: AstV) -> Seq<char> {
    match a {
        AstV::Field(name) => "."@ + name_text(name),
        AstV::Index(i) => "["@ + int_text(i as int) + "]"@,
        AstV::IterateField(name) => "[]."@ + name_text(name),
        _ => "[]"@,
    }
}

/// The canonical text of a tree.
pub open spec fn canon(a: AstV) -> Seq<char>
    decreases a,
{
    match a {
        AstV::Identity => "."@,
        AstV::Field(name) => "."@ + name_text(name),
        AstV::Index(i) => ".["@ + int_text(i as int) + "]"@,
        AstV::Iterate => ".[]"@,
        AstV::Pipe(l, r) => if is_step(*r) {
            canon(*l) + step_suffix(*r)
        } else {
            canon(*l) + " | "@ + canon(*r)
        },
        AstV::Descend => ".**"@,
        AstV::DescendField(name) => ".**."@ + name_text(name),
        AstV::IterateField(name) => ".[]."@ + name_text(name),
        AstV::LitNumber(n) => number_text(n),
        AstV::LitString(s) => quoted(s),
        AstV::LitBool(b) => if b {
            kw::TRUE@
        } else {
            kw::FALSE@
        },
        AstV::LitNull => kw::NULL@,
        AstV::Compare(l, op, r) => canon(*l) + " "@ + op.symbol() + " "@ + canon(*r),
        AstV::And(l, r) => canon(*l) + " "@ + kw::AND@ + " "@ + canon(*r),
        AstV::Or(l, r) => canon(*l) + " "@ + kw::OR@ + " "@ + canon(*r),
        AstV::Not => kw::NOT@,
        AstV::Select(p) => kw::SELECT@ + "("@ + canon(*p) + ")"@,
        AstV::Sum => kw::SUM@,
        AstV::Min => kw::MIN@,
        AstV::Max => kw::MAX@,
        AstV::Avg => kw::AVG@,
        AstV::Count => kw::COUNT@,
        AstV::By(e, k) => canon(*e) + " "@ + kw::BY@ + " "@ + canon(*k),
        AstV::Lookup { source, key, source_canon, key_canon } => "lookup("@ + source_canon + "; "@
            + key_canon + ")"@,
        AstV::KeyTuple(parts) => "("@ + list_text(parts) + ")"@,
        AstV::Project(fields) => "{"@ + fields_text(fields) + "}"@,
        AstV::SortBy(keys) => "sort_by("@ + sort_text(keys) + ")"@,
        AstV::Limit(n) => "limit("@ + decimal_text(n as nat) + ")"@,
        AstV::Distinct => kw::DISTINCT@,
        AstV::Exists(e) => "("@ + canon(*e) + " exists)"@,
        AstV::Tap(e) => canon(*e),
        AstV::Let { name, value } => "let("@ + name_text(name) + " = "@ + canon(*value) + ")"@,
        AstV::Var(name) => "$"@ + name_text(name),
        AstV::FieldSetEquals { base, fields, target } => canon(*base) + ".{"@ + names_text(fields)
            + "} == "@ + canon(*target),
        AstV::AggregateBlock { group, reductions, outputs } => "aggregate_block("@ + (match group {
            Some(g) => group_text(g),
            None => Seq::empty(),
        }) + reductions_text(reductions, group is Some) + outputs_text(
            outputs,
            group is Some || reductions.len() > 0,
        ) + ")"@,
        AstV::Binary { op, lhs, rhs } => "("@ + canon(*lhs) + " "@ + op.symbol() + " "@ + canon(
            *rhs,
        ) + ")"@,
        AstV::Neg(e) => "(-"@ + canon(*e) + ")"@,
        AstV::ReducerSlot(i) => "$slot("@ + decimal_text(i as nat) + ")"@,
        AstV::Object(fields) => "{"@ + fields_text(fields) + "}"@,
        AstV::TypeTest { value, kind, negated } => "("@ + canon(*value) + (if negated {
            " is not "@
        } else {
            " is "@
        }) + kind.name() + ")"@,
        AstV::Round { value, precision } => match precision {
            Some(p) => "round("@ + canon(*value) + ", "@ + canon(*p) + ")"@,
            None => "round("@ + canon(*value) + ")"@,
        },
        AstV::JoinEach { alias, outer_key, lookup, inner } => (if inner {
            "join_each("@
        } else {
            "left_join_each("@
        }) + name_text(alias) + " = "@ + canon(*outer_key) + ", "@ + canon(*lookup) + ")"@,
        AstV::UnnestEach { alias, source } => "unnest_each("@ + name_text(alias) + " = "@ + canon(
            *source,
        ) + ")"@,
        AstV::Subquery { pipeline } => "("@ + canon(*pipeline) + ")"@,
        AstV::ArrayLit(items) => "["@ + list_text(items) + "]"@,
        AstV::Call { name, args } => name + "("@ + list_text(args) + ")"@,
        AstV::If { cond, then_branch, else_branch } => "if("@ + canon(*cond) + ", "@ + canon(
            *then_branch,
        ) + ", "@ + canon(*else_branch) + ")"@,
    }
}

/// What stands before an item: a comma, except before the first.
pub open spec fn separator(first: bool) -> Seq<char> {
    if first {
        Seq::empty()
    } else {
        ", "@
    }
}

pub open spec fn list_text(v: Seq<AstV>) -> Seq<char>
    decreases v,
{
    if v.len() == 0 {
        Seq::empty()
    } else {
        list_text(v.drop_last()) + separator(v.len() == 1) + canon(v.last())
    }
}

pub open spec fn fields_text(v: Seq<(Seq<char>, AstV)>) -> Seq<char>
    decreases v,
{
    if v.len() == 0 {
        Seq::empty()
    } else {
        fields_text(v.drop_last()) + separator(v.len() == 1) + name_text(v.last().0) + ": "@
            + canon(v.last().1)
    }
}

pub open spec fn sort_text(v: Seq<(AstV, SortDir)>) -> Seq<char>
    decreases v,
{
    if v.len() == 0 {
        Seq::empty()
    } else {
        sort_text(v.drop_last()) + separator(v.len() == 1) + sort_key_text(v.last())
    }
}

pub open spec fn sort_key_text(k: (AstV, SortDir)) -> Seq<char>
    decreases k,
{
    match k.1 {
        SortDir::Asc => canon(k.0),
        SortDir::Desc => canon(k.0) + " desc"@,
    }
}

pub open spec fn names_text(v: Seq<Seq<char>>) -> Seq<char>
    decreases v.len(),
{
    if v.len() == 0 {
        Seq::empty()
    } else {
        names_text(v.drop_last()) + separator(v.len() == 1) + name_text(v.last())
    }
}

pub open spec fn group_text(g: AggGroupV) -> Seq<char>
    decreases g,
{
    match g {
        AggGroupV::Single { name, key } => name_text(name) + "="@ + canon(*key),
        AggGroupV::Rollup(keys) => "rollup("@ + group_keys_text(keys) + ")"@,
    }
}

pub open spec fn group_keys_text(v: Seq<AggGroupKeyV>) -> Seq<char>
    decreases v,
{
    if v.len() == 0 {
        Seq::empty()
    } else {
        group_keys_text(v.drop_last()) + separator(v.len() == 1) + group_key_text(v.last())
    }
}

pub open spec fn group_key_text(k: AggGroupKeyV) -> Seq<char>
    decreases k,
{
    name_text(k.name) + "="@ + canon(*k.key)
}

pub open spec fn reductions_text(v: Seq<AggReductionV>, after: bool) -> Seq<char>
    decreases v,
{
    if v.len() == 0 {
        Seq::empty()
    } else {
        reductions_text(v.drop_last(), after) + separator(v.len() == 1 && !after)
            + reduction_text(v.last())
    }
}

pub open spec fn reduction_text(r: AggReductionV) -> Seq<char>
    decreases r,
{
    let head = name_text(r.name) + "="@ + r.op.name();
    let valued = match r.value {
        Some(v) => head + " "@ + canon(*v),
        None => head,
    };
    match r.where_pred {
        Some(p) => valued + " "@ + kw::WHERE@ + " "@ + canon(*p),
        None => valued,
    }
}

pub open spec fn outputs_text(v: Seq<(Seq<char>, AggOutputV)>, after: bool) -> Seq<char>
    decreases v,
{
    if v.len() == 0 {
        Seq::empty()
    } else {
        outputs_text(v.drop_last(), after) + separator(v.len() == 1 && !after) + "out("@
            + name_text(v.last().0) + "="@ + output_text(v.last().1) + ")"@
    }
}

pub open spec fn output_text(o: AggOutputV) -> Seq<char>
    decreases o,
{
    match o {
        AggOutputV::Leaf { expr, default } => match default {
            Some(d) => canon(*expr) + " ?? "@ + canon(*d),
            None => canon(*expr),
        },
        AggOutputV::Object(fields) => "{"@ + output_fields_text(fields) + "}"@,
    }
}

pub open spec fn output_fields_text(v: Seq<(Seq<char>, AggOutputV)>) -> Seq<char>
    decreases v,
{
    if v.len() == 0 {
        Seq::empty()
    } else {
        output_fields_text(v.drop_last()) + separator(v.len() == 1) + name_text(v.last().0) + ": "@
            + output_text(v.last().1)
    }
}

/// Appends a name, quoted where needed.
pub fn push_name(out: &mut String, name: &str)
    ensures
        final(out)@ == old(out)@ + name_text(name@),
{
    if name_is_bare(name) {
        out.append(name);
    } else {
        push_quoted(out, name);
    }
}

/// Whether `name` needs no quotes.
pub fn name_is_bare(name: &str) -> (b: bool)
    ensures
        b == is_bare(name@),
{
    let chars = chars_of(name);
    if chars.len() == 0 || !(chars[0].is_alphabetic() || chars[0] == '_') {
        return false;
    }
    let mut i: usize = 1;
    while i < chars.len()
        invariant
            1 <= i <= chars@.len(),
            chars@ == name@,
            forall|k: int| 1 <= k < i ==> word_char(#[trigger] chars@[k]),
        decreases chars@.len() - i,
    {
        if !(chars[i].is_alphanumeric() || chars[i] == '_') {
            return false;
        }
        i += 1;
    }
    true
}

/// Appends a quoted string.
pub fn push_quoted(out: &mut String, s: &str)
    ensures
        final(out)@ == old(out)@ + quoted(s@),
{
    let ghost before = out@;
    out.append("\"");
    push_json_escaped(out, s);
    out.append("\"");
    assert(out@ =~= before + quoted(s@));
}

/// Appends a whole number.
pub fn push_int(out: &mut String, i: i64)
    ensures
        final(out)@ == old(out)@ + int_text(i as int),
{
    let ghost before = out@;
    if i < 0 {
        out.append("-");
        let n: u64 = (-(i as i128)) as u64;
        out.append(decimal(n).as_str());
    } else {
        out.append(decimal(i as u64).as_str());
    }
    assert(out@ =~= before + int_text(i as int));
}

/// Appends a number literal.
pub fn push_number(out: &mut String, text: &str)
    ensures
        final(out)@ == old(out)@ + number_text(text@),
{
    if !is_json_number(text) {
        out.append(text);
    } else if is_zero(text) {
        proof {
            reveal_strlit("0");
            assert("0"@ =~= seq!['0']);
        }
        out.append("0");
    } else {
        out.append(plain_numeral(text).as_str());
    }
}

/// What stands before an item.
fn separator_text(first: bool) -> (s: &'static str)
    ensures
        s@ == separator(first),
{
    if first {
        proof {
            reveal_strlit("");
        }
        assert(""@ =~= Seq::<char>::empty());
        ""
    } else {
        ", "
    }
}

/// A name, quoted where needed.
fn name_string(name: &str) -> (s: String)
    ensures
        s@ == name_text(name@),
{
    let mut out = String::new();
    push_name(&mut out, name);
    assert(out@ =~= name_text(name@));
    out
}

/// A quoted string.
pub fn quote(s: &str) -> (out: String)
    ensures
        out@ == quoted(s@),
{
    let mut out = String::new();
    push_quoted(&mut out, s);
    assert(out@ =~= quoted(s@));
    out
}

/// A whole number as text.
fn int_string(i: i64) -> (s: String)
    ensures
        s@ == int_text(i as int),
{
    let mut out = String::new();
    push_int(&mut out, i);
    assert(out@ =~= int_text(i as int));
    out
}

/// A number literal as text.
fn number_string(text: &str) -> (s: String)
    ensures
        s@ == number_text(text@),
{
    let mut out = String::new();
    push_number(&mut out, text);
    assert(out@ =~= number_text(text@));
    out
}

impl Ast {
    /// The canonical text of the tree.
    pub fn canonical(&self) -> (out: String)
        ensures
            out@ == canon(self@),
        decreases self, 1int,
    {
        match self {
            Ast::Compare(..)
            | Ast::And(..)
            | Ast::Or(..)
            | Ast::Not
            | Ast::Select(..)
            | Ast::Exists(..)
            | Ast::FieldSetEquals { .. }
            | Ast::TypeTest { .. } => self.predicate_string(),
            Ast::Sum
            | Ast::Min
            | Ast::Max
            | Ast::Avg
            | Ast::Count
            | Ast::By(..)
            | Ast::Lookup { .. }
            | Ast::Project(..)
            | Ast::SortBy(..)
            | Ast::Limit(..)
            | Ast::Distinct
            | Ast::Tap(..)
            | Ast::Let { .. }
            | Ast::JoinEach { .. }
            | Ast::UnnestEach { .. }
            | Ast::AggregateBlock { .. } => self.stage_string(),
            Ast::KeyTuple(..)
            | Ast::Var(..)
            | Ast::Binary { .. }
            | Ast::Neg(..)
            | Ast::ReducerSlot(..)
            | Ast::Object(..)
            | Ast::Round { .. }
            | Ast::Subquery { .. }
            | Ast::ArrayLit(..)
            | Ast::Call { .. }
            | Ast::If { .. } => self.value_string(),
            _ => self.path_string(),
        }
    }

    /// The text of a step that follows its input without a pipe.
    fn step_string(&self) -> (out: Option<String>)
        ensures
            out is Some == is_step(self@),
            out is Some ==> out->Some_0@ == step_suffix(self@),
    {
        match self {
            Ast::Field(name) => {
                let mut out = ".".to_string();
                out.append(name_string(name.as_str()).as_str());
                Some(out)
            },
            Ast::Index(i) => {
                let mut out = "[".to_string();
                out.append(int_string(*i).as_str());
                out.append("]");
                Some(out)
            },
            Ast::Iterate => Some("[]".to_string()),
            Ast::IterateField(name) => {
                let mut out = "[].".to_string();
                out.append(name_string(name.as_str()).as_str());
                Some(out)
            },
            _ => None,
        }
    }

    /// The text of a path, a pipe or a literal.
    #[verifier::spinoff_prover]
    fn path_string(&self) -> (out: String)
        requires
            self is Identity || self is Field || self is Index || self is Iterate || self is Pipe
                || self is Descend || self is DescendField || self is IterateField
                || self is LitNumber || self is LitString || self is LitBool || self is LitNull,
        ensures
            out@ == canon(self@),
        decreases self, 0int,
    {
        match self {
            Ast::Identity => ".".to_string(),
            Ast::Field(name) => {
                let mut out = ".".to_string();
                out.append(name_string(name.as_str()).as_str());
                out
            },
            Ast::Index(i) => {
                let mut out = ".[".to_string();
                out.append(int_string(*i).as_str());
                out.append("]");
                out
            },
            Ast::Iterate => ".[]".to_string(),
            Ast::Pipe(l, r) => {
                let mut out = l.canonical();
                assert(is_step(r@) == (**r is Field || **r is Index || **r is Iterate
                    || **r is IterateField));
                match r.step_string() {
                    Some(step) => out.append(step.as_str()),
                    None => {
                        out.append(" | ");
                        out.append(r.canonical().as_str());
                    },
                }
                out
            },
            Ast::Descend => ".**".to_string(),
            Ast::DescendField(name) => {
                let mut out = ".**.".to_string();
                out.append(name_string(name.as_str()).as_str());
                out
            },
            Ast::IterateField(name) => {
                let mut out = ".[].".to_string();
                out.append(name_string(name.as_str()).as_str());
                out
            },
            Ast::LitNumber(n) => number_string(n.as_str()),
            Ast::LitString(s) => quote(s.as_str()),
            Ast::LitBool(b) => if *b {
                kw::TRUE.to_string()
            } else {
                kw::FALSE.to_string()
            },
            Ast::LitNull => kw::NULL.to_string(),
            _ => String::new(),
        }
    }

    /// The text of a predicate.
    #[verifier::spinoff_prover]
    fn predicate_string(&self) -> (out: String)
        requires
            self is Compare || self is And || self is Or || self is Not || self is Select
                || self is Exists || self is FieldSetEquals || self is TypeTest,
        ensures
            out@ == canon(self@),
        decreases self, 0int,
    {
        match self {
            Ast::Compare(l, op, r) => {
                let mut out = l.canonical();
                out.append(" ");
                out.append(op.as_str());
                out.append(" ");
                out.append(r.canonical().as_str());
                out
            },
            Ast::And(l, r) => {
                let mut out = l.canonical();
                out.append(" ");
                out.append(kw::AND);
                out.append(" ");
                out.append(r.canonical().as_str());
                out
            },
            Ast::Or(l, r) => {
                let mut out = l.canonical();
                out.append(" ");
                out.append(kw::OR);
                out.append(" ");
                out.append(r.canonical().as_str());
                out
            },
            Ast::Not => kw::NOT.to_string(),
            Ast::Select(p) => {
                let mut out = kw::SELECT.to_string();
                out.append("(");
                out.append(p.canonical().as_str());
                out.append(")");
                out
            },
            Ast::Exists(e) => {
                let mut out = "(".to_string();
                out.append(e.canonical().as_str());
                out.append(" exists)");
                out
            },
            Ast::FieldSetEquals { base, fields, target } => {
                let mut out = base.canonical();
                out.append(".{");
                out.append(names_string(fields).as_str());
                out.append("} == ");
                out.append(target.canonical().as_str());
                out
            },
            Ast::TypeTest { value, kind, negated } => {
                let mut out = "(".to_string();
                out.append(value.canonical().as_str());
                out.append(if *negated {
                        " is not "
                    } else {
                        " is "
                    });
                out.append(kind.keyword());
                out.append(")");
                out
            },
            _ => String::new(),
        }
    }

    /// The text of a stage of a pipeline.
    #[verifier::spinoff_prover]
    fn stage_string(&self) -> (out: String)
        requires
            self is Sum || self is Min || self is Max || self is Avg || self is Count
                || self is By || self is Lookup || self is Project || self is SortBy
                || self is Limit || self is Distinct || self is Tap || self is Let
                || self is JoinEach || self is UnnestEach || self is AggregateBlock,
        ensures
            out@ == canon(self@),
        decreases self, 0int,
    {
        match self {
            Ast::Sum => kw::SUM.to_string(),
            Ast::Min => kw::MIN.to_string(),
            Ast::Max => kw::MAX.to_string(),
            Ast::Avg => kw::AVG.to_string(),
            Ast::Count => kw::COUNT.to_string(),
            Ast::By(e, k) => {
                let mut out = e.canonical();
                out.append(" ");
                out.append(kw::BY);
                out.append(" ");
                out.append(k.canonical().as_str());
                out
            },
            Ast::Lookup { source, key, source_canon, key_canon } => {
                let mut out = "lookup(".to_string();
                out.append(source_canon.as_str());
                out.append("; ");
                out.append(key_canon.as_str());
                out.append(")");
                out
            },
            Ast::Project(fields) => {
                let mut out = "{".to_string();
                out.append(fields_string(fields).as_str());
                out.append("}");
                out
            },
            Ast::SortBy(keys) => {
                let mut out = "sort_by(".to_string();
                out.append(sort_string(keys).as_str());
                out.append(")");
                out
            },
            Ast::Limit(n) => {
                let mut out = "limit(".to_string();
                out.append(decimal(*n).as_str());
                out.append(")");
                out
            },
            Ast::Distinct => kw::DISTINCT.to_string(),
            Ast::Tap(e) => e.canonical(),
            Ast::Let { name, value } => {
                let mut out = "let(".to_string();
                out.append(name_string(name.as_str()).as_str());
                out.append(" = ");
                out.append(value.canonical().as_str());
                out.append(")");
                out
            },
            Ast::JoinEach { alias, outer_key, lookup, inner } => {
                let mut out = (if *inner {
                    "join_each("
                } else {
                    "left_join_each("
                }).to_string();
                out.append(name_string(alias.as_str()).as_str());
                out.append(" = ");
                out.append(outer_key.canonical().as_str());
                out.append(", ");
                out.append(lookup.canonical().as_str());
                out.append(")");
                out
            },
            Ast::UnnestEach { alias, source } => {
                let mut out = "unnest_each(".to_string();
                out.append(name_string(alias.as_str()).as_str());
                out.append(" = ");
                out.append(source.canonical().as_str());
                out.append(")");
                out
            },
            Ast::AggregateBlock { group, reductions, outputs } => {
                let mut out = "aggregate_block(".to_string();
                out.append((match group {
                        Some(g) => group_string(g),
                        None => String::new(),
                    }).as_str());
                out.append(reductions_string(reductions, group.is_some()).as_str());
                out.append(outputs_string(
                    outputs,
                    group.is_some() || reductions.len() > 0,
                ).as_str());
                out.append(")");
                out
            },
            _ => String::new(),
        }
    }

    /// The text of a value expression.
    #[verifier::spinoff_prover]
    fn value_string(&self) -> (out: String)
        requires
            self is KeyTuple || self is Var || self is Binary || self is Neg
                || self is ReducerSlot || self is Object || self is Round || self is Subquery
                || self is ArrayLit || self is Call || self is If,
        ensures
            out@ == canon(self@),
        decreases self, 0int,
    {
        match self {
            Ast::KeyTuple(parts) => {
                let mut out = "(".to_string();
                out.append(list_string(parts).as_str());
                out.append(")");
                out
            },
            Ast::Var(name) => {
                let mut out = "$".to_string();
                out.append(name_string(name.as_str()).as_str());
                out
            },
            Ast::Binary { op, lhs, rhs } => {
                let mut out = "(".to_string();
                out.append(lhs.canonical().as_str());
                out.append(" ");
                out.append(op.as_str());
                out.append(" ");
                out.append(rhs.canonical().as_str());
                out.append(")");
                out
            },
            Ast::Neg(e) => {
                let mut out = "(-".to_string();
                out.append(e.canonical().as_str());
                out.append(")");
                out
            },
            Ast::ReducerSlot(i) => {
                let mut out = "$slot(".to_string();
                out.append(decimal(*i as u64).as_str());
                out.append(")");
                out
            },
            Ast::Object(fields) => {
                let mut out = "{".to_string();
                out.append(fields_string(fields).as_str());
                out.append("}");
                out
            },
            Ast::Round { value, precision } => {
                let mut out = "round(".to_string();
                out.append(value.canonical().as_str());
                assert(precision is Some ==> opt_view(*precision)->Some_0 == precision->Some_0@);
                if let Some(p) = precision {
                    out.append(", ");
                    out.append(p.canonical().as_str());
                }
                out.append(")");
                out
            },
            Ast::Subquery { pipeline } => {
                let mut out = "(".to_string();
                out.append(pipeline.canonical().as_str());
                out.append(")");
                out
            },
            Ast::ArrayLit(items) => {
                let mut out = "[".to_string();
                out.append(list_string(items).as_str());
                out.append("]");
                out
            },
            Ast::Call { name, args } => {
                let mut out = name.clone();
                out.append("(");
                out.append(list_string(args).as_str());
                out.append(")");
                out
            },
            Ast::If { cond, then_branch, else_branch } => {
                let mut out = "if(".to_string();
                out.append(cond.canonical().as_str());
                out.append(", ");
                out.append(then_branch.canonical().as_str());
                out.append(", ");
                out.append(else_branch.canonical().as_str());
                out.append(")");
                out
            },
            _ => String::new(),
        }
    }
}

/// Trees, separated by commas.
fn list_string(v: &Vec<Ast>) -> (out: String)
    ensures
        out@ == list_text(views(v@)),
    decreases v, 0int,
{
    let ghost all = views(v@);
    let mut out = String::new();
    let mut i: usize = 0;
    assert(out@ =~= list_text(all.take(0)));
    while i < v.len()
        invariant
            i <= v@.len(),
            all == views(v@),
            out@ == list_text(all.take(i as int)),
        decreases v@.len() - i,
    {
        let ghost next = all.take(i + 1);
        assert(next.drop_last() =~= all.take(i as int));
        assert(next.last() == all[i as int]);
        assert(decreases_to!(v => v@[i as int]));
        out.append(separator_text(i == 0));
        out.append(v[i].canonical().as_str());
        i += 1;
    }
    assert(all.take(i as int) =~= all);
    out
}

/// Named trees.
fn fields_string(v: &Vec<(String, Ast)>) -> (out: String)
    ensures
        out@ == fields_text(field_views(v@)),
    decreases v, 0int,
{
    let ghost all = field_views(v@);
    let mut out = String::new();
    let mut i: usize = 0;
    assert(out@ =~= fields_text(all.take(0)));
    while i < v.len()
        invariant
            i <= v@.len(),
            all == field_views(v@),
            out@ == fields_text(all.take(i as int)),
        decreases v@.len() - i,
    {
        let ghost next = all.take(i + 1);
        assert(next.drop_last() =~= all.take(i as int));
        assert(next.last() == all[i as int]);
        assert(decreases_to!(v => v@[i as int]));
        out.append(separator_text(i == 0));
        out.append(name_string(v[i].0.as_str()).as_str());
        out.append(": ");
        out.append(v[i].1.canonical().as_str());
        i += 1;
    }
    assert(all.take(i as int) =~= all);
    out
}

/// Sort keys.
fn sort_string(v: &Vec<(Ast, SortDir)>) -> (out: String)
    ensures
        out@ == sort_text(key_views(v@)),
    decreases v, 0int,
{
    let ghost all = key_views(v@);
    let mut out = String::new();
    let mut i: usize = 0;
    assert(out@ =~= sort_text(all.take(0)));
    while i < v.len()
        invariant
            i <= v@.len(),
            all == key_views(v@),
            out@ == sort_text(all.take(i as int)),
        decreases v@.len() - i,
    {
        let ghost next = all.take(i + 1);
        assert(next.drop_last() =~= all.take(i as int));
        assert(next.last() == all[i as int]);
        assert(decreases_to!(v => v@[i as int]));
        out.append(separator_text(i == 0));
        out.append(sort_key_string(&v[i]).as_str());
        i += 1;
    }
    assert(all.take(i as int) =~= all);
    out
}

/// The keys of a rollup.
fn group_keys_string(v: &Vec<AggGroupKey>) -> (out: String)
    ensures
        out@ == group_keys_text(group_key_views(v@)),
    decreases v, 0int,
{
    let ghost all = group_key_views(v@);
    let mut out = String::new();
    let mut i: usize = 0;
    assert(out@ =~= group_keys_text(all.take(0)));
    while i < v.len()
        invariant
            i <= v@.len(),
            all == group_key_views(v@),
            out@ == group_keys_text(all.take(i as int)),
        decreases v@.len() - i,
    {
        let ghost next = all.take(i + 1);
        assert(next.drop_last() =~= all.take(i as int));
        assert(next.last() == all[i as int]);
        assert(decreases_to!(v => v@[i as int]));
        out.append(separator_text(i == 0));
        out.append(group_key_string(&v[i]).as_str());
        i += 1;
    }
    assert(all.take(i as int) =~= all);
    out
}

/// Reductions.
fn reductions_string(v: &Vec<AggReduction>, after: bool) -> (out: String)
    ensures
        out@ == reductions_text(reduction_views(v@), after),
    decreases v, 0int,
{
    let ghost all = reduction_views(v@);
    let mut out = String::new();
    let mut i: usize = 0;
    assert(out@ =~= reductions_text(all.take(0), after));
    while i < v.len()
        invariant
            i <= v@.len(),
            all == reduction_views(v@),
            out@ == reductions_text(all.take(i as int), after),
        decreases v@.len() - i,
    {
        let ghost next = all.take(i + 1);
        assert(next.drop_last() =~= all.take(i as int));
        assert(next.last() == all[i as int]);
        assert(decreases_to!(v => v@[i as int]));
        out.append(separator_text(i == 0 && !after));
        out.append(reduction_string(&v[i]).as_str());
        i += 1;
    }
    assert(all.take(i as int) =~= all);
    out
}

/// The outputs of an aggregate block.
fn outputs_string(v: &Vec<(String, AggOutputNode)>, after: bool) -> (out: String)
    ensures
        out@ == outputs_text(output_views(v@), after),
    decreases v, 0int,
{
    let ghost all = output_views(v@);
    let mut out = String::new();
    let mut i: usize = 0;
    assert(out@ =~= outputs_text(all.take(0), after));
    while i < v.len()
        invariant
            i <= v@.len(),
            all == output_views(v@),
            out@ == outputs_text(all.take(i as int), after),
        decreases v@.len() - i,
    {
        let ghost next = all.take(i + 1);
        assert(next.drop_last() =~= all.take(i as int));
        assert(next.last() == all[i as int]);
        assert(decreases_to!(v => v@[i as int]));
        out.append(separator_text(i == 0 && !after));
        out.append("out(");
        out.append(name_string(v[i].0.as_str()).as_str());
        out.append("=");
        out.append(output_string(&v[i].1).as_str());
        out.append(")");
        i += 1;
    }
    assert(all.take(i as int) =~= all);
    out
}

/// The members of an output object.
fn output_fields_string(v: &Vec<(String, AggOutputNode)>) -> (out: String)
    ensures
        out@ == output_fields_text(output_views(v@)),
    decreases v, 0int,
{
    let ghost all = output_views(v@);
    let mut out = String::new();
    let mut i: usize = 0;
    assert(out@ =~= output_fields_text(all.take(0)));
    while i < v.len()
        invariant
            i <= v@.len(),
            all == output_views(v@),
            out@ == output_fields_text(all.take(i as int)),
        decreases v@.len() - i,
    {
        let ghost next = all.take(i + 1);
        assert(next.drop_last() =~= all.take(i as int));
        assert(next.last() == all[i as int]);
        assert(decreases_to!(v => v@[i as int]));
        out.append(separator_text(i == 0));
        out.append(name_string(v[i].0.as_str()).as_str());
        out.append(": ");
        out.append(output_string(&v[i].1).as_str());
        i += 1;
    }
    assert(all.take(i as int) =~= all);
    out
}

/// Names, separated by commas.
fn names_string(v: &Vec<String>) -> (out: String)
    ensures
        out@ == names_text(texts(v@)),
{
    let ghost all = texts(v@);
    let mut out = String::new();
    let mut i: usize = 0;
    assert(out@ =~= names_text(all.take(0)));
    while i < v.len()
        invariant
            i <= v@.len(),
            all == texts(v@),
            out@ == names_text(all.take(i as int)),
        decreases v@.len() - i,
    {
        let ghost next = all.take(i + 1);
        assert(next.drop_last() =~= all.take(i as int));
        assert(next.last() == all[i as int]);
        out.append(separator_text(i == 0));
        out.append(name_string(v[i].as_str()).as_str());
        i += 1;
    }
    assert(all.take(i as int) =~= all);
    out
}

/// One sort key.
fn sort_key_string(k: &(Ast, SortDir)) -> (out: String)
    ensures
        out@ == sort_key_text((k.0@, k.1)),
    decreases k, 0int,
{
    let mut out = k.0.canonical();
    if let SortDir::Desc = k.1 {
        out.append(" desc");
    }
    out
}

/// One key of a rollup.
fn group_key_string(k: &AggGroupKey) -> (out: String)
    ensures
        out@ == group_key_text(k@),
    decreases k, 0int,
{
    let mut out = name_string(k.name.as_str());
    out.append("=");
    out.append(k.key.canonical().as_str());
    out
}

/// One reduction.
fn reduction_string(r: &AggReduction) -> (out: String)
    ensures
        out@ == reduction_text(r@),
    decreases r, 0int,
{
    let mut out = name_string(r.name.as_str());
    out.append("=");
    out.append(r.op.keyword());
    if let Some(v) = &r.value {
        out.append(" ");
        out.append(v.canonical().as_str());
    }
    if let Some(p) = &r.where_pred {
        out.append(" ");
        out.append(kw::WHERE);
        out.append(" ");
        out.append(p.canonical().as_str());
    }
    out
}

/// One output.
fn output_string(o: &AggOutputNode) -> (out: String)
    ensures
        out@ == output_text(o@),
    decreases o, 0int,
{
    match o {
        AggOutputNode::Leaf { expr, default } => {
            let mut out = expr.canonical();
            if let Some(d) = default {
                out.append(" ?? ");
                out.append(d.canonical().as_str());
            }
            out
        },
        AggOutputNode::Object(fields) => {
            let mut out = "{".to_string();
            out.append(output_fields_string(fields).as_str());
            out.append("}");
            out
        },
    }
}

/// The grouping of an aggregate block.
fn group_string(g: &AggGroup) -> (out: String)
    ensures
        out@ == group_text(g@),
    decreases g, 0int,
{
    match g {
        AggGroup::Single { name, key } => {
            let mut out = name_string(name.as_str());
            out.append("=");
            out.append(key.canonical().as_str());
            out
        },
        AggGroup::Rollup(keys) => {
            let mut out = "rollup(".to_string();
            out.append(group_keys_string(keys).as_str());
            out.append(")");
            out
        },
    }
}

/// An iteration that was fused with the field behind it is written like the
/// two steps that it stands for, so both find the same index.
pub proof fn fused_iteration_is_written_out(a: AstV, name: Seq<char>)
    ensures
        canon(AstV::Pipe(Box::new(a), Box::new(AstV::IterateField(name)))) == canon(
            AstV::Pipe(
                Box::new(AstV::Pipe(Box::new(a), Box::new(AstV::Iterate))),
                Box::new(AstV::Field(name)),
            ),
        ),
        canon(AstV::IterateField(name)) == canon(
            AstV::Pipe(Box::new(AstV::Iterate), Box::new(AstV::Field(name))),
        ),
{
    reveal_strlit("[].");
    reveal_strlit("[]");
    reveal_strlit(".");
    reveal_strlit(".[]");
    reveal_strlit(".[].");
    let inner = AstV::Pipe(Box::new(a), Box::new(AstV::Iterate));
    assert(canon(inner) == canon(a) + "[]"@);
    assert(canon(AstV::Iterate) == ".[]"@);
    assert(canon(a) + ("[]."@ + name_text(name)) =~= canon(a) + "[]"@ + ("."@ + name_text(name)));
    assert(".[]."@ + name_text(name) =~= ".[]"@ + ("."@ + name_text(name)));
}

} // verus!
