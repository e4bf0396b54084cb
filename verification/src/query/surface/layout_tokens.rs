//! The tokens of a layout, and the proof that the parser reads them as the
//! expression that was laid out.
use vstd::prelude::*;

use super::super::ast::CompareOp;
use super::super::canonical::{int_text, is_bare};
use super::super::grammar::{function_spec, kw};
use super::super::lexer::{Tok, TokAt};
use super::super::numeral::{plain, whole_i64};
use super::super::QueryFault;
use super::ast::{AggOp, BinaryOp, ExprV, LitV, ObjectFieldV, PathExprV, PathRootV, PathSegV};
use super::format::{
    ends_in_dot, is_atom, is_word, joins_words, level, op_level, reducer_name, starts_signed,
};
use super::readback::{ident_text, numeral_text};
use super::syntax::{
    and_expr, and_from, bracket, compare_expr, compare_from, compare_op, comparison, dot_seg,
    first_seg, kind, moved, name, not_expr, or_expr, or_from, parenthesised, path, primary, product,
    product_from, product_op, reducer_of, segments, sum, sum_from, sum_op, type_test, unary, word,
    Parsed,
};
use crate::text::whitespace;

verus! {

/// The token of a name.
pub open spec fn name_tok(n: Seq<char>) -> Tok {
    if is_bare(n) {
        Tok::Ident(n)
    } else {
        Tok::Str(n)
    }
}

pub open spec fn root_toks(r: PathRootV) -> Seq<Tok> {
    match r {
        PathRootV::Identity => seq![Tok::Dot],
        PathRootV::Name(n) => seq![Tok::Ident(n)],
    }
}

pub open spec fn dot_toks(root: PathRootV, first: bool) -> Seq<Tok> {
    if root is Identity && first {
        Seq::empty()
    } else {
        seq![Tok::Dot]
    }
}

pub open spec fn seg_toks(root: PathRootV, s: PathSegV, first: bool) -> Seq<Tok> {
    match s {
        PathSegV::Field(n) => dot_toks(root, first).push(name_tok(n)),
        PathSegV::Index(i) => seq![Tok::LBrack, Tok::Number(int_text(i as int)), Tok::RBrack],
        PathSegV::Iterate => seq![Tok::LBrack, Tok::RBrack],
        PathSegV::StarStar => dot_toks(root, first).push(Tok::StarStar),
        PathSegV::FieldSet(_) => Seq::empty(),
    }
}

pub open spec fn segs_toks(root: PathRootV, v: Seq<PathSegV>) -> Seq<Tok>
    decreases v.len(),
{
    if v.len() == 0 {
        root_toks(root)
    } else {
        segs_toks(root, v.drop_last()) + seg_toks(root, v.last(), v.len() == 1)
    }
}

pub open spec fn path_toks(p: PathExprV) -> Seq<Tok> {
    segs_toks(p.root, p.segments)
}

pub open spec fn lit_tok(l: LitV) -> Tok {
    match l {
        LitV::Number(n) => Tok::Number(n),
        LitV::Str(s) => Tok::Str(s),
        LitV::Bool(b) => Tok::Ident(
            if b {
                kw::TRUE@
            } else {
                kw::FALSE@
            },
        ),
        LitV::Null => Tok::Ident(kw::NULL@),
    }
}

pub open spec fn compare_tok(op: CompareOp) -> Tok {
    match op {
        CompareOp::Eq => Tok::Eq,
        CompareOp::Ne => Tok::Ne,
        CompareOp::Lt => Tok::Lt,
        CompareOp::Le => Tok::Le,
        CompareOp::Gt => Tok::Gt,
        CompareOp::Ge => Tok::Ge,
        CompareOp::Contains => Tok::Ident(kw::CONTAINS@),
        CompareOp::StartsWith => Tok::Ident(kw::STARTS_WITH@),
        CompareOp::EndsWith => Tok::Ident(kw::ENDS_WITH@),
        CompareOp::Matches => Tok::Ident(kw::MATCHES@),
    }
}

pub open spec fn binary_tok(op: BinaryOp) -> Tok {
    match op {
        BinaryOp::Add => Tok::Plus,
        BinaryOp::Sub => Tok::Minus,
        BinaryOp::Mul => Tok::Star,
        BinaryOp::Div => Tok::Slash,
    }
}

/// Tokens in parentheses.
pub open spec fn in_parens(k: Seq<Tok>) -> Seq<Tok> {
    seq![Tok::LParen] + k + seq![Tok::RParen]
}

/// The tokens of an expression.
pub open spec fn toks(e: ExprV) -> Seq<Tok>
    decreases e, 1int,
{
    match e {
        ExprV::Path(p) => path_toks(p),
        ExprV::Lit(l) => seq![lit_tok(l)],
        ExprV::Param(n) => seq![Tok::Param(n)],
        ExprV::Array(v) => seq![Tok::LBrack] + list_toks(v) + seq![Tok::RBrack],
        ExprV::Object(v) => seq![Tok::LBrace] + fields_toks(v) + seq![Tok::RBrace],
        ExprV::Compare(l, op, r) => compared_toks(*l, op) + seq![compare_tok(op)] + compared_toks(
            *r,
            op,
        ),
        ExprV::In(l, r) => beside_toks(*l, 4) + seq![Tok::Ident(kw::IN@)] + beside_toks(*r, 4),
        ExprV::NotIn(l, r) => beside_toks(*l, 4) + seq![Tok::Ident(kw::NOT@), Tok::Ident(kw::IN@)]
            + beside_toks(*r, 4),
        ExprV::And(l, r) => beside_toks(*l, 1) + seq![Tok::Ident(kw::AND@)] + beside_toks(*r, 2),
        ExprV::Or(l, r) => beside_toks(*l, 0) + seq![Tok::Ident(kw::OR@)] + beside_toks(*r, 1),
        ExprV::Not(x) => seq![Tok::Ident(kw::NOT@)] + beside_toks(*x, 2),
        ExprV::Exists(x) => beside_toks(*x, 4) + seq![Tok::Ident(kw::EXISTS@)],
        ExprV::TypeTest { value, kind, negated } => beside_toks(*value, 4) + (if negated {
            seq![Tok::Ident(kw::IS@), Tok::Ident(kw::NOT@), Tok::Ident(kind.name())]
        } else {
            seq![Tok::Ident(kw::IS@), Tok::Ident(kind.name())]
        }),
        ExprV::Binary { op, lhs, rhs } => operand_toks(*lhs, op_level(op)) + seq![binary_tok(op)]
            + operand_toks(*rhs, op_level(op) + 1),
        ExprV::Neg(x) => seq![Tok::Minus] + atom_toks(*x),
        ExprV::Reducer { op, arg } => match arg {
            Some(a) => seq![Tok::Ident(reducer_name(op)), Tok::LParen] + toks(*a) + seq![
                Tok::RParen,
            ],
            None => seq![Tok::Ident(reducer_name(op)), Tok::LParen, Tok::RParen],
        },
        ExprV::Call(n, args) => seq![Tok::Ident(n), Tok::LParen] + list_toks(args) + seq![
            Tok::RParen,
        ],
        ExprV::If { cond, then_branch, else_branch } => seq![Tok::Ident(kw::IF@), Tok::LParen]
            + toks(*cond) + seq![Tok::Comma] + toks(*then_branch) + seq![Tok::Comma] + toks(
            *else_branch,
        ) + seq![Tok::RParen],
        _ => Seq::empty(),
    }
}

pub open spec fn operand_toks(e: ExprV, min: int) -> Seq<Tok>
    decreases e, 2int,
{
    if level(e) < min {
        in_parens(toks(e))
    } else {
        toks(e)
    }
}

pub open spec fn beside_toks(e: ExprV, min: int) -> Seq<Tok>
    decreases e, 2int,
{
    if level(e) < min || joins_words(e) {
        in_parens(toks(e))
    } else {
        toks(e)
    }
}

pub open spec fn compared_toks(e: ExprV, op: CompareOp) -> Seq<Tok>
    decreases e, 3int,
{
    if is_word(op) {
        beside_toks(e, 4)
    } else {
        operand_toks(e, 4)
    }
}

pub open spec fn atom_toks(e: ExprV) -> Seq<Tok>
    decreases e, 2int,
{
    if is_atom(e) {
        toks(e)
    } else {
        in_parens(toks(e))
    }
}

pub open spec fn list_toks(v: Seq<ExprV>) -> Seq<Tok>
    decreases v, 0int,
{
    if v.len() == 0 {
        Seq::empty()
    } else {
        list_toks(v.drop_last()) + (if v.len() == 1 {
            Seq::empty()
        } else {
            seq![Tok::Comma]
        }) + toks(v.last())
    }
}

pub open spec fn fields_toks(v: Seq<ObjectFieldV>) -> Seq<Tok>
    decreases v, 0int,
{
    if v.len() == 0 {
        Seq::empty()
    } else {
        fields_toks(v.drop_last()) + (if v.len() == 1 {
            Seq::empty()
        } else {
            seq![Tok::Comma]
        }) + field_toks(v.last())
    }
}

pub open spec fn field_toks(f: ObjectFieldV) -> Seq<Tok>
    decreases f, 0int,
{
    seq![name_tok(f.name), Tok::Colon] + toks(f.value) + default_toks(f.default)
}

pub open spec fn default_toks(o: Option<ExprV>) -> Seq<Tok>
    decreases o, 0int,
{
    match o {
        Some(e) => seq![Tok::QuestionQuestion] + toks(e),
        None => Seq::empty(),
    }
}

/// A name that starts a path wherever it stands.
pub open spec fn free_name(n: Seq<char>) -> bool {
    &&& n != kw::TRUE@
    &&& n != kw::FALSE@
    &&& n != kw::NULL@
    &&& n != kw::IF@
    &&& n != kw::NOT@
    &&& n != kw::FROM@
    &&& n != kw::FIELDS@
    &&& reducer_of(n) is None
}

pub open spec fn regular_seg(s: PathSegV) -> bool {
    match s {
        PathSegV::Field(n) => is_bare(n) ==> !whitespace(n[0]),
        PathSegV::Index(i) => true,
        PathSegV::Iterate => true,
        PathSegV::StarStar => true,
        PathSegV::FieldSet(_) => false,
    }
}

/// A path of fields, indexes, iterations and wildcards.
pub open spec fn regular_path(p: PathExprV) -> bool {
    &&& p.root matches PathRootV::Name(n) ==> ident_text(n)
    &&& forall|k: int| 0 <= k < p.segments.len() ==> regular_seg(#[trigger] p.segments[k])
}

/// A number in plain digits, with or without a sign.
pub open spec fn regular_number(n: Seq<char>) -> bool {
    &&& plain(n) == n
    &&& numeral_text(n) || (n.len() > 0 && n[0] == '-' && numeral_text(n.drop_first()))
}

/// An expression without field sets and nested queries, whose paths
/// start with no word of the language and where no negative number stands right behind `*`.
pub open spec fn regular(e: ExprV) -> bool
    decreases e, 0int,
{
    match e {
        ExprV::Path(p) => regular_path(p) && (p.root matches PathRootV::Name(n) ==> free_name(n)),
        ExprV::Lit(LitV::Number(n)) => regular_number(n),
        ExprV::Lit(_) => true,
        ExprV::Param(n) => ident_text(n),
        ExprV::Array(v) => regular_all(v),
        ExprV::Object(v) => regular_fields(v),
        ExprV::Compare(l, _, r) => regular(*l) && regular(*r),
        ExprV::In(l, r) => regular(*l) && regular(*r),
        ExprV::NotIn(l, r) => regular(*l) && regular(*r),
        ExprV::And(l, r) => regular(*l) && regular(*r),
        ExprV::Or(l, r) => regular(*l) && regular(*r),
        ExprV::Not(x) => regular(*x),
        ExprV::Exists(x) => regular(*x),
        ExprV::TypeTest { value, .. } => regular(*value),
        ExprV::Binary { op, lhs, rhs } => regular(*lhs) && regular(*rhs) && !(op is Mul && *rhs is Lit
            && starts_signed(*rhs)),
        ExprV::Neg(x) => regular(*x),
        ExprV::Reducer { op, arg } => match arg {
            Some(a) => regular(*a),
            None => op == AggOp::Count,
        },
        ExprV::Call(n, args) => regular_all(args) && free_name(n) && ident_text(n) && (function_spec(n) matches Some(f)
            && f.min_args <= args.len() <= f.max_args),
        ExprV::If { cond, then_branch, else_branch } => regular(*cond) && regular(*then_branch)
            && regular(*else_branch),
        _ => false,
    }
}

pub open spec fn regular_all(v: Seq<ExprV>) -> bool
    decreases v, 0int,
{
    v.len() == 0 || (regular_all(v.drop_last()) && regular(v.last()))
}

pub open spec fn regular_fields(v: Seq<ObjectFieldV>) -> bool
    decreases v, 0int,
{
    v.len() == 0 || (regular_fields(v.drop_last()) && regular_entry(v.last()))
}

pub open spec fn regular_entry(f: ObjectFieldV) -> bool
    decreases f, 0int,
{
    &&& is_bare(f.name) ==> !whitespace(f.name[0])
    &&& regular(f.value)
    &&& match f.default {
        Some(e) => regular(e),
        None => true,
    }
}

/// The tokens `ks` stand at `i`, and at least one behind them.
pub open spec fn stands(t: Seq<TokAt>, i: int, ks: Seq<Tok>) -> bool {
    &&& 0 <= i
    &&& i + ks.len() < t.len()
    &&& forall|k: int| 0 <= k < ks.len() ==> t[i + k].kind == #[trigger] ks[k]
}

pub proof fn stands_parts(t: Seq<TokAt>, i: int, a: Seq<Tok>, b: Seq<Tok>)
    requires
        stands(t, i, a + b),
    ensures
        stands(t, i, a),
        stands(t, i + a.len(), b),
{
    let c = a + b;
    assert forall|k: int| 0 <= k < a.len() implies t[i + k].kind == #[trigger] a[k] by {
        assert(c[k] == a[k]);
    }
    assert forall|k: int| 0 <= k < b.len() implies t[i + a.len() + k].kind == #[trigger] b[k] by {
        assert(c[a.len() + k] == b[k]);
        assert(t[i + (a.len() + k)].kind == c[a.len() + k]);
    }
}

/// The word joins expressions.
pub open spec fn joining(w: Seq<char>) -> bool {
    comparing(w) || w == kw::AND@ || w == kw::OR@
}

/// The word compares, or tests.
pub open spec fn comparing(w: Seq<char>) -> bool {
    w == kw::EXISTS@ || w == kw::IS@ || w == kw::IN@ || w == kw::NOT@ || w == kw::MATCHES@ || w
        == kw::STARTS_WITH@ || w == kw::ENDS_WITH@ || w == kw::CONTAINS@
}

/// An expression ends before this token.
pub open spec fn closes(k: Tok) -> bool {
    match k {
        Tok::Eof | Tok::RParen | Tok::RBrack | Tok::RBrace | Tok::Comma | Tok::QuestionQuestion => true,
        Tok::Ident(w) => !joining(w),
        _ => false,
    }
}

/// An expression that binds at least as tightly as `n` ends before this token.
pub open spec fn follows(n: int, k: Tok) -> bool {
    ||| closes(k)
    ||| n >= 1 && k == Tok::Ident(kw::OR@)
    ||| n >= 2 && k == Tok::Ident(kw::AND@)
    ||| n >= 4 && (match k {
        Tok::Eq | Tok::Ne | Tok::Lt | Tok::Le | Tok::Gt | Tok::Ge => true,
        Tok::Ident(w) => comparing(w),
        _ => false,
    })
    ||| n >= 5 && (k is Plus || k is Minus)
    ||| n >= 6 && (k is Star || k is Slash)
}

/// A lone dot does not take this token for a segment.
pub open spec fn leaves_dot(k: Tok) -> bool {
    !(k is Ident || k is Str || k is StarStar || k is LBrack || k is LBrace)
}

/// What may stand behind `e` where expressions of level `n` are read.
pub open spec fn may_follow(e: ExprV, n: int, k: Tok) -> bool {
    follows(n, k) && (ends_in_dot(e) ==> leaves_dot(k))
}

/// The parser of a level.
pub open spec fn read_at(n: int, t: Seq<TokAt>, i: int) -> Parsed<ExprV> {
    if n == 0 {
        or_expr(t, i)
    } else if n == 1 {
        and_expr(t, i)
    } else if n == 2 {
        not_expr(t, i)
    } else if n == 3 {
        compare_expr(t, i)
    } else if n == 4 {
        sum(t, i)
    } else if n == 5 {
        product(t, i)
    } else if n == 6 {
        unary(t, i)
    } else {
        primary(t, i)
    }
}

pub open spec fn got(e: ExprV, j: int) -> Parsed<ExprV> {
    Ok((e, j))
}

/// The words that join expressions are different words.
pub proof fn joining_words()
    ensures
        kw::OR@ != kw::AND@,
        kw::OR@ != kw::NOT@,
        kw::OR@ != kw::EXISTS@,
        kw::OR@ != kw::IS@,
        kw::OR@ != kw::IN@,
        kw::OR@ != kw::MATCHES@,
        kw::OR@ != kw::STARTS_WITH@,
        kw::OR@ != kw::ENDS_WITH@,
        kw::OR@ != kw::CONTAINS@,
        kw::AND@ != kw::NOT@,
        kw::AND@ != kw::EXISTS@,
        kw::AND@ != kw::IS@,
        kw::AND@ != kw::IN@,
        kw::AND@ != kw::MATCHES@,
        kw::AND@ != kw::STARTS_WITH@,
        kw::AND@ != kw::ENDS_WITH@,
        kw::AND@ != kw::CONTAINS@,
        kw::NOT@ != kw::EXISTS@,
        kw::NOT@ != kw::IS@,
        kw::NOT@ != kw::IN@,
        kw::NOT@ != kw::MATCHES@,
        kw::NOT@ != kw::STARTS_WITH@,
        kw::NOT@ != kw::ENDS_WITH@,
        kw::NOT@ != kw::CONTAINS@,
        kw::EXISTS@ != kw::IS@,
        kw::EXISTS@ != kw::IN@,
        kw::EXISTS@ != kw::MATCHES@,
        kw::EXISTS@ != kw::STARTS_WITH@,
        kw::EXISTS@ != kw::ENDS_WITH@,
        kw::EXISTS@ != kw::CONTAINS@,
        kw::IS@ != kw::IN@,
        kw::IS@ != kw::MATCHES@,
        kw::IS@ != kw::STARTS_WITH@,
        kw::IS@ != kw::ENDS_WITH@,
        kw::IS@ != kw::CONTAINS@,
        kw::IN@ != kw::MATCHES@,
        kw::IN@ != kw::STARTS_WITH@,
        kw::IN@ != kw::ENDS_WITH@,
        kw::IN@ != kw::CONTAINS@,
        kw::MATCHES@ != kw::STARTS_WITH@,
        kw::MATCHES@ != kw::ENDS_WITH@,
        kw::MATCHES@ != kw::CONTAINS@,
        kw::STARTS_WITH@ != kw::ENDS_WITH@,
        kw::STARTS_WITH@ != kw::CONTAINS@,
        kw::ENDS_WITH@ != kw::CONTAINS@,
{
    reveal_strlit("or");
    reveal_strlit("and");
    reveal_strlit("not");
    reveal_strlit("exists");
    reveal_strlit("is");
    reveal_strlit("in");
    reveal_strlit("matches");
    reveal_strlit("starts_with");
    reveal_strlit("ends_with");
    reveal_strlit("contains");
    assert(kw::OR@.len() == 2);
    assert(kw::AND@.len() == 3);
    assert(kw::NOT@.len() == 3);
    assert(kw::EXISTS@.len() == 6);
    assert(kw::IS@.len() == 2);
    assert(kw::IN@.len() == 2);
    assert(kw::MATCHES@.len() == 7);
    assert(kw::STARTS_WITH@.len() == 11);
    assert(kw::ENDS_WITH@.len() == 9);
    assert(kw::CONTAINS@.len() == 8);
    assert(kw::OR@[0] == 'o');
    assert(kw::OR@[1] == 'r');
    assert(kw::AND@[0] == 'a');
    assert(kw::AND@[1] == 'n');
    assert(kw::AND@[2] == 'd');
    assert(kw::NOT@[0] == 'n');
    assert(kw::NOT@[1] == 'o');
    assert(kw::NOT@[2] == 't');
    assert(kw::IS@[0] == 'i');
    assert(kw::IS@[1] == 's');
    assert(kw::IN@[0] == 'i');
    assert(kw::IN@[1] == 'n');
}

pub proof fn or_expr_step(t: Seq<TokAt>, i: int, x: ExprV, j: int)
    requires
        and_expr(t, i) == got(x, j),
        moved(t, i, j),
    ensures
        or_expr(t, i) == or_from(t, x, j),
{
    reveal(or_expr);
    reveal(and_expr);
    reveal(or_from);
}

pub proof fn or_expr_more(t: Seq<TokAt>, l: ExprV, i: int, r: ExprV, j: int)
    requires
        word(t, i, kw::OR@),
        and_expr(t, i + 1) == got(r, j),
        moved(t, i, j),
    ensures
        or_from(t, l, i) == or_from(t, ExprV::Or(Box::new(l), Box::new(r)), j),
{
    reveal(and_expr);
    reveal(or_from);
}

pub proof fn or_expr_stop(t: Seq<TokAt>, l: ExprV, i: int)
    requires
        !word(t, i, kw::OR@),
    ensures
        or_from(t, l, i) == got(l, i),
{
    reveal(or_from);
}

pub proof fn and_expr_step(t: Seq<TokAt>, i: int, x: ExprV, j: int)
    requires
        not_expr(t, i) == got(x, j),
        moved(t, i, j),
    ensures
        and_expr(t, i) == and_from(t, x, j),
{
    reveal(and_expr);
    reveal(not_expr);
    reveal(and_from);
}

pub proof fn and_expr_more(t: Seq<TokAt>, l: ExprV, i: int, r: ExprV, j: int)
    requires
        word(t, i, kw::AND@),
        not_expr(t, i + 1) == got(r, j),
        moved(t, i, j),
    ensures
        and_from(t, l, i) == and_from(t, ExprV::And(Box::new(l), Box::new(r)), j),
{
    reveal(not_expr);
    reveal(and_from);
}

pub proof fn and_expr_stop(t: Seq<TokAt>, l: ExprV, i: int)
    requires
        !word(t, i, kw::AND@),
    ensures
        and_from(t, l, i) == got(l, i),
{
    reveal(and_from);
}

pub proof fn sum_step(t: Seq<TokAt>, i: int, x: ExprV, j: int)
    requires
        product(t, i) == got(x, j),
        moved(t, i, j),
    ensures
        sum(t, i) == sum_from(t, x, j),
{
    reveal(sum);
    reveal(product);
    reveal(sum_from);
}

pub proof fn sum_more(t: Seq<TokAt>, l: ExprV, op: BinaryOp, i: int, r: ExprV, j: int)
    requires
        sum_op(kind(t, i)) == Some(op),
        product(t, i + 1) == got(r, j),
        moved(t, i, j),
    ensures
        sum_from(t, l, i) == sum_from(t, ExprV::Binary { op, lhs: Box::new(l), rhs: Box::new(r) }, j),
{
    reveal(product);
    reveal(sum_from);
}

pub proof fn sum_stop(t: Seq<TokAt>, l: ExprV, i: int)
    requires
        sum_op(kind(t, i)) is None,
    ensures
        sum_from(t, l, i) == got(l, i),
{
    reveal(sum_from);
}

pub proof fn product_step(t: Seq<TokAt>, i: int, x: ExprV, j: int)
    requires
        unary(t, i) == got(x, j),
        moved(t, i, j),
    ensures
        product(t, i) == product_from(t, x, j),
{
    reveal(product);
    reveal(unary);
    reveal(product_from);
}

pub proof fn product_more(t: Seq<TokAt>, l: ExprV, op: BinaryOp, i: int, r: ExprV, j: int)
    requires
        product_op(kind(t, i)) == Some(op),
        unary(t, i + 1) == got(r, j),
        moved(t, i, j),
    ensures
        product_from(t, l, i) == product_from(t, ExprV::Binary { op, lhs: Box::new(l), rhs: Box::new(r) }, j),
{
    reveal(unary);
    reveal(product_from);
}

pub proof fn product_stop(t: Seq<TokAt>, l: ExprV, i: int)
    requires
        product_op(kind(t, i)) is None,
    ensures
        product_from(t, l, i) == got(l, i),
{
    reveal(product_from);
}

pub proof fn not_expr_step(t: Seq<TokAt>, i: int)
    ensures
        !word(t, i, kw::NOT@) ==> not_expr(t, i) == compare_expr(t, i),
        word(t, i, kw::NOT@) ==> not_expr(t, i) == match not_expr(t, i + 1) {
            Err(e) => Err(e),
            Ok((x, j)) => got(ExprV::Not(Box::new(x)), j),
        },
{
    reveal_with_fuel(not_expr, 2);
    reveal(compare_expr);
}

pub proof fn compare_expr_step(t: Seq<TokAt>, i: int, l: ExprV, j: int)
    requires
        sum(t, i) == got(l, j),
        moved(t, i, j),
    ensures
        compare_expr(t, i) == compare_from(t, l, j),
{
    reveal(compare_expr);
    reveal(sum);
    reveal(compare_from);
}

/// What stands behind the left side of a comparison.
pub proof fn compare_from_steps(t: Seq<TokAt>, l: ExprV, i: int)
    ensures
        compare_from(t, l, i) == if word(t, i, kw::EXISTS@) {
            got(ExprV::Exists(Box::new(l)), i + 1)
        } else if word(t, i, kw::IS@) {
            if word(t, i + 1, kw::NOT@) {
                type_test(t, l, true, i + 2)
            } else {
                type_test(t, l, false, i + 1)
            }
        } else if word(t, i, kw::IN@) {
            match sum(t, i + 1) {
                Err(e) => Err(e),
                Ok((r, j)) => got(ExprV::In(Box::new(l), Box::new(r)), j),
            }
        } else if word(t, i, kw::NOT@) && word(t, i + 1, kw::IN@) {
            match sum(t, i + 2) {
                Err(e) => Err(e),
                Ok((r, j)) => got(ExprV::NotIn(Box::new(l), Box::new(r)), j),
            }
        } else {
            match compare_op(kind(t, i)) {
                None => got(l, i),
                Some(op) => match sum(t, i + 1) {
                    Err(e) => Err(e),
                    Ok((r, j)) => got(comparison(l, op, r), j),
                },
            }
        },
{
    reveal(compare_from);
    reveal(sum);
}

pub proof fn unary_step(t: Seq<TokAt>, i: int)
    ensures
        kind(t, i) != Tok::Minus ==> unary(t, i) == primary(t, i),
        kind(t, i) == Tok::Minus ==> unary(t, i) == match unary(t, i + 1) {
            Err(e) => Err(e),
            Ok((x, j)) => got(ExprV::Neg(Box::new(x)), j),
        },
{
    reveal_with_fuel(unary, 2);
    reveal(primary);
}

pub proof fn parens_step(t: Seq<TokAt>, i: int, x: ExprV, j: int)
    requires
        kind(t, i) == Tok::LParen,
        !word(t, i + 1, kw::FROM@),
        !word(t, i + 1, kw::FIELDS@),
        or_expr(t, i + 1) == got(x, j),
        kind(t, j) == Tok::RParen,
    ensures
        primary(t, i) == got(x, j + 1),
{
    reveal(primary);
    reveal(parenthesised);
    reveal(or_expr);
}

pub proof fn dot_seg_reads(t: Seq<TokAt>, i: int, sets: bool, s: PathSegV, j: int)
    requires
        first_seg(t, i, sets) == Ok::<(Option<PathSegV>, int), QueryFault>((Some(s), j)),
    ensures
        dot_seg(t, i, sets) == Ok::<(PathSegV, int), QueryFault>((s, j)),
{
    reveal(dot_seg);
    reveal(first_seg);
}

/// A segment behind those that were read.
pub proof fn segments_dot(t: Seq<TokAt>, acc: Seq<PathSegV>, i: int, sets: bool, s: PathSegV, j: int)
    requires
        kind(t, i) == Tok::Dot,
        first_seg(t, i + 1, sets) == Ok::<(Option<PathSegV>, int), QueryFault>((Some(s), j)),
        moved(t, i, j),
    ensures
        segments(t, acc, i, sets) == segments(t, acc.push(s), j, sets),
{
    dot_seg_reads(t, i + 1, sets, s, j);
    reveal_with_fuel(segments, 2);
    reveal(dot_seg);
}

pub proof fn segments_bracket(t: Seq<TokAt>, acc: Seq<PathSegV>, i: int, sets: bool, s: PathSegV, j: int)
    requires
        kind(t, i) == Tok::LBrack,
        bracket(t, i + 1) == Ok::<(PathSegV, int), QueryFault>((s, j)),
        moved(t, i, j),
    ensures
        segments(t, acc, i, sets) == segments(t, acc.push(s), j, sets),
{
    reveal_with_fuel(segments, 2);
}

pub proof fn segments_stop(t: Seq<TokAt>, acc: Seq<PathSegV>, i: int, sets: bool)
    requires
        kind(t, i) != Tok::Dot,
        kind(t, i) != Tok::LBrack,
    ensures
        segments(t, acc, i, sets) == Ok::<(Seq<PathSegV>, int), QueryFault>((acc, i)),
{
    reveal(segments);
}

pub proof fn first_seg_reads(t: Seq<TokAt>, i: int, sets: bool)
    ensures
        first_seg(t, i, sets) == match kind(t, i) {
            Tok::Ident(s) => Ok::<(Option<PathSegV>, int), QueryFault>(
                (Some(PathSegV::Field(s)), i + 1),
            ),
            Tok::Str(s) => Ok((Some(PathSegV::Field(s)), i + 1)),
            Tok::StarStar => Ok((Some(PathSegV::StarStar), i + 1)),
            Tok::LBrack => match bracket(t, i + 1) {
                Err(e) => Err(e),
                Ok((s, j)) => Ok((Some(s), j)),
            },
            Tok::LBrace => first_seg(t, i, sets),
            _ => Ok((None, i)),
        },
{
    reveal(first_seg);
}

/// The integer that is written reads back.
pub open spec fn index_reads(i: i64) -> bool {
    whole_i64(int_text(i as int)) == Some(i)
}

/// The segments that stand from `i` on are read behind the ones before.
pub proof fn segs_read(
    t: Seq<TokAt>,
    i: int,
    root: PathRootV,
    v: Seq<PathSegV>,
    n: int,
    sets: bool,
)
    requires
        1 <= n <= v.len() || (n == 0 && root is Name),
        0 <= n <= v.len(),
        forall|k: int| 0 <= k < v.len() ==> regular_seg(#[trigger] v[k]),
        forall|k: int| 0 <= k < v.len() && v[k] is Index ==> index_reads((#[trigger] v[k])->Index_0),
        stands(t, i, segs_toks(root, v)),
    ensures
        ({
            let at = i + segs_toks(root, v.take(n)).len();
            let end = i + segs_toks(root, v).len();
            at <= end && segments(t, v.take(n), at, sets) == segments(t, v, end, sets)
        }),
    decreases v.len(),
{
    if n == v.len() {
        assert(v.take(n) =~= v);
    } else {
        let less = v.drop_last();
        let last = v.last();
        let a = segs_toks(root, less);
        let b = seg_toks(root, last, v.len() == 1);
        stands_parts(t, i, a, b);
        assert forall|k: int| 0 <= k < less.len() implies regular_seg(#[trigger] less[k]) by {
            assert(less[k] == v[k]);
        }
        assert forall|k: int| 0 <= k < less.len() && less[k] is Index implies index_reads(
            (#[trigger] less[k])->Index_0,
        ) by {
            assert(less[k] == v[k]);
        }
        segs_read(t, i, root, less, n, sets);
        assert(less.take(n) =~= v.take(n));
        assert(less.push(last) =~= v);
        let j = i + a.len();
        assert(regular_seg(v[v.len() - 1]));
        assert(b[0] == t[j + 0].kind);
        if b.len() > 1 {
            assert(b[1] == t[j + 1].kind);
        }
        if b.len() > 2 {
            assert(b[2] == t[j + 2].kind);
        }
        match last {
            PathSegV::Field(name) => {
                first_seg_reads(t, j + 1, sets);
                segments_dot(t, less, j, sets, last, j + 2);
            },
            PathSegV::StarStar => {
                first_seg_reads(t, j + 1, sets);
                segments_dot(t, less, j, sets, last, j + 2);
            },
            PathSegV::Index(x) => {
                assert(index_reads(v[v.len() - 1]->Index_0));
                segments_bracket(t, less, j, sets, last, j + 3);
            },
            PathSegV::Iterate => {
                segments_bracket(t, less, j, sets, last, j + 2);
            },
            PathSegV::FieldSet(_) => {},
        }
    }
}

/// A path reads back.
#[verifier::spinoff_prover]
pub proof fn path_reads(t: Seq<TokAt>, i: int, p: PathExprV, sets: bool)
    requires
        regular_path(p),
        forall|k: int|
            0 <= k < p.segments.len() && p.segments[k] is Index ==> index_reads(
                (#[trigger] p.segments[k])->Index_0,
            ),
        stands(t, i, path_toks(p)),
        kind(t, i + path_toks(p).len()) != Tok::Dot,
        kind(t, i + path_toks(p).len()) != Tok::LBrack,
        p.root is Identity && p.segments.len() == 0 ==> leaves_dot(
            kind(t, i + path_toks(p).len()),
        ),
    ensures
        path(t, i, sets) == Ok::<(PathExprV, int), QueryFault>((p, i + path_toks(p).len())),
        path_toks(p).len() > 0,
{
    let v = p.segments;
    let end = i + path_toks(p).len();
    segs_nonempty(p.root, v);
    segs_first(p.root, v);
    assert(t[i + 0].kind == path_toks(p)[0]);
    segments_stop(t, v, end, sets);
    match p.root {
        PathRootV::Name(n) => {
            segs_read(t, i, p.root, v, 0, sets);
            assert(v.take(0) =~= Seq::empty());
            reveal(path);
            reveal(segments);
        },
        PathRootV::Identity => {
            if v.len() == 0 {
                first_seg_reads(t, i + 1, sets);
                reveal(path);
                reveal(segments);
                reveal(first_seg);
                assert(v =~= Seq::empty());
            } else {
                segs_read(t, i, p.root, v, 1, sets);
                let head = v.take(1);
                assert(head.drop_last() =~= Seq::empty());
                assert(head =~= seq![v[0]]);
                let a = root_toks(p.root);
                let b = seg_toks(p.root, v[0], true);
                assert(head.len() == 1 && head.last() == v[0]);
                assert(segs_toks(p.root, head.drop_last()) == a);
                assert(segs_toks(p.root, head) == a + b);
                segs_prefix(p.root, v, 1);
                assert forall|k: int| 0 <= k < (a + b).len() implies t[i + k].kind == #[trigger] (a
                    + b)[k] by {
                    assert(path_toks(p)[k] == (a + b)[k]);
                }
                stands_parts(t, i, a, b);
                first_seg_reads(t, i + 1, sets);
                assert(b[0] == t[i + 1 + 0].kind);
                if b.len() > 1 {
                    assert(b[1] == t[i + 1 + 1].kind);
                }
                if b.len() > 2 {
                    assert(b[2] == t[i + 1 + 2].kind);
                }
                assert(regular_seg(v[0]));
                if v[0] is Index {
                    assert(index_reads(v[0]->Index_0));
                }
                assert(first_seg(t, i + 1, sets) == Ok::<(Option<PathSegV>, int), QueryFault>(
                    (Some(v[0]), i + 1 + b.len()),
                ));
                reveal(path);
                reveal(segments);
                reveal(first_seg);
            }
        },
    }
}

pub proof fn segs_nonempty(root: PathRootV, v: Seq<PathSegV>)
    ensures
        segs_toks(root, v).len() >= 1,
    decreases v.len(),
{
    if v.len() > 0 {
        segs_nonempty(root, v.drop_last());
    }
}

pub proof fn segs_first(root: PathRootV, v: Seq<PathSegV>)
    ensures
        segs_toks(root, v).len() > 0,
        segs_toks(root, v)[0] == root_toks(root)[0],
    decreases v.len(),
{
    if v.len() > 0 {
        segs_first(root, v.drop_last());
    }
}

pub proof fn segs_prefix(root: PathRootV, v: Seq<PathSegV>, n: int)
    requires
        0 <= n <= v.len(),
    ensures
        segs_toks(root, v.take(n)).len() <= segs_toks(root, v).len(),
        forall|k: int|
            0 <= k < segs_toks(root, v.take(n)).len() ==> segs_toks(root, v)[k] == segs_toks(
                root,
                v.take(n),
            )[k],
    decreases v.len(),
{
    if n == v.len() {
        assert(v.take(n) =~= v);
    } else {
        segs_prefix(root, v.drop_last(), n);
        assert(v.drop_last().take(n) =~= v.take(n));
    }
}

} // verus!
