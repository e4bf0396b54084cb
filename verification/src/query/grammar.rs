//! The vocabulary of the query language: keywords with their categories,
//! operators, and punctuation. The parser, the highlighter and the
//! autocomplete all read it here.
use vstd::prelude::*;

pub mod kw;

use crate::text::{json_escaped, push_json_escaped};

verus! {

/// Coarse category of a keyword.
#[derive(Clone, Copy, Debug, PartialEq, Eq, Structural)]
pub enum KeywordCategory {
    Clause,
    Boolean,
    Comparison,
    Quantifier,
    Sort,
    Reducer,
    Literal,
    Builtin,
}

/// Where in a query a keyword is valid.
#[derive(Clone, Copy, Debug, PartialEq, Eq, Structural)]
pub enum KeywordRole {
    ValueStart,
    AfterExpression,
    Both,
}

/// A keyword of the language.
#[derive(Clone, Copy, Debug)]
pub struct Keyword {
    pub text: &'static str,
    pub category: KeywordCategory,
    pub role: KeywordRole,
}

/// A keyword in mathematical form.
pub struct KeywordEntry {
    pub text: Seq<char>,
    pub category: KeywordCategory,
    pub role: KeywordRole,
}

impl View for Keyword {
    type V = KeywordEntry;

    open spec fn view(&self) -> KeywordEntry {
        KeywordEntry { text: self.text@, category: self.category, role: self.role }
    }
}

impl Keyword {
    pub fn valid_at_value_start(&self) -> (b: bool)
        ensures
            b == (self.role == KeywordRole::ValueStart || self.role == KeywordRole::Both),
    {
        match self.role {
            KeywordRole::ValueStart | KeywordRole::Both => true,
            KeywordRole::AfterExpression => false,
        }
    }

    pub fn valid_after_expression(&self) -> (b: bool)
        ensures
            b == (self.role == KeywordRole::AfterExpression || self.role == KeywordRole::Both),
    {
        match self.role {
            KeywordRole::AfterExpression | KeywordRole::Both => true,
            KeywordRole::ValueStart => false,
        }
    }
}

/// The number of keywords.
pub const KEYWORD_COUNT: usize = 36;

pub open spec fn entry(
    text: &'static str,
    category: KeywordCategory,
    role: KeywordRole,
) -> KeywordEntry {
    KeywordEntry { text: text@, category, role }
}

/// The keyword table, by position.
pub open spec fn keyword_entry(i: int) -> KeywordEntry {
    if i == 0 {
        entry(kw::FROM, KeywordCategory::Clause, KeywordRole::ValueStart)
    } else if i == 1 {
        entry(kw::JOIN, KeywordCategory::Clause, KeywordRole::AfterExpression)
    } else if i == 2 {
        entry(kw::AS, KeywordCategory::Clause, KeywordRole::AfterExpression)
    } else if i == 3 {
        entry(kw::ON, KeywordCategory::Clause, KeywordRole::AfterExpression)
    } else if i == 4 {
        entry(kw::LET, KeywordCategory::Clause, KeywordRole::AfterExpression)
    } else if i == 5 {
        entry(kw::WHERE, KeywordCategory::Clause, KeywordRole::AfterExpression)
    } else if i == 6 {
        entry(kw::PARTITION, KeywordCategory::Clause, KeywordRole::AfterExpression)
    } else if i == 7 {
        entry(kw::AGGREGATE, KeywordCategory::Clause, KeywordRole::AfterExpression)
    } else if i == 8 {
        entry(kw::EACH, KeywordCategory::Clause, KeywordRole::AfterExpression)
    } else if i == 9 {
        entry(kw::GROUP, KeywordCategory::Clause, KeywordRole::AfterExpression)
    } else if i == 10 {
        entry(kw::SELECT, KeywordCategory::Clause, KeywordRole::AfterExpression)
    } else if i == 11 {
        entry(kw::ORDER, KeywordCategory::Clause, KeywordRole::AfterExpression)
    } else if i == 12 {
        entry(kw::LIMIT, KeywordCategory::Clause, KeywordRole::AfterExpression)
    } else if i == 13 {
        entry(kw::BY, KeywordCategory::Sort, KeywordRole::AfterExpression)
    } else if i == 14 {
        entry(kw::ASC, KeywordCategory::Sort, KeywordRole::AfterExpression)
    } else if i == 15 {
        entry(kw::DESC, KeywordCategory::Sort, KeywordRole::AfterExpression)
    } else if i == 16 {
        entry(kw::AND, KeywordCategory::Boolean, KeywordRole::AfterExpression)
    } else if i == 17 {
        entry(kw::OR, KeywordCategory::Boolean, KeywordRole::AfterExpression)
    } else if i == 18 {
        entry(kw::NOT, KeywordCategory::Boolean, KeywordRole::ValueStart)
    } else if i == 19 {
        entry(kw::IN, KeywordCategory::Quantifier, KeywordRole::AfterExpression)
    } else if i == 20 {
        entry(kw::EXISTS, KeywordCategory::Quantifier, KeywordRole::AfterExpression)
    } else if i == 21 {
        entry(kw::IS, KeywordCategory::Quantifier, KeywordRole::AfterExpression)
    } else if i == 22 {
        entry(kw::MATCHES, KeywordCategory::Comparison, KeywordRole::AfterExpression)
    } else if i == 23 {
        entry(kw::STARTS_WITH, KeywordCategory::Comparison, KeywordRole::AfterExpression)
    } else if i == 24 {
        entry(kw::ENDS_WITH, KeywordCategory::Comparison, KeywordRole::AfterExpression)
    } else if i == 25 {
        entry(kw::CONTAINS, KeywordCategory::Comparison, KeywordRole::AfterExpression)
    } else if i == 26 {
        entry(kw::SUM, KeywordCategory::Reducer, KeywordRole::ValueStart)
    } else if i == 27 {
        entry(kw::COUNT, KeywordCategory::Reducer, KeywordRole::ValueStart)
    } else if i == 28 {
        entry(kw::AVG, KeywordCategory::Reducer, KeywordRole::ValueStart)
    } else if i == 29 {
        entry(kw::MIN, KeywordCategory::Reducer, KeywordRole::ValueStart)
    } else if i == 30 {
        entry(kw::MAX, KeywordCategory::Reducer, KeywordRole::ValueStart)
    } else if i == 31 {
        entry(kw::TRUE, KeywordCategory::Literal, KeywordRole::ValueStart)
    } else if i == 32 {
        entry(kw::FALSE, KeywordCategory::Literal, KeywordRole::ValueStart)
    } else if i == 33 {
        entry(kw::NULL, KeywordCategory::Literal, KeywordRole::ValueStart)
    } else if i == 34 {
        entry(kw::ROUND, KeywordCategory::Builtin, KeywordRole::ValueStart)
    } else {
        entry(kw::DISTINCT, KeywordCategory::Clause, KeywordRole::AfterExpression)
    }
}

/// The keyword at position `i` of the table.
pub fn keyword_at(i: usize) -> (k: Keyword)
    requires
        i < KEYWORD_COUNT,
    ensures
        k@ == keyword_entry(i as int),
{
    let (text, category, role) = match i {
        0 => (kw::FROM, KeywordCategory::Clause, KeywordRole::ValueStart),
        1 => (kw::JOIN, KeywordCategory::Clause, KeywordRole::AfterExpression),
        2 => (kw::AS, KeywordCategory::Clause, KeywordRole::AfterExpression),
        3 => (kw::ON, KeywordCategory::Clause, KeywordRole::AfterExpression),
        4 => (kw::LET, KeywordCategory::Clause, KeywordRole::AfterExpression),
        5 => (kw::WHERE, KeywordCategory::Clause, KeywordRole::AfterExpression),
        6 => (kw::PARTITION, KeywordCategory::Clause, KeywordRole::AfterExpression),
        7 => (kw::AGGREGATE, KeywordCategory::Clause, KeywordRole::AfterExpression),
        8 => (kw::EACH, KeywordCategory::Clause, KeywordRole::AfterExpression),
        9 => (kw::GROUP, KeywordCategory::Clause, KeywordRole::AfterExpression),
        10 => (kw::SELECT, KeywordCategory::Clause, KeywordRole::AfterExpression),
        11 => (kw::ORDER, KeywordCategory::Clause, KeywordRole::AfterExpression),
        12 => (kw::LIMIT, KeywordCategory::Clause, KeywordRole::AfterExpression),
        13 => (kw::BY, KeywordCategory::Sort, KeywordRole::AfterExpression),
        14 => (kw::ASC, KeywordCategory::Sort, KeywordRole::AfterExpression),
        15 => (kw::DESC, KeywordCategory::Sort, KeywordRole::AfterExpression),
        16 => (kw::AND, KeywordCategory::Boolean, KeywordRole::AfterExpression),
        17 => (kw::OR, KeywordCategory::Boolean, KeywordRole::AfterExpression),
        18 => (kw::NOT, KeywordCategory::Boolean, KeywordRole::ValueStart),
        19 => (kw::IN, KeywordCategory::Quantifier, KeywordRole::AfterExpression),
        20 => (kw::EXISTS, KeywordCategory::Quantifier, KeywordRole::AfterExpression),
        21 => (kw::IS, KeywordCategory::Quantifier, KeywordRole::AfterExpression),
        22 => (kw::MATCHES, KeywordCategory::Comparison, KeywordRole::AfterExpression),
        23 => (kw::STARTS_WITH, KeywordCategory::Comparison, KeywordRole::AfterExpression),
        24 => (kw::ENDS_WITH, KeywordCategory::Comparison, KeywordRole::AfterExpression),
        25 => (kw::CONTAINS, KeywordCategory::Comparison, KeywordRole::AfterExpression),
        26 => (kw::SUM, KeywordCategory::Reducer, KeywordRole::ValueStart),
        27 => (kw::COUNT, KeywordCategory::Reducer, KeywordRole::ValueStart),
        28 => (kw::AVG, KeywordCategory::Reducer, KeywordRole::ValueStart),
        29 => (kw::MIN, KeywordCategory::Reducer, KeywordRole::ValueStart),
        30 => (kw::MAX, KeywordCategory::Reducer, KeywordRole::ValueStart),
        31 => (kw::TRUE, KeywordCategory::Literal, KeywordRole::ValueStart),
        32 => (kw::FALSE, KeywordCategory::Literal, KeywordRole::ValueStart),
        33 => (kw::NULL, KeywordCategory::Literal, KeywordRole::ValueStart),
        34 => (kw::ROUND, KeywordCategory::Builtin, KeywordRole::ValueStart),
        _ => (kw::DISTINCT, KeywordCategory::Clause, KeywordRole::AfterExpression),
    };
    Keyword { text, category, role }
}

/// The first keyword with this text, from position `i` of the table on.
pub open spec fn find_keyword(text: Seq<char>, i: int) -> Option<KeywordEntry>
    decreases KEYWORD_COUNT - i,
{
    if !(0 <= i < KEYWORD_COUNT) {
        None
    } else if keyword_entry(i).text == text {
        Some(keyword_entry(i))
    } else {
        find_keyword(text, i + 1)
    }
}

/// The keyword with this text.
pub open spec fn keyword_of(text: Seq<char>) -> Option<KeywordEntry> {
    find_keyword(text, 0)
}

/// Looks a keyword up.
pub fn keyword(text: &str) -> (r: Option<Keyword>)
    ensures
        match keyword_of(text@) {
            Some(e) => r matches Some(k) && k@ == e,
            None => r is None,
        },
{
    let mut i: usize = 0;
    while i < KEYWORD_COUNT
        invariant
            i <= KEYWORD_COUNT,
            find_keyword(text@, i as int) == keyword_of(text@),
        decreases KEYWORD_COUNT - i,
    {
        let k = keyword_at(i);
        if *k.text == *text {
            return Some(k);
        }
        i += 1;
    }
    None
}

pub fn is_keyword(text: &str) -> (b: bool)
    ensures
        b == (keyword_of(text@) is Some),
{
    keyword(text).is_some()
}

pub fn keyword_category(text: &str) -> (r: Option<KeywordCategory>)
    ensures
        r == match keyword_of(text@) {
            Some(e) => Some(e.category),
            None => None,
        },
{
    match keyword(text) {
        Some(k) => Some(k.category),
        None => None,
    }
}

/// How many arguments a function takes.
#[derive(Clone, Copy, Debug, PartialEq, Eq, Structural)]
pub struct FunctionSpec {
    pub min_args: usize,
    pub max_args: usize,
}

/// The arity of the function `name`.
pub open spec fn function_spec(name: Seq<char>) -> Option<FunctionSpec> {
    if name == kw::ROUND@ {
        Some(FunctionSpec { min_args: 1, max_args: 2 })
    } else if name == kw::LENGTH@ {
        Some(FunctionSpec { min_args: 1, max_args: 1 })
    } else if name == kw::LOWER@ {
        Some(FunctionSpec { min_args: 1, max_args: 1 })
    } else if name == kw::UPPER@ {
        Some(FunctionSpec { min_args: 1, max_args: 1 })
    } else if name == kw::ABS@ {
        Some(FunctionSpec { min_args: 1, max_args: 1 })
    } else if name == kw::FLOOR@ {
        Some(FunctionSpec { min_args: 1, max_args: 1 })
    } else if name == kw::CEIL@ {
        Some(FunctionSpec { min_args: 1, max_args: 1 })
    } else if name == kw::SQRT@ {
        Some(FunctionSpec { min_args: 1, max_args: 1 })
    } else if name == kw::POW@ {
        Some(FunctionSpec { min_args: 2, max_args: 2 })
    } else if name == kw::MOD@ {
        Some(FunctionSpec { min_args: 2, max_args: 2 })
    } else if name == kw::TRIM@ {
        Some(FunctionSpec { min_args: 1, max_args: 1 })
    } else if name == kw::SUBSTR@ {
        Some(FunctionSpec { min_args: 2, max_args: 3 })
    } else if name == kw::REPLACE@ {
        Some(FunctionSpec { min_args: 3, max_args: 3 })
    } else {
        None
    }
}

/// Looks a function up.
pub fn function(name: &str) -> (r: Option<FunctionSpec>)
    ensures
        r == function_spec(name@),
{
    if *name == *kw::ROUND {
        Some(FunctionSpec { min_args: 1, max_args: 2 })
    } else if *name == *kw::LENGTH {
        Some(FunctionSpec { min_args: 1, max_args: 1 })
    } else if *name == *kw::LOWER {
        Some(FunctionSpec { min_args: 1, max_args: 1 })
    } else if *name == *kw::UPPER {
        Some(FunctionSpec { min_args: 1, max_args: 1 })
    } else if *name == *kw::ABS {
        Some(FunctionSpec { min_args: 1, max_args: 1 })
    } else if *name == *kw::FLOOR {
        Some(FunctionSpec { min_args: 1, max_args: 1 })
    } else if *name == *kw::CEIL {
        Some(FunctionSpec { min_args: 1, max_args: 1 })
    } else if *name == *kw::SQRT {
        Some(FunctionSpec { min_args: 1, max_args: 1 })
    } else if *name == *kw::POW {
        Some(FunctionSpec { min_args: 2, max_args: 2 })
    } else if *name == *kw::MOD {
        Some(FunctionSpec { min_args: 2, max_args: 2 })
    } else if *name == *kw::TRIM {
        Some(FunctionSpec { min_args: 1, max_args: 1 })
    } else if *name == *kw::SUBSTR {
        Some(FunctionSpec { min_args: 2, max_args: 3 })
    } else if *name == *kw::REPLACE {
        Some(FunctionSpec { min_args: 3, max_args: 3 })
    } else {
        None
    }
}

/// The operators.
#[derive(Clone, Copy, Debug, PartialEq, Eq, Structural)]
pub enum OperatorKind {
    Eq,
    Ne,
    Lt,
    Le,
    Gt,
    Ge,
    Assign,
    Add,
    Sub,
    Mul,
    Div,
}

#[derive(Clone, Copy, Debug)]
pub struct OperatorSpec {
    pub text: &'static str,
    pub kind: OperatorKind,
}

/// The punctuation marks.
#[derive(Clone, Copy, Debug, PartialEq, Eq, Structural)]
pub enum PunctKind {
    Dot,
    LBrack,
    RBrack,
    LBrace,
    RBrace,
    Colon,
    Comma,
    Semi,
    Pipe,
    Question,
    QuestionQuestion,
    LParen,
    RParen,
    Star,
    StarStar,
    FatArrow,
}

#[derive(Clone, Copy, Debug)]
pub struct PunctSpec {
    pub text: &'static str,
    pub kind: PunctKind,
}

pub const OPERATOR_COUNT: usize = 11;

pub const PUNCT_COUNT: usize = 16;

/// The operator table, longer spellings first.
pub open spec fn operator_entry(i: int) -> (Seq<char>, OperatorKind) {
    if i == 0 {
        ("=="@, OperatorKind::Eq)
    } else if i == 1 {
        ("!="@, OperatorKind::Ne)
    } else if i == 2 {
        ("<="@, OperatorKind::Le)
    } else if i == 3 {
        (">="@, OperatorKind::Ge)
    } else if i == 4 {
        ("<"@, OperatorKind::Lt)
    } else if i == 5 {
        (">"@, OperatorKind::Gt)
    } else if i == 6 {
        ("="@, OperatorKind::Assign)
    } else if i == 7 {
        ("+"@, OperatorKind::Add)
    } else if i == 8 {
        ("-"@, OperatorKind::Sub)
    } else if i == 9 {
        ("*"@, OperatorKind::Mul)
    } else {
        ("/"@, OperatorKind::Div)
    }
}

/// The punctuation table, longer spellings first.
pub open spec fn punct_entry(i: int) -> (Seq<char>, PunctKind) {
    if i == 0 {
        ("**"@, PunctKind::StarStar)
    } else if i == 1 {
        ("??"@, PunctKind::QuestionQuestion)
    } else if i == 2 {
        ("=>"@, PunctKind::FatArrow)
    } else if i == 3 {
        ("."@, PunctKind::Dot)
    } else if i == 4 {
        ("["@, PunctKind::LBrack)
    } else if i == 5 {
        ("]"@, PunctKind::RBrack)
    } else if i == 6 {
        ("{"@, PunctKind::LBrace)
    } else if i == 7 {
        ("}"@, PunctKind::RBrace)
    } else if i == 8 {
        (":"@, PunctKind::Colon)
    } else if i == 9 {
        (","@, PunctKind::Comma)
    } else if i == 10 {
        (";"@, PunctKind::Semi)
    } else if i == 11 {
        ("|"@, PunctKind::Pipe)
    } else if i == 12 {
        ("?"@, PunctKind::Question)
    } else if i == 13 {
        ("("@, PunctKind::LParen)
    } else if i == 14 {
        (")"@, PunctKind::RParen)
    } else {
        ("*"@, PunctKind::Star)
    }
}

pub fn operator_at(i: usize) -> (s: OperatorSpec)
    requires
        i < OPERATOR_COUNT,
    ensures
        (s.text@, s.kind) == operator_entry(i as int),
{
    let (text, kind) = match i {
        0 => ("==", OperatorKind::Eq),
        1 => ("!=", OperatorKind::Ne),
        2 => ("<=", OperatorKind::Le),
        3 => (">=", OperatorKind::Ge),
        4 => ("<", OperatorKind::Lt),
        5 => (">", OperatorKind::Gt),
        6 => ("=", OperatorKind::Assign),
        7 => ("+", OperatorKind::Add),
        8 => ("-", OperatorKind::Sub),
        9 => ("*", OperatorKind::Mul),
        _ => ("/", OperatorKind::Div),
    };
    OperatorSpec { text, kind }
}

pub fn punct_at(i: usize) -> (s: PunctSpec)
    requires
        i < PUNCT_COUNT,
    ensures
        (s.text@, s.kind) == punct_entry(i as int),
{
    let (text, kind) = match i {
        0 => ("**", PunctKind::StarStar),
        1 => ("??", PunctKind::QuestionQuestion),
        2 => ("=>", PunctKind::FatArrow),
        3 => (".", PunctKind::Dot),
        4 => ("[", PunctKind::LBrack),
        5 => ("]", PunctKind::RBrack),
        6 => ("{", PunctKind::LBrace),
        7 => ("}", PunctKind::RBrace),
        8 => (":", PunctKind::Colon),
        9 => (",", PunctKind::Comma),
        10 => (";", PunctKind::Semi),
        11 => ("|", PunctKind::Pipe),
        12 => ("?", PunctKind::Question),
        13 => ("(", PunctKind::LParen),
        14 => (")", PunctKind::RParen),
        _ => ("*", PunctKind::Star),
    };
    PunctSpec { text, kind }
}

/// The highlighter's buckets.
#[derive(Clone, Copy, Debug, PartialEq, Eq, Structural)]
pub enum TokenCategory {
    Keyword,
    Reducer,
    Literal,
    Identifier,
    String,
    Number,
    Comment,
    Operator,
    Splat,
    Punctuation,
    Error,
}

/// The name of a highlighter bucket.
pub open spec fn category_text(c: TokenCategory) -> Seq<char> {
    match c {
        TokenCategory::Keyword => "keyword"@,
        TokenCategory::Reducer => "reducer"@,
        TokenCategory::Literal => "literal"@,
        TokenCategory::Identifier => "identifier"@,
        TokenCategory::String => "string"@,
        TokenCategory::Number => "number"@,
        TokenCategory::Comment => "comment"@,
        TokenCategory::Operator => "operator"@,
        TokenCategory::Splat => "splat"@,
        TokenCategory::Punctuation => "punctuation"@,
        TokenCategory::Error => "error"@,
    }
}

impl TokenCategory {
    pub fn as_str(self) -> (s: &'static str)
        ensures
            s@ == category_text(self),
    {
        match self {
            TokenCategory::Keyword => "keyword",
            TokenCategory::Reducer => "reducer",
            TokenCategory::Literal => "literal",
            TokenCategory::Identifier => "identifier",
            TokenCategory::String => "string",
            TokenCategory::Number => "number",
            TokenCategory::Comment => "comment",
            TokenCategory::Operator => "operator",
            TokenCategory::Splat => "splat",
            TokenCategory::Punctuation => "punctuation",
            TokenCategory::Error => "error",
        }
    }
}

/// The bucket of an identifier.
pub open spec fn word_category(text: Seq<char>) -> TokenCategory {
    match keyword_of(text) {
        Some(e) => if e.category == KeywordCategory::Reducer {
            TokenCategory::Reducer
        } else if e.category == KeywordCategory::Literal {
            TokenCategory::Literal
        } else {
            TokenCategory::Keyword
        },
        None => TokenCategory::Identifier,
    }
}

pub fn identifier_category(text: &str) -> (c: TokenCategory)
    ensures
        c == word_category(text@),
{
    match keyword_category(text) {
        Some(KeywordCategory::Reducer) => TokenCategory::Reducer,
        Some(KeywordCategory::Literal) => TokenCategory::Literal,
        Some(_) => TokenCategory::Keyword,
        None => TokenCategory::Identifier,
    }
}

/// The manifest's name of a keyword category.
pub open spec fn keyword_category_text(k: KeywordCategory) -> Seq<char> {
    match k {
        KeywordCategory::Clause => "clause"@,
        KeywordCategory::Boolean => "boolean"@,
        KeywordCategory::Comparison => "comparison"@,
        KeywordCategory::Quantifier => "quantifier"@,
        KeywordCategory::Sort => "sort"@,
        KeywordCategory::Reducer => "reducer"@,
        KeywordCategory::Literal => "literal"@,
        KeywordCategory::Builtin => "builtin"@,
    }
}

fn keyword_category_str(k: KeywordCategory) -> (s: &'static str)
    ensures
        s@ == keyword_category_text(k),
{
    match k {
        KeywordCategory::Clause => "clause",
        KeywordCategory::Boolean => "boolean",
        KeywordCategory::Comparison => "comparison",
        KeywordCategory::Quantifier => "quantifier",
        KeywordCategory::Sort => "sort",
        KeywordCategory::Reducer => "reducer",
        KeywordCategory::Literal => "literal",
        KeywordCategory::Builtin => "builtin",
    }
}

/// The manifest's name of a keyword role.
pub open spec fn keyword_role_text(k: KeywordRole) -> Seq<char> {
    match k {
        KeywordRole::ValueStart => "valueStart"@,
        KeywordRole::AfterExpression => "afterExpression"@,
        KeywordRole::Both => "both"@,
    }
}

fn keyword_role_str(k: KeywordRole) -> (s: &'static str)
    ensures
        s@ == keyword_role_text(k),
{
    match k {
        KeywordRole::ValueStart => "valueStart",
        KeywordRole::AfterExpression => "afterExpression",
        KeywordRole::Both => "both",
    }
}

/// The manifest's name of an operator.
pub open spec fn operator_kind_text(k: OperatorKind) -> Seq<char> {
    match k {
        OperatorKind::Eq => "eq"@,
        OperatorKind::Ne => "ne"@,
        OperatorKind::Lt => "lt"@,
        OperatorKind::Le => "le"@,
        OperatorKind::Gt => "gt"@,
        OperatorKind::Ge => "ge"@,
        OperatorKind::Assign => "assign"@,
        OperatorKind::Add => "add"@,
        OperatorKind::Sub => "sub"@,
        OperatorKind::Mul => "mul"@,
        OperatorKind::Div => "div"@,
    }
}

fn operator_kind_str(k: OperatorKind) -> (s: &'static str)
    ensures
        s@ == operator_kind_text(k),
{
    match k {
        OperatorKind::Eq => "eq",
        OperatorKind::Ne => "ne",
        OperatorKind::Lt => "lt",
        OperatorKind::Le => "le",
        OperatorKind::Gt => "gt",
        OperatorKind::Ge => "ge",
        OperatorKind::Assign => "assign",
        OperatorKind::Add => "add",
        OperatorKind::Sub => "sub",
        OperatorKind::Mul => "mul",
        OperatorKind::Div => "div",
    }
}

/// The manifest's name of a punctuation mark.
pub open spec fn punct_kind_text(k: PunctKind) -> Seq<char> {
    match k {
        PunctKind::Dot => "dot"@,
        PunctKind::LBrack => "lbrack"@,
        PunctKind::RBrack => "rbrack"@,
        PunctKind::LBrace => "lbrace"@,
        PunctKind::RBrace => "rbrace"@,
        PunctKind::Colon => "colon"@,
        PunctKind::Comma => "comma"@,
        PunctKind::Semi => "semi"@,
        PunctKind::Pipe => "pipe"@,
        PunctKind::Question => "question"@,
        PunctKind::QuestionQuestion => "questionQuestion"@,
        PunctKind::LParen => "lparen"@,
        PunctKind::RParen => "rparen"@,
        PunctKind::Star => "star"@,
        PunctKind::StarStar => "starStar"@,
        PunctKind::FatArrow => "fatArrow"@,
    }
}

fn punct_kind_str(k: PunctKind) -> (s: &'static str)
    ensures
        s@ == punct_kind_text(k),
{
    match k {
        PunctKind::Dot => "dot",
        PunctKind::LBrack => "lbrack",
        PunctKind::RBrack => "rbrack",
        PunctKind::LBrace => "lbrace",
        PunctKind::RBrace => "rbrace",
        PunctKind::Colon => "colon",
        PunctKind::Comma => "comma",
        PunctKind::Semi => "semi",
        PunctKind::Pipe => "pipe",
        PunctKind::Question => "question",
        PunctKind::QuestionQuestion => "questionQuestion",
        PunctKind::LParen => "lparen",
        PunctKind::RParen => "rparen",
        PunctKind::Star => "star",
        PunctKind::StarStar => "starStar",
        PunctKind::FatArrow => "fatArrow",
    }
}

pub open spec fn comma_before(i: int) -> Seq<char> {
    if i > 0 {
        ","@
    } else {
        Seq::empty()
    }
}

/// The manifest's entry of a keyword.
pub open spec fn keyword_json(i: int) -> Seq<char> {
    let e = keyword_entry(i);
    comma_before(i) + "{\"text\":\""@ + json_escaped(e.text) + "\",\"category\":\""@
        + keyword_category_text(e.category) + "\",\"role\":\""@ + keyword_role_text(e.role)
        + "\"}"@
}

/// The manifest's entry of an operator or a punctuation mark.
pub open spec fn spelling_json(i: int, text: Seq<char>, kind: Seq<char>) -> Seq<char> {
    comma_before(i) + "{\"text\":\""@ + json_escaped(text) + "\",\"kind\":\""@ + kind + "\"}"@
}

pub open spec fn operator_json(i: int) -> Seq<char> {
    let (text, kind) = operator_entry(i);
    spelling_json(i, text, operator_kind_text(kind))
}

pub open spec fn punct_json(i: int) -> Seq<char> {
    let (text, kind) = punct_entry(i);
    spelling_json(i, text, punct_kind_text(kind))
}

/// The first `n` pieces, one after the other.
pub open spec fn pieces(n: nat, piece: spec_fn(int) -> Seq<char>) -> Seq<char>
    decreases n,
{
    if n == 0 {
        Seq::empty()
    } else {
        pieces((n - 1) as nat, piece) + piece(n - 1)
    }
}

/// The manifest: the three tables as JSON.
pub open spec fn manifest_text() -> Seq<char> {
    "{"@ + "\"keywords\":["@ + pieces(KEYWORD_COUNT as nat, |i: int| keyword_json(i)) + "]"@
        + ",\"operators\":["@ + pieces(OPERATOR_COUNT as nat, |i: int| operator_json(i)) + "]"@
        + ",\"punctuation\":["@ + pieces(PUNCT_COUNT as nat, |i: int| punct_json(i)) + "]"@ + "}"@
}

/// Appends one operator or punctuation entry.
fn push_spelling(out: &mut String, i: usize, text: &str, kind: &str)
    ensures
        final(out)@ == old(out)@ + spelling_json(i as int, text@, kind@),
{
    let ghost before = out@;
    if i > 0 {
        out.append(",");
    }
    out.append("{\"text\":\"");
    push_json_escaped(out, text);
    out.append("\",\"kind\":\"");
    out.append(kind);
    out.append("\"}");
    proof {
        assert(out@ =~= before + spelling_json(i as int, text@, kind@));
    }
}

/// Appends one keyword entry.
fn push_keyword(out: &mut String, i: usize)
    requires
        i < KEYWORD_COUNT,
    ensures
        final(out)@ == old(out)@ + keyword_json(i as int),
{
    let ghost before = out@;
    let k = keyword_at(i);
    if i > 0 {
        out.append(",");
    }
    out.append("{\"text\":\"");
    push_json_escaped(out, k.text);
    out.append("\",\"category\":\"");
    out.append(keyword_category_str(k.category));
    out.append("\",\"role\":\"");
    out.append(keyword_role_str(k.role));
    out.append("\"}");
    proof {
        assert(out@ =~= before + keyword_json(i as int));
    }
}

/// The manifest as JSON, for the user interface.
pub fn manifest_json() -> (out: String)
    ensures
        out@ == manifest_text(),
{
    let mut out = String::new();
    out.append("{");
    out.append("\"keywords\":[");
    let ghost head = out@;
    let ghost kf = |i: int| keyword_json(i);
    let mut i: usize = 0;
    assert(out@ =~= head + pieces(0, kf));
    while i < KEYWORD_COUNT
        invariant
            i <= KEYWORD_COUNT,
            kf == (|i: int| keyword_json(i)),
            out@ == head + pieces(i as nat, kf),
        decreases KEYWORD_COUNT - i,
    {
        push_keyword(&mut out, i);
        i += 1;
        assert(out@ =~= head + pieces(i as nat, kf));
    }
    out.append("]");
    out.append(",\"operators\":[");
    let ghost head2 = out@;
    let ghost of = |i: int| operator_json(i);
    let mut j: usize = 0;
    assert(out@ =~= head2 + pieces(0, of));
    while j < OPERATOR_COUNT
        invariant
            j <= OPERATOR_COUNT,
            of == (|i: int| operator_json(i)),
            out@ == head2 + pieces(j as nat, of),
        decreases OPERATOR_COUNT - j,
    {
        let s = operator_at(j);
        push_spelling(&mut out, j, s.text, operator_kind_str(s.kind));
        j += 1;
        assert(out@ =~= head2 + pieces(j as nat, of));
    }
    out.append("]");
    out.append(",\"punctuation\":[");
    let ghost head3 = out@;
    let ghost pf = |i: int| punct_json(i);
    let mut k: usize = 0;
    assert(out@ =~= head3 + pieces(0, pf));
    while k < PUNCT_COUNT
        invariant
            k <= PUNCT_COUNT,
            pf == (|i: int| punct_json(i)),
            out@ == head3 + pieces(k as nat, pf),
        decreases PUNCT_COUNT - k,
    {
        let s = punct_at(k);
        push_spelling(&mut out, k, s.text, punct_kind_str(s.kind));
        k += 1;
        assert(out@ =~= head3 + pieces(k as nat, pf));
    }
    out.append("]");
    out.append("}");
    assert(out@ =~= manifest_text());
    out
}

} // verus!
