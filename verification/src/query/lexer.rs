//! The lexer of the query language.
use vstd::prelude::*;

use super::numeral::{plain, plain_numeral};
use super::{qfault, QueryError, QueryFault};
use crate::text::{
    alphabetic, alphanumeric, ascii_digit, chars_of, is_scalar, string_from, whitespace,
};

verus! {

/// A token of the query language.
#[derive(Debug)]
pub enum TokenKind {
    Dot,
    LBrack,
    RBrack,
    LBrace,
    RBrace,
    Colon,
    Comma,
    Semi,
    Pipe,
    Question,
    /// `??`: fallback for an empty reduction.
    QuestionQuestion,
    LParen,
    RParen,
    /// Single-level wildcard, and multiplication.
    Star,
    /// Deep wildcard.
    StarStar,
    Ident(String),
    /// `$name`: a query parameter.
    Param(String),
    Str(String),
    /// A number, as it is written.
    Number(String),
    Eq,
    Ne,
    Lt,
    Le,
    Gt,
    Ge,
    /// Bare `=`.
    Assign,
    Plus,
    /// Binary or unary minus; a minus that starts a negative number belongs
    /// to the number.
    Minus,
    Slash,
    Eof,
}

/// A token in mathematical form.
pub enum Tok {
    Dot,
    LBrack,
    RBrack,
    LBrace,
    RBrace,
    Colon,
    Comma,
    Semi,
    Pipe,
    Question,
    QuestionQuestion,
    LParen,
    RParen,
    Star,
    StarStar,
    Ident(Seq<char>),
    Param(Seq<char>),
    Str(Seq<char>),
    Number(Seq<char>),
    Eq,
    Ne,
    Lt,
    Le,
    Gt,
    Ge,
    Assign,
    Plus,
    Minus,
    Slash,
    Eof,
}

impl View for TokenKind {
    type V = Tok;

    open spec fn view(&self) -> Tok {
        match self {
            TokenKind::Dot => Tok::Dot,
            TokenKind::LBrack => Tok::LBrack,
            TokenKind::RBrack => Tok::RBrack,
            TokenKind::LBrace => Tok::LBrace,
            TokenKind::RBrace => Tok::RBrace,
            TokenKind::Colon => Tok::Colon,
            TokenKind::Comma => Tok::Comma,
            TokenKind::Semi => Tok::Semi,
            TokenKind::Pipe => Tok::Pipe,
            TokenKind::Question => Tok::Question,
            TokenKind::QuestionQuestion => Tok::QuestionQuestion,
            TokenKind::LParen => Tok::LParen,
            TokenKind::RParen => Tok::RParen,
            TokenKind::Star => Tok::Star,
            TokenKind::StarStar => Tok::StarStar,
            TokenKind::Ident(s) => Tok::Ident(s@),
            TokenKind::Param(s) => Tok::Param(s@),
            TokenKind::Str(s) => Tok::Str(s@),
            TokenKind::Number(s) => Tok::Number(s@),
            TokenKind::Eq => Tok::Eq,
            TokenKind::Ne => Tok::Ne,
            TokenKind::Lt => Tok::Lt,
            TokenKind::Le => Tok::Le,
            TokenKind::Gt => Tok::Gt,
            TokenKind::Ge => Tok::Ge,
            TokenKind::Assign => Tok::Assign,
            TokenKind::Plus => Tok::Plus,
            TokenKind::Minus => Tok::Minus,
            TokenKind::Slash => Tok::Slash,
            TokenKind::Eof => Tok::Eof,
        }
    }
}

/// How an error message names a token.
pub open spec fn description(t: Tok) -> Seq<char> {
    match t {
        Tok::Dot => "."@,
        Tok::LBrack => "["@,
        Tok::RBrack => "]"@,
        Tok::LBrace => "{"@,
        Tok::RBrace => "}"@,
        Tok::Colon => ":"@,
        Tok::Comma => ","@,
        Tok::Semi => ";"@,
        Tok::Pipe => "|"@,
        Tok::Question => "?"@,
        Tok::QuestionQuestion => "??"@,
        Tok::LParen => "("@,
        Tok::RParen => ")"@,
        Tok::Star => "*"@,
        Tok::StarStar => "**"@,
        Tok::Ident(s) => "‘"@ + s + "’"@,
        Tok::Param(s) => "‘$"@ + s + "’"@,
        Tok::Str(s) => "string “"@ + s + "”"@,
        Tok::Number(s) => "number "@ + plain(s),
        Tok::Eq => "=="@,
        Tok::Ne => "!="@,
        Tok::Lt => "<"@,
        Tok::Le => "<="@,
        Tok::Gt => ">"@,
        Tok::Ge => ">="@,
        Tok::Assign => "="@,
        Tok::Plus => "+"@,
        Tok::Minus => "-"@,
        Tok::Slash => "/"@,
        Tok::Eof => "end of input"@,
    }
}

/// `open`, `text` and `close`, one after the other.
pub(crate) fn wrapped(open: &str, text: &str, close: &str) -> (out: String)
    ensures
        out@ == open@ + text@ + close@,
{
    let mut out = open.to_string();
    out.append(text);
    out.append(close);
    out
}

impl TokenKind {
    /// How an error message names the token.
    pub fn description(&self) -> (out: String)
        ensures
            out@ == description(self@),
    {
        match self {
            TokenKind::Dot => ".".to_string(),
            TokenKind::LBrack => "[".to_string(),
            TokenKind::RBrack => "]".to_string(),
            TokenKind::LBrace => "{".to_string(),
            TokenKind::RBrace => "}".to_string(),
            TokenKind::Colon => ":".to_string(),
            TokenKind::Comma => ",".to_string(),
            TokenKind::Semi => ";".to_string(),
            TokenKind::Pipe => "|".to_string(),
            TokenKind::Question => "?".to_string(),
            TokenKind::QuestionQuestion => "??".to_string(),
            TokenKind::LParen => "(".to_string(),
            TokenKind::RParen => ")".to_string(),
            TokenKind::Star => "*".to_string(),
            TokenKind::StarStar => "**".to_string(),
            TokenKind::Ident(s) => wrapped("‘", s.as_str(), "’"),
            TokenKind::Param(s) => wrapped("‘$", s.as_str(), "’"),
            TokenKind::Str(s) => wrapped("string “", s.as_str(), "”"),
            TokenKind::Number(s) => {
                let mut out = "number ".to_string();
                out.append(plain_numeral(s.as_str()).as_str());
                out
            },
            TokenKind::Eq => "==".to_string(),
            TokenKind::Ne => "!=".to_string(),
            TokenKind::Lt => "<".to_string(),
            TokenKind::Le => "<=".to_string(),
            TokenKind::Gt => ">".to_string(),
            TokenKind::Ge => ">=".to_string(),
            TokenKind::Assign => "=".to_string(),
            TokenKind::Plus => "+".to_string(),
            TokenKind::Minus => "-".to_string(),
            TokenKind::Slash => "/".to_string(),
            TokenKind::Eof => "end of input".to_string(),
        }
    }
}

/// A token with the character position at which it starts.
#[derive(Debug)]
pub struct Token {
    pub kind: TokenKind,
    pub position: usize,
}

pub struct TokAt {
    pub kind: Tok,
    pub position: int,
}

impl View for Token {
    type V = TokAt;

    open spec fn view(&self) -> TokAt {
        TokAt { kind: self.kind@, position: self.position as int }
    }
}

/// The views of a run of tokens.
pub open spec fn toks(tokens: Seq<Token>) -> Seq<TokAt> {
    Seq::new(tokens.len(), |i: int| tokens[i]@)
}

/// Character `c` stands at `i`.
pub open spec fn char_at(s: Seq<char>, i: int, c: char) -> bool {
    0 <= i < s.len() && s[i] == c
}

pub open spec fn digit_char_at(s: Seq<char>, i: int) -> bool {
    0 <= i < s.len() && ascii_digit(s[i])
}

pub open spec fn word_start(c: char) -> bool {
    alphabetic(c) || c == '_'
}

pub open spec fn word_char(c: char) -> bool {
    alphanumeric(c) || c == '_'
}

pub open spec fn space_end(s: Seq<char>, i: int) -> int
    decreases s.len() - i,
{
    if 0 <= i < s.len() && whitespace(s[i]) {
        space_end(s, i + 1)
    } else {
        i
    }
}

pub open spec fn word_end(s: Seq<char>, i: int) -> int
    decreases s.len() - i,
{
    if 0 <= i < s.len() && word_char(s[i]) {
        word_end(s, i + 1)
    } else {
        i
    }
}

pub open spec fn digit_end(s: Seq<char>, i: int) -> int
    decreases s.len() - i,
{
    if digit_char_at(s, i) {
        digit_end(s, i + 1)
    } else {
        i
    }
}

/// Where the digits and the fraction of the number at `i` end.
pub open spec fn mantissa_end(s: Seq<char>, i: int) -> int {
    let j = if char_at(s, i, '-') {
        i + 1
    } else {
        i
    };
    let d = digit_end(s, j);
    if char_at(s, d, '.') {
        digit_end(s, d + 1)
    } else {
        d
    }
}

/// An exponent marker stands at `i`: where its digits start.
pub open spec fn exponent_digits(s: Seq<char>, i: int) -> int {
    if char_at(s, i + 1, '+') || char_at(s, i + 1, '-') {
        i + 2
    } else {
        i + 1
    }
}

pub open spec fn exponent_at(s: Seq<char>, i: int) -> bool {
    char_at(s, i, 'e') || char_at(s, i, 'E')
}

/// Where the number at `i` ends.
pub open spec fn numeral_end(s: Seq<char>, i: int) -> int {
    let m = mantissa_end(s, i);
    if exponent_at(s, m) {
        digit_end(s, exponent_digits(s, m))
    } else {
        m
    }
}

/// The number at `i` is complete: an exponent has digits.
pub open spec fn numeral_ok(s: Seq<char>, i: int) -> bool {
    let m = mantissa_end(s, i);
    exponent_at(s, m) ==> digit_char_at(s, exponent_digits(s, m))
}

pub open spec fn is_hex_char(c: char) -> bool {
    ascii_digit(c) || 'a' <= c <= 'f' || 'A' <= c <= 'F'
}

pub open spec fn hex_char_value(c: char) -> nat {
    if ascii_digit(c) {
        (c as u32 - 0x30) as nat
    } else if c >= 'a' {
        (c as u32 - 0x61 + 10) as nat
    } else {
        (c as u32 - 0x41 + 10) as nat
    }
}

/// The first of the `n` characters from `i` on that is no hexadecimal digit.
pub open spec fn hex_run(s: Seq<char>, i: int, n: nat) -> int
    decreases n,
{
    if n > 0 && 0 <= i < s.len() && is_hex_char(s[i]) {
        hex_run(s, i + 1, (n - 1) as nat)
    } else {
        i
    }
}

pub open spec fn hex4_value(s: Seq<char>, i: int) -> nat {
    hex_char_value(s[i]) * 4096 + hex_char_value(s[i + 1]) * 256 + hex_char_value(s[i + 2]) * 16
        + hex_char_value(s[i + 3])
}

/// The character of a `\u` escape; a surrogate has none of its own.
pub open spec fn escape_char(code: nat) -> char {
    if is_scalar(code as int) {
        code as char
    } else {
        '\u{FFFD}'
    }
}

/// The character that the one-letter escape `\c` stands for.
pub open spec fn letter_escape(c: char) -> Option<char> {
    if c == '"' || c == '\\' || c == '/' {
        Some(c)
    } else if c == 'b' {
        Some('\u{8}')
    } else if c == 'f' {
        Some('\u{C}')
    } else if c == 'n' {
        Some('\n')
    } else if c == 'r' {
        Some('\r')
    } else if c == 't' {
        Some('\t')
    } else {
        None
    }
}

pub open spec fn put_front(text: Seq<char>, r: Result<(int, Seq<char>), QueryFault>) -> Result<
    (int, Seq<char>),
    QueryFault,
> {
    match r {
        Ok((end, rest)) => Ok((end, text + rest)),
        Err(f) => Err(f),
    }
}

/// The rest, from `i` on, of the string literal whose quote stands at
/// `start`: its text and where it ends.
pub open spec fn literal_text(s: Seq<char>, i: int, start: int) -> Result<
    (int, Seq<char>),
    QueryFault,
>
    decreases s.len() - i,
{
    if !(0 <= i < s.len()) {
        Err(qfault(start, "unterminated string"@))
    } else if s[i] == '"' {
        Ok((i + 1, Seq::<char>::empty()))
    } else if s[i] == '\\' {
        if i + 1 >= s.len() {
            Err(qfault(i + 1, "unterminated escape"@))
        } else if s[i + 1] == 'u' {
            let stop = hex_run(s, i + 2, 4);
            if stop == i + 6 {
                proof {
                    hex_run_range(s, i + 2, 4);
                }
                put_front(seq![escape_char(hex4_value(s, i + 2))], literal_text(s, i + 6, start))
            } else if stop >= s.len() {
                Err(qfault(stop, "incomplete \\u escape"@))
            } else {
                Err(qfault(stop, "invalid hex digit"@))
            }
        } else {
            match letter_escape(s[i + 1]) {
                Some(c) => put_front(seq![c], literal_text(s, i + 2, start)),
                None => Err(qfault(i + 1, "invalid escape ‘\\"@ + seq![s[i + 1]] + "’"@)),
            }
        }
    } else {
        put_front(seq![s[i]], literal_text(s, i + 1, start))
    }
}

/// A token of `n` characters.
pub open spec fn fixed(i: int, n: int, t: Tok) -> Result<(int, Tok), QueryFault> {
    Ok((i + n, t))
}

/// `long` if `c` follows the character at `i`, else `short`.
pub open spec fn longer(s: Seq<char>, i: int, c: char, long: Tok, short: Tok) -> Result<
    (int, Tok),
    QueryFault,
> {
    if char_at(s, i + 1, c) {
        Ok((i + 2, long))
    } else {
        Ok((i + 1, short))
    }
}

pub open spec fn number_token(s: Seq<char>, i: int) -> Result<(int, Tok), QueryFault> {
    let text = s.subrange(i, numeral_end(s, i));
    if numeral_ok(s, i) {
        Ok((numeral_end(s, i), Tok::Number(text)))
    } else {
        Err(qfault(i, "invalid number ‘"@ + text + "’"@))
    }
}

/// The token at `i`, where `after_value` tells whether a value has just
/// ended, so that a minus subtracts.
pub open spec fn token_at(s: Seq<char>, i: int, after_value: bool) -> Result<
    (int, Tok),
    QueryFault,
> {
    let c = s[i];
    if c == '.' {
        fixed(i, 1, Tok::Dot)
    } else if c == '[' {
        fixed(i, 1, Tok::LBrack)
    } else if c == ']' {
        fixed(i, 1, Tok::RBrack)
    } else if c == '{' {
        fixed(i, 1, Tok::LBrace)
    } else if c == '}' {
        fixed(i, 1, Tok::RBrace)
    } else if c == ':' {
        fixed(i, 1, Tok::Colon)
    } else if c == ',' {
        fixed(i, 1, Tok::Comma)
    } else if c == ';' {
        fixed(i, 1, Tok::Semi)
    } else if c == '|' {
        fixed(i, 1, Tok::Pipe)
    } else if c == '?' {
        longer(s, i, '?', Tok::QuestionQuestion, Tok::Question)
    } else if c == '(' {
        fixed(i, 1, Tok::LParen)
    } else if c == ')' {
        fixed(i, 1, Tok::RParen)
    } else if c == '*' {
        longer(s, i, '*', Tok::StarStar, Tok::Star)
    } else if c == '=' {
        longer(s, i, '=', Tok::Eq, Tok::Assign)
    } else if c == '!' {
        if char_at(s, i + 1, '=') {
            fixed(i, 2, Tok::Ne)
        } else {
            Err(qfault(i, "expected '!=' (got bare '!')"@))
        }
    } else if c == '<' {
        longer(s, i, '=', Tok::Le, Tok::Lt)
    } else if c == '>' {
        longer(s, i, '=', Tok::Ge, Tok::Gt)
    } else if c == '"' {
        match literal_text(s, i + 1, i) {
            Ok((end, text)) => Ok((end, Tok::Str(text))),
            Err(f) => Err(f),
        }
    } else if c == '+' {
        fixed(i, 1, Tok::Plus)
    } else if c == '/' {
        fixed(i, 1, Tok::Slash)
    } else if c == '-' {
        if !after_value && digit_char_at(s, i + 1) {
            number_token(s, i)
        } else {
            fixed(i, 1, Tok::Minus)
        }
    } else if c == '$' {
        if i + 1 < s.len() && word_start(s[i + 1]) {
            let end = word_end(s, i + 2);
            Ok((end, Tok::Param(s.subrange(i + 1, end))))
        } else {
            Err(qfault(i, "expected a parameter name after ‘$’"@))
        }
    } else if ascii_digit(c) {
        number_token(s, i)
    } else if word_start(c) {
        let end = word_end(s, i + 1);
        Ok((end, Tok::Ident(s.subrange(i, end))))
    } else {
        Err(qfault(i, "unexpected character ‘"@ + seq![c] + "’"@))
    }
}

/// A value can end with the token `t`.
pub open spec fn ends_value(t: Tok) -> bool {
    match t {
        Tok::Ident(_) | Tok::Param(_) | Tok::Number(_) | Tok::Str(_) | Tok::RParen | Tok::RBrack
        | Tok::RBrace | Tok::Star | Tok::StarStar => true,
        _ => false,
    }
}

/// The tokens from `i` on, the end of input last.
pub open spec fn tokens_from(s: Seq<char>, i: int, after_value: bool) -> Result<
    Seq<TokAt>,
    QueryFault,
>
    decreases s.len() - i,
{
    let start = space_end(s, i);
    if !(0 <= start < s.len()) {
        Ok(seq![TokAt { kind: Tok::Eof, position: start }])
    } else {
        match token_at(s, start, after_value) {
            Err(f) => Err(f),
            Ok((end, t)) => if !(i < end <= s.len()) {
                // Never reached: a token is not empty.
                Err(qfault(start, "unexpected character"@))
            } else {
                match tokens_from(s, end, ends_value(t)) {
                    Err(f) => Err(f),
                    Ok(rest) => Ok(seq![TokAt { kind: t, position: start }] + rest),
                }
            },
        }
    }
}

/// The tokens of a query.
pub open spec fn tokens_of(s: Seq<char>) -> Result<Seq<TokAt>, QueryFault> {
    tokens_from(s, 0, false)
}

/// The last token of a query is the end of input.
pub proof fn tokens_end(s: Seq<char>, i: int, after_value: bool)
    ensures
        tokens_from(s, i, after_value) matches Ok(t) ==> t.len() > 0 && t.last().kind is Eof,
    decreases s.len() - i,
{
    let start = space_end(s, i);
    if 0 <= start < s.len() {
        match token_at(s, start, after_value) {
            Err(_) => {},
            Ok((end, t)) => if i < end <= s.len() {
                tokens_end(s, end, ends_value(t));
            },
        }
    }
}

pub proof fn space_end_range(s: Seq<char>, i: int)
    requires
        0 <= i <= s.len(),
    ensures
        i <= space_end(s, i) <= s.len(),
    decreases s.len() - i,
{
    if i < s.len() && whitespace(s[i]) {
        space_end_range(s, i + 1);
    }
}

pub proof fn word_end_range(s: Seq<char>, i: int)
    requires
        0 <= i <= s.len(),
    ensures
        i <= word_end(s, i) <= s.len(),
    decreases s.len() - i,
{
    if i < s.len() && word_char(s[i]) {
        word_end_range(s, i + 1);
    }
}

pub proof fn digit_end_range(s: Seq<char>, i: int)
    requires
        0 <= i <= s.len(),
    ensures
        i <= digit_end(s, i) <= s.len(),
    decreases s.len() - i,
{
    if digit_char_at(s, i) {
        digit_end_range(s, i + 1);
    }
}

pub proof fn hex_run_range(s: Seq<char>, i: int, n: nat)
    requires
        0 <= i <= s.len(),
    ensures
        i <= hex_run(s, i, n) <= s.len(),
        hex_run(s, i, n) <= i + n,
    decreases n,
{
    if n > 0 && i < s.len() && is_hex_char(s[i]) {
        hex_run_range(s, i + 1, (n - 1) as nat);
    }
}

pub proof fn numeral_end_range(s: Seq<char>, i: int)
    requires
        0 <= i < s.len(),
        digit_char_at(s, i) || (s[i] == '-' && digit_char_at(s, i + 1)),
    ensures
        i < mantissa_end(s, i) <= numeral_end(s, i) <= s.len(),
{
    let j = if char_at(s, i, '-') {
        i + 1
    } else {
        i
    };
    digit_end_range(s, j + 1);
    let d = digit_end(s, j);
    if char_at(s, d, '.') {
        digit_end_range(s, d + 1);
    }
    let m = mantissa_end(s, i);
    if exponent_at(s, m) {
        digit_end_range(s, exponent_digits(s, m));
    }
}

pub proof fn literal_text_range(s: Seq<char>, i: int, start: int)
    requires
        0 <= i <= s.len(),
        literal_text(s, i, start) is Ok,
    ensures
        ({
            let (end, _) = literal_text(s, i, start)->Ok_0;
            i < end <= s.len()
        }),
    decreases s.len() - i,
{
    if s[i] == '"' {
    } else if s[i] == '\\' {
        if s[i + 1] == 'u' {
            hex_run_range(s, i + 2, 4);
            literal_text_range(s, i + 6, start);
        } else {
            literal_text_range(s, i + 2, start);
        }
    } else {
        literal_text_range(s, i + 1, start);
    }
}

/// A token is not empty and lies inside the query.
pub proof fn token_at_range(s: Seq<char>, i: int, after_value: bool)
    requires
        0 <= i < s.len(),
        token_at(s, i, after_value) is Ok,
    ensures
        ({
            let (end, _) = token_at(s, i, after_value)->Ok_0;
            i < end <= s.len()
        }),
{
    let c = s[i];
    if c == '"' {
        literal_text_range(s, i + 1, i);
    } else if (c == '-' && !after_value && digit_char_at(s, i + 1)) || ascii_digit(c) {
        numeral_end_range(s, i);
    } else if c == '$' {
        if i + 1 < s.len() {
            word_end_range(s, i + 2);
        }
    } else if word_start(c) {
        word_end_range(s, i + 1);
    }
}

/// Breaks a query into tokens, the end of input last.
pub fn tokenize(source: &str) -> (r: Result<Vec<Token>, QueryError>)
    ensures
        match tokens_of(source@) {
            Ok(t) => r matches Ok(v) && toks(v@) == t,
            Err(f) => r matches Err(e) && e@ == f,
        },
{
    let chars = chars_of(source);
    let _size: usize = chars.len();
    let mut lexer = Lexer { chars, pos: 0 };
    lexer.run()
}

struct Lexer {
    chars: Vec<char>,
    pos: usize,
}

/// `done` in front of the tokens `r`.
spec fn ahead(done: Seq<TokAt>, r: Result<Seq<TokAt>, QueryFault>) -> Result<Seq<TokAt>, QueryFault> {
    match r {
        Ok(rest) => Ok(done + rest),
        Err(f) => Err(f),
    }
}

impl Lexer {
    spec fn wf(self) -> bool {
        self.pos <= self.chars@.len() <= usize::MAX
    }

    /// `self` is `before` moved on to `pos`.
    spec fn moved(self, before: Self, pos: int) -> bool {
        &&& self.wf()
        &&& self.chars == before.chars
        &&& self.pos == pos
    }

    fn run(&mut self) -> (r: Result<Vec<Token>, QueryError>)
        requires
            old(self).wf(),
            old(self).pos == 0,
        ensures
            match tokens_of(old(self).chars@) {
                Ok(t) => r matches Ok(v) && toks(v@) == t,
                Err(f) => r matches Err(e) && e@ == f,
            },
    {
        let ghost s = self.chars@;
        let mut tokens: Vec<Token> = Vec::new();
        let mut after_value: bool = false;
        let ghost whole = tokens_of(s);
        proof {
            if whole is Ok {
                assert(toks(tokens@) + whole->Ok_0 =~= whole->Ok_0);
            }
        }
        loop
            invariant
                self.chars@ == s,
                self.wf(),
                s == old(self).chars@,
                whole == tokens_of(s),
                whole == ahead(toks(tokens@), tokens_from(s, self.pos as int, after_value)),
            decreases s.len() - self.pos,
        {
            let ghost from = self.pos as int;
            proof {
                space_end_range(s, from);
            }
            self.skip_ws();
            if self.pos >= self.chars.len() {
                let ghost before = tokens@;
                tokens.push(Token { kind: TokenKind::Eof, position: self.pos });
                proof {
                    assert(toks(tokens@) =~= toks(before) + seq![
                        TokAt { kind: Tok::Eof, position: self.pos as int },
                    ]);
                }
                return Ok(tokens);
            }
            let start: usize = self.pos;
            proof {
                if token_at(s, start as int, after_value) is Ok {
                    token_at_range(s, start as int, after_value);
                }
            }
            let ghost was_after = after_value;
            let kind = self.read_token(after_value)?;
            after_value = prev_can_end_value(&kind);
            let ghost before = tokens@;
            let ghost k = kind@;
            tokens.push(Token { kind, position: start });
            proof {
                let one = seq![TokAt { kind: k, position: start as int }];
                let rest = tokens_from(s, self.pos as int, after_value);
                assert(toks(tokens@) =~= toks(before) + one);
                assert(tokens_from(s, from, was_after) == ahead(one, rest));
                if rest is Ok {
                    assert(toks(before) + (one + rest->Ok_0) =~= (toks(before) + one)
                        + rest->Ok_0);
                }
            }
        }
    }

    fn peek(&self) -> (c: Option<char>)
        ensures
            c == (if self.pos < self.chars@.len() {
                Some(self.chars@[self.pos as int])
            } else {
                None
            }),
    {
        if self.pos < self.chars.len() {
            Some(self.chars[self.pos])
        } else {
            None
        }
    }

    /// Whether `c` stands at the cursor.
    fn at(&self, c: char) -> (b: bool)
        ensures
            b == char_at(self.chars@, self.pos as int, c),
    {
        self.pos < self.chars.len() && self.chars[self.pos] == c
    }

    fn at_digit(&self) -> (b: bool)
        ensures
            b == digit_char_at(self.chars@, self.pos as int),
    {
        self.pos < self.chars.len() && self.chars[self.pos] >= '0' && self.chars[self.pos] <= '9'
    }

    /// Steps over the one character of `kind`.
    fn single(&mut self, kind: TokenKind) -> (r: Result<TokenKind, QueryError>)
        requires
            old(self).wf(),
            old(self).pos < old(self).chars@.len(),
        ensures
            final(self).moved(*old(self), old(self).pos + 1),
            r == Ok::<TokenKind, QueryError>(kind),
    {
        self.pos = self.pos + 1;
        Ok(kind)
    }

    /// Steps over one character, and over `next` if it follows.
    fn double(&mut self, next: char, long: TokenKind, short: TokenKind) -> (r: Result<
        TokenKind,
        QueryError,
    >)
        requires
            old(self).wf(),
            old(self).pos < old(self).chars@.len(),
        ensures
            char_at(old(self).chars@, old(self).pos + 1, next) ==> r == Ok::<TokenKind, QueryError>(
                long,
            ) && final(self).moved(*old(self), old(self).pos + 2),
            !char_at(old(self).chars@, old(self).pos + 1, next) ==> r == Ok::<
                TokenKind,
                QueryError,
            >(short) && final(self).moved(*old(self), old(self).pos + 1),
    {
        self.pos = self.pos + 1;
        if self.at(next) {
            self.pos = self.pos + 1;
            Ok(long)
        } else {
            Ok(short)
        }
    }

    /// Reads the token at the cursor.
    #[verifier::rlimit(40)]
    fn read_token(&mut self, after_value: bool) -> (r: Result<TokenKind, QueryError>)
        requires
            old(self).wf(),
            old(self).pos < old(self).chars@.len(),
        ensures
            match token_at(old(self).chars@, old(self).pos as int, after_value) {
                Ok((end, t)) => r matches Ok(k) && k@ == t && final(self).moved(*old(self), end),
                Err(f) => r matches Err(e) && e@ == f,
            },
    {
        let start: usize = self.pos;
        let ch: char = self.chars[start];
        match ch {
            '.' => self.single(TokenKind::Dot),
            '[' => self.single(TokenKind::LBrack),
            ']' => self.single(TokenKind::RBrack),
            '{' => self.single(TokenKind::LBrace),
            '}' => self.single(TokenKind::RBrace),
            ':' => self.single(TokenKind::Colon),
            ',' => self.single(TokenKind::Comma),
            ';' => self.single(TokenKind::Semi),
            '|' => self.single(TokenKind::Pipe),
            '?' => self.double('?', TokenKind::QuestionQuestion, TokenKind::Question),
            '(' => self.single(TokenKind::LParen),
            ')' => self.single(TokenKind::RParen),
            '*' => self.double('*', TokenKind::StarStar, TokenKind::Star),
            '=' => self.double('=', TokenKind::Eq, TokenKind::Assign),
            '!' => self.match_double('=', TokenKind::Ne, "expected '!=' (got bare '!')"),
            '<' => self.double('=', TokenKind::Le, TokenKind::Lt),
            '>' => self.double('=', TokenKind::Ge, TokenKind::Gt),
            '"' => self.read_string(),
            '+' => self.single(TokenKind::Plus),
            '/' => self.single(TokenKind::Slash),
            '-' => {
                if !after_value && start + 1 < self.chars.len() && self.chars[start + 1] >= '0'
                    && self.chars[start + 1] <= '9' {
                    self.read_number()
                } else {
                    self.single(TokenKind::Minus)
                }
            },
            '$' => self.read_param(),
            '0'..='9' => self.read_number(),
            _ => if ch.is_alphabetic() || ch == '_' {
                Ok(self.read_ident())
            } else {
                let mut shown = String::new();
                shown.push(ch);
                assert(shown@ =~= seq![ch]);
                let message = wrapped("unexpected character ‘", shown.as_str(), "’");
                Err(QueryError::new(start, message))
            },
        }
    }

    fn skip_ws(&mut self)
        requires
            old(self).wf(),
        ensures
            final(self).moved(*old(self), space_end(old(self).chars@, old(self).pos as int)),
    {
        while self.pos < self.chars.len() && self.chars[self.pos].is_whitespace()
            invariant
                self.moved(*old(self), self.pos as int),
                space_end(self.chars@, self.pos as int) == space_end(
                    old(self).chars@,
                    old(self).pos as int,
                ),
            decreases self.chars@.len() - self.pos,
        {
            self.pos = self.pos + 1;
        }
    }

    fn match_double(&mut self, next: char, token: TokenKind, err: &str) -> (r: Result<
        TokenKind,
        QueryError,
    >)
        requires
            old(self).wf(),
            old(self).pos < old(self).chars@.len(),
        ensures
            char_at(old(self).chars@, old(self).pos + 1, next) ==> r == Ok::<TokenKind, QueryError>(
                token,
            ) && final(self).moved(*old(self), old(self).pos + 2),
            !char_at(old(self).chars@, old(self).pos + 1, next) ==> (r matches Err(e) && e@
                == qfault(old(self).pos as int, err@)),
    {
        let start: usize = self.pos;
        self.pos = self.pos + 1;
        if self.at(next) {
            self.pos = self.pos + 1;
            Ok(token)
        } else {
            Err(QueryError::at(start, err))
        }
    }

    /// Moves past letters, digits and underscores.
    fn skip_word(&mut self)
        requires
            old(self).wf(),
        ensures
            final(self).moved(*old(self), word_end(old(self).chars@, old(self).pos as int)),
    {
        while self.pos < self.chars.len() && (self.chars[self.pos].is_alphanumeric()
            || self.chars[self.pos] == '_')
            invariant
                self.moved(*old(self), self.pos as int),
                word_end(self.chars@, self.pos as int) == word_end(
                    old(self).chars@,
                    old(self).pos as int,
                ),
            decreases self.chars@.len() - self.pos,
        {
            self.pos = self.pos + 1;
        }
    }

    fn skip_digits(&mut self)
        requires
            old(self).wf(),
        ensures
            final(self).moved(*old(self), digit_end(old(self).chars@, old(self).pos as int)),
    {
        while self.at_digit()
            invariant
                self.moved(*old(self), self.pos as int),
                digit_end(self.chars@, self.pos as int) == digit_end(
                    old(self).chars@,
                    old(self).pos as int,
                ),
            decreases self.chars@.len() - self.pos,
        {
            self.pos = self.pos + 1;
        }
    }

    fn read_ident(&mut self) -> (k: TokenKind)
        requires
            old(self).wf(),
            old(self).pos < old(self).chars@.len(),
        ensures
            ({
                let end = word_end(old(self).chars@, old(self).pos + 1);
                &&& k@ == Tok::Ident(old(self).chars@.subrange(old(self).pos as int, end))
                &&& final(self).moved(*old(self), end)
            }),
    {
        let start: usize = self.pos;
        self.pos = self.pos + 1;
        proof {
            word_end_range(self.chars@, self.pos as int);
        }
        self.skip_word();
        TokenKind::Ident(string_from(self.chars.as_slice(), start, self.pos))
    }

    fn read_param(&mut self) -> (r: Result<TokenKind, QueryError>)
        requires
            old(self).wf(),
            char_at(old(self).chars@, old(self).pos as int, '$'),
        ensures
            match token_at(old(self).chars@, old(self).pos as int, false) {
                Ok((end, t)) => r matches Ok(k) && k@ == t && final(self).moved(*old(self), end),
                Err(f) => r matches Err(e) && e@ == f,
            },
    {
        let start: usize = self.pos;
        self.pos = self.pos + 1;
        let name_start: usize = self.pos;
        if !(self.pos < self.chars.len() && (self.chars[self.pos].is_alphabetic()
            || self.chars[self.pos] == '_')) {
            return Err(QueryError::at(start, "expected a parameter name after ‘$’"));
        }
        self.pos = self.pos + 1;
        proof {
            word_end_range(self.chars@, self.pos as int);
        }
        self.skip_word();
        Ok(TokenKind::Param(string_from(self.chars.as_slice(), name_start, self.pos)))
    }

    fn read_number(&mut self) -> (r: Result<TokenKind, QueryError>)
        requires
            old(self).wf(),
            old(self).pos < old(self).chars@.len(),
            digit_char_at(old(self).chars@, old(self).pos as int) || (
            old(self).chars@[old(self).pos as int] == '-' && digit_char_at(
                old(self).chars@,
                old(self).pos + 1,
            )),
        ensures
            match number_token(old(self).chars@, old(self).pos as int) {
                Ok((end, t)) => r matches Ok(k) && k@ == t && final(self).moved(*old(self), end),
                Err(f) => r matches Err(e) && e@ == f,
            },
    {
        let ghost s = self.chars@;
        let start: usize = self.pos;
        proof {
            numeral_end_range(s, start as int);
        }
        if self.at('-') {
            self.pos = self.pos + 1;
        }
        proof {
            digit_end_range(s, self.pos as int);
        }
        self.skip_digits();
        if self.at('.') {
            self.pos = self.pos + 1;
            proof {
                digit_end_range(s, self.pos as int);
            }
            self.skip_digits();
        }
        assert(self.pos == mantissa_end(s, start as int));
        let mut complete: bool = true;
        if self.at('e') || self.at('E') {
            self.pos = self.pos + 1;
            if self.at('+') || self.at('-') {
                self.pos = self.pos + 1;
            }
            complete = self.at_digit();
            proof {
                digit_end_range(s, self.pos as int);
            }
            self.skip_digits();
        }
        assert(self.pos == numeral_end(s, start as int));
        let raw = string_from(self.chars.as_slice(), start, self.pos);
        if complete {
            Ok(TokenKind::Number(raw))
        } else {
            Err(QueryError::new(start, wrapped("invalid number ‘", raw.as_str(), "’")))
        }
    }

    fn read_string(&mut self) -> (r: Result<TokenKind, QueryError>)
        requires
            old(self).wf(),
            char_at(old(self).chars@, old(self).pos as int, '"'),
        ensures
            match literal_text(old(self).chars@, old(self).pos + 1, old(self).pos as int) {
                Ok((end, t)) => r matches Ok(k) && k@ == Tok::Str(t) && final(self).moved(
                    *old(self),
                    end,
                ),
                Err(f) => r matches Err(e) && e@ == f,
            },
    {
        let ghost s = self.chars@;
        let start: usize = self.pos;
        self.pos = self.pos + 1;
        let ghost from = self.pos as int;
        let ghost whole = literal_text(s, from, start as int);
        let mut text = String::new();
        proof {
            if whole is Ok {
                let (_, t) = whole->Ok_0;
                assert(text@ + t =~= t);
            }
        }
        loop
            invariant
                self.moved(*old(self), self.pos as int),
                s == self.chars@,
                s == old(self).chars@,
                start == old(self).pos,
                whole == literal_text(s, start + 1, start as int),
                whole == put_front(text@, literal_text(s, self.pos as int, start as int)),
            decreases s.len() - self.pos,
        {
            let ghost i = self.pos as int;
            let ghost before = text@;
            if self.pos >= self.chars.len() {
                return Err(QueryError::at(start, "unterminated string"));
            }
            let c: char = self.chars[self.pos];
            if c == '"' {
                self.pos = self.pos + 1;
                assert(text@ + Seq::<char>::empty() =~= text@);
                return Ok(TokenKind::Str(text));
            }
            if c == '\\' {
                self.pos = self.pos + 1;
                if self.pos >= self.chars.len() {
                    return Err(QueryError::at(self.pos, "unterminated escape"));
                }
                let esc: char = self.chars[self.pos];
                if esc == 'u' {
                    self.pos = self.pos + 1;
                    proof {
                        hex_run_range(s, i + 2, 4);
                    }
                    let code: u32 = self.read_hex4()?;
                    let ch: char = match char::from_u32(code) {
                        Some(ch) => ch,
                        None => '\u{FFFD}',
                    };
                    text.push(ch);
                    proof {
                        assert(text@ =~= before + seq![ch]);
                        front_front(before, seq![ch], literal_text(s, self.pos as int, start as int));
                    }
                } else {
                    let ch: char = match esc {
                        '"' | '\\' | '/' => esc,
                        'b' => '\u{8}',
                        'f' => '\u{C}',
                        'n' => '\n',
                        'r' => '\r',
                        't' => '\t',
                        _ => {
                            let mut shown = String::new();
                            shown.push(esc);
                            assert(shown@ =~= seq![esc]);
                            let message = wrapped("invalid escape ‘\\", shown.as_str(), "’");
                            return Err(QueryError::new(self.pos, message));
                        },
                    };
                    text.push(ch);
                    self.pos = self.pos + 1;
                    proof {
                        assert(text@ =~= before + seq![ch]);
                        front_front(before, seq![ch], literal_text(s, self.pos as int, start as int));
                    }
                }
            } else {
                text.push(c);
                self.pos = self.pos + 1;
                proof {
                    assert(text@ =~= before + seq![c]);
                    front_front(before, seq![c], literal_text(s, self.pos as int, start as int));
                }
            }
        }
    }

    fn read_hex4(&mut self) -> (r: Result<u32, QueryError>)
        requires
            old(self).wf(),
        ensures
            ({
                let s = old(self).chars@;
                let i = old(self).pos as int;
                let stop = hex_run(s, i, 4);
                if stop == i + 4 {
                    r matches Ok(v) && v == hex4_value(s, i) && final(self).moved(*old(self), i + 4)
                } else if stop >= s.len() {
                    r matches Err(e) && e@ == qfault(stop, "incomplete \\u escape"@)
                } else {
                    r matches Err(e) && e@ == qfault(stop, "invalid hex digit"@)
                }
            }),
    {
        let ghost s = self.chars@;
        let ghost from = self.pos as int;
        let mut code: u32 = 0;
        let mut k: u8 = 0;
        proof {
            hex_run_range(s, from, 4);
        }
        while k < 4
            invariant
                self.moved(*old(self), from + k),
                s == self.chars@,
                s == old(self).chars@,
                from == old(self).pos,
                k <= 4,
                hex_run(s, from, 4) == hex_run(s, from + k, (4 - k) as nat),
                k == 0 ==> code == 0,
                k == 1 ==> code == hex_char_value(s[from]),
                k == 2 ==> code == hex_char_value(s[from]) * 16 + hex_char_value(s[from + 1]),
                k == 3 ==> code == hex_char_value(s[from]) * 256 + hex_char_value(s[from + 1]) * 16
                    + hex_char_value(s[from + 2]),
                k == 4 ==> code == hex4_value(s, from),
                k == 0 ==> code < 1,
                k == 1 ==> code < 16,
                k == 2 ==> code < 256,
                k == 3 ==> code < 4096,
                k == 4 ==> code < 65536,
            decreases 4 - k,
        {
            if self.pos >= self.chars.len() {
                return Err(QueryError::at(self.pos, "incomplete \\u escape"));
            }
            let c: char = self.chars[self.pos];
            let v: u32 = match c {
                '0'..='9' => c as u32 - 0x30,
                'a'..='f' => c as u32 - 0x61 + 10,
                'A'..='F' => c as u32 - 0x41 + 10,
                _ => {
                    return Err(QueryError::at(self.pos, "invalid hex digit"));
                },
            };
            code = code * 16 + v;
            self.pos = self.pos + 1;
            k += 1;
        }
        Ok(code)
    }
}

proof fn front_front(a: Seq<char>, b: Seq<char>, r: Result<(int, Seq<char>), QueryFault>)
    ensures
        put_front(a, put_front(b, r)) == put_front(a + b, r),
{
    if r is Ok {
        let (_, t) = r->Ok_0;
        assert(a + (b + t) =~= (a + b) + t);
    }
}

/// Whether a value can end with this token.
fn prev_can_end_value(k: &TokenKind) -> (b: bool)
    ensures
        b == ends_value(k@),
{
    match k {
        TokenKind::Ident(_) | TokenKind::Param(_) | TokenKind::Number(_) | TokenKind::Str(_)
        | TokenKind::RParen | TokenKind::RBrack | TokenKind::RBrace | TokenKind::Star
        | TokenKind::StarStar => true,
        _ => false,
    }
}

} // verus!
