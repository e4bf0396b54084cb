//! Cursor-aware autocomplete. Given a query and a cursor (in UTF-16 code
//! units), tells the partial word being typed, what kind of completion makes
//! sense, and for a field access the query whose output the field is read
//! from.
use vstd::prelude::*;

use crate::query::grammar::{is_keyword, keyword_of, kw};
use crate::query::lexer::{
    space_end, space_end_range, token_at, token_at_range, tokenize, tokens_from, tokens_of, toks,
    word_char, word_start, ends_value, Tok, TokAt, Token, TokenKind,
};
use crate::query::ui_lexer::{units, utf16_len};
use crate::text::{chars_of, string_from, whitespace};

verus! {

/// What kind of completion a cursor position admits.
#[derive(Clone, Copy, Debug, PartialEq, Eq, Structural)]
pub enum CompletionMode {
    FieldAccess,
    ValueStart,
    AfterExpression,
}

#[derive(Debug, PartialEq, Eq)]
pub struct CompletionContext {
    pub mode: CompletionMode,
    pub partial: String,
    pub partial_utf16_length: u32,
    /// For a field access: the query whose output the field is read from.
    pub context_query: Option<String>,
}

/// A completion context in mathematical form.
pub struct Completion {
    pub mode: CompletionMode,
    pub partial: Seq<char>,
    pub partial_utf16_length: u32,
    pub context_query: Option<Seq<char>>,
}

impl View for CompletionContext {
    type V = Completion;

    open spec fn view(&self) -> Completion {
        Completion {
            mode: self.mode,
            partial: self.partial@,
            partial_utf16_length: self.partial_utf16_length,
            context_query: match self.context_query {
                Some(q) => Some(q@),
                None => None,
            },
        }
    }
}

/// From character `i`, which stands `used` UTF-16 units into the query: the
/// first character at or past the cursor.
pub open spec fn cursor_char(s: Seq<char>, i: int, used: nat, cursor: nat) -> int
    decreases s.len() - i,
{
    if 0 <= i < s.len() && used < cursor {
        cursor_char(s, i + 1, used + units(s[i]), cursor)
    } else {
        i
    }
}

/// The part of the query before the cursor.
pub open spec fn before_cursor(s: Seq<char>, cursor: nat) -> Seq<char> {
    s.take(cursor_char(s, 0, 0, cursor))
}

/// Where the word that ends at `i` starts.
pub open spec fn word_back(s: Seq<char>, i: int) -> int
    decreases i,
{
    if 0 < i <= s.len() && word_char(s[i - 1]) {
        word_back(s, i - 1)
    } else {
        i
    }
}

/// Whether `s`, from `i` on, ends inside a string literal.
pub open spec fn ends_in_string(s: Seq<char>, i: int, inside: bool) -> bool
    decreases s.len() - i,
{
    if !(0 <= i < s.len()) {
        inside
    } else if !inside {
        ends_in_string(s, i + 1, s[i] == '"')
    } else if s[i] == '\\' {
        if i + 1 < s.len() {
            ends_in_string(s, i + 2, true)
        } else {
            true
        }
    } else {
        ends_in_string(s, i + 1, s[i] != '"')
    }
}

/// The tokens of `s` up to its first lexical error, without the end mark.
pub open spec fn lenient_tokens(s: Seq<char>) -> Seq<TokAt>
    decreases s.len(),
{
    match tokens_of(s) {
        Ok(t) => t.drop_last(),
        Err(f) => if f.position >= s.len() || f.position <= 0 {
            Seq::empty()
        } else {
            lenient_tokens(s.take(f.position))
        },
    }
}

/// A word after which a value starts.
pub open spec fn introduces_value(s: Seq<char>) -> bool {
    s == "and"@ || s == "or"@ || s == "not"@ || s == "by"@ || s == "where"@ || s == "select"@ || s
        == "aggregate"@ || s == "collect"@ || s == "order"@ || s == "limit"@ || s == "from"@ || s
        == "join"@ || s == "on"@ || s == "as"@ || s == "let"@ || s == "fields"@ || s == "in"@ || s
        == "matches"@ || s == "starts_with"@ || s == "ends_with"@ || s == "contains"@
}

/// A clause word whose body reads the same input as the clause.
pub open spec fn clause_with_body(s: Seq<char>) -> bool {
    s == "where"@ || s == "select"@ || s == "aggregate"@ || s == "limit"@ || s == "distinct"@ || s
        == "from"@ || s == "join"@ || s == "on"@ || s == "collect"@ || s == "order"@
}

/// A word that compares like an operator.
pub open spec fn pattern_comparison(s: Seq<char>) -> bool {
    s == "matches"@ || s == "starts_with"@ || s == "ends_with"@ || s == "contains"@ || s == "in"@
}

/// A word at which an operand ends.
pub open spec fn boundary_word(s: Seq<char>) -> bool {
    s == "and"@ || s == "or"@ || s == "not"@ || s == "where"@ || s == "select"@ || s
        == "aggregate"@ || s == "collect"@ || s == "order"@ || s == "limit"@ || s == "by"@ || s
        == "from"@ || s == "join"@ || s == "on"@ || s == "as"@ || s == "let"@ || s == "distinct"@
        || s == "fields"@ || s == "in"@ || s == "matches"@ || s == "starts_with"@ || s
        == "ends_with"@ || s == "contains"@
}

pub open spec fn is_comparison(t: Tok) -> bool {
    t is Eq || t is Ne || t is Lt || t is Le || t is Gt || t is Ge
}

/// A value can start after the token `last`, or at the start of the query.
pub open spec fn value_may_start(last: Option<Tok>) -> bool {
    match last {
        None => true,
        Some(t) => match t {
            Tok::Pipe | Tok::LParen | Tok::LBrack | Tok::LBrace | Tok::Comma | Tok::Semi
            | Tok::Colon | Tok::Assign => true,
            Tok::Ident(s) => introduces_value(s),
            _ => is_comparison(t),
        },
    }
}

pub open spec fn operand_boundary(t: Tok) -> bool {
    match t {
        Tok::Pipe | Tok::Comma | Tok::Semi | Tok::Assign => true,
        Tok::Ident(s) => boundary_word(s),
        _ => is_comparison(t),
    }
}

/// Going back from `end`, `depth` closing parens deep: the last opening paren
/// that nothing closes.
pub open spec fn open_paren(t: Seq<TokAt>, end: int, depth: nat) -> Option<int>
    decreases end,
{
    if !(0 < end <= t.len()) {
        None
    } else if t[end - 1].kind is RParen {
        open_paren(t, end - 1, depth + 1)
    } else if t[end - 1].kind is LParen {
        if depth > 0 {
            open_paren(t, end - 1, (depth - 1) as nat)
        } else {
            Some(end - 1)
        }
    } else {
        open_paren(t, end - 1, depth)
    }
}

/// Going back from `end`, `depth` closing parens deep: where the operand that
/// ends there starts.
pub open spec fn operand_start(t: Seq<TokAt>, end: int, depth: nat) -> int
    decreases end,
{
    if !(0 < end <= t.len()) {
        0
    } else if t[end - 1].kind is RParen {
        operand_start(t, end - 1, depth + 1)
    } else if t[end - 1].kind is LParen {
        if depth > 0 {
            operand_start(t, end - 1, (depth - 1) as nat)
        } else {
            end
        }
    } else if depth == 0 && operand_boundary(t[end - 1].kind) {
        end
    } else {
        operand_start(t, end - 1, depth)
    }
}

/// The word `w` stands before `end`.
pub open spec fn word_before(t: Seq<TokAt>, end: int, w: Seq<char>) -> bool {
    0 < end <= t.len() && t[end - 1].kind == Tok::Ident(w)
}

/// Takes `NAME =` and a `let` before it off the end.
pub open spec fn peel_assign(t: Seq<TokAt>, end: int) -> int {
    let a = end - 1;
    let b = if 0 < a <= t.len() && (t[a - 1].kind matches Tok::Ident(s) && keyword_of(s) is None) {
        a - 1
    } else {
        a
    };
    if word_before(t, b, kw::LET@) {
        b - 1
    } else {
        b
    }
}

/// Takes one layer that does not change what a field access reads from off
/// the end of the tokens; what is left ends at the result.
pub open spec fn peel_once(t: Seq<TokAt>, end: int) -> int {
    match open_paren(t, end, 0) {
        Some(p) => if 0 < p && t[p - 1].kind is Ident {
            p - 1
        } else {
            p
        },
        None => {
            let last = t[end - 1].kind;
            match last {
                Tok::Pipe => end - 1,
                Tok::Comma | Tok::Semi => operand_start(t, end - 1, 0),
                Tok::Assign => peel_assign(t, end),
                Tok::Ident(s) => if s == kw::AND@ || s == kw::OR@ {
                    operand_start(t, end - 1, 0)
                } else if s == kw::NOT@ {
                    end - 1
                } else if s == kw::BY@ {
                    let a = operand_start(t, end - 1, 0);
                    if word_before(t, a, kw::COLLECT@) || word_before(t, a, kw::ORDER@) {
                        a - 1
                    } else {
                        a
                    }
                } else if pattern_comparison(s) {
                    operand_start(t, end - 1, 0)
                } else if clause_with_body(s) {
                    end - 1
                } else {
                    end
                },
                _ => if is_comparison(last) {
                    operand_start(t, end - 1, 0)
                } else {
                    end
                },
            }
        },
    }
}

/// Takes all such layers off.
pub open spec fn peel(t: Seq<TokAt>, end: int) -> int
    decreases end,
{
    if end <= 0 {
        end
    } else {
        let n = peel_once(t, end);
        if 0 <= n < end {
            peel(t, n)
        } else {
            end
        }
    }
}

/// `s` without whitespace at its end.
pub open spec fn trim_end(s: Seq<char>) -> Seq<char>
    decreases s.len(),
{
    if s.len() > 0 && whitespace(s.last()) {
        trim_end(s.drop_last())
    } else {
        s
    }
}

/// `s` without whitespace at either end.
pub open spec fn trimmed(s: Seq<char>) -> Seq<char> {
    trim_end(s.skip(space_end(s, 0)))
}

/// The query whose output the field after the last dot of `pre` is read from.
pub open spec fn context_query(t: Seq<TokAt>, pre: Seq<char>) -> Seq<char> {
    if t.len() == 0 {
        "."@
    } else {
        let end = peel(t, t.len() - 1);
        let text = trimmed(pre.take(t[end].position));
        if text.len() == 0 {
            "."@
        } else {
            text
        }
    }
}

/// What a cursor position admits.
pub open spec fn completion_at(s: Seq<char>, cursor: nat) -> Option<Completion> {
    let head = before_cursor(s, cursor);
    let p = word_back(head, head.len() as int);
    let partial = head.skip(p);
    let pre = head.take(p);
    let t = lenient_tokens(pre);
    let last = if t.len() == 0 {
        None
    } else {
        Some(t.last().kind)
    };
    let length = utf16_len(partial) as u32;
    if p < head.len() && !word_start(head[p]) {
        None
    } else if ends_in_string(pre, 0, false) {
        None
    } else if last == Some(Tok::Dot) {
        Some(
            Completion {
                mode: CompletionMode::FieldAccess,
                partial,
                partial_utf16_length: length,
                context_query: Some(context_query(t, pre)),
            },
        )
    } else {
        Some(
            Completion {
                mode: if value_may_start(last) {
                    CompletionMode::ValueStart
                } else {
                    CompletionMode::AfterExpression
                },
                partial,
                partial_utf16_length: length,
                context_query: None,
            },
        )
    }
}

proof fn word_back_range(s: Seq<char>, i: int)
    requires
        0 <= i <= s.len(),
    ensures
        0 <= word_back(s, i) <= i,
    decreases i,
{
    if 0 < i && word_char(s[i - 1]) {
        word_back_range(s, i - 1);
    }
}

proof fn cursor_char_range(s: Seq<char>, i: int, used: nat, cursor: nat)
    requires
        0 <= i <= s.len(),
    ensures
        i <= cursor_char(s, i, used, cursor) <= s.len(),
    decreases s.len() - i,
{
    if i < s.len() && used < cursor {
        cursor_char_range(s, i + 1, used + units(s[i]), cursor);
    }
}

/// Tokens start inside the query, the end mark at its end at most.
proof fn token_positions(s: Seq<char>, i: int, after_value: bool)
    requires
        0 <= i <= s.len(),
        tokens_from(s, i, after_value) is Ok,
    ensures
        ({
            let t = tokens_from(s, i, after_value)->Ok_0;
            &&& t.len() > 0
            &&& forall|k: int| 0 <= k < t.len() ==> 0 <= (#[trigger] t[k]).position <= s.len()
        }),
    decreases s.len() - i,
{
    space_end_range(s, i);
    let start = space_end(s, i);
    if start < s.len() {
        token_at_range(s, start, after_value);
        let (end, t) = token_at(s, start, after_value)->Ok_0;
        token_positions(s, end, ends_value(t));
    }
}

proof fn lenient_positions(s: Seq<char>)
    ensures
        forall|k: int|
            0 <= k < lenient_tokens(s).len() ==> 0 <= (#[trigger] lenient_tokens(s)[k]).position
                <= s.len(),
    decreases s.len(),
{
    match tokens_of(s) {
        Ok(t) => {
            token_positions(s, 0, false);
        },
        Err(f) => {
            if !(f.position >= s.len() || f.position <= 0) {
                lenient_positions(s.take(f.position));
            }
        },
    }
}

proof fn open_paren_range(t: Seq<TokAt>, end: int, depth: nat)
    requires
        open_paren(t, end, depth) is Some,
    ensures
        0 <= open_paren(t, end, depth)->0 < end <= t.len(),
    decreases end,
{
    if t[end - 1].kind is RParen {
        open_paren_range(t, end - 1, depth + 1);
    } else if t[end - 1].kind is LParen {
        if depth > 0 {
            open_paren_range(t, end - 1, (depth - 1) as nat);
        }
    } else {
        open_paren_range(t, end - 1, depth);
    }
}

proof fn operand_start_range(t: Seq<TokAt>, end: int, depth: nat)
    requires
        0 <= end <= t.len(),
    ensures
        0 <= operand_start(t, end, depth) <= end,
    decreases end,
{
    if end > 0 {
        if t[end - 1].kind is RParen {
            operand_start_range(t, end - 1, depth + 1);
        } else if t[end - 1].kind is LParen {
            if depth > 0 {
                operand_start_range(t, end - 1, (depth - 1) as nat);
            }
        } else {
            operand_start_range(t, end - 1, depth);
        }
    }
}

proof fn peel_once_range(t: Seq<TokAt>, end: int)
    requires
        0 < end <= t.len(),
    ensures
        0 <= peel_once(t, end) <= end,
{
    if open_paren(t, end, 0) is Some {
        open_paren_range(t, end, 0);
    }
    operand_start_range(t, end - 1, 0);
}

proof fn peel_range(t: Seq<TokAt>, end: int)
    requires
        0 <= end <= t.len(),
    ensures
        0 <= peel(t, end) <= end,
    decreases end,
{
    if end > 0 {
        let n = peel_once(t, end);
        if 0 <= n < end {
            peel_range(t, n);
        }
    }
}

proof fn trim_end_prefix(s: Seq<char>)
    ensures
        trim_end(s).len() <= s.len(),
        trim_end(s) == s.take(trim_end(s).len() as int),
    decreases s.len(),
{
    if s.len() > 0 && whitespace(s.last()) {
        trim_end_prefix(s.drop_last());
        assert(s.drop_last().take(trim_end(s).len() as int) =~= s.take(trim_end(s).len() as int));
    } else {
        assert(s.take(s.len() as int) =~= s);
    }
}

/// Classifies the cursor position. `None` inside an unterminated string and
/// in the middle of a number.
pub fn classify(source: &str, cursor_utf16: u32) -> (r: Option<CompletionContext>)
    ensures
        match completion_at(source@, cursor_utf16 as nat) {
            Some(c) => r matches Some(x) && x@ == c,
            None => r is None,
        },
{
    let head_chars = truncate_at_utf16(source, cursor_utf16);
    let ghost head = head_chars@;
    let size: usize = head_chars.len();
    let mut partial_start: usize = size;
    while partial_start > 0 && (head_chars[partial_start - 1].is_alphanumeric()
        || head_chars[partial_start - 1] == '_')
        invariant
            partial_start <= size,
            size == head_chars@.len(),
            word_back(head_chars@, partial_start as int) == word_back(head_chars@, size as int),
        decreases partial_start,
    {
        partial_start -= 1;
    }
    if partial_start < size {
        let first: char = head_chars[partial_start];
        if !(first.is_alphabetic() || first == '_') {
            return None;
        }
    }
    let partial = string_from(head_chars.as_slice(), partial_start, size);
    let partial_utf16_length: u32 = utf16_count(&partial);
    let pre_partial = string_from(head_chars.as_slice(), 0, partial_start);
    proof {
        assert(partial@ =~= head.skip(partial_start as int));
        assert(pre_partial@ =~= head.take(partial_start as int));
    }
    if inside_open_string(&pre_partial) {
        return None;
    }
    let tokens = lenient_tokenize(&pre_partial);
    let ghost t = toks(tokens@);
    if tokens.len() > 0 {
        assert(t.last() == tokens@[tokens@.len() - 1]@);
        if let TokenKind::Dot = tokens[tokens.len() - 1].kind {
            proof {
                lenient_positions(pre_partial@);
            }
            let query = compute_context_query(&tokens, &pre_partial);
            return Some(
                CompletionContext {
                    mode: CompletionMode::FieldAccess,
                    partial,
                    partial_utf16_length,
                    context_query: Some(query),
                },
            );
        }
    }
    let starts: bool = if tokens.len() == 0 {
        true
    } else {
        is_value_start(&tokens[tokens.len() - 1].kind)
    };
    let mode = if starts {
        CompletionMode::ValueStart
    } else {
        CompletionMode::AfterExpression
    };
    Some(CompletionContext { mode, partial, partial_utf16_length, context_query: None })
}

/// The length of `s` in UTF-16 code units, in 32 bits.
fn utf16_count(s: &String) -> (n: u32)
    ensures
        n == utf16_len(s@) as u32,
{
    let chars = chars_of(s.as_str());
    let size: usize = chars.len();
    let mut n: u128 = 0;
    let mut i: usize = 0;
    assert(chars@.take(0) =~= Seq::<char>::empty());
    while i < size
        invariant
            i <= size,
            size == chars@.len(),
            n == utf16_len(chars@.take(i as int)),
            n <= 2 * i,
        decreases size - i,
    {
        let c: char = chars[i];
        proof {
            assert(chars@.take(i + 1).drop_last() =~= chars@.take(i as int));
        }
        n = n + if c as u32 > 0xFFFF {
            2
        } else {
            1
        };
        i += 1;
    }
    assert(chars@.take(i as int) =~= s@);
    #[verifier::truncate]
    (n as u32)
}

/// Whether a value can start after the token `last`.
fn is_value_start(last: &TokenKind) -> (b: bool)
    ensures
        b == value_may_start(Some(last@)),
{
    match last {
        TokenKind::Pipe | TokenKind::LParen | TokenKind::LBrack | TokenKind::LBrace
        | TokenKind::Comma | TokenKind::Semi | TokenKind::Colon | TokenKind::Eq | TokenKind::Ne
        | TokenKind::Lt | TokenKind::Le | TokenKind::Gt | TokenKind::Ge | TokenKind::Assign => true,
        TokenKind::Ident(s) => is_value_intro_keyword(s.as_str()),
        _ => false,
    }
}

/// Words whose successor is a fresh value.
fn is_value_intro_keyword(s: &str) -> (b: bool)
    ensures
        b == introduces_value(s@),
{
    *s == *"and" || *s == *"or" || *s == *"not" || *s == *"by" || *s == *"where" || *s == *"select" || *s == *"aggregate" || *s == *"collect" || *s == *"order" || *s == *"limit" || *s == *"from" || *s == *"join" || *s == *"on" || *s == *"as" || *s == *"let" || *s == *"fields" || *s == *"in" || *s == *"matches" || *s == *"starts_with" || *s == *"ends_with" || *s == *"contains"
}

fn is_clause_with_body(s: &str) -> (b: bool)
    ensures
        b == clause_with_body(s@),
{
    *s == *"where" || *s == *"select" || *s == *"aggregate" || *s == *"limit" || *s == *"distinct" || *s == *"from" || *s == *"join" || *s == *"on" || *s == *"collect" || *s == *"order"
}

fn is_pattern_comparison(s: &str) -> (b: bool)
    ensures
        b == pattern_comparison(s@),
{
    *s == *"matches" || *s == *"starts_with" || *s == *"ends_with" || *s == *"contains" || *s == *"in"
}

fn is_boundary_word(s: &str) -> (b: bool)
    ensures
        b == boundary_word(s@),
{
    *s == *"and" || *s == *"or" || *s == *"not" || *s == *"where" || *s == *"select" || *s == *"aggregate" || *s == *"collect" || *s == *"order" || *s == *"limit" || *s == *"by" || *s == *"from" || *s == *"join" || *s == *"on" || *s == *"as" || *s == *"let" || *s == *"distinct" || *s == *"fields" || *s == *"in" || *s == *"matches" || *s == *"starts_with" || *s == *"ends_with" || *s == *"contains"
}

fn is_operand_boundary(t: &TokenKind) -> (b: bool)
    ensures
        b == operand_boundary(t@),
{
    match t {
        TokenKind::Pipe | TokenKind::Comma | TokenKind::Semi | TokenKind::Eq | TokenKind::Ne
        | TokenKind::Lt | TokenKind::Le | TokenKind::Gt | TokenKind::Ge | TokenKind::Assign => true,
        TokenKind::Ident(s) => is_boundary_word(s.as_str()),
        _ => false,
    }
}

/// Whether the word `w` stands before `end`.
fn has_word_before(tokens: &Vec<Token>, end: usize, w: &str) -> (b: bool)
    requires
        end <= tokens@.len(),
    ensures
        b == word_before(toks(tokens@), end as int, w@),
{
    if end == 0 {
        return false;
    }
    match &tokens[end - 1].kind {
        TokenKind::Ident(s) => *s.as_str() == *w,
        _ => false,
    }
}

/// The query whose output the pending field access reads from. `tokens` are
/// those of `pre_partial`, the trailing dot included.
fn compute_context_query(tokens: &Vec<Token>, pre_partial: &String) -> (out: String)
    requires
        tokens@.len() > 0,
        forall|k: int|
            0 <= k < tokens@.len() ==> (#[trigger] toks(tokens@)[k]).position <= pre_partial@.len(),
    ensures
        out@ == context_query(toks(tokens@), pre_partial@),
{
    let ghost t = toks(tokens@);
    let mut end: usize = tokens.len() - 1;
    let mut changed: bool = true;
    while changed && end > 0
        invariant
            t == toks(tokens@),
            end < tokens@.len(),
            changed ==> peel(t, end as int) == peel(t, tokens@.len() - 1),
            !changed ==> end == peel(t, tokens@.len() - 1),
        decreases end + (if changed { 1int } else { 0int }),
    {
        proof {
            peel_once_range(t, end as int);
        }
        let n: usize = peel_layer(tokens, end);
        changed = n < end;
        end = n;
    }
    let chars = chars_of(pre_partial.as_str());
    assert(t[end as int].position == tokens@[end as int].position);
    let char_end: usize = tokens[end].position;
    let text = trim_chars(&chars, char_end);
    if text.as_str().unicode_len() == 0 {
        ".".to_string()
    } else {
        text
    }
}

/// `chars[..to]` without whitespace at either end.
pub(crate) fn trim_chars(chars: &Vec<char>, to: usize) -> (out: String)
    requires
        to <= chars@.len(),
    ensures
        out@ == trimmed(chars@.take(to as int)),
{
    let ghost s = chars@.take(to as int);
    let mut from: usize = 0;
    while from < to && chars[from].is_whitespace()
        invariant
            from <= to <= chars@.len(),
            s == chars@.take(to as int),
            space_end(s, from as int) == space_end(s, 0),
        decreases to - from,
    {
        from += 1;
    }
    let ghost rest = s.skip(from as int);
    let mut end: usize = to;
    proof {
        assert(chars@.subrange(from as int, end as int) =~= rest);
    }
    while end > from && chars[end - 1].is_whitespace()
        invariant
            from <= end <= to <= chars@.len(),
            trim_end(chars@.subrange(from as int, end as int)) == trim_end(rest),
        decreases end,
    {
        proof {
            let cur = chars@.subrange(from as int, end as int);
            assert(cur.last() == chars@[end - 1]);
            assert(cur.drop_last() =~= chars@.subrange(from as int, end - 1));
        }
        end -= 1;
    }
    proof {
        let cur = chars@.subrange(from as int, end as int);
        if cur.len() > 0 {
            assert(cur.last() == chars@[end - 1]);
        }
    }
    string_from(chars.as_slice(), from, end)
}

/// Takes one layer off the end of `tokens[..end]`.
fn peel_layer(tokens: &Vec<Token>, end: usize) -> (n: usize)
    requires
        0 < end <= tokens@.len(),
    ensures
        n == peel_once(toks(tokens@), end as int),
{
    let ghost t = toks(tokens@);
    proof {
        peel_once_range(t, end as int);
        assert(t[end - 1].kind == tokens@[end - 1].kind@);
    }
    if let Some(open) = rightmost_unmatched_open_paren(tokens, end) {
        if open > 0 {
            assert(t[open - 1].kind == tokens@[open - 1].kind@);
            if let TokenKind::Ident(_) = &tokens[open - 1].kind {
                return open - 1;
            }
        }
        return open;
    }
    match &tokens[end - 1].kind {
        TokenKind::Pipe => end - 1,
        TokenKind::Comma | TokenKind::Semi | TokenKind::Eq | TokenKind::Ne | TokenKind::Lt
        | TokenKind::Le | TokenKind::Gt | TokenKind::Ge => strip_trailing_operand(tokens, end - 1),
        TokenKind::Assign => {
            let mut e: usize = end - 1;
            if e > 0 {
                assert(t[e - 1].kind == tokens@[e - 1].kind@);
                if let TokenKind::Ident(s) = &tokens[e - 1].kind {
                    if !is_keyword(s.as_str()) {
                        e -= 1;
                    }
                }
            }
            if has_word_before(tokens, e, kw::LET) {
                e -= 1;
            }
            e
        },
        TokenKind::Ident(s) => {
            let w = s.as_str();
            if *w == *kw::AND || *w == *kw::OR {
                strip_trailing_operand(tokens, end - 1)
            } else if *w == *kw::NOT {
                end - 1
            } else if *w == *kw::BY {
                let mut e: usize = strip_trailing_operand(tokens, end - 1);
                if has_word_before(tokens, e, kw::COLLECT) || has_word_before(tokens, e, kw::ORDER) {
                    e -= 1;
                }
                e
            } else if is_pattern_comparison(w) {
                strip_trailing_operand(tokens, end - 1)
            } else if is_clause_with_body(w) {
                end - 1
            } else {
                end
            }
        },
        _ => end,
    }
}

/// Where the operand that ends at `end` starts.
fn strip_trailing_operand(tokens: &Vec<Token>, end: usize) -> (n: usize)
    requires
        end <= tokens@.len(),
    ensures
        n == operand_start(toks(tokens@), end as int, 0),
        n <= end,
{
    let ghost t = toks(tokens@);
    let mut i: usize = end;
    let mut depth: usize = 0;
    while i > 0
        invariant
            i <= end <= tokens@.len(),
            t == toks(tokens@),
            depth <= end - i,
            operand_start(t, i as int, depth as nat) == operand_start(t, end as int, 0),
        decreases i,
    {
        assert(t[i - 1].kind == tokens@[i - 1].kind@);
        match &tokens[i - 1].kind {
            TokenKind::RParen => {
                depth += 1;
            },
            TokenKind::LParen => {
                if depth > 0 {
                    depth -= 1;
                } else {
                    return i;
                }
            },
            k => {
                if depth == 0 && is_operand_boundary(k) {
                    return i;
                }
            },
        }
        i -= 1;
    }
    0
}

/// The index of the rightmost `(` in `tokens[..end]` that nothing closes.
fn rightmost_unmatched_open_paren(tokens: &Vec<Token>, end: usize) -> (r: Option<usize>)
    requires
        end <= tokens@.len(),
    ensures
        match open_paren(toks(tokens@), end as int, 0) {
            Some(p) => r matches Some(x) && x == p && p < end,
            None => r is None,
        },
{
    let ghost t = toks(tokens@);
    let mut depth: usize = 0;
    let mut i: usize = end;
    while i > 0
        invariant
            i <= end <= tokens@.len(),
            t == toks(tokens@),
            depth <= end - i,
            open_paren(t, i as int, depth as nat) == open_paren(t, end as int, 0),
        decreases i,
    {
        assert(t[i - 1].kind == tokens@[i - 1].kind@);
        match &tokens[i - 1].kind {
            TokenKind::RParen => {
                depth += 1;
            },
            TokenKind::LParen => {
                if depth > 0 {
                    depth -= 1;
                } else {
                    return Some(i - 1);
                }
            },
            _ => {},
        }
        i -= 1;
    }
    None
}

/// Forgiving tokenization: on a lexical error the text is cut before it.
fn lenient_tokenize(s: &String) -> (out: Vec<Token>)
    ensures
        toks(out@) == lenient_tokens(s@),
{
    let mut text = s.clone();
    loop
        invariant
            lenient_tokens(text@) == lenient_tokens(s@),
        decreases text@.len(),
    {
        let ghost before = text@;
        match tokenize(text.as_str()) {
            Ok(mut tokens) => {
                proof {
                    token_positions(text@, 0, false);
                }
                let ghost all = tokens@;
                let _eof: Option<Token> = tokens.pop();
                assert(toks(tokens@) =~= toks(all).drop_last());
                return tokens;
            },
            Err(e) => {
                let chars = chars_of(text.as_str());
                if e.position >= chars.len() || e.position == 0 {
                    let none: Vec<Token> = Vec::new();
                    assert(toks(none@) =~= Seq::<TokAt>::empty());
                    return none;
                }
                text = string_from(chars.as_slice(), 0, e.position);
                assert(text@ =~= before.take(e.position as int));
            },
        }
    }
}

/// Whether `s` ends inside a string literal.
fn inside_open_string(s: &String) -> (b: bool)
    ensures
        b == ends_in_string(s@, 0, false),
{
    let chars = chars_of(s.as_str());
    let size: usize = chars.len();
    let mut inside: bool = false;
    let mut i: usize = 0;
    while i < size
        invariant
            i <= size,
            size == chars@.len(),
            chars@ == s@,
            ends_in_string(chars@, i as int, inside) == ends_in_string(chars@, 0, false),
        decreases size - i,
    {
        let c: char = chars[i];
        if !inside {
            inside = c == '"';
            i += 1;
        } else if c == '\\' {
            if size - i < 2 {
                return true;
            }
            i += 2;
        } else {
            inside = c != '"';
            i += 1;
        }
    }
    inside
}

/// The characters of `source` before a cursor given in UTF-16 code units.
fn truncate_at_utf16(source: &str, cursor_utf16: u32) -> (out: Vec<char>)
    ensures
        out@ == before_cursor(source@, cursor_utf16 as nat),
{
    let mut chars = chars_of(source);
    let size: usize = chars.len();
    let mut used: u64 = 0;
    let mut i: usize = 0;
    while i < size && used < cursor_utf16 as u64
        invariant
            i <= size,
            size == chars@.len(),
            chars@ == source@,
            used <= cursor_utf16 + 1,
            cursor_char(chars@, i as int, used as nat, cursor_utf16 as nat) == cursor_char(
                chars@,
                0,
                0,
                cursor_utf16 as nat,
            ),
        decreases size - i,
    {
        let c: char = chars[i];
        used = used + if c as u32 > 0xFFFF {
            2
        } else {
            1
        };
        i += 1;
    }
    chars.truncate(i);
    chars
}

/// The name of a mode.
pub open spec fn mode_text(m: CompletionMode) -> Seq<char> {
    match m {
        CompletionMode::FieldAccess => "fieldAccess"@,
        CompletionMode::ValueStart => "valueStart"@,
        CompletionMode::AfterExpression => "afterExpression"@,
    }
}

pub fn mode_str(m: &CompletionMode) -> (s: &'static str)
    ensures
        s@ == mode_text(*m),
{
    match m {
        CompletionMode::FieldAccess => "fieldAccess",
        CompletionMode::ValueStart => "valueStart",
        CompletionMode::AfterExpression => "afterExpression",
    }
}

} // verus!
