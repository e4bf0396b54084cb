//! The forgiving tokenizer of the query editor. It never fails: every
//! character that is no whitespace belongs to exactly one token.
use vstd::prelude::*;

use super::grammar::{identifier_category, word_category, TokenCategory};
use super::lexer::{
    char_at, digit_char_at, digit_end, mantissa_end, numeral_end, numeral_end_range, word_end,
    word_end_range, word_start,
};
use crate::text::{ascii_digit, chars_of, string_from, whitespace};

verus! {

/// A coloured span of the query, in UTF-16 code units.
#[derive(Clone, Copy, Debug, PartialEq, Eq, Structural)]
pub struct UiToken {
    pub category: TokenCategory,
    /// Offset from the start of the query.
    pub offset: u32,
    pub length: u32,
}

/// A coloured span of the query, in characters.
pub struct UiSpan {
    pub category: TokenCategory,
    pub start: int,
    pub end: int,
}

/// How many UTF-16 code units a character takes.
pub open spec fn units(c: char) -> nat {
    if c as u32 > 0xFFFF {
        2
    } else {
        1
    }
}

/// The length of `s` in UTF-16 code units.
pub open spec fn utf16_len(s: Seq<char>) -> nat
    decreases s.len(),
{
    if s.len() == 0 {
        0
    } else {
        utf16_len(s.drop_last()) + units(s.last())
    }
}

/// Where the comment at `i` ends.
pub open spec fn comment_end(s: Seq<char>, i: int) -> int
    decreases s.len() - i,
{
    if 0 <= i < s.len() && s[i] != '\n' {
        comment_end(s, i + 1)
    } else {
        i
    }
}

/// Where the string ends whose inside starts at `i`; an open string runs to
/// the end of the query.
pub open spec fn ui_string_end(s: Seq<char>, i: int) -> int
    decreases s.len() - i,
{
    if !(0 <= i < s.len()) {
        s.len() as int
    } else if s[i] == '"' {
        i + 1
    } else if s[i] == '\\' {
        if i + 1 < s.len() {
            ui_string_end(s, i + 2)
        } else {
            s.len() as int
        }
    } else {
        ui_string_end(s, i + 1)
    }
}

/// One past `i`, or two if `c` follows.
pub open spec fn one_or_two(s: Seq<char>, i: int, c: char) -> int {
    if char_at(s, i + 1, c) {
        i + 2
    } else {
        i + 1
    }
}

pub open spec fn is_punctuation(c: char) -> bool {
    c == '.' || c == ',' || c == ';' || c == ':' || c == '|' || c == '?' || c == '(' || c == ')'
        || c == '[' || c == ']' || c == '{' || c == '}'
}

/// The token at `i`, which holds no whitespace: where it ends, and its
/// colour.
pub open spec fn ui_token_at(s: Seq<char>, i: int) -> (int, TokenCategory) {
    let c = s[i];
    if c == '#' {
        (comment_end(s, i), TokenCategory::Comment)
    } else if c == '"' {
        (ui_string_end(s, i + 1), TokenCategory::String)
    } else if ascii_digit(c) || (c == '-' && digit_char_at(s, i + 1)) {
        (numeral_end(s, i), TokenCategory::Number)
    } else if word_start(c) {
        let end = word_end(s, i + 1);
        (end, word_category(s.subrange(i, end)))
    } else if c == '$' {
        (word_end(s, i + 1), TokenCategory::Identifier)
    } else if c == '*' {
        (one_or_two(s, i, '*'), TokenCategory::Splat)
    } else if c == '=' {
        (one_or_two(s, i, '='), TokenCategory::Operator)
    } else if c == '!' && char_at(s, i + 1, '=') {
        (i + 2, TokenCategory::Operator)
    } else if c == '<' || c == '>' {
        (one_or_two(s, i, '='), TokenCategory::Operator)
    } else if c == '+' || c == '-' || c == '/' {
        (i + 1, TokenCategory::Operator)
    } else if is_punctuation(c) {
        (i + 1, TokenCategory::Punctuation)
    } else {
        (i + 1, TokenCategory::Error)
    }
}

/// The coloured spans from `i` on.
pub open spec fn ui_spans(s: Seq<char>, i: int) -> Seq<UiSpan>
    decreases s.len() - i,
{
    if !(0 <= i < s.len()) {
        Seq::empty()
    } else if whitespace(s[i]) {
        ui_spans(s, i + 1)
    } else {
        let (end, category) = ui_token_at(s, i);
        proof {
            ui_token_range(s, i);
        }
        seq![UiSpan { category, start: i, end }] + ui_spans(s, end)
    }
}

/// `t` is the span `p` of the query `s`.
pub open spec fn paints(t: UiToken, s: Seq<char>, p: UiSpan) -> bool {
    &&& t.category == p.category
    &&& t.offset == utf16_len(s.take(p.start))
    &&& t.length == utf16_len(s.subrange(p.start, p.end))
}

proof fn comment_end_range(s: Seq<char>, i: int)
    requires
        0 <= i <= s.len(),
    ensures
        i <= comment_end(s, i) <= s.len(),
    decreases s.len() - i,
{
    if i < s.len() && s[i] != '\n' {
        comment_end_range(s, i + 1);
    }
}

proof fn ui_string_end_range(s: Seq<char>, i: int)
    requires
        0 <= i <= s.len(),
    ensures
        i <= ui_string_end(s, i) <= s.len(),
    decreases s.len() - i,
{
    if i < s.len() && s[i] != '"' {
        if s[i] == '\\' {
            if i + 1 < s.len() {
                ui_string_end_range(s, i + 2);
            }
        } else {
            ui_string_end_range(s, i + 1);
        }
    }
}

/// A token is not empty and lies inside the query.
pub proof fn ui_token_range(s: Seq<char>, i: int)
    requires
        0 <= i < s.len(),
    ensures
        ({
            let (end, _) = ui_token_at(s, i);
            i < end <= s.len()
        }),
{
    let c = s[i];
    if c == '#' {
        comment_end_range(s, i + 1);
    } else if c == '"' {
        ui_string_end_range(s, i + 1);
    } else if ascii_digit(c) || (c == '-' && digit_char_at(s, i + 1)) {
        numeral_end_range(s, i);
    } else {
        word_end_range(s, i + 1);
    }
}

/// Position `k` lies in one of the spans.
pub open spec fn covered(spans: Seq<UiSpan>, k: int) -> bool {
    exists|j: int| 0 <= j < spans.len() && (#[trigger] spans[j]).start <= k < spans[j].end
}

/// The spans are not empty, lie between `lo` and `hi`, and follow each other
/// without overlap.
pub open spec fn in_order(spans: Seq<UiSpan>, lo: int, hi: int) -> bool {
    &&& forall|j: int|
        0 <= j < spans.len() ==> lo <= (#[trigger] spans[j]).start < spans[j].end <= hi
    &&& forall|j: int, k: int|
        0 <= j < k < spans.len() ==> (#[trigger] spans[j]).end <= (#[trigger] spans[k]).start
}

/// The tokens follow each other without overlap and cover every character
/// that is no whitespace.
pub proof fn ui_tokens_cover(s: Seq<char>, i: int)
    requires
        0 <= i <= s.len(),
    ensures
        in_order(ui_spans(s, i), i, s.len() as int),
        forall|k: int|
            i <= k < s.len() && !whitespace(#[trigger] s[k]) ==> covered(ui_spans(s, i), k),
    decreases s.len() - i,
{
    if i < s.len() {
        if whitespace(s[i]) {
            ui_tokens_cover(s, i + 1);
        } else {
            ui_token_range(s, i);
            let (end, category) = ui_token_at(s, i);
            ui_tokens_cover(s, end);
            let rest = ui_spans(s, end);
            let all = ui_spans(s, i);
            let first = UiSpan { category, start: i, end };
            assert(all[0] == first);
            assert forall|j: int| 1 <= j < all.len() implies #[trigger] all[j] == rest[j - 1] by {}
            assert forall|k: int| i <= k < s.len() && !whitespace(#[trigger] s[k]) implies covered(
                all,
                k,
            ) by {
                if k < end {
                    assert(all[0].start <= k < all[0].end);
                } else {
                    assert(covered(rest, k));
                    let j = choose|j: int|
                        0 <= j < rest.len() && (#[trigger] rest[j]).start <= k < rest[j].end;
                    assert(all[j + 1] == rest[j]);
                }
            }
        }
    }
}

/// Colours a query, for any text.
pub fn tokenize_for_ui(source: &str) -> (out: Vec<UiToken>)
    requires
        utf16_len(source@) <= u32::MAX,
    ensures
        out@.len() == ui_spans(source@, 0).len(),
        forall|j: int|
            0 <= j < out@.len() ==> paints(#[trigger] out@[j], source@, ui_spans(source@, 0)[j]),
{
    let chars = chars_of(source);
    let _size: usize = chars.len();
    let mut scanner = UiScanner { chars, pos: 0, utf16_pos: 0 };
    assert(scanner.chars@.take(0) =~= Seq::<char>::empty());
    scanner.run()
}

struct UiScanner {
    chars: Vec<char>,
    pos: usize,
    utf16_pos: u32,
}

proof fn utf16_len_add(a: Seq<char>, b: Seq<char>)
    ensures
        utf16_len(a + b) == utf16_len(a) + utf16_len(b),
    decreases b.len(),
{
    if b.len() == 0 {
        assert(a + b =~= a);
    } else {
        assert((a + b).drop_last() =~= a + b.drop_last());
        utf16_len_add(a, b.drop_last());
    }
}

impl UiScanner {
    spec fn wf(self) -> bool {
        &&& self.pos <= self.chars@.len() <= usize::MAX
        &&& self.utf16_pos == utf16_len(self.chars@.take(self.pos as int))
        &&& utf16_len(self.chars@) <= u32::MAX
    }

    spec fn moved(self, before: Self, pos: int) -> bool {
        &&& self.wf()
        &&& self.chars == before.chars
        &&& self.pos == pos
    }

    fn run(&mut self) -> (out: Vec<UiToken>)
        requires
            old(self).wf(),
            old(self).pos == 0,
        ensures
            out@.len() == ui_spans(old(self).chars@, 0).len(),
            forall|j: int|
                0 <= j < out@.len() ==> paints(
                    #[trigger] out@[j],
                    old(self).chars@,
                    ui_spans(old(self).chars@, 0)[j],
                ),
    {
        let ghost s = self.chars@;
        let ghost all = ui_spans(s, 0);
        let mut out: Vec<UiToken> = Vec::new();
        assert(all.skip(0) =~= all);
        while self.pos < self.chars.len()
            invariant
                self.wf(),
                self.chars@ == s,
                all == ui_spans(s, 0),
                out@.len() <= all.len(),
                ui_spans(s, self.pos as int) == all.skip(out@.len() as int),
                forall|j: int|
                    0 <= j < out@.len() ==> paints(#[trigger] out@[j], s, all[j]),
            decreases s.len() - self.pos,
        {
            let ghost start = self.pos as int;
            let c: char = self.chars[self.pos];
            if c.is_whitespace() {
                self.advance_one();
            } else {
                let start_utf16: u32 = self.utf16_pos;
                proof {
                    ui_token_range(s, start);
                }
                let category = self.scan_token();
                let ghost n = out@.len() as int;
                let ghost before = out@;
                proof {
                    let (end, cat) = ui_token_at(s, start);
                    let span = UiSpan { category: cat, start, end };
                    assert(all.skip(n).len() > 0);
                    assert(all.skip(n)[0] == span);
                    assert(all.skip(n + 1) =~= all.skip(n).skip(1));
                    assert((seq![span] + ui_spans(s, end)).skip(1) =~= ui_spans(s, end));
                    utf16_len_add(s.take(start), s.subrange(start, end));
                    assert(s.take(start) + s.subrange(start, end) =~= s.take(end));
                }
                out.push(self.token(category, start_utf16));
                assert forall|j: int| 0 <= j < out@.len() implies paints(
                    #[trigger] out@[j],
                    s,
                    all[j],
                ) by {
                    if j < n {
                        assert(out@[j] == before[j]);
                    }
                }
            }
        }
        out
    }

    /// Moves past the token at the cursor and tells its colour.
    #[verifier::rlimit(40)]
    fn scan_token(&mut self) -> (category: TokenCategory)
        requires
            old(self).wf(),
            old(self).pos < old(self).chars@.len(),
        ensures
            ({
                let (end, cat) = ui_token_at(old(self).chars@, old(self).pos as int);
                category == cat && final(self).moved(*old(self), end)
            }),
    {
        let ghost s = self.chars@;
        let start: usize = self.pos;
        let c: char = self.chars[start];
        let next_is_digit: bool = start + 1 < self.chars.len() && self.chars[start + 1] >= '0'
            && self.chars[start + 1] <= '9';
        if c == '#' {
            self.skip_comment();
            return TokenCategory::Comment;
        }
        if c == '"' {
            self.advance_one();
            self.skip_string();
            return TokenCategory::String;
        }
        if (c >= '0' && c <= '9') || (c == '-' && next_is_digit) {
            self.skip_number();
            return TokenCategory::Number;
        }
        if c.is_alphabetic() || c == '_' {
            self.advance_one();
            proof {
                word_end_range(s, start + 1);
            }
            self.skip_word();
            let word = string_from(self.chars.as_slice(), start, self.pos);
            return identifier_category(word.as_str());
        }
        self.advance_one();
        if c == '$' {
            self.skip_word();
            return TokenCategory::Identifier;
        }
        if c == '*' {
            self.skip_if('*');
            return TokenCategory::Splat;
        }
        if c == '=' || c == '<' || c == '>' {
            self.skip_if('=');
            return TokenCategory::Operator;
        }
        if c == '!' && self.at('=') {
            self.advance_one();
            return TokenCategory::Operator;
        }
        if c == '+' || c == '-' || c == '/' {
            return TokenCategory::Operator;
        }
        if c == '.' || c == ',' || c == ';' || c == ':' || c == '|' || c == '?' || c == '(' || c
            == ')' || c == '[' || c == ']' || c == '{' || c == '}' {
            return TokenCategory::Punctuation;
        }
        TokenCategory::Error
    }

    fn at(&self, c: char) -> (b: bool)
        ensures
            b == char_at(self.chars@, self.pos as int, c),
    {
        self.pos < self.chars.len() && self.chars[self.pos] == c
    }

    fn at_digit(&self) -> (b: bool)
        ensures
            b == digit_char_at(self.chars@, self.pos as int),
    {
        self.pos < self.chars.len() && self.chars[self.pos] >= '0' && self.chars[self.pos] <= '9'
    }

    /// Moves past `c` if it stands at the cursor.
    fn skip_if(&mut self, c: char)
        requires
            old(self).wf(),
        ensures
            char_at(old(self).chars@, old(self).pos as int, c) ==> final(self).moved(
                *old(self),
                old(self).pos + 1,
            ),
            !char_at(old(self).chars@, old(self).pos as int, c) ==> *final(self) == *old(self),
    {
        if self.at(c) {
            self.advance_one();
        }
    }

    fn skip_comment(&mut self)
        requires
            old(self).wf(),
        ensures
            final(self).moved(*old(self), comment_end(old(self).chars@, old(self).pos as int)),
    {
        while self.pos < self.chars.len() && self.chars[self.pos] != '\n'
            invariant
                self.moved(*old(self), self.pos as int),
                comment_end(self.chars@, self.pos as int) == comment_end(
                    old(self).chars@,
                    old(self).pos as int,
                ),
            decreases self.chars@.len() - self.pos,
        {
            self.advance_one();
        }
    }

    /// Moves past the rest of a string.
    fn skip_string(&mut self)
        requires
            old(self).wf(),
        ensures
            final(self).moved(*old(self), ui_string_end(old(self).chars@, old(self).pos as int)),
    {
        while self.pos < self.chars.len()
            invariant
                self.moved(*old(self), self.pos as int),
                ui_string_end(self.chars@, self.pos as int) == ui_string_end(
                    old(self).chars@,
                    old(self).pos as int,
                ),
            decreases self.chars@.len() - self.pos,
        {
            let c: char = self.chars[self.pos];
            self.advance_one();
            if c == '"' {
                return;
            }
            if c == '\\' && self.pos < self.chars.len() {
                self.advance_one();
            }
        }
    }

    fn skip_word(&mut self)
        requires
            old(self).wf(),
        ensures
            final(self).moved(*old(self), word_end(old(self).chars@, old(self).pos as int)),
    {
        while self.pos < self.chars.len() && (self.chars[self.pos].is_alphanumeric()
            || self.chars[self.pos] == '_')
            invariant
                self.moved(*old(self), self.pos as int),
                word_end(self.chars@, self.pos as int) == word_end(
                    old(self).chars@,
                    old(self).pos as int,
                ),
            decreases self.chars@.len() - self.pos,
        {
            self.advance_one();
        }
    }

    fn skip_digits(&mut self)
        requires
            old(self).wf(),
        ensures
            final(self).moved(*old(self), digit_end(old(self).chars@, old(self).pos as int)),
    {
        while self.at_digit()
            invariant
                self.moved(*old(self), self.pos as int),
                digit_end(self.chars@, self.pos as int) == digit_end(
                    old(self).chars@,
                    old(self).pos as int,
                ),
            decreases self.chars@.len() - self.pos,
        {
            self.advance_one();
        }
    }

    fn skip_number(&mut self)
        requires
            old(self).wf(),
            old(self).pos < old(self).chars@.len(),
        ensures
            final(self).moved(*old(self), numeral_end(old(self).chars@, old(self).pos as int)),
    {
        let ghost s = self.chars@;
        let ghost start = self.pos as int;
        if self.at('-') {
            self.advance_one();
        }
        self.skip_digits();
        if self.at('.') {
            self.advance_one();
            self.skip_digits();
        }
        assert(self.pos == mantissa_end(s, start));
        if self.at('e') || self.at('E') {
            self.advance_one();
            if self.at('+') || self.at('-') {
                self.advance_one();
            }
            self.skip_digits();
        }
    }

    fn advance_one(&mut self)
        requires
            old(self).wf(),
            old(self).pos < old(self).chars@.len(),
        ensures
            final(self).moved(*old(self), old(self).pos + 1),
    {
        let c: char = self.chars[self.pos];
        proof {
            let i = self.pos as int;
            let s = self.chars@;
            assert(s.take(i + 1).drop_last() =~= s.take(i));
            assert(s.take(i + 1).last() == c);
            utf16_len_add(s.take(i + 1), s.skip(i + 1));
            assert(s.take(i + 1) + s.skip(i + 1) =~= s);
        }
        self.pos = self.pos + 1;
        self.utf16_pos = self.utf16_pos + if c as u32 > 0xFFFF {
            2
        } else {
            1
        };
    }

    fn token(&self, category: TokenCategory, start_utf16: u32) -> (t: UiToken)
        requires
            start_utf16 <= self.utf16_pos,
        ensures
            t == (UiToken {
                category,
                offset: start_utf16,
                length: (self.utf16_pos - start_utf16) as u32,
            }),
    {
        UiToken { category, offset: start_utf16, length: self.utf16_pos - start_utf16 }
    }
}

} // verus!
