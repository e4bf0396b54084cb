//! Layouts read back: the lexer and the parser undo the formatter.
use vstd::prelude::*;

use super::super::lexer::{
    char_at, digit_char_at, digit_end, ends_value, exponent_at, exponent_digits, letter_escape,
    literal_text, mantissa_end, numeral_end, numeral_ok, space_end, token_at, tokens_from,
    word_char, word_end, word_start, Tok, TokAt,
};
use super::format::{literal_char, literal_chars};
use crate::text::{ascii_digit, whitespace};

verus! {

/// Reading `s` from `i` on, where `av` tells whether a value has just ended,
/// gives the tokens `ks` and comes to `j`, where `bv` holds.
pub open spec fn reads(s: Seq<char>, i: int, av: bool, ks: Seq<Tok>, j: int, bv: bool) -> bool
    decreases ks.len(),
{
    if ks.len() == 0 {
        0 <= i <= j <= s.len() && av == bv && forall|k: int|
            i <= k < j ==> whitespace(#[trigger] s[k])
    } else {
        let st = space_end(s, i);
        &&& 0 <= i <= s.len()
        &&& st < s.len()
        &&& token_at(s, st, av) matches Ok((e, t)) && t == ks[0] && i < e <= s.len() && reads(
            s,
            e,
            ends_value(ks[0]),
            ks.drop_first(),
            j,
            bv,
        )
    }
}

pub proof fn space_over(s: Seq<char>, i: int, j: int)
    requires
        0 <= i <= j <= s.len(),
        forall|k: int| i <= k < j ==> whitespace(#[trigger] s[k]),
    ensures
        space_end(s, i) == space_end(s, j),
    decreases j - i,
{
    if i < j {
        space_over(s, i + 1, j);
    }
}

pub proof fn reads_join(
    s: Seq<char>,
    i: int,
    a: bool,
    k1: Seq<Tok>,
    j: int,
    b: bool,
    k2: Seq<Tok>,
    l: int,
    c: bool,
)
    requires
        reads(s, i, a, k1, j, b),
        reads(s, j, b, k2, l, c),
    ensures
        reads(s, i, a, k1 + k2, l, c),
    decreases k1.len(),
{
    if k1.len() == 0 {
        assert(k1 + k2 =~= k2);
        space_over(s, i, j);
    } else {
        let e = token_at(s, space_end(s, i), a)->Ok_0.0;
        reads_join(s, e, ends_value(k1[0]), k1.drop_first(), j, b, k2, l, c);
        assert((k1 + k2).drop_first() =~= k1.drop_first() + k2);
    }
}

pub open spec fn kinds(t: Seq<TokAt>) -> Seq<Tok> {
    Seq::new(t.len(), |k: int| t[k].kind)
}

/// What is read to the end are all tokens.
pub proof fn reads_all(s: Seq<char>, i: int, av: bool, ks: Seq<Tok>, bv: bool)
    requires
        reads(s, i, av, ks, s.len() as int, bv),
    ensures
        tokens_from(s, i, av) matches Ok(t) && kinds(t) == ks.push(Tok::Eof),
    decreases ks.len(),
{
    if ks.len() == 0 {
        space_over(s, i, s.len() as int);
        let t = tokens_from(s, i, av)->Ok_0;
        assert(kinds(t) =~= ks.push(Tok::Eof));
    } else {
        let e = token_at(s, space_end(s, i), av)->Ok_0.0;
        reads_all(s, e, ends_value(ks[0]), ks.drop_first(), bv);
        let st = space_end(s, i);
        let rest = tokens_from(s, e, ends_value(ks[0]))->Ok_0;
        let t = seq![TokAt { kind: ks[0], position: st }] + rest;
        assert(0 <= st) by {
            super::super::lexer::space_end_range(s, i);
        }
        assert(tokens_from(s, i, av) == Ok::<Seq<TokAt>, super::super::QueryFault>(t));
        assert(kinds(rest).len() == ks.drop_first().push(Tok::Eof).len());
        assert forall|k: int| 0 <= k < kinds(t).len() implies kinds(t)[k] == ks.push(Tok::Eof)[k] by {
            if k > 0 {
                assert(kinds(rest)[k - 1] == ks.drop_first().push(Tok::Eof)[k - 1]);
            }
        }
        assert(kinds(t) =~= ks.push(Tok::Eof));
    }
}

/// The text `x` stands at `i`.
pub open spec fn has(s: Seq<char>, i: int, x: Seq<char>) -> bool {
    &&& 0 <= i
    &&& i + x.len() <= s.len()
    &&& forall|k: int| 0 <= k < x.len() ==> s[i + k] == #[trigger] x[k]
}

pub proof fn has_parts(s: Seq<char>, i: int, a: Seq<char>, b: Seq<char>)
    requires
        has(s, i, a + b),
    ensures
        has(s, i, a),
        has(s, i + a.len(), b),
{
    let c = a + b;
    assert forall|k: int| 0 <= k < a.len() implies s[i + k] == #[trigger] a[k] by {
        assert(c[k] == a[k]);
    }
    assert forall|k: int| 0 <= k < b.len() implies s[i + a.len() + k] == #[trigger] b[k] by {
        assert(c[a.len() + k] == b[k]);
        assert(s[i + (a.len() + k)] == c[a.len() + k]);
    }
}

/// White space gives no tokens.
pub proof fn read_blank(s: Seq<char>, i: int, x: Seq<char>, av: bool)
    requires
        has(s, i, x),
        forall|k: int| 0 <= k < x.len() ==> whitespace(#[trigger] x[k]),
    ensures
        reads(s, i, av, Seq::empty(), i + x.len(), av),
{
    assert forall|k: int| i <= k < i + x.len() implies whitespace(#[trigger] s[k]) by {
        assert(s[i + (k - i)] == x[k - i]);
    }
}

/// One token at `i`.
pub proof fn read_one(s: Seq<char>, i: int, av: bool, t: Tok, e: int)
    requires
        0 <= i < s.len(),
        !whitespace(s[i]),
        token_at(s, i, av) == Ok::<(int, Tok), super::super::QueryFault>((e, t)),
        i < e <= s.len(),
    ensures
        reads(s, i, av, seq![t], e, ends_value(t)),
{
    let ks = seq![t];
    assert(ks.drop_first() =~= Seq::empty());
    assert(space_end(s, i) == i);
    assert(reads(s, e, ends_value(t), Seq::empty(), e, ends_value(t)));
}

/// A word of the language.
pub open spec fn ident_text(x: Seq<char>) -> bool {
    &&& x.len() > 0
    &&& word_start(x[0])
    &&& !whitespace(x[0])
    &&& forall|k: int| 1 <= k < x.len() ==> word_char(#[trigger] x[k])
}

pub proof fn word_stops(s: Seq<char>, i: int, e: int)
    requires
        0 <= i <= e <= s.len(),
        forall|k: int| i <= k < e ==> word_char(#[trigger] s[k]),
        e == s.len() || !word_char(s[e]),
    ensures
        word_end(s, i) == e,
    decreases e - i,
{
    if i < e {
        word_stops(s, i + 1, e);
    }
}

/// A word ends at `j`.
pub open spec fn word_ends(s: Seq<char>, j: int) -> bool {
    j >= s.len() || !word_char(s[j])
}

pub proof fn read_word(s: Seq<char>, i: int, x: Seq<char>, av: bool)
    requires
        has(s, i, x),
        ident_text(x),
        word_ends(s, i + x.len()),
    ensures
        reads(s, i, av, seq![Tok::Ident(x)], i + x.len(), true),
{
    let e = i + x.len();
    assert(s[i + 0] == x[0]);
    assert forall|k: int| i + 1 <= k < e implies word_char(#[trigger] s[k]) by {
        assert(s[i + (k - i)] == x[k - i]);
    }
    word_stops(s, i + 1, e);
    assert(s.subrange(i, e) =~= x) by {
        assert forall|k: int| 0 <= k < x.len() implies s.subrange(i, e)[k] == x[k] by {
            assert(s[i + k] == x[k]);
        }
    }
    read_one(s, i, av, Tok::Ident(x), e);
}

/// The token of a mark that no further character changes.
pub open spec fn mark(c: char) -> Option<Tok> {
    if c == '.' {
        Some(Tok::Dot)
    } else if c == '[' {
        Some(Tok::LBrack)
    } else if c == ']' {
        Some(Tok::RBrack)
    } else if c == '{' {
        Some(Tok::LBrace)
    } else if c == '}' {
        Some(Tok::RBrace)
    } else if c == ':' {
        Some(Tok::Colon)
    } else if c == ',' {
        Some(Tok::Comma)
    } else if c == '(' {
        Some(Tok::LParen)
    } else if c == ')' {
        Some(Tok::RParen)
    } else if c == '+' {
        Some(Tok::Plus)
    } else if c == '/' {
        Some(Tok::Slash)
    } else {
        None
    }
}

pub proof fn read_mark(s: Seq<char>, i: int, c: char, av: bool)
    requires
        0 <= i < s.len(),
        s[i] == c,
        mark(c) is Some,
    ensures
        reads(s, i, av, seq![mark(c)->0], i + 1, ends_value(mark(c)->0)),
{
    read_one(s, i, av, mark(c)->0, i + 1);
}

/// The token of a mark that a further character could change.
pub open spec fn long_mark(x: Seq<char>) -> Option<Tok> {
    if x == seq!['=', '='] {
        Some(Tok::Eq)
    } else if x == seq!['!', '='] {
        Some(Tok::Ne)
    } else if x == seq!['<'] {
        Some(Tok::Lt)
    } else if x == seq!['<', '='] {
        Some(Tok::Le)
    } else if x == seq!['>'] {
        Some(Tok::Gt)
    } else if x == seq!['>', '='] {
        Some(Tok::Ge)
    } else if x == seq!['*'] {
        Some(Tok::Star)
    } else if x == seq!['-'] {
        Some(Tok::Minus)
    } else if x == seq!['*', '*'] {
        Some(Tok::StarStar)
    } else if x == seq!['='] {
        Some(Tok::Assign)
    } else if x == seq!['?', '?'] {
        Some(Tok::QuestionQuestion)
    } else {
        None
    }
}

/// Such a mark, with white space behind it.
pub proof fn read_long_mark(s: Seq<char>, i: int, x: Seq<char>, av: bool)
    requires
        has(s, i, x),
        long_mark(x) is Some,
        i + x.len() >= s.len() || whitespace(s[i + x.len()]) || x == seq!['*', '*'],
    ensures
        reads(s, i, av, seq![long_mark(x)->0], i + x.len(), ends_value(long_mark(x)->0)),
{
    assert(s[i + 0] == x[0]);
    if x.len() == 2 {
        assert(s[i + 1] == x[1]);
    }
    read_one(s, i, av, long_mark(x)->0, i + x.len());
}

pub proof fn digits_stop(s: Seq<char>, i: int, e: int)
    requires
        0 <= i <= e <= s.len(),
        forall|k: int| i <= k < e ==> ascii_digit(#[trigger] s[k]),
        !digit_char_at(s, e),
    ensures
        digit_end(s, i) == e,
    decreases e - i,
{
    if i < e {
        digits_stop(s, i + 1, e);
    }
}

/// Digits end in a text where they end in a part of it, unless more follow.
pub proof fn digit_end_in(s: Seq<char>, i: int, x: Seq<char>, k: int)
    requires
        has(s, i, x),
        0 <= k <= x.len(),
        !digit_char_at(s, i + x.len()),
    ensures
        digit_end(s, i + k) == i + digit_end(x, k),
        k <= digit_end(x, k) <= x.len(),
    decreases x.len() - k,
{
    if k < x.len() {
        assert(s[i + k] == x[k]);
        if ascii_digit(x[k]) {
            digit_end_in(s, i, x, k + 1);
        }
    }
}

/// The characters behind a number that end it.
pub open spec fn number_ends(s: Seq<char>, j: int) -> bool {
    j >= s.len() || !(ascii_digit(s[j]) || s[j] == '.' || s[j] == 'e' || s[j] == 'E')
}

/// A numeral without a sign that is read whole.
pub open spec fn numeral_text(x: Seq<char>) -> bool {
    &&& x.len() > 0
    &&& ascii_digit(x[0])
    &&& numeral_end(x, 0) == x.len()
    &&& numeral_ok(x, 0)
}

pub proof fn read_number(s: Seq<char>, i: int, x: Seq<char>, av: bool)
    requires
        has(s, i, x),
        numeral_text(x),
        number_ends(s, i + x.len()),
    ensures
        reads(s, i, av, seq![Tok::Number(x)], i + x.len(), true),
{
    let n = x.len() as int;
    assert(s[i + 0] == x[0]);
    digit_end_in(s, i, x, 0);
    let d = digit_end(x, 0);
    assert(char_at(s, i + d, '.') == char_at(x, d, '.')) by {
        if d < n {
            assert(s[i + d] == x[d]);
        }
    }
    if char_at(x, d, '.') {
        digit_end_in(s, i, x, d + 1);
    }
    let m = mantissa_end(x, 0);
    assert(mantissa_end(s, i) == i + m);
    assert(exponent_at(s, i + m) == exponent_at(x, m)) by {
        if m < n {
            assert(s[i + m] == x[m]);
        }
    }
    if exponent_at(x, m) {
        if m + 1 < n {
            assert(s[i + (m + 1)] == x[m + 1]);
        }
        let f = exponent_digits(x, m);
        assert(digit_char_at(x, f));
        assert(exponent_digits(s, i + m) == i + f);
        assert(s[i + f] == x[f]);
        digit_end_in(s, i, x, f);
    }
    assert(numeral_end(s, i) == i + n);
    assert(numeral_ok(s, i));
    assert(s.subrange(i, i + n) =~= x) by {
        assert forall|k: int| 0 <= k < x.len() implies s.subrange(i, i + n)[k] == x[k] by {
            assert(s[i + k] == x[k]);
        }
    }
    read_one(s, i, av, Tok::Number(x), i + n);
}

/// A numeral behind a minus sign, where no value has just ended.
pub proof fn read_signed_number(s: Seq<char>, i: int, x: Seq<char>)
    requires
        has(s, i, x),
        x.len() > 0,
        x[0] == '-',
        numeral_text(x.drop_first()),
        number_ends(s, i + x.len()),
    ensures
        reads(s, i, false, seq![Tok::Number(x)], i + x.len(), true),
{
    let y = x.drop_first();
    let n = y.len() as int;
    assert(s[i + 0] == x[0]);
    assert forall|k: int| 0 <= k < y.len() implies s[i + 1 + k] == #[trigger] y[k] by {
        assert(s[i + (1 + k)] == x[1 + k]);
    }
    assert(has(s, i + 1, y));
    assert(s[i + 1 + 0] == y[0]);
    digit_end_in(s, i + 1, y, 0);
    let d = digit_end(y, 0);
    assert(char_at(s, i + 1 + d, '.') == char_at(y, d, '.')) by {
        if d < n {
            assert(s[i + 1 + d] == y[d]);
        }
    }
    if char_at(y, d, '.') {
        digit_end_in(s, i + 1, y, d + 1);
    }
    let m = mantissa_end(y, 0);
    assert(mantissa_end(s, i) == i + 1 + m);
    assert(exponent_at(s, i + 1 + m) == exponent_at(y, m)) by {
        if m < n {
            assert(s[i + 1 + m] == y[m]);
        }
    }
    if exponent_at(y, m) {
        if m + 1 < n {
            assert(s[i + 1 + (m + 1)] == y[m + 1]);
        }
        let f = exponent_digits(y, m);
        assert(digit_char_at(y, f));
        assert(exponent_digits(s, i + 1 + m) == i + 1 + f);
        assert(s[i + 1 + f] == y[f]);
        digit_end_in(s, i + 1, y, f);
    }
    assert(numeral_end(s, i) == i + 1 + n);
    assert(numeral_ok(s, i));
    assert(s.subrange(i, i + x.len()) =~= x) by {
        assert forall|k: int| 0 <= k < x.len() implies s.subrange(i, i + x.len())[k] == x[k] by {
            assert(s[i + k] == x[k]);
        }
    }
    read_one(s, i, false, Tok::Number(x), i + x.len());
}

/// Escapes go character by character.
pub proof fn literal_front(x: Seq<char>)
    requires
        x.len() > 0,
    ensures
        literal_chars(x) == literal_char(x[0]) + literal_chars(x.drop_first()),
    decreases x.len(),
{
    if x.len() == 1 {
        assert(x.drop_last() =~= Seq::empty());
        assert(x.drop_first() =~= Seq::empty());
        assert(literal_chars(x) =~= literal_char(x[0]) + literal_chars(x.drop_first()));
    } else {
        literal_front(x.drop_last());
        assert(x.drop_last().drop_first() =~= x.drop_first().drop_last());
        assert(literal_chars(x) =~= literal_char(x[0]) + literal_chars(x.drop_first()));
    }
}

/// The inside of a string literal reads back.
#[verifier::spinoff_prover]
pub proof fn literal_reads_back(s: Seq<char>, i: int, x: Seq<char>, start: int)
    requires
        has(s, i, literal_chars(x)),
        char_at(s, i + literal_chars(x).len(), '"'),
    ensures
        literal_text(s, i, start) == Ok::<(int, Seq<char>), super::super::QueryFault>(
            (i + literal_chars(x).len() + 1, x),
        ),
    decreases x.len(),
{
    if x.len() == 0 {
        assert(x =~= Seq::empty());
    } else {
        literal_front(x);
        let c = x[0];
        let a = literal_char(c);
        let b = literal_chars(x.drop_first());
        has_parts(s, i, a, b);
        reveal_strlit("\\\"");
        reveal_strlit("\\\\");
        reveal_strlit("\\n");
        reveal_strlit("\\r");
        reveal_strlit("\\t");
        literal_reads_back(s, i + a.len(), x.drop_first(), start);
        assert(s[i + 0] == a[0]);
        if a.len() == 2 {
            assert(s[i + 1] == a[1]);
            assert(letter_escape(a[1]) == Some(c));
        }
        assert(seq![c] + x.drop_first() =~= x);
    }
}

pub proof fn read_string(s: Seq<char>, i: int, x: Seq<char>, av: bool)
    requires
        has(s, i, "\""@ + literal_chars(x) + "\""@),
    ensures
        reads(
            s,
            i,
            av,
            seq![Tok::Str(x)],
            i + ("\""@ + literal_chars(x) + "\""@).len(),
            true,
        ),
{
    reveal_strlit("\"");
    let q = "\""@;
    let inner = literal_chars(x);
    has_parts(s, i, q + inner, q);
    has_parts(s, i, q, inner);
    assert(s[i + 0] == q[0]);
    assert(s[i + 1 + inner.len() + 0] == q[0]);
    literal_reads_back(s, i + 1, x, i);
    read_one(s, i, av, Tok::Str(x), i + inner.len() + 2);
}

} // verus!
