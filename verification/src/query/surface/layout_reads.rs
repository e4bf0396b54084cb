//! The lexer reads the text of a layout as its tokens.
use vstd::prelude::*;

use super::super::ast::CompareOp;
use super::super::canonical::{int_text, is_bare, name_text};
use super::super::grammar::kw;
use super::super::lexer::{
    char_at, ends_value, escape_char, hex4_value, hex_char_value, hex_run, is_hex_char,
    letter_escape, literal_text, word_char, Tok,
};
use super::ast::{BinaryOp, PathExprV, PathRootV, PathSegV};
use super::format::{is_word, path_text, seg_dot, seg_text, segs_text};
use super::layout_tokens::{
    binary_tok, compare_tok, dot_toks, name_tok, path_toks, regular_path, regular_seg, seg_toks,
    segs_toks,
};
use super::numbers_read::{all_digits, decimal_digits};
use super::readback::{
    has, has_parts, ident_text, long_mark, mark, number_ends, numeral_text, read_blank,
    read_long_mark, read_mark, read_number, read_one, read_word, reads, reads_join, word_ends,
};
use crate::text::{ascii_digit, decimal_text, hex_char, json_char, json_escaped, whitespace};

verus! {

/// Whether a value has ended after these tokens.
pub open spec fn value_after(ks: Seq<Tok>, av: bool) -> bool {
    if ks.len() == 0 {
        av
    } else {
        ends_value(ks.last())
    }
}

/// Reading from `i` gives the tokens and comes to `j`.
pub open spec fn gives(s: Seq<char>, i: int, av: bool, ks: Seq<Tok>, j: int) -> bool {
    reads(s, i, av, ks, j, value_after(ks, av))
}

pub proof fn gives_join(
    s: Seq<char>,
    i: int,
    av: bool,
    a: Seq<Tok>,
    j: int,
    b: Seq<Tok>,
    l: int,
)
    requires
        gives(s, i, av, a, j),
        gives(s, j, value_after(a, av), b, l),
    ensures
        gives(s, i, av, a + b, l),
{
    reads_join(s, i, av, a, j, value_after(a, av), b, l, value_after(b, value_after(a, av)));
    if b.len() > 0 {
        assert((a + b).last() == b.last());
    } else {
        assert(a + b =~= a);
    }
}

/// The text of a token ends here: at the end, at white space, a comma or a
/// closing bracket.
pub open spec fn cut(s: Seq<char>, j: int) -> bool {
    j >= s.len() || s[j] == ' ' || s[j] == '\n' || s[j] == ',' || s[j] == ')' || s[j] == ']' || s[j]
        == '}'
}

/// Spaces and line ends.
pub open spec fn blank(x: Seq<char>) -> bool {
    forall|k: int| 0 <= k < x.len() ==> (#[trigger] x[k]) == ' ' || x[k] == '\n'
}

pub proof fn gives_blank(s: Seq<char>, i: int, x: Seq<char>, av: bool)
    requires
        has(s, i, x),
        blank(x),
    ensures
        gives(s, i, av, Seq::empty(), i + x.len()),
{
    assert forall|k: int| 0 <= k < x.len() implies whitespace(#[trigger] x[k]) by {}
    read_blank(s, i, x, av);
}

pub proof fn gives_word(s: Seq<char>, i: int, x: Seq<char>, av: bool)
    requires
        has(s, i, x),
        ident_text(x),
        word_ends(s, i + x.len()),
    ensures
        gives(s, i, av, seq![Tok::Ident(x)], i + x.len()),
{
    read_word(s, i, x, av);
}

/// A word with white space around it.
pub proof fn gives_spaced_word(
    s: Seq<char>,
    i: int,
    a: Seq<char>,
    x: Seq<char>,
    b: Seq<char>,
    av: bool,
)
    requires
        has(s, i, a + x + b),
        blank(a),
        blank(b),
        ident_text(x),
        b.len() > 0 || cut(s, i + a.len() + x.len()),
    ensures
        gives(s, i, av, seq![Tok::Ident(x)], i + (a + x + b).len()),
{
    has_parts(s, i, a + x, b);
    has_parts(s, i, a, x);
    gives_blank(s, i, a, av);
    let k = i + a.len();
    if b.len() > 0 {
        assert(s[k + x.len() + 0] == b[0]);
    }
    gives_word(s, k, x, av);
    gives_blank(s, k + x.len(), b, true);
    gives_join(s, i, av, Seq::empty(), k, seq![Tok::Ident(x)], k + x.len());
    assert(Seq::<Tok>::empty() + seq![Tok::Ident(x)] =~= seq![Tok::Ident(x)]);
    gives_join(s, i, av, seq![Tok::Ident(x)], k + x.len(), Seq::empty(), k + x.len() + b.len());
    assert(seq![Tok::Ident(x)] + Seq::<Tok>::empty() =~= seq![Tok::Ident(x)]);
}

/// A mark with a space before and behind it.
pub proof fn gives_spaced_mark(s: Seq<char>, i: int, x: Seq<char>, t: Tok, av: bool)
    requires
        has(s, i, seq![' '] + x + seq![' ']),
        long_mark(x) == Some(t) || (x.len() == 1 && mark(x[0]) == Some(t)),
    ensures
        gives(s, i, av, seq![t], i + x.len() + 2),
{
    let sp = seq![' '];
    has_parts(s, i, sp + x, sp);
    has_parts(s, i, sp, x);
    gives_blank(s, i, sp, av);
    assert(s[i + 1 + x.len() + 0] == sp[0]);
    if long_mark(x) == Some(t) {
        read_long_mark(s, i + 1, x, av);
    } else {
        assert(s[i + 1 + 0] == x[0]);
        read_mark(s, i + 1, x[0], av);
    }
    assert(gives(s, i + 1, av, seq![t], i + 1 + x.len()));
    gives_blank(s, i + 1 + x.len(), sp, ends_value(t));
    gives_join(s, i, av, Seq::empty(), i + 1, seq![t], i + 1 + x.len());
    assert(Seq::<Tok>::empty() + seq![t] =~= seq![t]);
    gives_join(s, i, av, seq![t], i + 1 + x.len(), Seq::empty(), i + 2 + x.len());
    assert(seq![t] + Seq::<Tok>::empty() =~= seq![t]);
}

/// One mark.
pub proof fn gives_mark(s: Seq<char>, i: int, c: char, av: bool)
    requires
        has(s, i, seq![c]),
        mark(c) is Some,
    ensures
        gives(s, i, av, seq![mark(c)->0], i + 1),
{
    assert(s[i + 0] == seq![c][0]);
    read_mark(s, i, c, av);
}

/// The words that join expressions are words.
pub proof fn joining_idents()
    ensures
        ident_text(kw::AND@),
        ident_text(kw::OR@),
        ident_text(kw::NOT@),
        ident_text(kw::EXISTS@),
        ident_text(kw::IS@),
        ident_text(kw::IN@),
        ident_text(kw::MATCHES@),
        ident_text(kw::STARTS_WITH@),
        ident_text(kw::ENDS_WITH@),
        ident_text(kw::CONTAINS@),
{
    reveal_strlit("and");
    assert(kw::AND@.len() == 3);
    assert(kw::AND@[0] == 'a');
    assert(kw::AND@[1] == 'n');
    assert(kw::AND@[2] == 'd');
    assert forall|k: int| 1 <= k < kw::AND@.len() implies word_char(#[trigger] kw::AND@[k]) by {
        assert(k == 1 || k == 2);
    }
    reveal_strlit("or");
    assert(kw::OR@.len() == 2);
    assert(kw::OR@[0] == 'o');
    assert(kw::OR@[1] == 'r');
    assert forall|k: int| 1 <= k < kw::OR@.len() implies word_char(#[trigger] kw::OR@[k]) by {
        assert(k == 1);
    }
    reveal_strlit("not");
    assert(kw::NOT@.len() == 3);
    assert(kw::NOT@[0] == 'n');
    assert(kw::NOT@[1] == 'o');
    assert(kw::NOT@[2] == 't');
    assert forall|k: int| 1 <= k < kw::NOT@.len() implies word_char(#[trigger] kw::NOT@[k]) by {
        assert(k == 1 || k == 2);
    }
    reveal_strlit("exists");
    assert(kw::EXISTS@.len() == 6);
    assert(kw::EXISTS@[0] == 'e');
    assert(kw::EXISTS@[1] == 'x');
    assert(kw::EXISTS@[2] == 'i');
    assert(kw::EXISTS@[3] == 's');
    assert(kw::EXISTS@[4] == 't');
    assert(kw::EXISTS@[5] == 's');
    assert forall|k: int| 1 <= k < kw::EXISTS@.len() implies word_char(#[trigger] kw::EXISTS@[k]) by {
        assert(k == 1 || k == 2 || k == 3 || k == 4 || k == 5);
    }
    reveal_strlit("is");
    assert(kw::IS@.len() == 2);
    assert(kw::IS@[0] == 'i');
    assert(kw::IS@[1] == 's');
    assert forall|k: int| 1 <= k < kw::IS@.len() implies word_char(#[trigger] kw::IS@[k]) by {
        assert(k == 1);
    }
    reveal_strlit("in");
    assert(kw::IN@.len() == 2);
    assert(kw::IN@[0] == 'i');
    assert(kw::IN@[1] == 'n');
    assert forall|k: int| 1 <= k < kw::IN@.len() implies word_char(#[trigger] kw::IN@[k]) by {
        assert(k == 1);
    }
    reveal_strlit("matches");
    assert(kw::MATCHES@.len() == 7);
    assert(kw::MATCHES@[0] == 'm');
    assert(kw::MATCHES@[1] == 'a');
    assert(kw::MATCHES@[2] == 't');
    assert(kw::MATCHES@[3] == 'c');
    assert(kw::MATCHES@[4] == 'h');
    assert(kw::MATCHES@[5] == 'e');
    assert(kw::MATCHES@[6] == 's');
    assert forall|k: int| 1 <= k < kw::MATCHES@.len() implies word_char(#[trigger] kw::MATCHES@[k]) by {
        assert(k == 1 || k == 2 || k == 3 || k == 4 || k == 5 || k == 6);
    }
    reveal_strlit("starts_with");
    assert(kw::STARTS_WITH@.len() == 11);
    assert(kw::STARTS_WITH@[0] == 's');
    assert(kw::STARTS_WITH@[1] == 't');
    assert(kw::STARTS_WITH@[2] == 'a');
    assert(kw::STARTS_WITH@[3] == 'r');
    assert(kw::STARTS_WITH@[4] == 't');
    assert(kw::STARTS_WITH@[5] == 's');
    assert(kw::STARTS_WITH@[6] == '_');
    assert(kw::STARTS_WITH@[7] == 'w');
    assert(kw::STARTS_WITH@[8] == 'i');
    assert(kw::STARTS_WITH@[9] == 't');
    assert(kw::STARTS_WITH@[10] == 'h');
    assert forall|k: int| 1 <= k < kw::STARTS_WITH@.len() implies word_char(#[trigger] kw::STARTS_WITH@[k]) by {
        assert(k == 1 || k == 2 || k == 3 || k == 4 || k == 5 || k == 6 || k == 7 || k == 8 || k == 9 || k == 10);
    }
    reveal_strlit("ends_with");
    assert(kw::ENDS_WITH@.len() == 9);
    assert(kw::ENDS_WITH@[0] == 'e');
    assert(kw::ENDS_WITH@[1] == 'n');
    assert(kw::ENDS_WITH@[2] == 'd');
    assert(kw::ENDS_WITH@[3] == 's');
    assert(kw::ENDS_WITH@[4] == '_');
    assert(kw::ENDS_WITH@[5] == 'w');
    assert(kw::ENDS_WITH@[6] == 'i');
    assert(kw::ENDS_WITH@[7] == 't');
    assert(kw::ENDS_WITH@[8] == 'h');
    assert forall|k: int| 1 <= k < kw::ENDS_WITH@.len() implies word_char(#[trigger] kw::ENDS_WITH@[k]) by {
        assert(k == 1 || k == 2 || k == 3 || k == 4 || k == 5 || k == 6 || k == 7 || k == 8);
    }
    reveal_strlit("contains");
    assert(kw::CONTAINS@.len() == 8);
    assert(kw::CONTAINS@[0] == 'c');
    assert(kw::CONTAINS@[1] == 'o');
    assert(kw::CONTAINS@[2] == 'n');
    assert(kw::CONTAINS@[3] == 't');
    assert(kw::CONTAINS@[4] == 'a');
    assert(kw::CONTAINS@[5] == 'i');
    assert(kw::CONTAINS@[6] == 'n');
    assert(kw::CONTAINS@[7] == 's');
    assert forall|k: int| 1 <= k < kw::CONTAINS@.len() implies word_char(#[trigger] kw::CONTAINS@[k]) by {
        assert(k == 1 || k == 2 || k == 3 || k == 4 || k == 5 || k == 6 || k == 7);
    }
}

/// The words that start an expression are words.
pub proof fn starting_idents()
    ensures
        ident_text(kw::TRUE@),
        ident_text(kw::FALSE@),
        ident_text(kw::NULL@),
        ident_text(kw::IF@),
        ident_text(kw::SUM@),
        ident_text(kw::COUNT@),
        ident_text(kw::AVG@),
        ident_text(kw::MIN@),
        ident_text(kw::MAX@),
{
    reveal_strlit("true");
    assert(kw::TRUE@.len() == 4);
    assert(kw::TRUE@[0] == 't');
    assert(kw::TRUE@[1] == 'r');
    assert(kw::TRUE@[2] == 'u');
    assert(kw::TRUE@[3] == 'e');
    assert forall|k: int| 1 <= k < kw::TRUE@.len() implies word_char(#[trigger] kw::TRUE@[k]) by {
        assert(k == 1 || k == 2 || k == 3);
    }
    reveal_strlit("false");
    assert(kw::FALSE@.len() == 5);
    assert(kw::FALSE@[0] == 'f');
    assert(kw::FALSE@[1] == 'a');
    assert(kw::FALSE@[2] == 'l');
    assert(kw::FALSE@[3] == 's');
    assert(kw::FALSE@[4] == 'e');
    assert forall|k: int| 1 <= k < kw::FALSE@.len() implies word_char(#[trigger] kw::FALSE@[k]) by {
        assert(k == 1 || k == 2 || k == 3 || k == 4);
    }
    reveal_strlit("null");
    assert(kw::NULL@.len() == 4);
    assert(kw::NULL@[0] == 'n');
    assert(kw::NULL@[1] == 'u');
    assert(kw::NULL@[2] == 'l');
    assert(kw::NULL@[3] == 'l');
    assert forall|k: int| 1 <= k < kw::NULL@.len() implies word_char(#[trigger] kw::NULL@[k]) by {
        assert(k == 1 || k == 2 || k == 3);
    }
    reveal_strlit("if");
    assert(kw::IF@.len() == 2);
    assert(kw::IF@[0] == 'i');
    assert(kw::IF@[1] == 'f');
    assert forall|k: int| 1 <= k < kw::IF@.len() implies word_char(#[trigger] kw::IF@[k]) by {
        assert(k == 1);
    }
    reveal_strlit("sum");
    assert(kw::SUM@.len() == 3);
    assert(kw::SUM@[0] == 's');
    assert(kw::SUM@[1] == 'u');
    assert(kw::SUM@[2] == 'm');
    assert forall|k: int| 1 <= k < kw::SUM@.len() implies word_char(#[trigger] kw::SUM@[k]) by {
        assert(k == 1 || k == 2);
    }
    reveal_strlit("count");
    assert(kw::COUNT@.len() == 5);
    assert(kw::COUNT@[0] == 'c');
    assert(kw::COUNT@[1] == 'o');
    assert(kw::COUNT@[2] == 'u');
    assert(kw::COUNT@[3] == 'n');
    assert(kw::COUNT@[4] == 't');
    assert forall|k: int| 1 <= k < kw::COUNT@.len() implies word_char(#[trigger] kw::COUNT@[k]) by {
        assert(k == 1 || k == 2 || k == 3 || k == 4);
    }
    reveal_strlit("avg");
    assert(kw::AVG@.len() == 3);
    assert(kw::AVG@[0] == 'a');
    assert(kw::AVG@[1] == 'v');
    assert(kw::AVG@[2] == 'g');
    assert forall|k: int| 1 <= k < kw::AVG@.len() implies word_char(#[trigger] kw::AVG@[k]) by {
        assert(k == 1 || k == 2);
    }
    reveal_strlit("min");
    assert(kw::MIN@.len() == 3);
    assert(kw::MIN@[0] == 'm');
    assert(kw::MIN@[1] == 'i');
    assert(kw::MIN@[2] == 'n');
    assert forall|k: int| 1 <= k < kw::MIN@.len() implies word_char(#[trigger] kw::MIN@[k]) by {
        assert(k == 1 || k == 2);
    }
    reveal_strlit("max");
    assert(kw::MAX@.len() == 3);
    assert(kw::MAX@[0] == 'm');
    assert(kw::MAX@[1] == 'a');
    assert(kw::MAX@[2] == 'x');
    assert forall|k: int| 1 <= k < kw::MAX@.len() implies word_char(#[trigger] kw::MAX@[k]) by {
        assert(k == 1 || k == 2);
    }
}

/// How the joining words are written.
pub proof fn joining_texts()
    ensures
        " in "@ == seq![' '] + kw::IN@ + seq![' '],
        " and "@ == seq![' '] + kw::AND@ + seq![' '],
        " or "@ == seq![' '] + kw::OR@ + seq![' '],
        "not "@ == Seq::<char>::empty() + kw::NOT@ + seq![' '],
        " exists"@ == seq![' '] + kw::EXISTS@ + Seq::<char>::empty(),
        " is "@ == seq![' '] + kw::IS@ + seq![' '],
{
    reveal_strlit(" in ");
    reveal_strlit("in");
    assert(" in "@ =~= seq![' '] + kw::IN@ + seq![' ']);
    reveal_strlit(" and ");
    reveal_strlit("and");
    assert(" and "@ =~= seq![' '] + kw::AND@ + seq![' ']);
    reveal_strlit(" or ");
    reveal_strlit("or");
    assert(" or "@ =~= seq![' '] + kw::OR@ + seq![' ']);
    reveal_strlit("not ");
    reveal_strlit("not");
    assert("not "@ =~= Seq::<char>::empty() + kw::NOT@ + seq![' ']);
    reveal_strlit(" exists");
    reveal_strlit("exists");
    assert(" exists"@ =~= seq![' '] + kw::EXISTS@ + Seq::<char>::empty());
    reveal_strlit(" is ");
    reveal_strlit("is");
    assert(" is "@ =~= seq![' '] + kw::IS@ + seq![' ']);
}

/// How two words are written.
pub proof fn double_texts()
    ensures
        " not in "@ == seq![' '] + kw::NOT@ + seq![' '] + (kw::IN@ + seq![' ']),
        " is not "@ == seq![' '] + kw::IS@ + seq![' '] + (kw::NOT@ + seq![' ']),
        " "@ == seq![' '],
        "("@ == seq!['('],
        ")"@ == seq![')'],
        "["@ == seq!['['],
        "]"@ == seq![']'],
        "."@ == seq!['.'],
        "-"@ == seq!['-'],
        "$"@ == seq!['$'],
        ", "@ == seq![',', ' '],
        "()"@ == seq!['(', ')'],
        "[]"@ == seq!['[', ']'],
        "**"@ == seq!['*', '*'],
        "if("@ == kw::IF@ + seq!['('],
{
    reveal_strlit(" not in ");
    reveal_strlit(" is not ");
    reveal_strlit("not");
    reveal_strlit("in");
    reveal_strlit("is");
    reveal_strlit("if");
    reveal_strlit("if(");
    reveal_strlit(" ");
    reveal_strlit("(");
    reveal_strlit(")");
    reveal_strlit("[");
    reveal_strlit("]");
    reveal_strlit(".");
    reveal_strlit("-");
    reveal_strlit("$");
    reveal_strlit(", ");
    reveal_strlit("()");
    reveal_strlit("[]");
    reveal_strlit("**");
    assert(" not in "@ =~= seq![' '] + kw::NOT@ + seq![' '] + (kw::IN@ + seq![' ']));
    assert(" is not "@ =~= seq![' '] + kw::IS@ + seq![' '] + (kw::NOT@ + seq![' ']));
    assert(" "@ =~= seq![' ']);
    assert("("@ =~= seq!['(']);
    assert(")"@ =~= seq![')']);
    assert("["@ =~= seq!['[']);
    assert("]"@ =~= seq![']']);
    assert("."@ =~= seq!['.']);
    assert("-"@ =~= seq!['-']);
    assert("$"@ =~= seq!['$']);
    assert(", "@ =~= seq![',', ' ']);
    assert("()"@ =~= seq!['(', ')']);
    assert("[]"@ =~= seq!['[', ']']);
    assert("**"@ =~= seq!['*', '*']);
    assert("if("@ =~= kw::IF@ + seq!['(']);
}

/// How comparisons are written.
pub proof fn compare_texts(op: CompareOp)
    ensures
        is_word(op) ==> ident_text(op.symbol()) && compare_tok(op) == Tok::Ident(op.symbol()),
        !is_word(op) ==> long_mark(op.symbol()) == Some(compare_tok(op)),
{
    joining_idents();
    reveal_strlit("==");
    reveal_strlit("!=");
    reveal_strlit("<");
    reveal_strlit("<=");
    reveal_strlit(">");
    reveal_strlit(">=");
    let x = op.symbol();
    match op {
        CompareOp::Eq => {
            assert(x =~= seq!['=', '=']);
        },
        CompareOp::Ne => {
            assert(x =~= seq!['!', '=']);
            assert(x[0] != seq!['=', '='][0]);
        },
        CompareOp::Lt => {
            assert(x =~= seq!['<']);
            assert(x.len() == 1);
        },
        CompareOp::Le => {
            assert(x =~= seq!['<', '=']);
            assert(x[0] == '<');
            assert(seq!['=', '='][0] == '=');
            assert(seq!['!', '='][0] == '!');
            assert(seq!['<'].len() == 1);
        },
        CompareOp::Gt => {
            assert(x =~= seq!['>']);
            assert(x[0] == '>' && seq!['<'][0] == '<');
            assert(x.len() == 1);
        },
        CompareOp::Ge => {
            assert(x =~= seq!['>', '=']);
            assert(x[0] == '>');
            assert(seq!['=', '='][0] == '=');
            assert(seq!['!', '='][0] == '!');
            assert(seq!['<', '='][0] == '<');
            assert(seq!['<'].len() == 1);
            assert(seq!['>'].len() == 1);
        },
        _ => {},
    }
}

pub proof fn binary_texts(op: BinaryOp)
    ensures
        ({
            let x = op.symbol();
            long_mark(x) == Some(binary_tok(op)) || (x.len() == 1 && mark(x[0]) == Some(
                binary_tok(op),
            ))
        }),
{
    reveal_strlit("+");
    reveal_strlit("-");
    reveal_strlit("*");
    reveal_strlit("/");
    let x = op.symbol();
    assert(x.len() == 1);
    match op {
        BinaryOp::Sub => {
            assert(x =~= seq!['-']);
            assert(seq!['<'][0] == '<' && seq!['>'][0] == '>' && seq!['*'][0] == '*' && x[0] == '-');
            assert(seq!['=', '='].len() == 2 && seq!['!', '='].len() == 2 && seq!['<', '='].len()
                == 2 && seq!['>', '='].len() == 2);
        },
        BinaryOp::Mul => {
            assert(x =~= seq!['*']);
            assert(seq!['<'][0] == '<' && seq!['>'][0] == '>' && x[0] == '*');
            assert(seq!['=', '='].len() == 2 && seq!['!', '='].len() == 2 && seq!['<', '='].len()
                == 2 && seq!['>', '='].len() == 2);
        },
        _ => {},
    }
}

/// Escapes go character by character.
pub proof fn quoted_front(x: Seq<char>)
    requires
        x.len() > 0,
    ensures
        json_escaped(x) == json_char(x[0]) + json_escaped(x.drop_first()),
    decreases x.len(),
{
    if x.len() == 1 {
        assert(x.drop_last() =~= Seq::empty());
        assert(x.drop_first() =~= Seq::empty());
        assert(json_escaped(x) =~= json_char(x[0]) + json_escaped(x.drop_first()));
    } else {
        quoted_front(x.drop_last());
        assert(x.drop_last().drop_first() =~= x.drop_first().drop_last());
        assert(json_escaped(x) =~= json_char(x[0]) + json_escaped(x.drop_first()));
    }
}

pub proof fn hex_digits(d: int)
    requires
        0 <= d < 16,
    ensures
        is_hex_char(hex_char(d)),
        hex_char_value(hex_char(d)) == d,
{
    let c = hex_char(d);
    if d < 10 {
        assert(c as u32 == 0x30 + d);
        assert(ascii_digit(c));
    } else {
        assert(c as u32 == 0x57 + d);
        assert('a' <= c <= 'f');
    }
}

/// A quoted name reads back.
#[verifier::spinoff_prover]
pub proof fn quoted_reads_back(s: Seq<char>, i: int, x: Seq<char>, start: int)
    requires
        has(s, i, json_escaped(x)),
        char_at(s, i + json_escaped(x).len(), '"'),
    ensures
        literal_text(s, i, start) == Ok::<(int, Seq<char>), super::super::QueryFault>(
            (i + json_escaped(x).len() + 1, x),
        ),
    decreases x.len(),
{
    if x.len() == 0 {
        assert(x =~= Seq::empty());
    } else {
        quoted_front(x);
        let c = x[0];
        let a = json_char(c);
        let b = json_escaped(x.drop_first());
        has_parts(s, i, a, b);
        quoted_reads_back(s, i + a.len(), x.drop_first(), start);
        assert(s[i + 0] == a[0]);
        if a.len() == 2 {
            assert(s[i + 1] == a[1]);
            assert(letter_escape(a[1]) == Some(c));
        } else if a.len() == 6 {
            assert(s[i + 1] == a[1] && s[i + 2] == a[2] && s[i + 3] == a[3] && s[i + 4] == a[4] && s[i
                + 5] == a[5]);
            reveal_with_fuel(hex_run, 5);
            let u: int = c as int;
            let v: u32 = c as u32;
            vstd::utf8::char_u32_cast(c, v);
            vstd::utf8::char_is_scalar(c);
            assert(v < 0x20);
            assert(v == u);
            assert(0 <= u && u < 0x20);
            assert(0 <= u / 16 && u / 16 < 16);
            hex_digits(c as int / 16);
            hex_digits(c as int % 16);
            assert(a[4] == hex_char(c as int / 16) && a[5] == hex_char(c as int % 16));
            assert(is_hex_char('0') && hex_char_value('0') == 0);
            assert(is_hex_char(a[4]) && is_hex_char(a[5]));
            assert(hex_run(s, i + 2, 4) == i + 6);
            assert(hex4_value(s, i + 2) == c as u32);
            assert(escape_char(hex4_value(s, i + 2)) == c);
        }
        assert(seq![c] + x.drop_first() =~= x);
    }
}

/// A name reads back.
pub proof fn gives_name(s: Seq<char>, i: int, n: Seq<char>, av: bool)
    requires
        has(s, i, name_text(n)),
        is_bare(n) ==> !whitespace(n[0]),
        word_ends(s, i + name_text(n).len()),
    ensures
        gives(s, i, av, seq![name_tok(n)], i + name_text(n).len()),
{
    if is_bare(n) {
        gives_word(s, i, n, av);
    } else {
        reveal_strlit("\"");
        let q = "\""@;
        let inner = json_escaped(n);
        has_parts(s, i, q + inner, q);
        has_parts(s, i, q, inner);
        assert(s[i + 0] == q[0]);
        assert(s[i + 1 + inner.len() + 0] == q[0]);
        quoted_reads_back(s, i + 1, n, i);
        read_one(s, i, av, Tok::Str(n), i + inner.len() + 2);
    }
}

/// A number with its sign.
pub proof fn gives_number(s: Seq<char>, i: int, x: Seq<char>, av: bool)
    requires
        has(s, i, x),
        numeral_text(x) || (x.len() > 0 && x[0] == '-' && numeral_text(x.drop_first()) && !av),
        number_ends(s, i + x.len()),
    ensures
        gives(s, i, av, seq![Tok::Number(x)], i + x.len()),
{
    if numeral_text(x) {
        read_number(s, i, x, av);
    } else {
        super::readback::read_signed_number(s, i, x);
    }
}

/// Digits are a numeral.
pub proof fn digits_numeral(n: nat)
    ensures
        numeral_text(decimal_text(n)),
{
    decimal_digits(n);
    let d = decimal_text(n);
    all_digits(d, 0);
    assert(ascii_digit(d[0]));
}

/// A segment of a path reads back.
#[verifier::spinoff_prover]
pub proof fn gives_seg(s: Seq<char>, i: int, root: PathRootV, g: PathSegV, first: bool, av: bool)
    requires
        regular_seg(g),
        has(s, i, seg_text(root, g, first)),
        word_ends(s, i + seg_text(root, g, first).len()),
    ensures
        gives(s, i, av, seg_toks(root, g, first), i + seg_text(root, g, first).len()),
{
    double_texts();
    let d = seg_dot(root, first);
    let dk = dot_toks(root, first);
    match g {
        PathSegV::Field(n) => {
            has_parts(s, i, d, name_text(n));
            if dk.len() > 0 {
                gives_mark(s, i, '.', av);
            } else {
                assert(d =~= Seq::empty());
                gives_blank(s, i, d, av);
            }
            gives_name(s, i + d.len(), n, value_after(dk, av));
            gives_join(s, i, av, dk, i + d.len(), seq![name_tok(n)], i + d.len() + name_text(n).len());
            assert(dk + seq![name_tok(n)] =~= dk.push(name_tok(n)));
        },
        PathSegV::StarStar => {
            has_parts(s, i, d, "**"@);
            if dk.len() > 0 {
                gives_mark(s, i, '.', av);
            } else {
                assert(d =~= Seq::empty());
                gives_blank(s, i, d, av);
            }
            assert(long_mark(seq!['*', '*']) == Some(Tok::StarStar)) by {
                let x = seq!['*', '*'];
                assert(x.len() == 2 && x[0] == '*');
                assert(seq!['=', '='][0] == '=' && seq!['!', '='][0] == '!' && seq!['<', '='][0]
                    == '<' && seq!['>', '='][0] == '>');
                assert(seq!['<'].len() == 1 && seq!['>'].len() == 1 && seq!['*'].len() == 1
                    && seq!['-'].len() == 1);
            }
            read_long_mark(s, i + d.len(), "**"@, value_after(dk, av));
            gives_join(s, i, av, dk, i + d.len(), seq![Tok::StarStar], i + d.len() + 2);
            assert(dk + seq![Tok::StarStar] =~= dk.push(Tok::StarStar));
        },
        PathSegV::Iterate => {
            assert("[]"@ =~= seq!['['] + seq![']']);
            has_parts(s, i, seq!['['], seq![']']);
            gives_mark(s, i, '[', av);
            gives_mark(s, i + 1, ']', false);
            gives_join(s, i, av, seq![Tok::LBrack], i + 1, seq![Tok::RBrack], i + 2);
            assert(seq![Tok::LBrack] + seq![Tok::RBrack] =~= seq![Tok::LBrack, Tok::RBrack]);
        },
        PathSegV::Index(x) => {
            let n = int_text(x as int);
            has_parts(s, i, "["@ + n, "]"@);
            has_parts(s, i, "["@, n);
            gives_mark(s, i, '[', av);
            let k = i + 1 + n.len();
            assert(s[k + 0] == "]"@[0]);
            if x < 0 {
                let m = (-(x as int)) as nat;
                digits_numeral(m);
                assert(n.drop_first() =~= decimal_text(m));
            } else {
                digits_numeral(x as nat);
            }
            gives_number(s, i + 1, n, false);
            gives_mark(s, k, ']', true);
            gives_join(s, i, av, seq![Tok::LBrack], i + 1, seq![Tok::Number(n)], k);
            gives_join(
                s,
                i,
                av,
                seq![Tok::LBrack] + seq![Tok::Number(n)],
                k,
                seq![Tok::RBrack],
                k + 1,
            );
            assert(seq![Tok::LBrack] + seq![Tok::Number(n)] + seq![Tok::RBrack] =~= seq![
                Tok::LBrack,
                Tok::Number(n),
                Tok::RBrack,
            ]);
        },
        PathSegV::FieldSet(_) => {},
    }
}

/// The first character of a segment ends a word.
pub proof fn seg_cuts(root: PathRootV, g: PathSegV, first: bool)
    requires
        regular_seg(g),
        !(root is Identity && first && !(g is Index || g is Iterate)),
    ensures
        seg_text(root, g, first).len() > 0,
        !word_char(seg_text(root, g, first)[0]),
{
    double_texts();
}

/// A path reads back.
#[verifier::spinoff_prover]
pub proof fn gives_segs(s: Seq<char>, i: int, root: PathRootV, v: Seq<PathSegV>, av: bool)
    requires
        root matches PathRootV::Name(n) ==> ident_text(n),
        forall|k: int| 0 <= k < v.len() ==> regular_seg(#[trigger] v[k]),
        has(s, i, segs_text(root, v)),
        word_ends(s, i + segs_text(root, v).len()) || (v.len() == 0 && root is Identity),
    ensures
        gives(s, i, av, segs_toks(root, v), i + segs_text(root, v).len()),
    decreases v.len(),
{
    double_texts();
    if v.len() == 0 {
        match root {
            PathRootV::Identity => {
                gives_mark(s, i, '.', av);
            },
            PathRootV::Name(n) => {
                gives_word(s, i, n, av);
            },
        }
    } else {
        let less = v.drop_last();
        let g = v.last();
        let first = v.len() == 1;
        let a = segs_text(root, less);
        let b = seg_text(root, g, first);
        assert(segs_text(root, v) == a + b);
        has_parts(s, i, a, b);
        assert forall|k: int| 0 <= k < less.len() implies regular_seg(#[trigger] less[k]) by {
            assert(less[k] == v[k]);
        }
        assert(regular_seg(v[v.len() - 1]));
        if less.len() == 0 && root is Identity {
        } else {
            seg_cuts(root, g, first);
            assert(s[i + a.len() + 0] == b[0]);
        }
        gives_segs(s, i, root, less, av);
        gives_seg(s, i + a.len(), root, g, first, value_after(segs_toks(root, less), av));
        gives_join(
            s,
            i,
            av,
            segs_toks(root, less),
            i + a.len(),
            seg_toks(root, g, first),
            i + a.len() + b.len(),
        );
    }
}

pub proof fn gives_path(s: Seq<char>, i: int, p: PathExprV, av: bool)
    requires
        regular_path(p),
        has(s, i, path_text(p)),
        cut(s, i + path_text(p).len()),
    ensures
        gives(s, i, av, path_toks(p), i + path_text(p).len()),
{
    gives_segs(s, i, p.root, p.segments, av);
}

} // verus!
