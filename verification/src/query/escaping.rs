//! Decoding a JSON string undoes its escaping.
use vstd::prelude::*;

use super::value::{
    code_text, escape_char, hex_code, pair_at, sequence_len, text_of, unescaped, unquoted,
};
use crate::text::{json_char, json_escaped};

verus! {

proof fn encoded_concat(a: Seq<char>, b: Seq<char>)
    ensures
        vstd::utf8::encode_utf8(a + b) == vstd::utf8::encode_utf8(a) + vstd::utf8::encode_utf8(b),
    decreases a.len(),
{
    if a.len() == 0 {
        assert(a + b =~= b);
        assert(vstd::utf8::encode_utf8(a) + vstd::utf8::encode_utf8(b) =~= vstd::utf8::encode_utf8(
            b,
        ));
    } else {
        assert((a + b).drop_first() =~= a.drop_first() + b);
        encoded_concat(a.drop_first(), b);
        assert(vstd::utf8::encode_utf8(a + b) =~= vstd::utf8::encode_utf8(a)
            + vstd::utf8::encode_utf8(b));
    }
}

/// Escaping goes character by character.
proof fn escaped_front(t: Seq<char>)
    requires
        t.len() > 0,
    ensures
        json_escaped(t) == json_char(t[0]) + json_escaped(t.drop_first()),
    decreases t.len(),
{
    if t.len() == 1 {
        assert(t.drop_last() =~= Seq::empty());
        assert(t.drop_first() =~= Seq::empty());
        assert(json_escaped(t) =~= json_char(t[0]) + json_escaped(t.drop_first()));
    } else {
        escaped_front(t.drop_last());
        assert(t.drop_last().drop_first() =~= t.drop_first().drop_last());
        assert(json_escaped(t) =~= json_char(t[0]) + json_escaped(t.drop_first()));
    }
}

/// The bytes of ASCII characters.
proof fn ascii_bytes(w: Seq<char>)
    requires
        forall|i: int| 0 <= i < w.len() ==> (#[trigger] w[i] as u32) < 0x80,
    ensures
        vstd::utf8::encode_utf8(w).len() == w.len(),
        forall|i: int|
            0 <= i < w.len() ==> (#[trigger] vstd::utf8::encode_utf8(w)[i]) as u32 == w[i] as u32,
    decreases w.len(),
{
    if w.len() > 0 {
        let c = w[0] as u32;
        assert(c < 0x80 ==> ((c & 0x7F) as u8) as u32 == c) by (bit_vector);
        ascii_bytes(w.drop_first());
        let rest = vstd::utf8::encode_utf8(w.drop_first());
        let all = vstd::utf8::encode_utf8(w);
        assert(all == vstd::utf8::encode_scalar(c) + rest);
        assert forall|i: int| 0 <= i < w.len() implies (#[trigger] all[i]) as u32 == w[i] as u32 by {
            if i > 0 {
                assert(all[i] == rest[i - 1]);
                assert(w[i] == w.drop_first()[i - 1]);
            }
        }
    }
}

/// The bytes of one character are one UTF-8 sequence, which reads back.
proof fn one_character(c: char)
    ensures
        ({
            let w = vstd::utf8::encode_utf8(seq![c]);
            &&& w.len() > 0
            &&& sequence_len(w[0]) == w.len()
            &&& c != '\\' ==> w[0] != 0x5C
            &&& text_of(w) == seq![c]
        }),
{
    let one = seq![c];
    let w = vstd::utf8::encode_utf8(one);
    vstd::utf8::encode_utf8_first_scalar(one);
    vstd::utf8::encode_utf8_valid_utf8(one);
    vstd::utf8::encode_utf8_decode_utf8(one);
    let none = one.drop_first();
    assert(none.len() == 0);
    assert(vstd::utf8::encode_utf8(none) =~= Seq::<u8>::empty());
    assert(w == vstd::utf8::encode_scalar(c as u32) + vstd::utf8::encode_utf8(none));
    assert(w =~= vstd::utf8::encode_scalar(c as u32));
    if (c as u32) < 0x80 {
        ascii_bytes(one);
    }
}

/// One escaped character at position `i` reads back.
#[verifier::spinoff_prover]
proof fn character_reads_back(s: Seq<u8>, i: int, c: char)
    requires
        ({
            let w = vstd::utf8::encode_utf8(json_char(c));
            &&& 0 <= i
            &&& i + w.len() <= s.len()
            &&& s.subrange(i, i + w.len()) == w
        }),
    ensures
        unescaped(s, i) == seq![c] + unescaped(
            s,
            i + vstd::utf8::encode_utf8(json_char(c)).len(),
        ),
{
    let e = json_char(c);
    let w = vstd::utf8::encode_utf8(e);
    assert(forall|k: int| 0 <= k < w.len() ==> s[i + k] == #[trigger] w[k]);
    if e.len() > 1 {
        assert forall|k: int| 0 <= k < e.len() implies (#[trigger] e[k] as u32) < 0x80 by {}
        ascii_bytes(e);
        assert(w[0] as u32 == e[0] as u32 && w[1] as u32 == e[1] as u32);
        assert(s[i] == w[0] && s[i + 1] == w[1]);
        if e.len() > 2 {
            assert(w[2] as u32 == e[2] as u32 && w[3] as u32 == e[3] as u32 && w[4] as u32
                == e[4] as u32 && w[5] as u32 == e[5] as u32);
            assert(s[i + 2] == w[2] && s[i + 3] == w[3] && s[i + 4] == w[4] && s[i + 5] == w[5]);
            assert(hex_code(s, i + 2) == Some(c as int));
            assert(!pair_at(s, i));
            assert(code_text(c as int) =~= seq![c]);
        } else {
            assert(escape_char(s[i + 1]) == c);
        }
    } else {
        assert(e =~= seq![c]);
        one_character(c);
        assert(s[i] == w[0]);
        let end = if i + sequence_len(s[i]) < s.len() {
            i + sequence_len(s[i])
        } else {
            s.len() as int
        };
        assert(end == i + w.len());
    }
}

/// The escaped characters behind `front` read back.
proof fn characters_read_back(front: Seq<u8>, t: Seq<char>)
    ensures
        unescaped(front + vstd::utf8::encode_utf8(json_escaped(t)), front.len() as int) == t,
    decreases t.len(),
{
    let s = front + vstd::utf8::encode_utf8(json_escaped(t));
    if t.len() == 0 {
        assert(unescaped(s, front.len() as int) =~= t);
    } else {
        let w = vstd::utf8::encode_utf8(json_char(t[0]));
        let rest = t.drop_first();
        escaped_front(t);
        encoded_concat(json_char(t[0]), json_escaped(rest));
        assert(s =~= (front + w) + vstd::utf8::encode_utf8(json_escaped(rest)));
        assert(s.subrange(front.len() as int, (front.len() + w.len()) as int) =~= w);
        characters_read_back(front + w, rest);
        character_reads_back(s, front.len() as int, t[0]);
        assert(seq![t[0]] + rest =~= t);
    }
}

/// Decoding the JSON string of a text gives the text back.
pub proof fn escaping_reads_back(t: Seq<char>)
    ensures
        unquoted(vstd::utf8::encode_utf8(seq!['"'] + json_escaped(t) + seq!['"'])) == t,
{
    let inner = vstd::utf8::encode_utf8(json_escaped(t));
    let quote = vstd::utf8::encode_utf8(seq!['"']);
    ascii_bytes(seq!['"']);
    encoded_concat(seq!['"'] + json_escaped(t), seq!['"']);
    encoded_concat(seq!['"'], json_escaped(t));
    let b = vstd::utf8::encode_utf8(seq!['"'] + json_escaped(t) + seq!['"']);
    assert(b == quote + inner + quote);
    assert(quote[0] as u32 == '"' as u32);
    assert(b[0] == quote[0]);
    assert(b.subrange(1, b.len() - 1) =~= Seq::<u8>::empty() + inner);
    characters_read_back(Seq::empty(), t);
}

} // verus!
