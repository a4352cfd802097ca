//! Character-level facts shared by the source unit and the tokenizer:
//! UTF-8 widths, newline counts and the character classes of the lexer.
use vstd::prelude::*;
use vstd::utf8::{encode_scalar, encode_utf8, char_is_scalar};

verus! {

/// Number of bytes that `c` takes in UTF-8.
pub open spec fn char_width(c: char) -> nat {
    encode_scalar(c as u32).len()
}

/// Number of bytes that `cs` takes in UTF-8.
pub open spec fn byte_len(cs: Seq<char>) -> nat {
    encode_utf8(cs).len()
}

/// Number of `'\n'` characters in `cs`.
pub open spec fn count_newlines(cs: Seq<char>) -> nat
    decreases cs.len(),
{
    if cs.len() == 0 {
        0
    } else {
        count_newlines(cs.drop_last()) + if cs.last() == '\n' { 1nat } else { 0nat }
    }
}

pub open spec fn is_ws(c: char) -> bool {
    c == ' ' || c == '\t' || c == '\n' || c == '\x0C' || c == '\r'
}

pub open spec fn is_alpha(c: char) -> bool {
    ('a' <= c && c <= 'z') || ('A' <= c && c <= 'Z')
}

pub open spec fn is_digit(c: char) -> bool {
    '0' <= c && c <= '9'
}

pub open spec fn is_binop(c: char) -> bool {
    c == '+' || c == '-' || c == '*' || c == '/'
}

pub open spec fn is_left(c: char) -> bool {
    c == '(' || c == '[' || c == '{'
}

pub open spec fn is_right(c: char) -> bool {
    c == ')' || c == ']' || c == '}'
}

pub fn ascii_whitespace(c: char) -> (r: bool)
    ensures
        r == is_ws(c),
{
    c == ' ' || c == '\t' || c == '\n' || c == '\x0C' || c == '\r'
}

pub fn ascii_alphabetic(c: char) -> (r: bool)
    ensures
        r == is_alpha(c),
{
    ('a' <= c && c <= 'z') || ('A' <= c && c <= 'Z')
}

pub fn ascii_digit(c: char) -> (r: bool)
    ensures
        r == is_digit(c),
{
    '0' <= c && c <= '9'
}

/// The UTF-8 width of a character, from its scalar value.
pub fn utf8_width(c: char) -> (r: usize)
    ensures
        r as nat == char_width(c),
        1 <= r <= 4,
        is_ws(c) || is_alpha(c) || is_digit(c) || is_binop(c) || is_left(c) || is_right(c)
            || c == '#' ==> r == 1,
{
    proof {
        char_is_scalar(c);
    }
    let v = c as u32;
    if v <= 0x7F {
        1
    } else if v <= 0x7FF {
        2
    } else if v <= 0xFFFF {
        3
    } else {
        4
    }
}

pub proof fn lemma_encode_concat(a: Seq<char>, b: Seq<char>)
    ensures
        encode_utf8(a + b) == encode_utf8(a) + encode_utf8(b),
    decreases a.len(),
{
    if a.len() == 0 {
        assert(a + b =~= b);
        assert(encode_utf8(a) + encode_utf8(b) =~= encode_utf8(b));
    } else {
        assert((a + b).drop_first() =~= a.drop_first() + b);
        lemma_encode_concat(a.drop_first(), b);
        assert(encode_utf8(a + b) =~= encode_utf8(a) + encode_utf8(b));
    }
}

/// Bytes of a prefix extended by one character.
pub proof fn lemma_byte_len_step(cs: Seq<char>, i: int)
    requires
        0 <= i < cs.len(),
    ensures
        byte_len(cs.subrange(0, i + 1)) == byte_len(cs.subrange(0, i)) + char_width(cs[i]),
{
    let p = cs.subrange(0, i);
    assert(cs.subrange(0, i + 1) =~= p + seq![cs[i]]);
    lemma_encode_concat(p, seq![cs[i]]);
    let one = seq![cs[i]];
    assert(one.drop_first() =~= Seq::<char>::empty());
    assert(encode_utf8(one.drop_first()) =~= Seq::<u8>::empty());
    assert(encode_utf8(one) =~= encode_scalar(cs[i] as u32));
}

/// A prefix takes no more bytes than the whole.
pub proof fn lemma_byte_len_prefix(cs: Seq<char>, i: int)
    requires
        0 <= i <= cs.len(),
    ensures
        byte_len(cs.subrange(0, i)) <= byte_len(cs),
        byte_len(cs.subrange(0, i)) >= i,
    decreases i,
{
    if i > 0 {
        lemma_byte_len_prefix(cs, i - 1);
        lemma_byte_len_step(cs, i - 1);
        char_is_scalar(cs[i - 1]);
    }
    let p = cs.subrange(0, i);
    let q = cs.subrange(i, cs.len() as int);
    assert(cs =~= p + q);
    lemma_encode_concat(p, q);
}

pub proof fn lemma_newlines_step(cs: Seq<char>, i: int)
    requires
        0 <= i < cs.len(),
    ensures
        count_newlines(cs.subrange(0, i + 1)) == count_newlines(cs.subrange(0, i)) + if cs[i]
            == '\n' {
            1nat
        } else {
            0nat
        },
{
    assert(cs.subrange(0, i + 1).drop_last() =~= cs.subrange(0, i));
}

/// A prefix holds no more newlines than the whole.
pub proof fn lemma_newlines_prefix(cs: Seq<char>, i: int)
    requires
        0 <= i <= cs.len(),
    ensures
        count_newlines(cs.subrange(0, i)) <= count_newlines(cs),
    decreases cs.len() - i,
{
    if i < cs.len() {
        lemma_newlines_step(cs, i);
        lemma_newlines_prefix(cs, i + 1);
    } else {
        assert(cs.subrange(0, i) =~= cs);
    }
}

} // verus!
