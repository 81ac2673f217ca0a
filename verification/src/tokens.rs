//! A plain model of token trees, as the derive macros read them.

use vstd::prelude::*;
use vstd::string::*;

verus! {

/// Delimiter of a group of tokens.
#[derive(Debug, Clone, Copy, PartialEq, Eq, Structural)]
pub enum Delimiter {
    /// `( ... )`
    Parenthesis,
    /// `{ ... }`
    Brace,
    /// `[ ... ]`
    Bracket,
    /// An invisible delimiter.
    Invisible,
}

/// Whether a punctuation character is immediately followed by another one.
#[derive(Debug, Clone, Copy, PartialEq, Eq, Structural)]
pub enum Spacing {
    /// Followed by whitespace or a non-punctuation token.
    Alone,
    /// Immediately followed by another punctuation character.
    Joint,
}

/// A single token tree: a delimited group, an identifier, a punctuation
/// character or a literal.
#[derive(Debug)]
pub enum TokenTree {
    /// A delimited group with its inner token trees.
    Group(Delimiter, Vec<TokenTree>),
    /// An identifier (or keyword), by its text.
    Ident(String),
    /// A punctuation character with its spacing.
    Punct(char, Spacing),
    /// A literal, by its text; `is_str` tells whether it is a string literal.
    Literal(String, bool),
}

/// `t` is the punctuation character `c`.
pub open spec fn is_punct(t: TokenTree, c: char) -> bool {
    t matches TokenTree::Punct(p, _) && p == c
}

/// `t` is the punctuation character `c`, joint with the next one.
pub open spec fn is_joint_punct(t: TokenTree, c: char) -> bool {
    t matches TokenTree::Punct(p, s) && p == c && s == Spacing::Joint
}

/// `tokens[pos]` exists and is the punctuation character `c`.
pub open spec fn punct_at(tokens: Seq<TokenTree>, pos: int, c: char) -> bool {
    0 <= pos < tokens.len() && is_punct(tokens[pos], c)
}

/// Checks whether `tokens[pos]` is the punctuation character `c`.
pub fn is_punct_at(tokens: &Vec<TokenTree>, pos: usize, c: char) -> (r: bool)
    ensures
        r == punct_at(tokens@, pos as int, c),
{
    if pos < tokens.len() {
        match &tokens[pos] {
            TokenTree::Punct(p, _) => *p == c,
            _ => false,
        }
    } else {
        false
    }
}

/// The text that opens a group with delimiter `d`.
pub open spec fn open_text(d: Delimiter) -> Seq<char> {
    match d {
        Delimiter::Parenthesis => seq!['('],
        Delimiter::Brace => seq!['{'],
        Delimiter::Bracket => seq!['['],
        Delimiter::Invisible => seq![' '],
    }
}

/// The text that closes a group with delimiter `d`.
pub open spec fn close_text(d: Delimiter) -> Seq<char> {
    match d {
        Delimiter::Parenthesis => seq![')', ' '],
        Delimiter::Brace => seq!['}', ' '],
        Delimiter::Bracket => seq![']', ' '],
        Delimiter::Invisible => seq![' '],
    }
}

/// The source text of a token tree, which the Rust lexer reads back as the
/// same tree: a space after each identifier, literal, group and lone
/// punctuation character, none after a joint one.
pub open spec fn tree_text(t: TokenTree) -> Seq<char>
    decreases t,
{
    match t {
        TokenTree::Group(d, inner) => open_text(d) + seq_text(inner@) + close_text(d),
        TokenTree::Ident(s) => s@ + seq![' '],
        TokenTree::Punct(c, Spacing::Joint) => seq![c],
        TokenTree::Punct(c, Spacing::Alone) => seq![c, ' '],
        TokenTree::Literal(s, _) => s@ + seq![' '],
    }
}

/// The source text of a sequence of token trees, one after another.
pub open spec fn seq_text(s: Seq<TokenTree>) -> Seq<char>
    decreases s,
{
    if s.len() == 0 {
        Seq::empty()
    } else {
        seq_text(s.subrange(0, s.len() - 1)) + tree_text(s[s.len() - 1])
    }
}

/// Appends the characters of `s`.
fn push_chars(s: &str, out: &mut Vec<char>)
    ensures
        final(out)@ == old(out)@ + s@,
{
    let n = s.unicode_len();
    let mut i: usize = 0;
    while i < n
        invariant
            n == s@.len(),
            i <= n,
            out@ == old(out)@ + s@.subrange(0, i as int),
        decreases n - i,
    {
        out.push(s.get_char(i));
        proof {
            assert(s@.subrange(0, i + 1) =~= s@.subrange(0, i as int).push(s@[i as int]));
        }
        i = i + 1;
    }
    assert(s@.subrange(0, n as int) =~= s@);
}

/// Appends the source text of the token trees `start..end`.
pub fn push_text(tokens: &Vec<TokenTree>, start: usize, end: usize, out: &mut Vec<char>)
    requires
        start <= end <= tokens.len(),
    ensures
        final(out)@ == old(out)@ + seq_text(tokens@.subrange(start as int, end as int)),
    decreases tokens@,
{
    let mut i: usize = start;
    while i < end
        invariant
            start <= i <= end <= tokens.len(),
            out@ == old(out)@ + seq_text(tokens@.subrange(start as int, i as int)),
        decreases end - i,
    {
        let ghost before = out@;
        match &tokens[i] {
            TokenTree::Group(d, inner) => {
                match d {
                    Delimiter::Parenthesis => out.push('('),
                    Delimiter::Brace => out.push('{'),
                    Delimiter::Bracket => out.push('['),
                    Delimiter::Invisible => out.push(' '),
                }
                assert(decreases_to!(tokens@ => tokens@[i as int]));
                let ghost mid = out@;
                push_text(inner, 0, inner.len(), out);
                assert(inner@.subrange(0, inner@.len() as int) =~= inner@);
                match d {
                    Delimiter::Parenthesis => out.push(')'),
                    Delimiter::Brace => out.push('}'),
                    Delimiter::Bracket => out.push(']'),
                    Delimiter::Invisible => {},
                }
                out.push(' ');
            },
            TokenTree::Ident(s) => {
                push_chars(s.as_str(), out);
                out.push(' ');
            },
            TokenTree::Punct(c, sp) => {
                out.push(*c);
                if *sp == Spacing::Alone {
                    out.push(' ');
                }
            },
            TokenTree::Literal(s, _) => {
                push_chars(s.as_str(), out);
                out.push(' ');
            },
        }
        proof {
            let next = tokens@.subrange(start as int, i + 1);
            assert(next.subrange(0, next.len() - 1) =~= tokens@.subrange(start as int, i as int));
            assert(next[next.len() - 1] == tokens@[i as int]);
            assert(out@ =~= before + tree_text(tokens@[i as int]));
        }
        i = i + 1;
    }
}

} // verus!
