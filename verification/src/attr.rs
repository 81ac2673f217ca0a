//! The token grammar of the simple attribute arguments: a single word
//! (`#[name(skip)]`), and a list of words separated by `,`
//! (`#[name(owned, ref)]`).

use vstd::prelude::*;

use crate::fmt::{ident_at, ident_text};
use crate::text::{text_is, views};
use crate::tokens::{is_punct_at, punct_at, TokenTree};

verus! {

/// The word that the tokens are, where they are a single identifier.
pub open spec fn spec_single_word(s: Seq<TokenTree>) -> Option<Seq<char>> {
    if s.len() == 1 && ident_at(s, 0) {
        Some(ident_text(s[0]))
    } else {
        None
    }
}

/// Reads the tokens as a single identifier.
pub fn single_word(tokens: &Vec<TokenTree>) -> (r: Option<String>)
    ensures
        match r {
            Some(w) => spec_single_word(tokens@) == Some(w@),
            None => spec_single_word(tokens@) is None,
        },
{
    if tokens.len() == 1 {
        if let TokenTree::Ident(i) = &tokens[0] {
            return Some(i.clone());
        }
    }
    None
}

/// Whether the tokens are the word `skip` or `ignore`.
pub open spec fn spec_is_skip(s: Seq<TokenTree>) -> bool {
    spec_single_word(s) == Some("skip"@) || spec_single_word(s) == Some("ignore"@)
}

/// Checks whether the tokens are the word `skip` or `ignore`.
pub fn is_skip_word(tokens: &Vec<TokenTree>) -> (r: bool)
    ensures
        r == spec_is_skip(tokens@),
{
    match single_word(tokens) {
        Some(w) => text_is(&w, "skip") || text_is(&w, "ignore"),
        None => false,
    }
}

/// The words from `pos` on: identifiers separated by `,`, with an optional
/// `,` at the end; `None` where the tokens are anything else.
pub open spec fn spec_words_from(s: Seq<TokenTree>, pos: int) -> Option<Seq<Seq<char>>>
    decreases s.len() - pos,
{
    if !(0 <= pos < s.len()) {
        Some(Seq::empty())
    } else if !ident_at(s, pos) {
        None
    } else if pos + 1 == s.len() {
        Some(seq![ident_text(s[pos])])
    } else if punct_at(s, pos + 1, ',') {
        match spec_words_from(s, pos + 2) {
            Some(rest) => Some(seq![ident_text(s[pos])] + rest),
            None => None,
        }
    } else {
        None
    }
}

/// The single-word forms by their tokens: tokens are the word `x` exactly
/// where they are one identifier whose text is `x`; and they are a skip word
/// exactly where that identifier is `skip` or `ignore`, either one.
pub proof fn lemma_words_by_tokens(s: Seq<TokenTree>, x: Seq<char>)
    ensures
        spec_single_word(s) == Some(x) <==> (s.len() == 1 && (s[0] matches TokenTree::Ident(w)
            && w@ == x)),
        spec_is_skip(s) <==> (s.len() == 1 && (s[0] matches TokenTree::Ident(w) && (w@ == "skip"@
            || w@ == "ignore"@))),
{
}

/// Reads the tokens as words separated by `,`.
pub fn words(tokens: &Vec<TokenTree>) -> (r: Option<Vec<String>>)
    ensures
        match r {
            Some(v) => spec_words_from(tokens@, 0) == Some(views(v@)),
            None => spec_words_from(tokens@, 0) is None,
        },
{
    let mut out: Vec<String> = Vec::new();
    let mut pos: usize = 0;
    loop
        invariant
            pos <= tokens.len(),
            spec_words_from(tokens@, 0) == match spec_words_from(tokens@, pos as int) {
                Some(rest) => Some(views(out@) + rest),
                None => None,
            },
        decreases tokens.len() - pos,
    {
        if pos >= tokens.len() {
            assert(views(out@) + Seq::<Seq<char>>::empty() =~= views(out@));
            return Some(out);
        }
        let w = match &tokens[pos] {
            TokenTree::Ident(i) => i.clone(),
            _ => {
                return None;
            },
        };
        let ghost before = views(out@);
        out.push(w);
        assert(views(out@) =~= before.push(out@.last()@));
        if pos + 1 == tokens.len() {
            assert(before + seq![out@.last()@] =~= views(out@));
            return Some(out);
        }
        if !is_punct_at(tokens, pos + 1, ',') {
            return None;
        }
        proof {
            match spec_words_from(tokens@, pos + 2) {
                Some(rest) => {
                    assert(before + (seq![out@.last()@] + rest) =~= views(out@) + rest);
                },
                None => {},
            }
        }
        pos = pos + 2;
    }
}

} // verus!
