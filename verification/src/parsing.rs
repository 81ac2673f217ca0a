//! Token-level parsing combinators, and the parsing of types by where they
//! begin and end (without understanding their full syntax).
//!
//! A parser reads token trees at one nesting level, from a position, and
//! either fails or consumes the tokens up to a new position: what it parsed
//! is exactly the consumed run of tokens, `tokens[pos..end]`.

use vstd::prelude::*;

use crate::tokens::{is_punct, is_punct_at, punct_at, Delimiter, TokenTree};

verus! {

/// A composable parser over one level of token trees.
#[derive(Debug)]
pub enum Parser {
    /// A single punctuation character.
    Punct(char),
    /// Any single token tree.
    TokenTree,
    /// `open`, then everything up to the matching `close`, counting nested
    /// `open`s and `close`s.
    BalancedPair(Box<Parser>, Box<Parser>),
    /// The first of the two parsers that succeeds.
    Alt(Box<Parser>, Box<Parser>),
    /// The first parser, repeatedly, while the second does not match; at least
    /// once.
    TakeUntil1(Box<Parser>, Box<Parser>),
}

/// A run of tokens `start..end` at one nesting level.
#[derive(Debug, Clone, Copy, PartialEq, Eq, Structural)]
pub struct TokenRange {
    pub start: usize,
    pub end: usize,
}

/// An optional position, as a mathematical integer.
pub open spec fn opt_int(r: Option<usize>) -> Option<int> {
    match r {
        Some(q) => Some(q as int),
        None => None,
    }
}

/// A result of parsing at `pos` that, when present, lies after `pos` and
/// within the tokens.
pub open spec fn advances(r: Option<int>, s: Seq<TokenTree>, pos: int) -> bool {
    r matches Some(q) ==> pos < q <= s.len()
}

/// What parser `p` does on the tokens `s` at position `pos`: the position
/// after the tokens it consumes, or `None` when it fails.
pub open spec fn spec_apply(p: Parser, s: Seq<TokenTree>, pos: int) -> Option<int>
    decreases p, s.len() - pos, 1int,
{
    match p {
        Parser::Punct(c) => if punct_at(s, pos, c) {
            Some(pos + 1)
        } else {
            None
        },
        Parser::TokenTree => if 0 <= pos < s.len() {
            Some(pos + 1)
        } else {
            None
        },
        Parser::BalancedPair(open, _) => match spec_apply(*open, s, pos) {
            Some(q) => if pos < q <= s.len() {
                balanced_loop(p, s, q, 1)
            } else {
                None
            },
            None => None,
        },
        Parser::Alt(first, second) => match spec_apply(*first, s, pos) {
            Some(q) => Some(q),
            None => spec_apply(*second, s, pos),
        },
        Parser::TakeUntil1(_, _) => take_loop(p, s, pos, false),
    }
}

/// The rest of a balanced pair `p`, from `pos`, with `count` openings still
/// unclosed.
pub open spec fn balanced_loop(p: Parser, s: Seq<TokenTree>, pos: int, count: nat) -> Option<
    int,
>
    decreases p, s.len() - pos, 0int,
{
    if count == 0 {
        Some(pos)
    } else {
        match p {
            Parser::BalancedPair(open, close) => {
                let step: Option<(int, nat)> = match spec_apply(*close, s, pos) {
                    Some(q) => Some((q, (count - 1) as nat)),
                    None => match spec_apply(*open, s, pos) {
                        Some(q) => Some((q, count + 1)),
                        None => if 0 <= pos < s.len() {
                            Some((pos + 1, count))
                        } else {
                            None
                        },
                    },
                };
                match step {
                    Some((q, k)) => if pos < q <= s.len() {
                        balanced_loop(p, s, q, k)
                    } else {
                        None
                    },
                    None => None,
                }
            },
            _ => None,
        }
    }
}

/// The rest of a `take_until1` parser `p`, from `pos`; `parsed` tells whether
/// the repeated parser has succeeded at least once.
pub open spec fn take_loop(p: Parser, s: Seq<TokenTree>, pos: int, parsed: bool) -> Option<int>
    decreases p, s.len() - pos, 0int,
{
    match p {
        Parser::TakeUntil1(parser, until) => {
            if !(0 <= pos < s.len()) || spec_apply(*until, s, pos) is Some {
                if parsed {
                    Some(pos)
                } else {
                    None
                }
            } else {
                match spec_apply(*parser, s, pos) {
                    Some(q) => if pos < q <= s.len() {
                        take_loop(p, s, q, true)
                    } else {
                        None
                    },
                    None => None,
                }
            }
        },
        _ => None,
    }
}

proof fn lemma_balanced_loop_bounds(p: Parser, s: Seq<TokenTree>, pos: int, count: nat)
    requires
        0 <= pos <= s.len(),
    ensures
        balanced_loop(p, s, pos, count) matches Some(q) ==> pos <= q <= s.len(),
    decreases s.len() - pos,
{
    if count != 0 {
        if let Parser::BalancedPair(open, close) = p {
            let step: Option<(int, nat)> = match spec_apply(*close, s, pos) {
                Some(q) => Some((q, (count - 1) as nat)),
                None => match spec_apply(*open, s, pos) {
                    Some(q) => Some((q, count + 1)),
                    None => if 0 <= pos < s.len() {
                        Some((pos + 1, count))
                    } else {
                        None
                    },
                },
            };
            if let Some((q, k)) = step {
                if pos < q <= s.len() {
                    lemma_balanced_loop_bounds(p, s, q, k);
                }
            }
        }
    }
}

proof fn lemma_take_loop_bounds(p: Parser, s: Seq<TokenTree>, pos: int, parsed: bool)
    requires
        0 <= pos <= s.len(),
    ensures
        take_loop(p, s, pos, parsed) matches Some(q) ==> pos <= q <= s.len() && (!parsed
            ==> pos < q),
    decreases s.len() - pos,
{
    if let Parser::TakeUntil1(parser, until) = p {
        if 0 <= pos < s.len() && spec_apply(*until, s, pos) is None {
            if let Some(q) = spec_apply(*parser, s, pos) {
                if pos < q <= s.len() {
                    lemma_take_loop_bounds(p, s, q, true);
                }
            }
        }
    }
}

/// Every parser that succeeds consumes at least one token, and never more
/// than there are.
pub proof fn lemma_apply_advances(p: Parser, s: Seq<TokenTree>, pos: int)
    requires
        0 <= pos <= s.len(),
    ensures
        advances(spec_apply(p, s, pos), s, pos),
    decreases p,
{
    match p {
        Parser::BalancedPair(open, _) => {
            if let Some(q) = spec_apply(*open, s, pos) {
                if pos < q <= s.len() {
                    lemma_balanced_loop_bounds(p, s, q, 1);
                }
            }
        },
        Parser::Alt(first, second) => {
            lemma_apply_advances(*first, s, pos);
            lemma_apply_advances(*second, s, pos);
        },
        Parser::TakeUntil1(_, _) => {
            lemma_take_loop_bounds(p, s, pos, false);
        },
        _ => {},
    }
}

/// Parses any single token tree at `pos`.
pub fn token_tree(tokens: &Vec<TokenTree>, pos: usize) -> (r: Option<usize>)
    requires
        pos <= tokens.len(),
    ensures
        opt_int(r) == spec_apply(Parser::TokenTree, tokens@, pos as int),
{
    if pos < tokens.len() {
        Some(pos + 1)
    } else {
        None
    }
}

/// A parser of the punctuation character `p`.
pub fn punct(p: char) -> (r: Parser)
    ensures
        r == Parser::Punct(p),
{
    Parser::Punct(p)
}

/// A parser of `open`, then everything up to the balancing `close` (or
/// failure at the end of the tokens).
pub fn balanced_pair(open: Parser, close: Parser) -> (r: Parser)
    ensures
        r == Parser::BalancedPair(Box::new(open), Box::new(close)),
{
    Parser::BalancedPair(Box::new(open), Box::new(close))
}

/// A parser that tries `first`, and `second` where `first` fails.
pub fn alt(first: Parser, second: Parser) -> (r: Parser)
    ensures
        r == Parser::Alt(Box::new(first), Box::new(second)),
{
    Parser::Alt(Box::new(first), Box::new(second))
}

/// A parser that repeats `parser` while `until` fails and input remains; it
/// fails where `until` matches at once or `parser` never succeeds, and does
/// not consume what `until` matched.
pub fn take_until1(parser: Parser, until: Parser) -> (r: Parser)
    ensures
        r == Parser::TakeUntil1(Box::new(parser), Box::new(until)),
{
    Parser::TakeUntil1(Box::new(parser), Box::new(until))
}

impl Parser {
    /// Runs this parser on `tokens` at `pos`: the position after what it
    /// consumed, or `None` where it fails.
    pub fn apply(&self, tokens: &Vec<TokenTree>, pos: usize) -> (r: Option<usize>)
        requires
            pos <= tokens.len(),
        ensures
            opt_int(r) == spec_apply(*self, tokens@, pos as int),
            advances(opt_int(r), tokens@, pos as int),
        decreases *self,
    {
        proof {
            lemma_apply_advances(*self, tokens@, pos as int);
        }
        match self {
            Parser::Punct(c) => {
                if is_punct_at(tokens, pos, *c) {
                    Some(pos + 1)
                } else {
                    None
                }
            },
            Parser::TokenTree => token_tree(tokens, pos),
            Parser::BalancedPair(open, close) => {
                let first = open.apply(tokens, pos);
                match first {
                    None => None,
                    Some(q) => {
                        let mut cur = q;
                        let mut count: usize = 1;
                        while count != 0
                            invariant
                                pos < cur <= tokens.len(),
                                1 <= cur - pos,
                                count <= cur - pos,
                                *self == Parser::BalancedPair(*open, *close),
                                balanced_loop(*self, tokens@, cur as int, count as nat)
                                    == spec_apply(*self, tokens@, pos as int),
                            decreases tokens.len() - cur,
                        {
                            match close.apply(tokens, cur) {
                                Some(c) => {
                                    count = count - 1;
                                    cur = c;
                                },
                                None => match open.apply(tokens, cur) {
                                    Some(c) => {
                                        count = count + 1;
                                        cur = c;
                                    },
                                    None => match token_tree(tokens, cur) {
                                        Some(c) => {
                                            cur = c;
                                        },
                                        None => {
                                            return None;
                                        },
                                    },
                                },
                            }
                        }
                        Some(cur)
                    },
                }
            },
            Parser::Alt(first, second) => match first.apply(tokens, pos) {
                Some(q) => Some(q),
                None => second.apply(tokens, pos),
            },
            Parser::TakeUntil1(parser, until) => {
                let mut cur = pos;
                let mut parsed = false;
                loop
                    invariant
                        pos <= cur <= tokens.len(),
                        *self == Parser::TakeUntil1(*parser, *until),
                        advances(spec_apply(*self, tokens@, pos as int), tokens@, pos as int),
                        take_loop(*self, tokens@, cur as int, parsed) == spec_apply(
                            *self,
                            tokens@,
                            pos as int,
                        ),
                    decreases tokens.len() - cur,
                {
                    if cur == tokens.len() || until.apply(tokens, cur).is_some() {
                        return if parsed {
                            Some(cur)
                        } else {
                            None
                        };
                    }
                    match parser.apply(tokens, cur) {
                        Some(c) => {
                            cur = c;
                            parsed = true;
                        },
                        None => {
                            return None;
                        },
                    }
                }
            },
        }
    }
}

/// The number of `open` minus the number of `close` punctuation characters
/// among `tokens[a..b]`.
pub open spec fn net_depth(s: Seq<TokenTree>, a: int, b: int, open: char, close: char) -> int
    decreases b - a,
{
    if a >= b {
        0
    } else {
        (if is_punct(s[a], open) {
            1int
        } else if is_punct(s[a], close) {
            -1int
        } else {
            0int
        }) + net_depth(s, a + 1, b, open, close)
    }
}

proof fn lemma_balanced_loop_depth(s: Seq<TokenTree>, open: char, close: char, pos: int, count: nat)
    requires
        0 <= pos <= s.len(),
        open != close,
    ensures
        balanced_loop(
            Parser::BalancedPair(Box::new(Parser::Punct(open)), Box::new(Parser::Punct(close))),
            s,
            pos,
            count,
        ) matches Some(q) ==> {
            &&& net_depth(s, pos, q, open, close) == -count
            &&& count > 0 ==> punct_at(s, q - 1, close)
        },
    decreases s.len() - pos,
{
    let p = Parser::BalancedPair(Box::new(Parser::Punct(open)), Box::new(Parser::Punct(close)));
    if count != 0 && 0 <= pos < s.len() {
        let k: nat = if punct_at(s, pos, close) {
            (count - 1) as nat
        } else if punct_at(s, pos, open) {
            count + 1
        } else {
            count
        };
        assert(spec_apply(Parser::Punct(close), s, pos) == if punct_at(s, pos, close) {
            Some(pos + 1)
        } else {
            None::<int>
        });
        assert(spec_apply(Parser::Punct(open), s, pos) == if punct_at(s, pos, open) {
            Some(pos + 1)
        } else {
            None::<int>
        });
        assert(balanced_loop(p, s, pos, count) == balanced_loop(p, s, pos + 1, k));
        lemma_balanced_loop_depth(s, open, close, pos + 1, k);
        lemma_balanced_loop_bounds(p, s, pos + 1, k);
        if let Some(q) = balanced_loop(p, s, pos + 1, k) {
            assert(net_depth(s, pos, q, open, close) == (if is_punct(s[pos], open) {
                1int
            } else if is_punct(s[pos], close) {
                -1int
            } else {
                0int
            }) + net_depth(s, pos + 1, q, open, close));
        }
    }
}

/// A balanced pair of two different punctuation characters consumes a run
/// that begins with `open`, ends with `close`, and holds as many of one as of
/// the other.
pub proof fn lemma_balanced_pair_is_balanced(s: Seq<TokenTree>, open: char, close: char, pos: int)
    requires
        0 <= pos <= s.len(),
        open != close,
    ensures
        spec_apply(
            Parser::BalancedPair(Box::new(Parser::Punct(open)), Box::new(Parser::Punct(close))),
            s,
            pos,
        ) matches Some(q) ==> {
            &&& punct_at(s, pos, open)
            &&& punct_at(s, q - 1, close)
            &&& net_depth(s, pos, q, open, close) == 0
        },
{
    let p = Parser::BalancedPair(Box::new(Parser::Punct(open)), Box::new(Parser::Punct(close)));
    if punct_at(s, pos, open) {
        assert(spec_apply(Parser::Punct(open), s, pos) == Some(pos + 1));
        assert(spec_apply(p, s, pos) == balanced_loop(p, s, pos + 1, 1));
        lemma_balanced_loop_depth(s, open, close, pos + 1, 1);
        lemma_balanced_loop_bounds(p, s, pos + 1, 1);
        if let Some(q) = balanced_loop(p, s, pos + 1, 1) {
            assert(net_depth(s, pos, q, open, close) == 1 + net_depth(s, pos + 1, q, open, close));
        }
    } else {
        assert(spec_apply(Parser::Punct(open), s, pos) is None);
    }
}

/// The parser of a single type that is not a parenthesized tuple: token
/// trees, with `<` ... `>` taken as balanced runs, up to a `,` at the top
/// level or the end.
pub open spec fn other_type_parser() -> Parser {
    Parser::TakeUntil1(
        Box::new(
            Parser::Alt(
                Box::new(
                    Parser::BalancedPair(Box::new(Parser::Punct('<')), Box::new(Parser::Punct('>'))),
                ),
                Box::new(Parser::TokenTree),
            ),
        ),
        Box::new(Parser::Punct(',')),
    )
}

proof fn lemma_other_loop(s: Seq<TokenTree>, pos: int, parsed: bool)
    requires
        0 <= pos <= s.len(),
    ensures
        take_loop(other_type_parser(), s, pos, parsed) matches Some(q) ==> (q == s.len()
            || punct_at(s, q, ',')),
        parsed ==> take_loop(other_type_parser(), s, pos, parsed) is Some,
    decreases s.len() - pos,
{
    let p = other_type_parser();
    if let Parser::TakeUntil1(parser, until) = p {
        if 0 <= pos < s.len() && spec_apply(*until, s, pos) is None {
            lemma_apply_advances(*parser, s, pos);
            if let Parser::Alt(first, second) = *parser {
                assert(spec_apply(*second, s, pos) == Some(pos + 1));
            }
            let q = spec_apply(*parser, s, pos).unwrap();
            lemma_other_loop(s, q, true);
        }
    }
}

/// Parses a single type that is not a parenthesized tuple: it ends before the
/// first `,` outside of `<` ... `>`, or at the end of the tokens.
///
/// It fails exactly where the tokens are at their end or at a `,`; where it
/// succeeds, it stops at the end or at a `,`.
pub fn parse_other(tokens: &Vec<TokenTree>, pos: usize) -> (r: Option<usize>)
    requires
        pos <= tokens.len(),
    ensures
        opt_int(r) == spec_apply(other_type_parser(), tokens@, pos as int),
        r is None <==> (pos == tokens.len() || punct_at(tokens@, pos as int, ',')),
        r matches Some(q) ==> pos < q <= tokens.len() && (q == tokens.len() || punct_at(
            tokens@,
            q as int,
            ',',
        )),
{
    let parser = take_until1(
        alt(balanced_pair(punct('<'), punct('>')), Parser::TokenTree),
        punct(','),
    );
    assert(parser == other_type_parser());
    proof {
        lemma_other_loop(tokens@, pos as int, false);
        if pos < tokens.len() && !punct_at(tokens@, pos as int, ',') {
            if let Parser::TakeUntil1(inner, until) = other_type_parser() {
                lemma_apply_advances(*inner, tokens@, pos as int);
                if let Parser::Alt(first, second) = *inner {
                    assert(spec_apply(*second, tokens@, pos as int) == Some(pos + 1));
                }
                let q = spec_apply(*inner, tokens@, pos as int).unwrap();
                lemma_other_loop(tokens@, q, true);
                assert(spec_apply(*until, tokens@, pos as int) is None);
                assert(take_loop(other_type_parser(), tokens@, pos as int, false) == take_loop(
                    other_type_parser(),
                    tokens@,
                    q,
                    true,
                ));
            }
        }
        assert(spec_apply(other_type_parser(), tokens@, pos as int) == take_loop(
            other_type_parser(),
            tokens@,
            pos as int,
            false,
        ));
    }
    parser.apply(tokens, pos)
}

/// A type, read by where it begins and ends.
#[derive(Debug)]
pub enum Type {
    /// A parenthesized tuple type. Its items are runs of the group's inner
    /// tokens; `trailing_comma` tells whether a `,` follows the last one.
    Tuple { items: Vec<TokenRange>, trailing_comma: bool },
    /// Every other type, as a run of tokens; a parenthesized type with one item
    /// and no trailing `,` is the group token itself.
    Other(TokenRange),
}

/// The error of a type that cannot be parsed.
#[derive(Debug, Clone, Copy, PartialEq, Eq, Structural)]
pub struct FailedToParseType;

/// The inner tokens of a parenthesized group at `pos`, if there is one.
pub open spec fn paren_group_at(s: Seq<TokenTree>, pos: int) -> Option<Seq<TokenTree>> {
    if 0 <= pos < s.len() {
        match s[pos] {
            TokenTree::Group(Delimiter::Parenthesis, inner) => Some(inner@),
            _ => None,
        }
    } else {
        None
    }
}

/// The items of a parenthesized tuple, from position `cur` of its inner
/// tokens: each a run of tokens, with whether a `,` follows it; `None` where
/// an item cannot be parsed.
pub open spec fn spec_tuple_items(inner: Seq<TokenTree>, cur: int) -> Option<
    Seq<(TokenRange, bool)>,
>
    decreases inner.len() - cur,
{
    if !(0 <= cur < inner.len()) {
        Some(seq![])
    } else {
        match spec_apply(other_type_parser(), inner, cur) {
            None => None,
            Some(q) => if cur < q <= inner.len() {
                let comma = punct_at(inner, q, ',');
                let next = if comma {
                    q + 1
                } else {
                    q
                };
                match spec_tuple_items(inner, next) {
                    Some(rest) => Some(
                        seq![(TokenRange { start: cur as usize, end: q as usize }, comma)] + rest,
                    ),
                    None => None,
                }
            } else {
                None
            },
        }
    }
}

/// The items of a tuple cover its inner tokens from `cur` on, in order: the
/// first begins at `cur`, each next one begins right after the `,` that
/// follows the one before (and a `,` follows an item exactly where its flag
/// says so), and the last ends at the end of the tokens or right before a
/// `,` that ends them. So the items, printed and joined by `,`, give back
/// the tokens.
pub proof fn lemma_tuple_items_cover(inner: Seq<TokenTree>, cur: int)
    requires
        0 <= cur,
        inner.len() <= usize::MAX,
        spec_tuple_items(inner, cur) is Some,
    ensures
        ({
            let items = spec_tuple_items(inner, cur).unwrap();
            &&& (items.len() == 0 <==> cur >= inner.len())
            &&& items.len() > 0 ==> items[0].0.start == cur
            &&& forall|i: int|
                0 <= i < items.len() ==> #[trigger] items[i].0.start < items[i].0.end <= inner.len()
                    && items[i].1 == punct_at(inner, items[i].0.end as int, ',')
            &&& forall|i: int|
                0 <= i < items.len() - 1 ==> #[trigger] items[i].1 && items[i + 1].0.start
                    == items[i].0.end + 1
            &&& items.len() > 0 ==> (items.last().0.end == inner.len() || (items.last().0.end + 1
                == inner.len() && items.last().1))
        }),
    decreases inner.len() - cur,
{
    if cur < inner.len() {
        lemma_other_loop(inner, cur, false);
        assert(spec_apply(other_type_parser(), inner, cur) == take_loop(
            other_type_parser(),
            inner,
            cur,
            false,
        ));
        let q = spec_apply(other_type_parser(), inner, cur).unwrap();
        let comma = punct_at(inner, q, ',');
        let next = if comma {
            q + 1
        } else {
            q
        };
        let t = (TokenRange { start: cur as usize, end: q as usize }, comma);
        let items = spec_tuple_items(inner, cur).unwrap();
        lemma_tuple_items_cover(inner, next);
        let rest = spec_tuple_items(inner, next).unwrap();
        assert(items =~= seq![t] + rest);
        assert forall|i: int| 0 <= i < items.len() implies #[trigger] items[i].0.start
            < items[i].0.end <= inner.len() && items[i].1 == punct_at(
            inner,
            items[i].0.end as int,
            ',',
        ) by {
            if i > 0 {
                assert(items[i] == rest[i - 1]);
            }
        }
        assert forall|i: int| 0 <= i < items.len() - 1 implies #[trigger] items[i].1
            && items[i + 1].0.start == items[i].0.end + 1 by {
            assert(items[i + 1] == rest[i]);
            if i > 0 {
                assert(items[i] == rest[i - 1]);
            }
        }
        if rest.len() > 0 {
            assert(items.last() == rest.last());
        }
    }
}

/// The runs of tokens of tuple items.
pub open spec fn item_ranges(items: Seq<(TokenRange, bool)>) -> Seq<TokenRange> {
    items.map_values(|it: (TokenRange, bool)| it.0)
}

/// Whether a `,` follows the last of the tuple items.
pub open spec fn ends_with_comma(items: Seq<(TokenRange, bool)>) -> bool {
    items.len() > 0 && items.last().1
}

/// What parsing a type at `pos` gives: for a parenthesized group, its items,
/// read as a tuple unless it is one item without a trailing `,`; otherwise the
/// run that `parse_other` consumes.
pub open spec fn parse_type_post(
    s: Seq<TokenTree>,
    pos: int,
    r: Result<(Type, usize), FailedToParseType>,
) -> bool {
    match paren_group_at(s, pos) {
        Some(inner) => match spec_tuple_items(inner, 0) {
            None => r is Err,
            Some(items) => if items.len() == 1 && !items[0].1 {
                r matches Ok((Type::Other(range), next)) && range == TokenRange {
                    start: pos as usize,
                    end: (pos + 1) as usize,
                } && next == pos + 1
            } else {
                r matches Ok((Type::Tuple { items: v, trailing_comma }, next)) && v@
                    == item_ranges(items) && trailing_comma == ends_with_comma(items) && next
                    == pos + 1
            },
        },
        None => match spec_apply(other_type_parser(), s, pos) {
            None => r is Err,
            Some(q) => r matches Ok((Type::Other(range), next)) && range == TokenRange {
                start: pos as usize,
                end: q as usize,
            } && next == q,
        },
    }
}

/// Parses a type at `pos`: a parenthesized tuple by its items, or any other
/// type as the run of tokens up to a top-level `,` or the end. Returns the
/// type and the position after it.
pub fn parse_type(tokens: &Vec<TokenTree>, pos: usize) -> (r: Result<
    (Type, usize),
    FailedToParseType,
>)
    requires
        pos <= tokens.len(),
    ensures
        parse_type_post(tokens@, pos as int, r),
{
    if pos < tokens.len() {
        if let TokenTree::Group(Delimiter::Parenthesis, inner) = &tokens[pos] {
            let mut items: Vec<TokenRange> = Vec::new();
            let mut trailing = false;
            let mut cur: usize = 0;
            let ghost mut done: Seq<(TokenRange, bool)> = seq![];
            while cur < inner.len()
                invariant
                    cur <= inner.len(),
                    paren_group_at(tokens@, pos as int) == Some(inner@),
                    items@ == item_ranges(done),
                    trailing == ends_with_comma(done),
                    spec_tuple_items(inner@, 0) == match spec_tuple_items(inner@, cur as int) {
                        Some(rest) => Some(done + rest),
                        None => None,
                    },
                decreases inner.len() - cur,
            {
                match parse_other(inner, cur) {
                    None => {
                        return Err(FailedToParseType);
                    },
                    Some(q) => {
                        let comma = is_punct_at(inner, q, ',');
                        let range = TokenRange { start: cur, end: q };
                        items.push(range);
                        trailing = comma;
                        proof {
                            let ghost old_done = done;
                            done = done.push((range, comma));
                            assert(item_ranges(done) =~= item_ranges(old_done).push(range));
                            let next: int = if comma {
                                q + 1
                            } else {
                                q as int
                            };
                            match spec_tuple_items(inner@, next) {
                                Some(rest) => {
                                    assert(old_done + (seq![(range, comma)] + rest) =~= done
                                        + rest);
                                },
                                None => {},
                            }
                        }
                        cur = if comma {
                            q + 1
                        } else {
                            q
                        };
                    },
                }
            }
            proof {
                assert(done + seq![] =~= done);
            }
            if items.len() == 1 && !trailing {
                return Ok((Type::Other(TokenRange { start: pos, end: pos + 1 }), pos + 1));
            } else {
                return Ok((Type::Tuple { items, trailing_comma: trailing }, pos + 1));
            }
        }
    }
    match parse_other(tokens, pos) {
        Some(q) => Ok((Type::Other(TokenRange { start: pos, end: q }), q)),
        None => Err(FailedToParseType),
    }
}

/// Where the type that begins at `pos` ends, as `parse_type` reads it.
pub open spec fn type_run_end(s: Seq<TokenTree>, pos: int) -> Option<int> {
    match paren_group_at(s, pos) {
        Some(inner) => if spec_tuple_items(inner, 0) is Some {
            Some(pos + 1)
        } else {
            None
        },
        None => spec_apply(other_type_parser(), s, pos),
    }
}

/// The types of a list from `cur` on, as `parse_type` reads them: types
/// separated by `,`, with an optional `,` at the end; each by the run of its
/// tokens. `None` where a type cannot be read or no `,` follows one.
pub open spec fn spec_type_runs(s: Seq<TokenTree>, cur: int) -> Option<Seq<TokenRange>>
    decreases s.len() - cur,
{
    if !(0 <= cur < s.len()) {
        Some(Seq::empty())
    } else {
        match type_run_end(s, cur) {
            Some(q) => if cur < q <= s.len() {
                let t = TokenRange { start: cur as usize, end: q as usize };
                if q == s.len() {
                    Some(seq![t])
                } else if punct_at(s, q, ',') {
                    match spec_type_runs(s, q + 1) {
                        Some(rest) => Some(seq![t] + rest),
                        None => None,
                    }
                } else {
                    None
                }
            } else {
                None
            },
            None => None,
        }
    }
}

/// Reads a list of types separated by `,`, with an optional `,` at the end,
/// each by the run of its tokens; read each one with `parse_type` at the
/// start of its run.
pub fn parse_types(tokens: &Vec<TokenTree>) -> (r: Option<Vec<TokenRange>>)
    ensures
        match r {
            Some(v) => spec_type_runs(tokens@, 0) == Some(v@),
            None => spec_type_runs(tokens@, 0) is None,
        },
{
    let mut out: Vec<TokenRange> = Vec::new();
    let mut cur: usize = 0;
    loop
        invariant
            cur <= tokens.len(),
            spec_type_runs(tokens@, 0) == match spec_type_runs(tokens@, cur as int) {
                Some(rest) => Some(out@ + rest),
                None => None,
            },
        decreases tokens.len() - cur,
    {
        if cur >= tokens.len() {
            assert(out@ + Seq::<TokenRange>::empty() =~= out@);
            return Some(out);
        }
        let q = match parse_type(tokens, cur) {
            Ok((_, next)) => next,
            Err(_) => {
                return None;
            },
        };
        assert(type_run_end(tokens@, cur as int) == Some(q as int));
        if !(cur < q && q <= tokens.len()) {
            return None;
        }
        let t = TokenRange { start: cur, end: q };
        if q == tokens.len() {
            proof {
                assert(out@ + seq![t] =~= out@.push(t));
            }
            out.push(t);
            cur = q;
        } else if is_punct_at(tokens, q, ',') {
            proof {
                match spec_type_runs(tokens@, q + 1) {
                    Some(rest) => {
                        assert(out@ + (seq![t] + rest) =~= out@.push(t) + rest);
                    },
                    None => {},
                }
            }
            out.push(t);
            cur = q + 1;
        } else {
            return None;
        }
    }
}

/// The types of a list cover its tokens from `cur` on, in order: the first
/// begins at `cur`, each next one begins right after the `,` that follows the
/// one before, and the last ends at the end of the tokens or right before a
/// `,` that ends them. So the types, printed and joined by `,`, give back the
/// tokens.
pub proof fn lemma_type_runs_cover(s: Seq<TokenTree>, cur: int)
    requires
        0 <= cur,
        s.len() <= usize::MAX,
        spec_type_runs(s, cur) is Some,
    ensures
        ({
            let ts = spec_type_runs(s, cur).unwrap();
            &&& (ts.len() == 0 <==> cur >= s.len())
            &&& ts.len() > 0 ==> ts[0].start == cur
            &&& forall|i: int| 0 <= i < ts.len() ==> #[trigger] ts[i].start < ts[i].end <= s.len()
            &&& forall|i: int|
                0 <= i < ts.len() - 1 ==> punct_at(s, #[trigger] ts[i].end as int, ',')
                    && ts[i + 1].start == ts[i].end + 1
            &&& ts.len() > 0 ==> (ts.last().end == s.len() || (ts.last().end + 1 == s.len()
                && punct_at(s, ts.last().end as int, ',')))
        }),
    decreases s.len() - cur,
{
    if cur < s.len() {
        let q = type_run_end(s, cur).unwrap();
        let t = TokenRange { start: cur as usize, end: q as usize };
        let ts = spec_type_runs(s, cur).unwrap();
        if q < s.len() {
            lemma_type_runs_cover(s, q + 1);
            let rest = spec_type_runs(s, q + 1).unwrap();
            assert(ts =~= seq![t] + rest);
            assert forall|i: int| 0 <= i < ts.len() implies #[trigger] ts[i].start < ts[i].end
                <= s.len() by {
                if i > 0 {
                    assert(ts[i] == rest[i - 1]);
                }
            }
            assert forall|i: int| 0 <= i < ts.len() - 1 implies punct_at(
                s,
                #[trigger] ts[i].end as int,
                ',',
            ) && ts[i + 1].start == ts[i].end + 1 by {
                assert(ts[i + 1] == rest[i]);
                if i > 0 {
                    assert(ts[i] == rest[i - 1]);
                }
            }
            if rest.len() > 0 {
                assert(ts.last() == rest.last());
            }
        } else {
            assert(ts =~= seq![t]);
        }
    }
}

/// `k` applications of `parser` lead from `a` to `b`, each at a position
/// where `until` does not match and before the end of the tokens.
pub open spec fn steps(parser: Parser, until: Parser, s: Seq<TokenTree>, a: int, b: int, k: nat) -> bool
    decreases k,
{
    if k == 0 {
        a == b
    } else {
        &&& 0 <= a < s.len()
        &&& spec_apply(until, s, a) is None
        &&& spec_apply(parser, s, a) matches Some(m) && a < m <= s.len() && steps(
            parser,
            until,
            s,
            m,
            b,
            (k - 1) as nat,
        )
    }
}

proof fn lemma_take_loop_steps(p: Parser, s: Seq<TokenTree>, pos: int, parsed: bool) -> (k: nat)
    requires
        p is TakeUntil1,
        take_loop(p, s, pos, parsed) is Some,
    ensures
        ({
            let (parser, until) = match p {
                Parser::TakeUntil1(a, b) => (*a, *b),
                _ => (p, p),
            };
            let q = take_loop(p, s, pos, parsed).unwrap();
            &&& steps(parser, until, s, pos, q, k)
            &&& (parsed || k >= 1)
            &&& !(0 <= q < s.len()) || spec_apply(until, s, q) is Some
        }),
    decreases s.len() - pos,
{
    if let Parser::TakeUntil1(parser, until) = p {
        if !(0 <= pos < s.len()) || spec_apply(*until, s, pos) is Some {
            0
        } else {
            let m = spec_apply(*parser, s, pos).unwrap();
            let k = lemma_take_loop_steps(p, s, m, true);
            k + 1
        }
    } else {
        0
    }
}

/// `take_until1(parser, until)` consumes what one or more applications of
/// `parser` consume, one after another, each where `until` does not match,
/// and stops at the end of the tokens or where `until` matches (without
/// consuming what `until` matches).
pub proof fn lemma_take_until1_steps(parser: Parser, until: Parser, s: Seq<TokenTree>, pos: int)
    requires
        spec_apply(Parser::TakeUntil1(Box::new(parser), Box::new(until)), s, pos) is Some,
    ensures
        exists|k: nat|
            k >= 1 && #[trigger] steps(
                parser,
                until,
                s,
                pos,
                spec_apply(Parser::TakeUntil1(Box::new(parser), Box::new(until)), s, pos).unwrap(),
                k,
            ),
        ({
            let q = spec_apply(Parser::TakeUntil1(Box::new(parser), Box::new(until)), s, pos).unwrap();
            !(0 <= q < s.len()) || spec_apply(until, s, q) is Some
        }),
{
    let p = Parser::TakeUntil1(Box::new(parser), Box::new(until));
    let k = lemma_take_loop_steps(p, s, pos, false);
    let q = spec_apply(p, s, pos).unwrap();
    assert(steps(parser, until, s, pos, q, k));
}

} // verus!
