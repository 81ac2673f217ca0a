//! The formatting attribute of the `fmt`-like derives:
//! `#[display("<literal>", <arguments>)]`, and how its arguments are split.
//!
//! An argument is `(identifier =)? expression`, and arguments are separated
//! by `,` at the top level. Expressions are not parsed as Rust expressions;
//! only the places where a `,` cannot end one are recognised: a turbofish
//! `::< ... >`, closure arguments `| ... |` and a qualified path
//! `< ... >::`.

use vstd::prelude::*;
use vstd::string::*;

use crate::decimal::{parse_usize, parsed_usize};
use crate::fmt_string::{
    arg_spec_of, fmt_placeholders, placeholder_view, ArgSpec, FmtTrait, Placeholder,
    PlaceholderSpec,
};
use crate::parsing::TokenRange;
use crate::text::{join, joined, str_eq, text_is, views};
use crate::tokens::{is_punct, is_punct_at, punct_at, Spacing, TokenTree};

verus! {

/// `tokens[pos]` exists and is an identifier.
pub open spec fn ident_at(s: Seq<TokenTree>, pos: int) -> bool {
    0 <= pos < s.len() && s[pos] is Ident
}

/// The text of the identifier `t`.
pub open spec fn ident_text(t: TokenTree) -> Seq<char> {
    match t {
        TokenTree::Ident(i) => i@,
        _ => Seq::empty(),
    }
}

/// `tokens[pos]` exists and is the punctuation `c`, joint with the next one.
pub open spec fn joint_punct_at(s: Seq<TokenTree>, pos: int, c: char) -> bool {
    0 <= pos < s.len() && crate::tokens::is_joint_punct(s[pos], c)
}

/// The position where a run that began with one unclosed `open` ends: right
/// after the `close` that balances it, or at the end of the tokens. A `close`
/// is counted before an `open`, so with equal characters the first one
/// closes.
pub open spec fn until_closing(s: Seq<TokenTree>, open: char, close: char, pos: int, count: nat) -> int
    decreases s.len() - pos,
{
    if count == 0 || !(0 <= pos < s.len()) {
        pos
    } else {
        let k: nat = if is_punct(s[pos], close) {
            (count - 1) as nat
        } else if is_punct(s[pos], open) {
            count + 1
        } else {
            count
        };
        until_closing(s, open, close, pos + 1, k)
    }
}

proof fn lemma_until_closing_bounds(s: Seq<TokenTree>, open: char, close: char, pos: int, count: nat)
    requires
        0 <= pos <= s.len(),
    ensures
        pos <= until_closing(s, open, close, pos, count) <= s.len(),
    decreases s.len() - pos,
{
    if count != 0 && 0 <= pos < s.len() {
        let k: nat = if is_punct(s[pos], close) {
            (count - 1) as nat
        } else if is_punct(s[pos], open) {
            count + 1
        } else {
            count
        };
        lemma_until_closing_bounds(s, open, close, pos + 1, k);
    }
}

/// Parses token trees, right after an `open` (so `pos` is not the first
/// position), until the `close` that balances
/// it, or until the end: returns the position after them.
pub fn parse_until_closing(open: char, close: char, tokens: &Vec<TokenTree>, pos: usize) -> (r:
    usize)
    requires
        1 <= pos <= tokens.len(),
    ensures
        r == until_closing(tokens@, open, close, pos as int, 1),
        pos <= r <= tokens.len(),
{
    proof {
        lemma_until_closing_bounds(tokens@, open, close, pos as int, 1);
    }
    let mut cur = pos;
    let mut count: usize = 1;
    while count != 0 && cur < tokens.len()
        invariant
            1 <= pos <= cur <= tokens.len(),
            count <= cur - pos + 1,
            until_closing(tokens@, open, close, cur as int, count as nat) == until_closing(
                tokens@,
                open,
                close,
                pos as int,
                1,
            ),
        decreases tokens.len() - cur,
    {
        if is_punct_at(tokens, cur, close) {
            count = count - 1;
        } else if is_punct_at(tokens, cur, open) {
            count = count + 1;
        }
        cur = cur + 1;
    }
    cur
}

/// `::<` ... `>` at `pos`: the position after it.
pub open spec fn spec_turbofish(s: Seq<TokenTree>, pos: int) -> Option<int> {
    if joint_punct_at(s, pos, ':') && punct_at(s, pos + 1, ':') && punct_at(s, pos + 2, '<') {
        Some(until_closing(s, '<', '>', pos + 3, 1))
    } else {
        None
    }
}

/// `|` ... `|` at `pos`: the position after it.
pub open spec fn spec_closure_args(s: Seq<TokenTree>, pos: int) -> Option<int> {
    if punct_at(s, pos, '|') {
        Some(until_closing(s, '|', '|', pos + 1, 1))
    } else {
        None
    }
}

/// `<` ... `>::` at `pos`: the position after it.
pub open spec fn spec_qself(s: Seq<TokenTree>, pos: int) -> Option<int> {
    if punct_at(s, pos, '<') {
        let c = until_closing(s, '<', '>', pos + 1, 1);
        if joint_punct_at(s, c, ':') && punct_at(s, c + 1, ':') {
            Some(c + 2)
        } else {
            None
        }
    } else {
        None
    }
}

/// A run at `pos` inside which a `,` does not end an argument: a turbofish,
/// closure arguments or a qualified path, tried in this order.
pub open spec fn spec_nested_run(s: Seq<TokenTree>, pos: int) -> Option<int> {
    match spec_turbofish(s, pos) {
        Some(q) => Some(q),
        None => match spec_closure_args(s, pos) {
            Some(q) => Some(q),
            None => spec_qself(s, pos),
        },
    }
}

proof fn lemma_nested_run_bounds(s: Seq<TokenTree>, pos: int)
    requires
        0 <= pos <= s.len(),
    ensures
        spec_nested_run(s, pos) matches Some(q) ==> pos < q <= s.len(),
{
    if pos + 3 <= s.len() {
        lemma_until_closing_bounds(s, '<', '>', pos + 3, 1);
    }
    if pos + 1 <= s.len() {
        lemma_until_closing_bounds(s, '|', '|', pos + 1, 1);
        lemma_until_closing_bounds(s, '<', '>', pos + 1, 1);
    }
}

/// Tries to parse `::< ... >` at `pos`.
pub fn turbofish(tokens: &Vec<TokenTree>, pos: usize) -> (r: Option<usize>)
    requires
        pos <= tokens.len(),
    ensures
        opt_pos(r) == spec_turbofish(tokens@, pos as int),
{
    if tokens.len() >= 3 && pos < tokens.len() - 2 && is_joint_punct_at(tokens, pos, ':') && is_punct_at(
        tokens,
        pos + 1,
        ':',
    ) && is_punct_at(tokens, pos + 2, '<') {
        Some(parse_until_closing('<', '>', tokens, pos + 3))
    } else {
        None
    }
}

/// Tries to parse `| (closure_arg),* |` at `pos`.
pub fn closure_args(tokens: &Vec<TokenTree>, pos: usize) -> (r: Option<usize>)
    requires
        pos <= tokens.len(),
    ensures
        opt_pos(r) == spec_closure_args(tokens@, pos as int),
{
    if is_punct_at(tokens, pos, '|') {
        Some(parse_until_closing('|', '|', tokens, pos + 1))
    } else {
        None
    }
}

/// Tries to parse `< ... as ... >::` at `pos`.
pub fn qself(tokens: &Vec<TokenTree>, pos: usize) -> (r: Option<usize>)
    requires
        pos <= tokens.len(),
    ensures
        opt_pos(r) == spec_qself(tokens@, pos as int),
{
    if is_punct_at(tokens, pos, '<') {
        let c = parse_until_closing('<', '>', tokens, pos + 1);
        if tokens.len() > 0 && c < tokens.len() - 1 && is_joint_punct_at(tokens, c, ':') && is_punct_at(
            tokens,
            c + 1,
            ':',
        ) {
            Some(c + 2)
        } else {
            None
        }
    } else {
        None
    }
}

/// An optional position, as a mathematical integer.
pub open spec fn opt_pos(r: Option<usize>) -> Option<int> {
    match r {
        Some(q) => Some(q as int),
        None => None,
    }
}

/// Checks whether `tokens[pos]` is the punctuation `c`, joint with the next.
pub fn is_joint_punct_at(tokens: &Vec<TokenTree>, pos: usize, c: char) -> (r: bool)
    ensures
        r == joint_punct_at(tokens@, pos as int, c),
{
    if pos < tokens.len() {
        match &tokens[pos] {
            TokenTree::Punct(p, Spacing::Joint) => *p == c,
            _ => false,
        }
    } else {
        false
    }
}

/// The rest of an argument from `pos`: where its tokens end, and where
/// parsing goes on (after the `,` that ends it, if one does).
pub open spec fn spec_rest(s: Seq<TokenTree>, pos: int) -> (int, int)
    decreases s.len() - pos,
{
    if !(0 <= pos <= s.len()) {
        (pos, pos)
    } else {
        match spec_nested_run(s, pos) {
            Some(q) => if pos < q <= s.len() {
                spec_rest(s, q)
            } else {
                (pos, pos)
            },
            None => if punct_at(s, pos, ',') {
                (pos, pos + 1)
            } else if pos == s.len() {
                (pos, pos)
            } else {
                spec_rest(s, pos + 1)
            },
        }
    }
}

/// The rest of an argument ends at a `,` outside of turbofishes, closure
/// arguments and qualified paths, or at the end; parsing goes on right after
/// that `,`.
pub proof fn lemma_rest_bounds(s: Seq<TokenTree>, pos: int)
    requires
        0 <= pos <= s.len(),
    ensures
        pos <= spec_rest(s, pos).0 <= s.len(),
        spec_rest(s, pos).1 == spec_rest(s, pos).0 || (spec_rest(s, pos).1 == spec_rest(s, pos).0
            + 1 && punct_at(s, spec_rest(s, pos).0, ',')),
        spec_rest(s, pos).0 == s.len() || punct_at(s, spec_rest(s, pos).0, ','),
    decreases s.len() - pos,
{
    lemma_nested_run_bounds(s, pos);
    match spec_nested_run(s, pos) {
        Some(q) => {
            lemma_rest_bounds(s, q);
        },
        None => {
            if !punct_at(s, pos, ',') && pos != s.len() {
                lemma_rest_bounds(s, pos + 1);
            }
        },
    }
}

/// Parses the rest of an argument, up to a top-level `,` or the end: returns
/// the run of its tokens and the position after it (after the `,`, if one
/// ends it).
pub fn parse_rest(tokens: &Vec<TokenTree>, pos: usize) -> (r: (TokenRange, usize))
    requires
        pos <= tokens.len(),
    ensures
        r.0.start == pos,
        r.0.end == spec_rest(tokens@, pos as int).0,
        r.1 == spec_rest(tokens@, pos as int).1,
        pos <= r.0.end <= r.1 <= tokens.len(),
{
    proof {
        lemma_rest_bounds(tokens@, pos as int);
    }
    let mut cur = pos;
    loop
        invariant
            pos <= cur <= tokens.len(),
            spec_rest(tokens@, cur as int) == spec_rest(tokens@, pos as int),
        decreases tokens.len() - cur,
    {
        proof {
            lemma_nested_run_bounds(tokens@, cur as int);
        }
        if let Some(c) = turbofish(tokens, cur) {
            cur = c;
            continue ;
        }
        if let Some(c) = closure_args(tokens, cur) {
            cur = c;
            continue ;
        }
        if let Some(c) = qself(tokens, cur) {
            cur = c;
            continue ;
        }
        if is_punct_at(tokens, cur, ',') {
            return (TokenRange { start: pos, end: cur }, cur + 1);
        }
        if cur == tokens.len() {
            return (TokenRange { start: pos, end: cur }, cur);
        }
        cur = cur + 1;
    }
}

/// The expression of a formatting argument.
#[derive(Debug)]
pub enum FmtExpr {
    /// A single identifier.
    Ident(String),
    /// Any other run of tokens.
    TokenStream(TokenRange),
}

/// The shape of a parsed expression: a single identifier at a position, or a
/// run of tokens.
pub enum ExprShape {
    Ident(int),
    Stream(int, int),
}

/// `e` is the expression of shape `shape` over the tokens `s`.
pub open spec fn expr_is(e: FmtExpr, s: Seq<TokenTree>, shape: ExprShape) -> bool {
    match shape {
        ExprShape::Ident(i) => e matches FmtExpr::Ident(x) && x@ == ident_text(s[i]),
        ExprShape::Stream(a, b) => e matches FmtExpr::TokenStream(r) && r.start == a && r.end == b,
    }
}

/// The expression that the run `start..end` of tokens forms: an identifier
/// where the run is one identifier, and the run itself otherwise.
pub open spec fn shape_of_run(s: Seq<TokenTree>, start: int, end: int) -> ExprShape {
    if end == start + 1 && ident_at(s, start) {
        ExprShape::Ident(start)
    } else {
        ExprShape::Stream(start, end)
    }
}

impl FmtExpr {
    /// The identifier, where this expression is a single one.
    pub fn ident(&self) -> (r: Option<&String>)
        ensures
            r matches Some(x) ==> *self == FmtExpr::Ident(*x),
            r is None <==> self is TokenStream,
    {
        match self {
            FmtExpr::Ident(i) => Some(i),
            FmtExpr::TokenStream(_) => None,
        }
    }

    /// Whether this expression holds no tokens.
    pub fn is_empty(&self) -> (r: bool)
        ensures
            r == (self matches FmtExpr::TokenStream(range) && range.end <= range.start),
    {
        match self {
            FmtExpr::Ident(_) => false,
            FmtExpr::TokenStream(range) => range.end <= range.start,
        }
    }

    /// The empty expression with which parsing an argument begins, extended
    /// with the run `start..end` of tokens: a single identifier becomes an
    /// identifier expression, anything else a run.
    pub fn from_run(tokens: &Vec<TokenTree>, start: usize, end: usize) -> (r: FmtExpr)
        requires
            start <= end <= tokens.len(),
        ensures
            expr_is(r, tokens@, shape_of_run(tokens@, start as int, end as int)),
    {
        if end > start && end - start == 1 {
            if let TokenTree::Ident(i) = &tokens[start] {
                return FmtExpr::Ident(i.clone());
            }
        }
        FmtExpr::TokenStream(TokenRange { start, end })
    }
}

/// A formatting argument: `(identifier =)? expression`.
#[derive(Debug)]
pub struct FmtArgument {
    /// The identifier before `=`, if any.
    pub alias: Option<String>,
    /// The expression.
    pub expr: FmtExpr,
}

/// `a` is the argument with the alias at `alias` (if any) and an expression
/// of shape `shape`.
pub open spec fn argument_is(
    a: FmtArgument,
    s: Seq<TokenTree>,
    alias: Option<int>,
    shape: ExprShape,
) -> bool {
    &&& match alias {
        Some(i) => a.alias matches Some(x) && x@ == ident_text(s[i]),
        None => a.alias is None,
    }
    &&& expr_is(a.expr, s, shape)
}

/// `tokens[pos]` is an identifier and `tokens[pos + 1]` an `=` that names
/// it, `identifier = expression`: an `=` that does not begin `==` or `=>`.
pub open spec fn alias_at(s: Seq<TokenTree>, pos: int) -> bool {
    &&& ident_at(s, pos)
    &&& punct_at(s, pos + 1, '=')
    &&& !(joint_punct_at(s, pos + 1, '=') && (punct_at(s, pos + 2, '=') || punct_at(s, pos + 2, '>')))
}

/// What parsing an argument at `pos` gives: the position of its alias (if
/// any), the shape of its expression and the position after it; `None` at
/// the end of the tokens or where the expression would be empty.
pub open spec fn spec_argument(s: Seq<TokenTree>, pos: int) -> Option<(Option<int>, ExprShape, int)> {
    let (alias, p1) = if alias_at(s, pos) {
        (Some(pos), pos + 2)
    } else {
        (None, pos)
    };
    if ident_at(s, p1) && punct_at(s, p1 + 1, ',') {
        Some((alias, ExprShape::Ident(p1), p1 + 2))
    } else if ident_at(s, p1) && p1 + 1 == s.len() {
        Some((alias, ExprShape::Ident(p1), p1 + 1))
    } else {
        let (end, after) = spec_rest(s, p1);
        if end <= p1 {
            None
        } else {
            Some((alias, shape_of_run(s, p1, end), after))
        }
    }
}

proof fn lemma_argument_bounds(s: Seq<TokenTree>, pos: int)
    requires
        0 <= pos <= s.len(),
    ensures
        spec_argument(s, pos) matches Some((_, _, q)) ==> pos < q <= s.len(),
{
    let p1 = if alias_at(s, pos) {
        pos + 2
    } else {
        pos
    };
    lemma_rest_bounds(s, p1);
}

impl FmtArgument {
    /// Parses an argument at `pos`: returns it and the position where the
    /// next one begins, or `None` at the end of the tokens or where its
    /// expression would be empty.
    pub fn parse(tokens: &Vec<TokenTree>, pos: usize) -> (r: Option<(FmtArgument, usize)>)
        requires
            pos <= tokens.len(),
        ensures
            match spec_argument(tokens@, pos as int) {
                None => r is None,
                Some((alias, shape, q)) => r matches Some((a, c)) && c == q && argument_is(
                    a,
                    tokens@,
                    alias,
                    shape,
                ),
            },
            r matches Some((_, c)) ==> pos < c <= tokens.len(),
    {
        proof {
            lemma_argument_bounds(tokens@, pos as int);
        }
        let mut cursor = pos;
        let mut alias: Option<String> = None;
        if tokens.len() > 0 && pos < tokens.len() - 1 && is_punct_at(tokens, pos + 1, '=') && !(
        is_joint_punct_at(tokens, pos + 1, '=') && (is_punct_at(tokens, pos + 2, '=')
            || is_punct_at(tokens, pos + 2, '>'))) {
            if let TokenTree::Ident(ident) = &tokens[pos] {
                alias = Some(ident.clone());
                cursor = pos + 2;
            }
        }
        if cursor < tokens.len() {
            if let TokenTree::Ident(ident) = &tokens[cursor] {
                if is_punct_at(tokens, cursor + 1, ',') {
                    return Some(
                        (FmtArgument { alias, expr: FmtExpr::Ident(ident.clone()) }, cursor + 2),
                    );
                } else if cursor + 1 == tokens.len() {
                    return Some(
                        (FmtArgument { alias, expr: FmtExpr::Ident(ident.clone()) }, cursor + 1),
                    );
                }
            }
        }
        let (rest, c) = parse_rest(tokens, cursor);
        let expr = FmtExpr::from_run(tokens, rest.start, rest.end);
        if expr.is_empty() {
            None
        } else {
            Some((FmtArgument { alias, expr }, c))
        }
    }
}

/// The arguments parsed from `pos` on, one after another, and the position
/// where that stops.
pub open spec fn spec_arguments(s: Seq<TokenTree>, pos: int) -> (Seq<(Option<int>, ExprShape)>, int)
    decreases s.len() - pos,
{
    match spec_argument(s, pos) {
        Some((alias, shape, q)) => if pos < q <= s.len() {
            let (rest, end) = spec_arguments(s, q);
            (seq![(alias, shape)] + rest, end)
        } else {
            (seq![], pos)
        },
        None => (seq![], pos),
    }
}

/// Where an expression's tokens begin.
pub open spec fn expr_start(e: ExprShape) -> int {
    match e {
        ExprShape::Ident(i) => i,
        ExprShape::Stream(a, _) => a,
    }
}

/// Where an expression's tokens end.
pub open spec fn expr_end(e: ExprShape) -> int {
    match e {
        ExprShape::Ident(i) => i + 1,
        ExprShape::Stream(_, b) => b,
    }
}

/// Where an argument's tokens begin: at its alias, or else at its
/// expression.
pub open spec fn arg_start(a: (Option<int>, ExprShape)) -> int {
    match a.0 {
        Some(i) => i,
        None => expr_start(a.1),
    }
}

proof fn lemma_rest_after(s: Seq<TokenTree>, pos: int)
    requires
        0 <= pos <= s.len(),
    ensures
        spec_rest(s, pos).0 < s.len() ==> spec_rest(s, pos).1 == spec_rest(s, pos).0 + 1,
    decreases s.len() - pos,
{
    lemma_nested_run_bounds(s, pos);
    match spec_nested_run(s, pos) {
        Some(q) => {
            lemma_rest_after(s, q);
        },
        None => {
            if !punct_at(s, pos, ',') && pos != s.len() {
                lemma_rest_after(s, pos + 1);
            }
        },
    }
}

/// The arguments that parse from `pos` up to the end of the tokens cover
/// those tokens, in order: the first begins at `pos`; each is its alias and
/// `=` (where it has one) followed by its expression; the next begins right
/// after the `,` that ends each expression; and the last expression ends at
/// the end of the tokens or right before a `,` that ends them. So the
/// arguments, printed and joined by `,`, give back the tokens.
pub proof fn lemma_arguments_cover(s: Seq<TokenTree>, pos: int)
    requires
        0 <= pos <= s.len(),
        spec_arguments(s, pos).1 >= s.len(),
    ensures
        ({
            let args = spec_arguments(s, pos).0;
            &&& (args.len() == 0 <==> pos == s.len())
            &&& args.len() > 0 ==> arg_start(args[0]) == pos
            &&& forall|i: int|
                0 <= i < args.len() ==> {
                    &&& match #[trigger] args[i].0 {
                        Some(a) => punct_at(s, a + 1, '=') && expr_start(args[i].1) == a + 2,
                        None => true,
                    }
                    &&& expr_start(args[i].1) < expr_end(args[i].1) <= s.len()
                }
            &&& forall|i: int|
                0 <= i < args.len() - 1 ==> punct_at(s, expr_end(#[trigger] args[i].1), ',')
                    && arg_start(args[i + 1]) == expr_end(args[i].1) + 1
            &&& args.len() > 0 ==> (expr_end(args.last().1) == s.len() || (expr_end(args.last().1)
                + 1 == s.len() && punct_at(s, expr_end(args.last().1), ',')))
        }),
    decreases s.len() - pos,
{
    lemma_argument_bounds(s, pos);
    match spec_argument(s, pos) {
        None => {},
        Some((alias, shape, q)) => {
            lemma_arguments_cover(s, q);
            let p1 = if alias_at(s, pos) {
                pos + 2
            } else {
                pos
            };
            lemma_rest_bounds(s, p1);
            lemma_rest_after(s, p1);
            let rest = spec_arguments(s, q).0;
            let args = spec_arguments(s, pos).0;
            assert(args =~= seq![(alias, shape)] + rest);
            assert(expr_start(shape) == p1);
            assert(q < s.len() ==> punct_at(s, expr_end(shape), ',') && q == expr_end(shape) + 1);
            assert(q == s.len() ==> (expr_end(shape) == s.len() || (expr_end(shape) + 1 == s.len()
                && punct_at(s, expr_end(shape), ','))));
            assert forall|i: int| 0 <= i < args.len() implies {
                &&& match #[trigger] args[i].0 {
                    Some(a) => punct_at(s, a + 1, '=') && expr_start(args[i].1) == a + 2,
                    None => true,
                }
                &&& expr_start(args[i].1) < expr_end(args[i].1) <= s.len()
            } by {
                if i > 0 {
                    assert(args[i] == rest[i - 1]);
                }
            }
            assert forall|i: int| 0 <= i < args.len() - 1 implies punct_at(
                s,
                expr_end(#[trigger] args[i].1),
                ',',
            ) && arg_start(args[i + 1]) == expr_end(args[i].1) + 1 by {
                assert(args[i + 1] == rest[i]);
                if i > 0 {
                    assert(args[i] == rest[i - 1]);
                }
            }
            if rest.len() > 0 {
                assert(args.last() == rest.last());
            }
        },
    }
}

/// A formatting attribute: a string literal and the arguments that follow it.
#[derive(Debug)]
pub struct FmtAttribute {
    /// The text of the formatting string literal, as written.
    pub lit: String,
    /// The arguments.
    pub args: Vec<FmtArgument>,
}

/// Why the tokens of a formatting attribute cannot be parsed.
#[derive(Debug, Clone, Copy, PartialEq, Eq, Structural)]
pub enum FmtAttributeError {
    /// The tokens do not begin with a string literal.
    ExpectedStringLiteral,
    /// The token at this position cannot begin an argument.
    UnexpectedToken(usize),
}

/// Where the arguments of a formatting attribute begin: after the literal and
/// an optional `,`.
pub open spec fn args_start(s: Seq<TokenTree>) -> int {
    if punct_at(s, 1, ',') {
        2
    } else {
        1
    }
}

/// `tokens[0]` is a string literal.
pub open spec fn starts_with_str_lit(s: Seq<TokenTree>) -> bool {
    s.len() > 0 && (s[0] matches TokenTree::Literal(_, is_str) && is_str)
}

impl FmtAttribute {
    /// Parses a formatting attribute: a string literal, an optional `,`, then
    /// arguments that must take up all the remaining tokens.
    pub fn parse(tokens: &Vec<TokenTree>) -> (r: Result<FmtAttribute, FmtAttributeError>)
        ensures
            !starts_with_str_lit(tokens@) ==> r == Err::<FmtAttribute, FmtAttributeError>(
                FmtAttributeError::ExpectedStringLiteral,
            ),
            starts_with_str_lit(tokens@) ==> {
                let (args, end) = spec_arguments(tokens@, args_start(tokens@));
                &&& end < tokens.len() ==> r == Err::<FmtAttribute, FmtAttributeError>(
                    FmtAttributeError::UnexpectedToken(end as usize),
                )
                &&& end >= tokens.len() ==> (r matches Ok(attr) && attr.args.len() == args.len()
                    && forall|i: int|
                    0 <= i < args.len() ==> argument_is(
                        #[trigger] attr.args[i],
                        tokens@,
                        args[i].0,
                        args[i].1,
                    ))
            },
            r matches Ok(attr) ==> (tokens@[0] matches TokenTree::Literal(t, true) && attr.lit@
                == t@),
    {
        if tokens.len() == 0 {
            return Err(FmtAttributeError::ExpectedStringLiteral);
        }
        let lit = match &tokens[0] {
            TokenTree::Literal(text, true) => text.clone(),
            _ => {
                return Err(FmtAttributeError::ExpectedStringLiteral);
            },
        };
        let mut cursor: usize = if is_punct_at(tokens, 1, ',') {
            2
        } else {
            1
        };
        let mut args: Vec<FmtArgument> = Vec::new();
        let ghost start = cursor as int;
        let ghost mut done: Seq<(Option<int>, ExprShape)> = seq![];
        loop
            invariant
                starts_with_str_lit(tokens@),
                tokens@[0] matches TokenTree::Literal(t, true) && lit@ == t@,
                start == args_start(tokens@),
                start <= cursor <= tokens.len(),
                args.len() == done.len(),
                forall|i: int|
                    0 <= i < done.len() ==> argument_is(
                        #[trigger] args[i],
                        tokens@,
                        done[i].0,
                        done[i].1,
                    ),
                spec_arguments(tokens@, start) == ({
                    let (rest, end) = spec_arguments(tokens@, cursor as int);
                    (done + rest, end)
                }),
            decreases tokens.len() - cursor,
        {
            match FmtArgument::parse(tokens, cursor) {
                Some((arg, c)) => {
                    proof {
                        let (alias, shape, q) = spec_argument(tokens@, cursor as int).unwrap();
                        let (rest, end) = spec_arguments(tokens@, q);
                        assert(done + (seq![(alias, shape)] + rest) =~= done.push((alias, shape))
                            + rest);
                        done = done.push((alias, shape));
                    }
                    args.push(arg);
                    cursor = c;
                },
                None => {
                    proof {
                        assert(done + seq![] =~= done);
                    }
                    if cursor < tokens.len() {
                        return Err(FmtAttributeError::UnexpectedToken(cursor));
                    }
                    return Ok(FmtAttribute { lit, args });
                },
            }
        }
    }
}

/// A literal, as the legacy syntax checks read it.
#[derive(Debug)]
pub enum Literal {
    /// A string literal, by its value.
    Str(String),
    /// Any other literal.
    Other,
}

/// The parts of the current syntax that the first `n` literals of a legacy
/// `fmt = ...` give: the first, where it is a string, quoted; the later
/// strings as they are; other literals nothing.
pub open spec fn legacy_fmt_parts(lits: Seq<Literal>, n: int) -> Seq<Seq<char>>
    decreases n,
{
    if n <= 0 {
        Seq::empty()
    } else {
        let prev = legacy_fmt_parts(lits, n - 1);
        match lits[n - 1] {
            Literal::Str(v) => prev.push(
                if n - 1 == 0 {
                    "\""@ + v@ + "\""@
                } else {
                    v@
                },
            ),
            Literal::Other => prev,
        }
    }
}

/// The error for the legacy `fmt = ...` syntax, where there is one: the
/// attribute starts with `fmt =` followed by a list of literals of which
/// some are strings.
pub open spec fn legacy_fmt_error(head: Option<String>, literals: Option<Vec<Literal>>) -> Option<
    Seq<char>,
> {
    match (head, literals) {
        (Some(h), Some(ls)) => {
            let parts = legacy_fmt_parts(ls@, ls@.len() as int);
            if h@ == "fmt"@ && parts.len() > 0 {
                Some(
                    "legacy syntax, remove `fmt =` and use `"@ + joined(parts, ", "@)
                        + "` instead"@,
                )
            } else {
                None
            }
        },
        _ => None,
    }
}

impl FmtAttribute {
    /// Checks a formatting attribute for the legacy syntax
    /// `fmt = "...", args...` and gives the error that shows the current one.
    /// `head` holds the path that the attribute starts with where `=`
    /// follows it; `literals`, the comma-separated literals after the `=`,
    /// where they read as such.
    pub fn check_legacy_fmt(head: &Option<String>, literals: &Option<Vec<Literal>>) -> (r: Result<
        (),
        String,
    >)
        ensures
            match r {
                Ok(_) => legacy_fmt_error(*head, *literals) is None,
                Err(m) => legacy_fmt_error(*head, *literals) == Some(m@),
            },
    {
        let h = match head {
            Some(h) => h,
            None => {
                return Ok(());
            },
        };
        let ls = match literals {
            Some(ls) => ls,
            None => {
                return Ok(());
            },
        };
        if !text_is(h, "fmt") {
            return Ok(());
        }
        let mut parts: Vec<String> = Vec::new();
        let mut i: usize = 0;
        while i < ls.len()
            invariant
                i <= ls.len(),
                views(parts@) == legacy_fmt_parts(ls@, i as int),
            decreases ls.len() - i,
        {
            let ghost before = parts@;
            match &ls[i] {
                Literal::Str(v) => {
                    if i == 0 {
                        let mut q = String::from_str("\"");
                        q.append(v.as_str());
                        q.append("\"");
                        parts.push(q);
                    } else {
                        parts.push(v.clone());
                    }
                    assert(views(parts@) =~= views(before).push(parts@.last()@));
                },
                Literal::Other => {},
            }
            i = i + 1;
        }
        if parts.len() == 0 {
            return Ok(());
        }
        let mut m = String::from_str("legacy syntax, remove `fmt =` and use `");
        m.append(join(&parts, ", ").as_str());
        m.append("` instead");
        Err(m)
    }
}

/// The error for the legacy `bound = "..."` syntax, where there is one.
pub open spec fn legacy_bound_error(head: Option<String>, literal: Option<Literal>) -> Option<
    Seq<char>,
> {
    match (head, literal) {
        (Some(h), Some(Literal::Str(v))) => if h@ == "bound"@ {
            Some("legacy syntax, use `bound("@ + v@ + ")` instead"@)
        } else {
            None
        },
        _ => None,
    }
}

/// Checks a bounds attribute for the legacy syntax `bound = "..."` and
/// gives the error that shows the current one. `head` holds the path that
/// the attribute starts with where `=` follows it; `literal`, the literal
/// after the `=`, where there is one.
pub fn check_legacy_bound(head: &Option<String>, literal: &Option<Literal>) -> (r: Result<
    (),
    String,
>)
    ensures
        match r {
            Ok(_) => legacy_bound_error(*head, *literal) is None,
            Err(m) => legacy_bound_error(*head, *literal) == Some(m@),
        },
{
    match (head, literal) {
        (Some(h), Some(Literal::Str(v))) => {
            if text_is(h, "bound") {
                let mut m = String::from_str("legacy syntax, use `bound(");
                m.append(v.as_str());
                m.append(")` instead");
                Err(m)
            } else {
                Ok(())
            }
        },
        _ => Ok(()),
    }
}

/// The argument that a placeholder of a formatting string formats.
#[derive(Debug)]
pub enum Parameter {
    /// `{name}`
    Named(String),
    /// `{}` (numbered in order) or `{0}`
    Positional(usize),
}

/// The fields of the struct or variant being formatted.
#[derive(Debug)]
pub enum FieldNames {
    /// Named fields, by their names.
    Named(Vec<String>),
    /// This many positional fields (`_0`, `_1`, ...).
    Unnamed(usize),
    Unit,
}

/// The position of the first argument among the first `n` whose alias is
/// `name`.
pub open spec fn alias_position(args: Seq<FmtArgument>, name: Seq<char>, n: int) -> Option<int>
    decreases n,
{
    if n <= 0 {
        None
    } else {
        match alias_position(args, name, n - 1) {
            Some(k) => Some(k),
            None => if args[n - 1].alias matches Some(a) && a@ == name {
                Some(n - 1)
            } else {
                None
            },
        }
    }
}

/// A named placeholder refers to the first argument with its alias: the
/// position found has that alias, and no earlier argument has it; where
/// none is found, no argument has it.
pub proof fn lemma_alias_position_is_first(args: Seq<FmtArgument>, name: Seq<char>, n: int)
    requires
        0 <= n <= args.len(),
    ensures
        match alias_position(args, name, n) {
            Some(k) => 0 <= k < n && (args[k].alias matches Some(a) && a@ == name) && forall|j: int|
                0 <= j < k ==> !(#[trigger] args[j].alias matches Some(a) && a@ == name),
            None => forall|j: int| 0 <= j < n ==> !(#[trigger] args[j].alias matches Some(a) && a@ == name),
        },
    decreases n,
{
    if n > 0 {
        lemma_alias_position_is_first(args, name, n - 1);
    }
}

/// A name refers to the first field with that name: the position found
/// holds the name, and no earlier one does; where none is found, no field
/// holds it.
pub proof fn lemma_name_position_is_first(names: Seq<String>, name: Seq<char>, n: int)
    requires
        0 <= n <= names.len(),
    ensures
        match name_position(names, name, n) {
            Some(k) => 0 <= k < n && names[k]@ == name && forall|j: int|
                0 <= j < k ==> (#[trigger] names[j])@ != name,
            None => forall|j: int| 0 <= j < n ==> (#[trigger] names[j])@ != name,
        },
    decreases n,
{
    if n > 0 {
        lemma_name_position_is_first(names, name, n - 1);
    }
}

/// The identifier that an argument's expression is, if it is one.
pub open spec fn expr_ident(a: FmtArgument) -> Option<Seq<char>> {
    match a.expr {
        FmtExpr::Ident(i) => Some(i@),
        FmtExpr::TokenStream(_) => None,
    }
}

/// The name that a placeholder formats, where that is an identifier: for a
/// named one, the expression of the argument with that alias, or else the
/// name itself; for a positional one, the expression of the argument at that
/// position, where it has no alias.
pub open spec fn placeholder_name(args: Seq<FmtArgument>, p: ArgSpec) -> Option<Seq<char>> {
    match p {
        ArgSpec::Named(n) => match alias_position(args, n, args.len() as int) {
            Some(k) => expr_ident(args[k]),
            None => Some(n),
        },
        ArgSpec::Positional(i) => if i < args.len() && args[i as int].alias is None {
            expr_ident(args[i as int])
        } else {
            None
        },
    }
}

/// The position that a name such as `_0` gives a positional field.
pub open spec fn positional_index(name: Seq<char>) -> Option<nat> {
    if name.len() > 0 && name[0] == '_' {
        parsed_usize(name.drop_first())
    } else {
        None
    }
}

/// The position of the first of the first `n` names that is `name`.
pub open spec fn name_position(names: Seq<String>, name: Seq<char>, n: int) -> Option<int>
    decreases n,
{
    if n <= 0 {
        None
    } else {
        match name_position(names, name, n - 1) {
            Some(k) => Some(k),
            None => if names[n - 1]@ == name {
                Some(n - 1)
            } else {
                None
            },
        }
    }
}

/// The field that a name refers to: a positional field by `_<position>`, a
/// named field by its name.
pub open spec fn field_of(fields: FieldNames, name: Seq<char>) -> Option<int> {
    match fields {
        FieldNames::Unnamed(n) => match positional_index(name) {
            Some(i) => if i < n {
                Some(i as int)
            } else {
                None
            },
            None => None,
        },
        FieldNames::Named(names) => if positional_index(name) is None {
            name_position(names@, name, names@.len() as int)
        } else {
            None
        },
        FieldNames::Unit => None,
    }
}

/// The fields that the first `n` placeholders format, each with the trait
/// of its placeholder; placeholders that format no field are left out.
pub open spec fn bounded_pairs(
    args: Seq<FmtArgument>,
    ps: Seq<PlaceholderSpec>,
    fields: FieldNames,
    n: int,
) -> Seq<(usize, FmtTrait)>
    decreases n,
{
    if n <= 0 {
        Seq::empty()
    } else {
        let prev = bounded_pairs(args, ps, fields, n - 1);
        match placeholder_name(args, ps[n - 1].arg) {
            Some(name) => match field_of(fields, name) {
                Some(f) => prev.push((f as usize, ps[n - 1].fmt_trait)),
                None => prev,
            },
            None => prev,
        }
    }
}

/// The position of the first argument whose alias is `name`.
fn find_alias(args: &Vec<FmtArgument>, name: &String) -> (r: Option<usize>)
    ensures
        r matches Some(k) ==> k < args@.len(),
        match r {
            Some(k) => alias_position(args@, name@, args@.len() as int) == Some(k as int),
            None => alias_position(args@, name@, args@.len() as int) is None,
        },
{
    let mut k: usize = 0;
    while k < args.len()
        invariant
            k <= args.len(),
            alias_position(args@, name@, k as int) is None,
        decreases args.len() - k,
    {
        if let Some(a) = &args[k].alias {
            if *a == *name {
                proof {
                    lemma_alias_position_stays(args@, name@, k + 1, args@.len() as int);
                }
                return Some(k);
            }
        }
        k = k + 1;
    }
    None
}

/// Once found among the first `i`, the position stays the same.
proof fn lemma_alias_position_stays(args: Seq<FmtArgument>, name: Seq<char>, i: int, n: int)
    requires
        0 <= i <= n,
        alias_position(args, name, i) is Some,
    ensures
        alias_position(args, name, n) == alias_position(args, name, i),
    decreases n - i,
{
    if i < n {
        lemma_alias_position_stays(args, name, i, n - 1);
    }
}

/// Once found among the first `i`, the position stays the same.
proof fn lemma_name_position_stays(names: Seq<String>, name: Seq<char>, i: int, n: int)
    requires
        0 <= i <= n,
        name_position(names, name, i) is Some,
    ensures
        name_position(names, name, n) == name_position(names, name, i),
    decreases n - i,
{
    if i < n {
        lemma_name_position_stays(names, name, i, n - 1);
    }
}

/// The position that a name such as `_0` gives a positional field.
fn positional_index_of(name: &String) -> (r: Option<usize>)
    ensures
        match r {
            Some(i) => positional_index(name@) == Some(i as nat),
            None => positional_index(name@) is None,
        },
{
    let s = name.as_str();
    let n = s.unicode_len();
    if n == 0 || s.get_char(0) != '_' {
        return None;
    }
    let rest = s.substring_char(1, n);
    assert(rest@ =~= name@.drop_first());
    parse_usize(rest)
}

/// The field that a name refers to.
#[verifier::loop_isolation(false)]
fn field_of_name(fields: &FieldNames, name: &String) -> (r: Option<usize>)
    ensures
        match r {
            Some(f) => field_of(*fields, name@) == Some(f as int),
            None => field_of(*fields, name@) is None,
        },
{
    match fields {
        FieldNames::Unnamed(n) => match positional_index_of(name) {
            Some(i) => if i < *n {
                Some(i)
            } else {
                None
            },
            None => None,
        },
        FieldNames::Named(names) => {
            if positional_index_of(name).is_some() {
                return None;
            }
            let mut k: usize = 0;
            while k < names.len()
                invariant
                    k <= names.len(),
                    name_position(names@, name@, k as int) is None,
                decreases names.len() - k,
            {
                if names[k] == *name {
                    proof {
                        lemma_name_position_stays(names@, name@, k + 1, names@.len() as int);
                    }
                    return Some(k);
                }
                k = k + 1;
            }
            None
        },
        FieldNames::Unit => None,
    }
}

/// The value of the string literal written as `text`, as `syn` reads it;
/// `None` where `text` is no string literal.
pub uninterp spec fn str_literal_value(text: Seq<char>) -> Option<Seq<char>>;

/// Reads the string literal written as `text` with `syn::parse_str` and
/// takes its value with `syn::LitStr::value`. The contract names the result
/// `str_literal_value` of the text and says no more: how escapes are read is
/// `syn`'s.
#[verifier::external_body]
pub(crate) fn literal_value(text: &str) -> (r: Option<String>)
    ensures
        match r {
            Some(v) => str_literal_value(text@) == Some(v@),
            None => str_literal_value(text@) is None,
        },
{
    match syn::parse_str::<syn::LitStr>(text) {
        Ok(lit) => Some(lit.value()),
        Err(_) => None,
    }
}

/// Whether a placeholder that formats `_variant` has a format spec with
/// flags, a width or a precision, or a trait other than `Display`.
pub open spec fn variant_spec_misused(args: Seq<FmtArgument>, ps: Seq<PlaceholderSpec>) -> bool {
    exists|i: int|
        0 <= i < ps.len() && placeholder_name(args, ps[i].arg) == Some("_variant"@) && (
        ps[i].modified || ps[i].fmt_trait != FmtTrait::Display)
}

/// The error for a shared attribute whose `_variant` placeholder has a
/// format spec.
pub open spec fn variant_spec_error() -> Seq<char> {
    "shared format `_variant` placeholder cannot contain format specifiers"@
}

/// Whether one of the placeholders `ps` formats the argument `name`.
pub open spec fn mentions_arg(args: Seq<FmtArgument>, ps: Seq<PlaceholderSpec>, name: Seq<char>) -> bool {
    exists|i: int| 0 <= i < ps.len() && placeholder_name(args, ps[i].arg) == Some(name)
}

impl FmtAttribute {
    /// Whether a placeholder of the formatting string formats the argument
    /// `arg` (directly, or through an alias whose expression is `arg`).
    pub fn contains_arg(&self, arg: &str) -> (r: bool)
        ensures
            match str_literal_value(self.lit@) {
                Some(v) => r == mentions_arg(self.args@, fmt_placeholders(v), arg@),
                None => !r,
            },
    {
        let v = match literal_value(self.lit.as_str()) {
            Some(v) => v,
            None => {
                return false;
            },
        };
        let placeholders = Placeholder::parse_fmt_string(v.as_str());
        let ghost ps = placeholders@.map_values(|p: Placeholder| placeholder_view(p));
        let mut i: usize = 0;
        while i < placeholders.len()
            invariant
                i <= placeholders.len(),
                ps == placeholders@.map_values(|p: Placeholder| placeholder_view(p)),
                ps == fmt_placeholders(v@),
                str_literal_value(self.lit@) == Some(v@),
                forall|k: int| 0 <= k < i ==> placeholder_name(self.args@, ps[k].arg) != Some(arg@),
            decreases placeholders.len() - i,
        {
            let name = self.resolve_name(&placeholders[i].arg);
            proof {
                assert(ps[i as int] == placeholder_view(placeholders@[i as int]));
            }
            let found = match name {
                Some(n) => str_eq(n.as_str(), arg),
                None => false,
            };
            if found {
                proof {
                    assert(0 <= i < ps.len() && placeholder_name(self.args@, ps[i as int].arg)
                        == Some(arg@));
                }
                return true;
            }
            i = i + 1;
        }
        false
    }

    /// The name that a placeholder's argument formats, where it is an
    /// identifier.
    pub fn resolve_name<'a>(&'a self, p: &'a Parameter) -> (r: Option<&'a String>)
        ensures
            match r {
                Some(x) => placeholder_name(self.args@, arg_spec_of(*p)) == Some(x@),
                None => placeholder_name(self.args@, arg_spec_of(*p)) is None,
            },
    {
        match p {
            Parameter::Named(n) => match find_alias(&self.args, n) {
                Some(k) => self.args[k].expr.ident(),
                None => Some(n),
            },
            Parameter::Positional(q) => {
                if *q < self.args.len() && self.args[*q].alias.is_none() {
                    self.args[*q].expr.ident()
                } else {
                    None
                }
            },
        }
    }

    /// Checks a shared (enum-wide) formatting attribute: a placeholder that
    /// formats `_variant` may have no format spec other than the plain
    /// `Display` one.
    pub fn check_shared_variant(&self) -> (r: Result<(), String>)
        ensures
            match str_literal_value(self.lit@) {
                Some(v) => r is Err <==> variant_spec_misused(self.args@, fmt_placeholders(v)),
                None => r is Ok,
            },
            r matches Err(m) ==> m@ == variant_spec_error(),
    {
        let v = match literal_value(self.lit.as_str()) {
            Some(v) => v,
            None => {
                return Ok(());
            },
        };
        let placeholders = Placeholder::parse_fmt_string(v.as_str());
        let ghost ps = placeholders@.map_values(|p: Placeholder| placeholder_view(p));
        let mut i: usize = 0;
        while i < placeholders.len()
            invariant
                i <= placeholders.len(),
                ps == placeholders@.map_values(|p: Placeholder| placeholder_view(p)),
                ps == fmt_placeholders(v@),
                str_literal_value(self.lit@) == Some(v@),
                forall|k: int|
                    0 <= k < i ==> !(placeholder_name(self.args@, ps[k].arg) == Some("_variant"@)
                        && (ps[k].modified || ps[k].fmt_trait != FmtTrait::Display)),
            decreases placeholders.len() - i,
        {
            let name = self.resolve_name(&placeholders[i].arg);
            proof {
                assert(ps[i as int] == placeholder_view(placeholders@[i as int]));
            }
            let misused = match name {
                Some(n) => text_is(n, "_variant") && (placeholders[i].has_modifiers
                    || placeholders[i].fmt_trait != FmtTrait::Display),
                None => false,
            };
            if misused {
                proof {
                    let k = i as int;
                    assert(placeholder_name(self.args@, ps[k].arg) == Some("_variant"@) && (
                    ps[k].modified || ps[k].fmt_trait != FmtTrait::Display));
                    assert(0 <= k < fmt_placeholders(v@).len());
                }
                return Err(
                    String::from_str(
                        "shared format `_variant` placeholder cannot contain format specifiers",
                    ),
                );
            }
            i = i + 1;
        }
        Ok(())
    }

    /// The fields that the given placeholders of this attribute's formatting
    /// string format, in order, each with the trait of its placeholder;
    /// placeholders that format something other than a field are left out.
    pub fn bounded_fields(&self, placeholders: &Vec<Placeholder>, fields: &FieldNames) -> (r: Vec<
        (usize, FmtTrait),
    >)
        ensures
            r@ == bounded_pairs(
                self.args@,
                placeholders@.map_values(|p: Placeholder| placeholder_view(p)),
                *fields,
                placeholders@.len() as int,
            ),
    {
        let ghost ps = placeholders@.map_values(|p: Placeholder| placeholder_view(p));
        let mut out: Vec<(usize, FmtTrait)> = Vec::new();
        let mut i: usize = 0;
        while i < placeholders.len()
            invariant
                i <= placeholders.len(),
                ps == placeholders@.map_values(|p: Placeholder| placeholder_view(p)),
                out@ == bounded_pairs(self.args@, ps, *fields, i as int),
            decreases placeholders.len() - i,
        {
            let name = self.resolve_name(&placeholders[i].arg);
            proof {
                assert(ps[i as int] == placeholder_view(placeholders@[i as int]));
            }
            if let Some(n) = name {
                if let Some(f) = field_of_name(fields, n) {
                    out.push((f, placeholders[i].fmt_trait));
                }
            }
            i = i + 1;
        }
        out
    }

    /// The fields that the placeholders of this attribute's formatting string
    /// format, in order, each with the trait of its placeholder; none where
    /// the literal is not read as a string.
    pub fn bounded_types(&self, fields: &FieldNames) -> (r: Vec<(usize, FmtTrait)>)
        ensures
            r@ == match str_literal_value(self.lit@) {
                Some(v) => bounded_pairs(
                    self.args@,
                    fmt_placeholders(v),
                    *fields,
                    fmt_placeholders(v).len() as int,
                ),
                None => Seq::empty(),
            },
    {
        match literal_value(self.lit.as_str()) {
            Some(v) => {
                let placeholders = Placeholder::parse_fmt_string(v.as_str());
                self.bounded_fields(&placeholders, fields)
            },
            None => Vec::new(),
        }
    }
}

} // verus!
