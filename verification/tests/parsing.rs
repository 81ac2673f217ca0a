use std::str::FromStr;

use derive_more_impl::parsing::{
    alt, balanced_pair, parse_other, parse_type, parse_types, punct, take_until1, token_tree,
    Parser, Type,
};
use derive_more_impl::into_grammar::read_type_list;
use derive_more_impl::tokens::{push_text, Delimiter, Spacing, TokenTree};
use proc_macro2::TokenStream;

fn model(ts: TokenStream) -> (Vec<proc_macro2::TokenTree>, Vec<TokenTree>) {
    let raw: Vec<proc_macro2::TokenTree> = ts.into_iter().collect();
    let model = raw.iter().map(model_tree).collect();
    (raw, model)
}

fn model_tree(tt: &proc_macro2::TokenTree) -> TokenTree {
    match tt {
        proc_macro2::TokenTree::Group(g) => {
            let d = match g.delimiter() {
                proc_macro2::Delimiter::Parenthesis => Delimiter::Parenthesis,
                proc_macro2::Delimiter::Brace => Delimiter::Brace,
                proc_macro2::Delimiter::Bracket => Delimiter::Bracket,
                proc_macro2::Delimiter::None => Delimiter::Invisible,
            };
            TokenTree::Group(d, model(g.stream()).1)
        }
        proc_macro2::TokenTree::Ident(i) => TokenTree::Ident(i.to_string()),
        proc_macro2::TokenTree::Punct(p) => TokenTree::Punct(
            p.as_char(),
            if p.spacing() == proc_macro2::Spacing::Joint {
                Spacing::Joint
            } else {
                Spacing::Alone
            },
        ),
        proc_macro2::TokenTree::Literal(l) => {
            let text = l.to_string();
            let is_str = syn::parse_str::<syn::LitStr>(&text).is_ok();
            TokenTree::Literal(text, is_str)
        }
    }
}

fn render(raw: &[proc_macro2::TokenTree]) -> String {
    raw.iter().cloned().collect::<TokenStream>().to_string()
}

fn render_type(raw: &[proc_macro2::TokenTree], pos: usize, ty: &Type) -> String {
    match ty {
        Type::Other(r) => render(&raw[r.start..r.end]),
        Type::Tuple {
            items,
            trailing_comma,
        } => {
            let proc_macro2::TokenTree::Group(g) = &raw[pos] else {
                panic!("a tuple is a group");
            };
            let inner: Vec<proc_macro2::TokenTree> = g.stream().into_iter().collect();
            let mut out = TokenStream::new();
            for (i, item) in items.iter().enumerate() {
                out.extend(inner[item.start..item.end].iter().cloned());
                if i + 1 < items.len() || *trailing_comma {
                    out.extend([proc_macro2::TokenTree::Punct(proc_macro2::Punct::new(
                        ',',
                        proc_macro2::Spacing::Alone,
                    ))]);
                }
            }
            let group = proc_macro2::Group::new(proc_macro2::Delimiter::Parenthesis, out);
            proc_macro2::TokenTree::Group(group).to_string()
        }
    }
}

fn parse_one(input: &str) -> (Vec<proc_macro2::TokenTree>, Type, usize) {
    let (raw, toks) = model(TokenStream::from_str(input).unwrap());
    let (ty, next) = parse_type(&toks, 0).expect("a type");
    (raw, ty, next)
}

/// Types separated by `,`, with an optional trailing `,`, up to the end.
fn parse_terminated(input: &str) -> Vec<String> {
    let (raw, toks) = model(TokenStream::from_str(input).unwrap());
    parse_types(&toks)
        .expect("types")
        .iter()
        .map(|run| {
            let (ty, next) = parse_type(&toks, run.start).expect("a type");
            assert_eq!(next, run.end);
            render_type(&raw, run.start, &ty)
        })
        .collect()
}

fn assert_types(input: &str, parsed: &[&str]) {
    let found = parse_terminated(input);
    assert_eq!(
        parsed.len(),
        found.len(),
        "Wrong length\nExpected: {parsed:?}\nFound: {found:?}",
    );
    for (i, (found, expected)) in found.iter().zip(parsed).enumerate() {
        assert_eq!(
            expected, found,
            "Mismatch at index {i}\nExpected: {parsed:?}\nFound: {found:?}",
        );
    }
}

fn permutations<'a>(items: &[&'a str], k: usize) -> Vec<Vec<&'a str>> {
    if k == 0 {
        return vec![vec![]];
    }
    let mut out = Vec::new();
    for i in 0..items.len() {
        let mut rest = items.to_vec();
        let first = rest.remove(i);
        for mut tail in permutations(&rest, k - 1) {
            tail.insert(0, first);
            out.push(tail);
        }
    }
    out
}

#[test]
fn zst_is_tuple() {
    let (_, ty, _) = parse_one("()");
    match ty {
        Type::Tuple { items, .. } => {
            assert!(items.is_empty(), "Expected empty tuple, found: {items:?}");
        }
        other => panic!("Expected `Type::Tuple {{ .. }}`, found: {other:?}"),
    }
}

#[test]
fn group_not_tuple() {
    let group = "(Type)";
    let (raw, ty, _) = parse_one(group);
    match ty {
        Type::Other(range) => {
            assert_eq!(render(&raw[range.start..range.end]), group);
        }
        tuple => panic!("Expected `Type::Other(_)`, found: {tuple:?}"),
    }
}

#[test]
fn single_element_tuple() {
    let tuple = "(Type,)";
    let (raw, ty, _) = parse_one(tuple);
    match ty {
        Type::Tuple { items, .. } => {
            assert_eq!(items.len(), 1, "Expected empty tuple, found: {items:?}");
            let proc_macro2::TokenTree::Group(g) = &raw[0] else {
                panic!("a group");
            };
            let inner: Vec<proc_macro2::TokenTree> = g.stream().into_iter().collect();
            assert_eq!(render(&inner[items[0].start..items[0].end]), "Type");
        }
        other => panic!("Expected `Type::Tuple {{ .. }}`, found: {other:?}"),
    }
}

#[test]
fn parsing_cases() {
    let cases = [
        "[Type ; 3]",
        "fn (usize) -> bool",
        "for <'a > fn (&'a usize) -> bool",
        "(Type)",
        "path :: to :: Type",
        "path :: to :: Generic < Type >",
        "< Type as Trait >:: Assoc",
        "< Type as Trait >:: Assoc < GAT >",
        "* const ()",
        "* mut ()",
        "& i32",
        "&'static str",
        "& [str]",
        "dyn Trait",
        "dyn Trait + Send",
        "()",
        "(Type ,)",
        "(Type , Type)",
        "(Type , Type ,)",
    ];

    assert_types("", &[]);
    for i in 1..4 {
        for permutation in permutations(&cases, i) {
            let mut input = permutation.join(",");
            assert_types(&input, &permutation);
            input.push(',');
            assert_types(&input, &permutation);
        }
    }
}

#[test]
fn parse_other_stops_at_top_level_comma() {
    let (_, toks) = model(TokenStream::from_str("Map<K, V>, u8").unwrap());
    // `Map < K , V >` is 6 tokens, followed by `,`.
    assert_eq!(parse_other(&toks, 0), Some(6));
    assert_eq!(parse_other(&toks, 6), None);
    assert_eq!(parse_other(&toks, 7), Some(8));
    assert_eq!(parse_other(&toks, 8), None);
}

#[test]
fn parse_other_takes_unbalanced_angle_as_single_token() {
    // An unclosed `<` is not a balanced pair, so it is read token by token.
    let (_, toks) = model(TokenStream::from_str("a < b, c").unwrap());
    assert_eq!(parse_other(&toks, 0), Some(3));
}

#[test]
fn combinators_compose() {
    let (_, toks) = model(TokenStream::from_str("< < a > > b , c").unwrap());
    let pair = balanced_pair(punct('<'), punct('>'));
    assert_eq!(pair.apply(&toks, 0), Some(5));
    assert_eq!(pair.apply(&toks, 5), None);
    assert_eq!(token_tree(&toks, 5), Some(6));
    assert_eq!(token_tree(&toks, toks.len()), None);
    let either = alt(balanced_pair(punct('<'), punct('>')), Parser::TokenTree);
    assert_eq!(either.apply(&toks, 5), Some(6));
    let until = take_until1(
        alt(balanced_pair(punct('<'), punct('>')), Parser::TokenTree),
        punct(','),
    );
    assert_eq!(until.apply(&toks, 0), Some(6));
    assert_eq!(until.apply(&toks, 6), None);
    assert_eq!(punct(',').apply(&toks, 6), Some(7));
}

#[test]
fn failed_to_parse_type() {
    let (_, toks) = model(TokenStream::from_str("(a, , b)").unwrap());
    assert!(parse_type(&toks, 0).is_err());
    let (_, toks) = model(TokenStream::from_str("").unwrap());
    assert!(parse_type(&toks, 0).is_err());
}

#[test]
fn type_list_covers_its_tokens() {
    let (_, toks) = model(TokenStream::from_str("i32, (u8, String), Vec<T>,").unwrap());
    let places = read_type_list(&toks, 0).unwrap();
    let ranges: Vec<(usize, usize)> =
        places.iter().map(|p| (p.range.start, p.range.end)).collect();
    assert_eq!(ranges, vec![(0, 1), (2, 3), (4, 8)]);
    assert_eq!(toks.len(), 9);
    assert!(places.iter().all(|p| p.group == Some(0)));
    let (_, toks) = model(TokenStream::from_str("").unwrap());
    assert!(read_type_list(&toks, 0).unwrap().is_empty());
    let (_, toks) = model(TokenStream::from_str(", i32").unwrap());
    assert!(read_type_list(&toks, 0).is_none());
}

#[test]
fn tuple_items_cover_the_group() {
    let (_, ty, next) = parse_one("(u8, Vec<T>,)");
    assert_eq!(next, 1);
    match ty {
        Type::Tuple { items, trailing_comma } => {
            let ranges: Vec<(usize, usize)> = items.iter().map(|r| (r.start, r.end)).collect();
            assert_eq!(ranges, vec![(0, 1), (2, 6)]);
            assert!(trailing_comma);
        }
        other => panic!("Expected `Type::Tuple {{ .. }}`, found: {other:?}"),
    }
}

#[test]
fn type_runs_cover_their_tokens() {
    let (_, toks) = model(TokenStream::from_str("i32, (u8, String), Vec<T>,").unwrap());
    let runs: Vec<(usize, usize)> =
        parse_types(&toks).unwrap().iter().map(|r| (r.start, r.end)).collect();
    assert_eq!(runs, vec![(0, 1), (2, 3), (4, 8)]);
    let (_, toks) = model(TokenStream::from_str("").unwrap());
    assert!(parse_types(&toks).unwrap().is_empty());
    let (_, toks) = model(TokenStream::from_str(", i32").unwrap());
    assert!(parse_types(&toks).is_none());
}

#[test]
fn into_types_are_read_by_syn() {
    let (_, toks) = model(TokenStream::from_str("i32 i64").unwrap());
    let places = read_type_list(&toks, 0);
    assert!(places.is_none());
    let (_, toks) = model(TokenStream::from_str("HashMap<K, V>, Box<dyn Fn(u8) -> u8>").unwrap());
    let ranges: Vec<(usize, usize)> = read_type_list(&toks, 0)
        .unwrap()
        .iter()
        .map(|p| (p.range.start, p.range.end))
        .collect();
    assert_eq!(ranges, vec![(0, 6), (7, 16)]);
}


#[test]
fn token_text_reads_back() {
    let (_, toks) = model(TokenStream::from_str("&'a std::vec::Vec<[u8; 3]>").unwrap());
    let mut out = Vec::new();
    push_text(&toks, 0, toks.len(), &mut out);
    let text: String = out.iter().collect();
    assert!(text.contains("'a "));
    assert!(text.contains(":: vec"));
    assert_eq!(
        TokenStream::from_str(&text).unwrap().to_string(),
        TokenStream::from_str("&'a std::vec::Vec<[u8; 3]>").unwrap().to_string(),
    );
}
