use std::str::FromStr;

use derive_more_impl::as_expand::{as_args, AsArgs};
use derive_more_impl::attr::{is_skip_word, words};
use derive_more_impl::from::{from_args, FromArgs};
use derive_more_impl::borrow::{field_attribute_from, FieldAttribute as BorrowField};
use derive_more_impl::decimal::parse_usize;
use derive_more_impl::naming::{flags_of, MethodFlags};
use derive_more_impl::fmt_string::{FmtTrait, Placeholder};
use derive_more_impl::into::{IntoEntry, MetaItem};
use derive_more_impl::into_grammar::{into_entries, meta_items};
use derive_more_impl::fmt::{
    closure_args, parse_until_closing, qself, turbofish, FieldNames, FmtArgument, FmtAttribute,
    FmtAttributeError, FmtExpr, Parameter,
};
use derive_more_impl::tokens::{Delimiter, Spacing, TokenTree};
use proc_macro2::TokenStream;

fn model(ts: TokenStream) -> (Vec<proc_macro2::TokenTree>, Vec<TokenTree>) {
    let raw: Vec<proc_macro2::TokenTree> = ts.into_iter().collect();
    let model = raw.iter().map(model_tree).collect();
    (raw, model)
}

fn model_tree(tt: &proc_macro2::TokenTree) -> TokenTree {
    match tt {
        proc_macro2::TokenTree::Group(g) => {
            let d = match g.delimiter() {
                proc_macro2::Delimiter::Parenthesis => Delimiter::Parenthesis,
                proc_macro2::Delimiter::Brace => Delimiter::Brace,
                proc_macro2::Delimiter::Bracket => Delimiter::Bracket,
                proc_macro2::Delimiter::None => Delimiter::Invisible,
            };
            TokenTree::Group(d, model(g.stream()).1)
        }
        proc_macro2::TokenTree::Ident(i) => TokenTree::Ident(i.to_string()),
        proc_macro2::TokenTree::Punct(p) => TokenTree::Punct(
            p.as_char(),
            if p.spacing() == proc_macro2::Spacing::Joint {
                Spacing::Joint
            } else {
                Spacing::Alone
            },
        ),
        proc_macro2::TokenTree::Literal(l) => {
            let text = l.to_string();
            let is_str = syn::parse_str::<syn::LitStr>(&text).is_ok();
            TokenTree::Literal(text, is_str)
        }
    }
}

fn render_arg(raw: &[proc_macro2::TokenTree], arg: &FmtArgument) -> String {
    let mut out = TokenStream::new();
    if let Some(alias) = &arg.alias {
        out.extend([
            proc_macro2::TokenTree::Ident(proc_macro2::Ident::new(
                alias,
                proc_macro2::Span::call_site(),
            )),
            proc_macro2::TokenTree::Punct(proc_macro2::Punct::new(
                '=',
                proc_macro2::Spacing::Alone,
            )),
        ]);
    }
    match &arg.expr {
        FmtExpr::Ident(i) => out.extend([proc_macro2::TokenTree::Ident(
            proc_macro2::Ident::new(i, proc_macro2::Span::call_site()),
        )]),
        FmtExpr::TokenStream(r) => out.extend(raw[r.start..r.end].iter().cloned()),
    }
    out.to_string()
}

fn parse_args(input: &str) -> Vec<String> {
    let (raw, toks) = model(TokenStream::from_str(&format!("\"\", {}", input)).unwrap());
    let attr = FmtAttribute::parse(&toks).unwrap();
    attr.args.iter().map(|a| render_arg(&raw, a)).collect()
}

fn assert_args(input: &str, parsed: &[&str]) {
    let fmt_args = parse_args(input);
    assert_eq!(fmt_args.len(), parsed.len(), "Expected: {parsed:?}\nFound: {fmt_args:?}");
    for (i, (found, expected)) in fmt_args.iter().zip(parsed).enumerate() {
        assert_eq!(
            *expected, found,
            "Mismatch at index {i}\nExpected: {parsed:?}\nFound: {fmt_args:?}",
        );
    }
}

fn permutations<'a>(items: &[&'a str], k: usize) -> Vec<Vec<&'a str>> {
    if k == 0 {
        return vec![vec![]];
    }
    let mut out = Vec::new();
    for i in 0..items.len() {
        let mut rest = items.to_vec();
        let first = rest.remove(i);
        for mut tail in permutations(&rest, k - 1) {
            tail.insert(0, first);
            out.push(tail);
        }
    }
    out
}

const CASES: [&str; 30] = [
    "ident",
    "alias = ident",
    "[a , b , c , d]",
    "counter += 1",
    "async { fut . await }",
    "a < b",
    "a > b",
    "{ let x = (a , b) ; }",
    "invoke (a , b)",
    "foo as f64",
    "| a , b | a + b",
    "obj . k",
    "for pat in expr { break pat ; }",
    "if expr { true } else { false }",
    "vector [2]",
    "1",
    "\"foo\"",
    "loop { break i ; }",
    "format ! (\"{}\" , q)",
    "match n { Some (n) => { } , None => { } }",
    "x . foo ::< T > (a , b)",
    "x . foo ::< T < [T < T >; if a < b { 1 } else { 2 }] >, { a < b } > (a , b)",
    "(a + b)",
    "i32 :: MAX",
    "1 .. 2",
    "& a",
    "[0u8 ; N]",
    "(a , b , c , d)",
    "< Ty as Trait > :: T",
    "< Ty < Ty < T >, { a < b } > as Trait < T > > :: T",
];

fn run_cases() {
    assert_args("", &[]);
    for i in 1..4 {
        for permutation in permutations(&CASES, i) {
            let mut input = permutation.join(",");
            assert_args(&input, &permutation);
            input.push(',');
            assert_args(&input, &permutation);
        }
    }
}

#[test]
fn mod_cases() {
    run_cases();
}

#[test]
fn display_cases() {
    run_cases();
}

#[test]
fn single_identifier_and_alias() {
    let (_, toks) = model(TokenStream::from_str("a = b, c").unwrap());
    let (arg, next) = FmtArgument::parse(&toks, 0).unwrap();
    assert_eq!(arg.alias.as_deref(), Some("a"));
    assert!(matches!(&arg.expr, FmtExpr::Ident(i) if i == "b"));
    assert_eq!(arg.expr.ident().map(String::as_str), Some("b"));
    assert!(!arg.expr.is_empty());
    assert_eq!(next, 4);
    let (arg, next) = FmtArgument::parse(&toks, next).unwrap();
    assert!(arg.alias.is_none());
    assert_eq!(next, 5);
    assert!(FmtArgument::parse(&toks, next).is_none());
}

#[test]
fn nested_runs() {
    // `x :: < a , b > , c`
    let (_, toks) = model(TokenStream::from_str("x::<a, b>, c").unwrap());
    assert_eq!(turbofish(&toks, 1), Some(8));
    assert_eq!(turbofish(&toks, 0), None);
    let (_, toks) = model(TokenStream::from_str("|a, b| a").unwrap());
    assert_eq!(closure_args(&toks, 0), Some(5));
    let (_, toks) = model(TokenStream::from_str("<A as B>::C").unwrap());
    assert_eq!(qself(&toks, 0), Some(7));
    let (_, toks) = model(TokenStream::from_str("<A as B> C").unwrap());
    assert_eq!(qself(&toks, 0), None);
    // Unbalanced: runs to the end.
    let (_, toks) = model(TokenStream::from_str("< a < b >").unwrap());
    assert_eq!(parse_until_closing('<', '>', &toks, 1), 5);
}

#[test]
fn attribute_errors() {
    let (_, toks) = model(TokenStream::from_str("a, b").unwrap());
    assert_eq!(
        FmtAttribute::parse(&toks).unwrap_err(),
        FmtAttributeError::ExpectedStringLiteral
    );
    let (_, toks) = model(TokenStream::from_str("\"{}\", a,, b").unwrap());
    assert_eq!(
        FmtAttribute::parse(&toks).unwrap_err(),
        FmtAttributeError::UnexpectedToken(4)
    );
    let (_, toks) = model(TokenStream::from_str("\"{}\" a").unwrap());
    let attr = FmtAttribute::parse(&toks).unwrap();
    assert_eq!(attr.lit, "\"{}\"");
    assert_eq!(attr.args.len(), 1);
}

fn ph(arg: Parameter, fmt_trait: FmtTrait) -> Placeholder {
    Placeholder { arg, width: None, precision: None, fmt_trait, has_modifiers: false }
}

#[test]
fn placeholders_resolve_to_fields() {
    let (_, tokens) = model(TokenStream::from_str(r#""{} {x} {} {y} {2}", _1, x = _0, a + b"#).unwrap());
    let attr = FmtAttribute::parse(&tokens).unwrap();
    let placeholders = vec![
        ph(Parameter::Positional(0), FmtTrait::Display),
        ph(Parameter::Named("x".to_string()), FmtTrait::Debug),
        ph(Parameter::Positional(1), FmtTrait::Display),
        ph(Parameter::Named("_3".to_string()), FmtTrait::Display),
        ph(Parameter::Positional(2), FmtTrait::Display),
        ph(Parameter::Positional(7), FmtTrait::Display),
    ];
    // `{}` is `_1`; `{x}` is `_0` by its alias; the second `{}` has an alias
    // and resolves to nothing; `{_3}` is past the fields; `{2}` is `a + b`.
    assert_eq!(
        attr.bounded_fields(&placeholders, &FieldNames::Unnamed(3)),
        vec![(1, FmtTrait::Display), (0, FmtTrait::Debug)],
    );
    let named = FieldNames::Named(vec!["a".to_string(), "x".to_string(), "_1".to_string()]);
    let (_, tokens) = model(TokenStream::from_str(r#""{a} {b} {c}", c = x"#).unwrap());
    let attr = FmtAttribute::parse(&tokens).unwrap();
    let ps = vec![
        ph(Parameter::Named("a".to_string()), FmtTrait::LowerHex),
        ph(Parameter::Named("b".to_string()), FmtTrait::Display),
        ph(Parameter::Named("c".to_string()), FmtTrait::Octal),
        ph(Parameter::Named("_1".to_string()), FmtTrait::Display),
    ];
    assert_eq!(
        attr.bounded_fields(&ps, &named),
        vec![(0, FmtTrait::LowerHex), (1, FmtTrait::Octal)],
    );
    assert!(attr.bounded_fields(&ps, &FieldNames::Unit).is_empty());
}

#[test]
fn bounded_types_read_the_literal() {
    let (_, tokens) = model(TokenStream::from_str(r#""{} {x:?} {_1:x} {{}}", _1, x = _0"#).unwrap());
    let attr = FmtAttribute::parse(&tokens).unwrap();
    assert_eq!(
        attr.bounded_types(&FieldNames::Unnamed(2)),
        vec![(1, FmtTrait::Display), (0, FmtTrait::Debug), (1, FmtTrait::LowerHex)],
    );
    // The literal's escapes are read: `\u{7b}` is `{`.
    let (_, tokens) = model(TokenStream::from_str(r#""\u{7b}}", _0"#).unwrap());
    let attr = FmtAttribute::parse(&tokens).unwrap();
    assert_eq!(attr.bounded_types(&FieldNames::Unnamed(1)), vec![(0, FmtTrait::Display)]);
    // A raw string is read too.
    let (_, tokens) = model(TokenStream::from_str(r##"r#"{a:e}"#"##).unwrap());
    let attr = FmtAttribute::parse(&tokens).unwrap();
    let named = FieldNames::Named(vec!["a".to_string()]);
    assert_eq!(attr.bounded_types(&named), vec![(0, FmtTrait::LowerExp)]);
    // An unreadable formatting string bounds nothing.
    let (_, tokens) = model(TokenStream::from_str(r#""{a", a"#).unwrap());
    let attr = FmtAttribute::parse(&tokens).unwrap();
    assert!(attr.bounded_types(&named).is_empty());
}

#[test]
fn usize_parsing() {
    assert_eq!(parse_usize("0"), Some(0));
    assert_eq!(parse_usize("042"), Some(42));
    assert_eq!(parse_usize("+7"), Some(7));
    assert_eq!(parse_usize(""), None);
    assert_eq!(parse_usize("+"), None);
    assert_eq!(parse_usize("-1"), None);
    assert_eq!(parse_usize("1a"), None);
    assert_eq!(parse_usize(&usize::MAX.to_string()), Some(usize::MAX));
    assert_eq!(parse_usize("99999999999999999999999"), None);
    for n in [0usize, 9, 10, 12345, usize::MAX] {
        assert_eq!(parse_usize(&n.to_string()), n.to_string().parse::<usize>().ok());
    }
}

#[test]
fn equality_is_an_expression_not_an_alias() {
    let (raw, toks) = model(TokenStream::from_str(r#""{}", a == b, x = y"#).unwrap());
    let attr = FmtAttribute::parse(&toks).unwrap();
    assert_eq!(attr.args.len(), 2);
    assert!(attr.args[0].alias.is_none());
    assert_eq!(render_arg(&raw, &attr.args[0]), "a == b");
    assert_eq!(attr.args[1].alias.as_deref(), Some("x"));
    let (_, toks) = model(TokenStream::from_str(r#""{}", f => g"#).unwrap());
    let attr = FmtAttribute::parse(&toks).unwrap();
    assert!(attr.args[0].alias.is_none());
}

#[test]
fn formatting_literal_is_kept() {
    let (_, toks) = model(TokenStream::from_str(r#""a {} b", x"#).unwrap());
    assert_eq!(FmtAttribute::parse(&toks).unwrap().lit, "\"a {} b\"");
    let (_, toks) = model(TokenStream::from_str(r#""", "#).unwrap());
    let attr = FmtAttribute::parse(&toks).unwrap();
    assert_eq!(attr.lit, "\"\"");
    assert!(attr.args.is_empty());
}

#[test]
fn shared_variant_placeholder_has_no_spec() {
    let check = |src: &str| {
        let (_, toks) = model(TokenStream::from_str(src).unwrap());
        FmtAttribute::parse(&toks).unwrap().check_shared_variant()
    };
    assert!(check(r#""<{_variant}>""#).is_ok());
    assert!(check(r#""<{}>", _variant"#).is_ok());
    assert!(check(r#""{x:?}", x"#).is_ok());
    let err = "shared format `_variant` placeholder cannot contain format specifiers";
    assert_eq!(check(r#""{_variant:?}""#).unwrap_err(), err);
    assert_eq!(check(r#""{_variant:>5}""#).unwrap_err(), err);
    assert_eq!(check(r#""{v:.3}", v = _variant"#).unwrap_err(), err);
    assert_eq!(check(r#""{0:x}", _variant"#).unwrap_err(), err);
}

#[test]
fn shared_attribute_mentions_variant() {
    let mentions = |src: &str| {
        let (_, toks) = model(TokenStream::from_str(src).unwrap());
        FmtAttribute::parse(&toks).unwrap().contains_arg("_variant")
    };
    assert!(mentions(r#""<{_variant}>""#));
    assert!(mentions(r#""<{}>", _variant"#));
    assert!(mentions(r#""{v}", v = _variant"#));
    assert!(mentions(r#""{0}{_variant:?}", x"#));
    assert!(!mentions(r#""<{}>", x"#));
    assert!(!mentions(r#""plain""#));
    assert!(!mentions(r#""{v}", v = _variant.len()"#));
    assert!(!mentions(r#""{_variants}""#));
}

#[test]
fn placeholders_record_modifiers() {
    let mods: Vec<bool> =
        Placeholder::parse_fmt_string("{} {:?} {:5} {:.2} {:+} {:#x} {:<}")
            .iter()
            .map(|p| p.has_modifiers)
            .collect();
    assert_eq!(mods, vec![false, false, true, true, true, true, true]);
}

fn type_texts(raw: &[proc_macro2::TokenTree], ts: &[derive_more_impl::into_grammar::TypeAt]) -> Vec<String> {
    ts.iter()
        .map(|t| {
            let inner: Vec<proc_macro2::TokenTree> = match t.group {
                Some(g) => match &raw[g] {
                    proc_macro2::TokenTree::Group(gr) => gr.stream().into_iter().collect(),
                    _ => panic!("not a group"),
                },
                None => raw.to_vec(),
            };
            inner[t.range.start..t.range.end].iter().cloned().collect::<TokenStream>().to_string()
        })
        .collect()
}

#[test]
fn into_attribute_grammar() {
    let (raw, toks) = model(TokenStream::from_str("owned(i32, Vec<u8>,), ref, ref_mut(String)").unwrap());
    let (es, ts) = into_entries(&toks).unwrap();
    assert_eq!(type_texts(&raw, &ts), vec!["i32", "Vec < u8 >", "String"]);
    assert!(matches!(&es[0], IntoEntry::Owned(v) if v == &vec![0, 1]));
    assert!(matches!(&es[1], IntoEntry::Ref(v) if v.is_empty()));
    assert!(matches!(&es[2], IntoEntry::RefMut(v) if v == &vec![2]));
    let (raw, toks) = model(TokenStream::from_str("(i32, bool), HashMap<K, V>").unwrap());
    let (es, ts) = into_entries(&toks).unwrap();
    assert_eq!(type_texts(&raw, &ts), vec!["(i32 , bool)", "HashMap < K , V >"]);
    assert!(matches!(es[..], [IntoEntry::Type(0), IntoEntry::Type(1)]));
    let (_, toks) = model(TokenStream::from_str("owned((A, B) C)").unwrap());
    assert!(into_entries(&toks).is_none());
    let (_, toks) = model(TokenStream::from_str("owned(i32 i64)").unwrap());
    assert!(into_entries(&toks).is_none());
    let (raw, toks) = model(TokenStream::from_str("i32 i64").unwrap());
    let (es, ts) = into_entries(&toks).unwrap();
    assert_eq!(type_texts(&raw, &ts), vec!["i32", "i64"]);
    assert!(matches!(es[..], [IntoEntry::Type(0), IntoEntry::Type(1)]));
    let (_, toks) = model(TokenStream::from_str("").unwrap());
    assert!(into_entries(&toks).unwrap().0.is_empty());
}

#[test]
fn legacy_items_grammar() {
    let (_, toks) = model(TokenStream::from_str(r#"types(i32, "String"), owned(types(a::B)), 5, ref"#).unwrap());
    let items = meta_items(&toks).unwrap();
    assert_eq!(items.len(), 4);
    match &items[0] {
        MetaItem::List(p, Some(args)) => {
            assert_eq!(p, "types");
            assert!(matches!(&args[0], MetaItem::Path(x) if x == "i32"));
            assert!(matches!(&args[1], MetaItem::Str(x) if x == "String"));
        }
        other => panic!("{other:?}"),
    }
    match &items[1] {
        MetaItem::List(p, Some(args)) => {
            assert_eq!(p, "owned");
            assert!(matches!(&args[0], MetaItem::List(q, Some(inner))
                if q == "types" && matches!(&inner[0], MetaItem::Path(x) if x == "a :: B")));
        }
        other => panic!("{other:?}"),
    }
    assert!(matches!(items[2], MetaItem::Other));
    assert!(matches!(&items[3], MetaItem::Path(x) if x == "ref"));
    let (_, toks) = model(TokenStream::from_str("a b").unwrap());
    assert!(meta_items(&toks).is_none());
    let (_, toks) = model(TokenStream::from_str("types(a b)").unwrap());
    assert!(matches!(&meta_items(&toks).unwrap()[0], MetaItem::List(_, None)));
}

#[test]
fn attribute_words() {
    let toks = |s: &str| model(TokenStream::from_str(s).unwrap()).1;
    assert!(is_skip_word(&toks("skip")));
    assert!(is_skip_word(&toks("ignore")));
    assert!(!is_skip_word(&toks("skip, ignore")));
    assert!(!is_skip_word(&toks("forward")));
    assert_eq!(words(&toks("owned, ref,")).unwrap(), vec!["owned", "ref"]);
    assert!(words(&toks("owned ref")).is_none());
    assert!(words(&toks("")).unwrap().is_empty());
    assert_eq!(field_attribute_from(&None), Some(BorrowField::Direct));
    assert_eq!(field_attribute_from(&Some(toks("forward"))), Some(BorrowField::Forward));
    assert_eq!(field_attribute_from(&Some(toks("ignore"))), Some(BorrowField::Skip));
    assert_eq!(field_attribute_from(&Some(toks("other"))), None);
    let w = |xs: &[&str]| xs.iter().map(|x| x.to_string()).collect::<Vec<_>>();
    let all = MethodFlags { owned: true, by_ref: true, by_ref_mut: true };
    assert_eq!(flags_of(&w(&[])), (false, all));
    assert_eq!(flags_of(&w(&["ignore"])), (true, all));
    assert_eq!(
        flags_of(&w(&["ref", "ref_mut"])),
        (false, MethodFlags { owned: false, by_ref: true, by_ref_mut: true }),
    );
}

#[test]
fn conversion_attribute_forms() {
    let toks = |s: &str| model(TokenStream::from_str(s).unwrap()).1;
    assert_eq!(from_args(&toks(""), true), FromArgs::From);
    assert_eq!(from_args(&toks(""), false), FromArgs::Types);
    assert_eq!(from_args(&toks("forward"), false), FromArgs::Forward);
    assert_eq!(from_args(&toks("forward"), true), FromArgs::Forward);
    assert_eq!(from_args(&toks("skip"), true), FromArgs::Skip);
    assert_eq!(from_args(&toks("ignore"), true), FromArgs::Skip);
    assert_eq!(from_args(&toks("skip"), false), FromArgs::Types);
    assert_eq!(from_args(&toks("types(i32, \"String\")"), false), FromArgs::Legacy);
    assert_eq!(from_args(&toks("forward, i32"), false), FromArgs::Types);
    assert_eq!(from_args(&toks("i32, Vec<u8>"), true), FromArgs::Types);
    assert_eq!(as_args(&toks(""), true), AsArgs::Empty);
    assert_eq!(as_args(&toks(""), false), AsArgs::Types);
    assert_eq!(as_args(&toks("skip"), true), AsArgs::Skip);
    assert_eq!(as_args(&toks("skip"), false), AsArgs::Types);
    assert_eq!(as_args(&toks("forward"), true), AsArgs::Forward);
    assert_eq!(as_args(&toks("forward"), false), AsArgs::Forward);
    assert_eq!(as_args(&toks("str, [u8]"), true), AsArgs::Types);
}

#[test]
fn arguments_cover_their_tokens() {
    let (_, toks) = model(TokenStream::from_str(r#""", a < b, x = y.z, w,"#).unwrap());
    assert_eq!(toks.len(), 14);
    let attr = FmtAttribute::parse(&toks).unwrap();
    assert_eq!(attr.args.len(), 3);
    assert!(attr.args[0].alias.is_none());
    assert!(matches!(&attr.args[0].expr, FmtExpr::TokenStream(r) if (r.start, r.end) == (2, 5)));
    assert_eq!(attr.args[1].alias.as_deref(), Some("x"));
    assert!(matches!(&attr.args[1].expr, FmtExpr::TokenStream(r) if (r.start, r.end) == (8, 11)));
    assert!(attr.args[2].alias.is_none());
    assert!(matches!(&attr.args[2].expr, FmtExpr::Ident(i) if i == "w"));
}
