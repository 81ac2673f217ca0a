use derive_more_impl::fmt::Parameter;
use derive_more_impl::fmt_string::{FmtTrait, Placeholder};

#[derive(Debug, PartialEq)]
enum P {
    Named(String),
    Pos(usize),
}

fn p(param: &Parameter) -> P {
    match param {
        Parameter::Named(n) => P::Named(n.clone()),
        Parameter::Positional(i) => P::Pos(*i),
    }
}

fn summary(s: &str) -> Vec<(P, Option<P>, Option<P>, &'static str)> {
    Placeholder::parse_fmt_string(s)
        .iter()
        .map(|ph| {
            (
                p(&ph.arg),
                ph.width.as_ref().map(p),
                ph.precision.as_ref().map(p),
                ph.trait_name(),
            )
        })
        .collect()
}

fn expected_for_example() -> Vec<(P, Option<P>, Option<P>, &'static str)> {
    vec![
        (P::Pos(0), None, None, "Display"),
        (P::Pos(1), None, None, "Debug"),
        (P::Pos(1), Some(P::Pos(0)), None, "Display"),
        (P::Pos(2), None, Some(P::Pos(1)), "LowerHex"),
        (P::Named("par".to_owned()), None, None, "Debug"),
        (P::Pos(2), Some(P::Named("width".to_owned())), None, "Display"),
    ]
}

#[test]
fn display_indicates_position_and_trait_name_for_each_fmt_placeholder() {
    let fmt_string = "{},{:?},{{}},{{{1:0$}}}-{2:.1$x}{par:#?}{:width$}";
    assert_eq!(summary(fmt_string), expected_for_example());
}

#[test]
fn mod_indicates_position_and_trait_name_for_each_fmt_placeholder() {
    let fmt_string = "{},{:?},{{}},{{{1:0$}}}-{2:.1$x}{par:#?}{:width$}";
    assert_eq!(summary(fmt_string), expected_for_example());
}

#[test]
fn plain_text_has_no_placeholders() {
    assert!(summary("").is_empty());
    assert!(summary("just text").is_empty());
    assert!(summary("{{escaped}}").is_empty());
}

#[test]
fn unreadable_strings_give_no_placeholders() {
    // a lone closing brace
    assert!(summary("{} }").is_empty());
    // an unterminated placeholder
    assert!(summary("{} {").is_empty());
    // `_` alone is no identifier
    assert!(summary("{_}").is_empty());
    // a position that does not fit in a `usize`
    assert!(summary("{99999999999999999999999}").is_empty());
    // a `.` without a precision
    assert!(summary("{:.}").is_empty());
    // an unknown type
    assert!(summary("{:y}").is_empty());
}

#[test]
fn flags_fill_and_types() {
    assert_eq!(
        summary("{:*^10.3} {:>+#08e} {0:x?} {a_1:X} {:<o}{:b}{:p}{:E} { }"),
        vec![
            (P::Pos(0), None, None, "Display"),
            (P::Pos(1), None, None, "LowerExp"),
            (P::Pos(0), None, None, "Debug"),
            (P::Named("a_1".to_owned()), None, None, "UpperHex"),
            (P::Pos(2), None, None, "Octal"),
            (P::Pos(3), None, None, "Binary"),
            (P::Pos(4), None, None, "Pointer"),
            (P::Pos(5), None, None, "UpperExp"),
            (P::Pos(6), None, None, "Display"),
        ],
    );
}

#[test]
fn star_precision_and_named_precision() {
    assert_eq!(
        summary("{:.*}{x:w$.p$?}{_v}"),
        vec![
            (P::Pos(0), None, None, "Display"),
            (
                P::Named("x".to_owned()),
                Some(P::Named("w".to_owned())),
                Some(P::Named("p".to_owned())),
                "Debug",
            ),
            (P::Named("_v".to_owned()), None, None, "Display"),
        ],
    );
}

#[test]
fn non_ascii_identifiers() {
    assert_eq!(summary("{żółw}"), vec![(P::Named("żółw".to_owned()), None, None, "Display")]);
}

#[test]
fn trait_names() {
    assert_eq!(FmtTrait::Display.trait_name(), "Display");
    assert_eq!(FmtTrait::Debug.trait_name(), "Debug");
    assert_eq!(FmtTrait::LowerHex.trait_name(), "LowerHex");
    assert_eq!(FmtTrait::UpperExp.trait_name(), "UpperExp");
}

#[test]
fn implicit_positions_count_up_from_zero() {
    let got = summary("{a}{}{1}{:?}{b}{}");
    let implicit: Vec<&P> = got
        .iter()
        .enumerate()
        .filter(|(i, _)| [1, 3, 5].contains(i))
        .map(|(_, x)| &x.0)
        .collect();
    assert_eq!(implicit, vec![&P::Pos(0), &P::Pos(1), &P::Pos(2)]);
}

#[test]
fn escape_prefixes_change_nothing() {
    for s in ["{} {x:?} {}", "text {0} }}", "{:w$}", "{"] {
        assert_eq!(summary(&format!("{{{{{s}")), summary(s));
        assert_eq!(summary(&format!("}}}}{s}")), summary(s));
    }
}
