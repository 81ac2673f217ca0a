//! The placeholders of a formatting string, read by the grammar of
//! `std::fmt`:
//!
//! ```text
//! format_string := text [ maybe_format text ] *
//! maybe_format := '{' '{' | '}' '}' | format
//! format := '{' [ argument ] [ ':' format_spec ] [ ws ] * '}'
//! argument := integer | identifier
//! format_spec := [[fill]align][sign]['#']['0'][width]['.' precision]type
//! width := count
//! precision := count | '*'
//! count := parameter | integer
//! parameter := argument '$'
//! type := '' | '?' | 'x?' | 'X?' | 'e' | 'E' | 'o' | 'p' | 'b' | 'x' | 'X'
//! ```
//!
//! An identifier is a letter, `_` or a non-ASCII character, followed by
//! letters, digits, `_` and non-ASCII characters (`_` alone is none).

use vstd::prelude::*;
use vstd::string::*;

use crate::decimal::{digits_value, parse_usize};
use crate::fmt::Parameter;

verus! {

/// The argument of a placeholder, as the grammar reads it.
pub enum ArgSpec {
    Named(Seq<char>),
    Positional(nat),
}

/// The formatting trait that a placeholder's type selects.
#[derive(Debug, Clone, Copy, PartialEq, Eq, Structural)]
pub enum FmtTrait {
    Display,
    Debug,
    LowerExp,
    UpperExp,
    Octal,
    Pointer,
    Binary,
    LowerHex,
    UpperHex,
}

/// The name of a formatting trait.
pub open spec fn trait_name_of(t: FmtTrait) -> Seq<char> {
    match t {
        FmtTrait::Display => "Display"@,
        FmtTrait::Debug => "Debug"@,
        FmtTrait::LowerExp => "LowerExp"@,
        FmtTrait::UpperExp => "UpperExp"@,
        FmtTrait::Octal => "Octal"@,
        FmtTrait::Pointer => "Pointer"@,
        FmtTrait::Binary => "Binary"@,
        FmtTrait::LowerHex => "LowerHex"@,
        FmtTrait::UpperHex => "UpperHex"@,
    }
}

impl FmtTrait {
    /// The name of the trait.
    pub fn trait_name(&self) -> (r: &'static str)
        ensures
            r@ == trait_name_of(*self),
    {
        match self {
            FmtTrait::Display => "Display",
            FmtTrait::Debug => "Debug",
            FmtTrait::LowerExp => "LowerExp",
            FmtTrait::UpperExp => "UpperExp",
            FmtTrait::Octal => "Octal",
            FmtTrait::Pointer => "Pointer",
            FmtTrait::Binary => "Binary",
            FmtTrait::LowerHex => "LowerHex",
            FmtTrait::UpperHex => "UpperHex",
        }
    }
}

/// What the grammar reads of one `{...}`: its argument, the parameters of its
/// width and precision, and its trait.
pub struct FormatSpec {
    pub arg: Option<ArgSpec>,
    pub width: Option<ArgSpec>,
    pub precision: Option<ArgSpec>,
    pub fmt_trait: FmtTrait,
    /// Whether it has a format spec with flags, a width or a precision.
    pub modified: bool,
}

/// `c` is a decimal digit.
pub open spec fn is_digit(c: char) -> bool {
    '0' <= c <= '9'
}

/// `c` can begin an identifier.
pub open spec fn is_ident_start(c: char) -> bool {
    ('a' <= c <= 'z') || ('A' <= c <= 'Z') || c == '_' || (c as u32) > 127
}

/// `c` is one of the alignments `<`, `^`, `>`.
pub open spec fn is_align(c: char) -> bool {
    c == '<' || c == '^' || c == '>'
}

/// The classes of characters that the grammar reads in runs.
#[derive(Clone, Copy)]
pub enum CharClass {
    Digit,
    IdentContinue,
    Whitespace,
}

/// `c` belongs to the class `k`.
pub open spec fn in_class(c: char, k: CharClass) -> bool {
    match k {
        CharClass::Digit => is_digit(c),
        CharClass::IdentContinue => is_ident_start(c) || is_digit(c),
        CharClass::Whitespace => c == ' ' || c == '\t' || c == '\n' || c == '\r',
    }
}

/// `s[pos]` exists and is `c`.
pub open spec fn char_at(s: Seq<char>, pos: int, c: char) -> bool {
    0 <= pos < s.len() && s[pos] == c
}

/// The end of the run of characters of class `k` from `pos`.
pub open spec fn class_end(s: Seq<char>, pos: int, k: CharClass) -> int
    decreases s.len() - pos,
{
    if 0 <= pos < s.len() && in_class(s[pos], k) {
        class_end(s, pos + 1, k)
    } else {
        pos
    }
}

/// An integer at `pos` that fits a `usize`, and where it ends.
pub open spec fn spec_integer(s: Seq<char>, pos: int) -> Option<(nat, int)> {
    let e = class_end(s, pos, CharClass::Digit);
    if e > pos && digits_value(s.subrange(pos, e)) <= usize::MAX {
        Some((digits_value(s.subrange(pos, e)), e))
    } else {
        None
    }
}

/// An identifier at `pos`, and where it ends.
pub open spec fn spec_identifier(s: Seq<char>, pos: int) -> Option<(Seq<char>, int)> {
    if 0 <= pos < s.len() && is_ident_start(s[pos]) {
        let e = class_end(s, pos + 1, CharClass::IdentContinue);
        if s[pos] == '_' && e == pos + 1 {
            None
        } else {
            Some((s.subrange(pos, e), e))
        }
    } else {
        None
    }
}

/// An argument at `pos`: an identifier or an integer.
pub open spec fn spec_argument(s: Seq<char>, pos: int) -> Option<(ArgSpec, int)> {
    match spec_identifier(s, pos) {
        Some((name, e)) => Some((ArgSpec::Named(name), e)),
        None => match spec_integer(s, pos) {
            Some((n, e)) => Some((ArgSpec::Positional(n), e)),
            None => None,
        },
    }
}

/// A count at `pos`: a parameter (`argument$`, by its argument) or an
/// integer (by nothing).
pub open spec fn spec_count(s: Seq<char>, pos: int) -> Option<(Option<ArgSpec>, int)> {
    match spec_argument(s, pos) {
        Some((a, e)) if char_at(s, e, '$') => Some((Some(a), e + 1)),
        _ => match spec_integer(s, pos) {
            Some((_, e)) => Some((None, e)),
            None => None,
        },
    }
}

/// The type at `pos`: its trait and where it ends (`Display` and `pos`
/// where there is none).
pub open spec fn spec_type(s: Seq<char>, pos: int) -> (FmtTrait, int) {
    if (char_at(s, pos, 'x') || char_at(s, pos, 'X')) && char_at(s, pos + 1, '?') {
        (FmtTrait::Debug, pos + 2)
    } else if char_at(s, pos, '?') {
        (FmtTrait::Debug, pos + 1)
    } else if char_at(s, pos, 'e') {
        (FmtTrait::LowerExp, pos + 1)
    } else if char_at(s, pos, 'E') {
        (FmtTrait::UpperExp, pos + 1)
    } else if char_at(s, pos, 'o') {
        (FmtTrait::Octal, pos + 1)
    } else if char_at(s, pos, 'p') {
        (FmtTrait::Pointer, pos + 1)
    } else if char_at(s, pos, 'b') {
        (FmtTrait::Binary, pos + 1)
    } else if char_at(s, pos, 'x') {
        (FmtTrait::LowerHex, pos + 1)
    } else if char_at(s, pos, 'X') {
        (FmtTrait::UpperHex, pos + 1)
    } else {
        (FmtTrait::Display, pos)
    }
}

/// Where the flags of a format spec at `pos` end: fill and alignment, sign,
/// `#`, and `0` (unless it is the parameter `0$`).
pub open spec fn flags_end(s: Seq<char>, pos: int) -> int {
    let p1 = if 0 <= pos && pos + 1 < s.len() && is_align(s[pos + 1]) {
        pos + 2
    } else if 0 <= pos < s.len() && is_align(s[pos]) {
        pos + 1
    } else {
        pos
    };
    let p2 = if char_at(s, p1, '+') || char_at(s, p1, '-') {
        p1 + 1
    } else {
        p1
    };
    let p3 = if char_at(s, p2, '#') {
        p2 + 1
    } else {
        p2
    };
    if char_at(s, p3, '0') && !char_at(s, p3 + 1, '$') {
        p3 + 1
    } else {
        p3
    }
}

/// A format spec at `pos`: the width's and precision's parameters, the
/// trait, and where it ends.
pub open spec fn spec_format_spec(s: Seq<char>, pos: int) -> Option<
    (Option<ArgSpec>, Option<ArgSpec>, FmtTrait, int),
> {
    let p4 = flags_end(s, pos);
    let (width, p5) = match spec_count(s, p4) {
        Some((w, e)) => (w, e),
        None => (None, p4),
    };
    let precision = if char_at(s, p5, '.') {
        if char_at(s, p5 + 1, '*') {
            Some((None, p5 + 2))
        } else {
            match spec_count(s, p5 + 1) {
                Some((p, e)) => Some((p, e)),
                None => None,
            }
        }
    } else {
        Some((None, p5))
    };
    match precision {
        Some((prec, p6)) => {
            let (t, p7) = spec_type(s, p6);
            Some((width, prec, t, p7))
        },
        None => None,
    }
}

/// Whether the format spec at `pos` has flags, a width or a precision.
#[verifier::opaque]
pub open spec fn spec_modified(s: Seq<char>, pos: int) -> bool {
    let p4 = flags_end(s, pos);
    let p5 = match spec_count(s, p4) {
        Some((_, e)) => e,
        None => p4,
    };
    p4 != pos || p5 != p4 || char_at(s, p5, '.')
}

/// A format `{...}` at `pos` (where `s[pos]` is `{`), and where it ends.
pub open spec fn spec_format(s: Seq<char>, pos: int) -> Option<(FormatSpec, int)> {
    let (arg, p1) = match spec_argument(s, pos + 1) {
        Some((a, e)) => (Some(a), e),
        None => (None, pos + 1),
    };
    let spec = if char_at(s, p1, ':') {
        match spec_format_spec(s, p1 + 1) {
            Some((w, p, t, e)) => Some((w, p, t, e)),
            None => None,
        }
    } else {
        Some((None, None, FmtTrait::Display, p1))
    };
    match spec {
        Some((w, p, t, e)) => {
            let q = class_end(s, e, CharClass::Whitespace);
            if char_at(s, q, '}') {
                Some(
                    (
                        FormatSpec {
                            arg,
                            width: w,
                            precision: p,
                            fmt_trait: t,
                            modified: char_at(s, p1, ':') && spec_modified(s, p1 + 1),
                        },
                        q + 1,
                    ),
                )
            } else {
                None
            }
        },
        None => None,
    }
}

/// The formats of `s` from `pos` on, in order: text is skipped, `{{` and
/// `}}` are escapes, and a lone `}` or a `{` that begins no format makes the
/// whole string unreadable (`None`).
pub open spec fn spec_formats(s: Seq<char>, pos: int) -> Option<Seq<FormatSpec>>
    decreases s.len() - pos,
{
    if pos < 0 || pos >= s.len() {
        Some(Seq::empty())
    } else if s[pos] == '{' {
        if char_at(s, pos + 1, '{') {
            spec_formats(s, pos + 2)
        } else {
            match spec_format(s, pos) {
                Some((f, e)) => {
                    proof {
                        lemma_format_end(s, pos);
                    }
                    match spec_formats(s, e) {
                        Some(rest) => Some(seq![f] + rest),
                        None => None,
                    }
                },
                None => None,
            }
        }
    } else if s[pos] == '}' {
        if char_at(s, pos + 1, '}') {
            spec_formats(s, pos + 2)
        } else {
            None
        }
    } else {
        spec_formats(s, pos + 1)
    }
}

/// A run never ends before it starts, nor after the end of the string.
proof fn lemma_class_end(s: Seq<char>, pos: int, k: CharClass)
    ensures
        class_end(s, pos, k) >= pos,
        0 <= pos <= s.len() ==> class_end(s, pos, k) <= s.len(),
        forall|i: int| pos <= i < class_end(s, pos, k) ==> in_class(#[trigger] s[i], k),
    decreases s.len() - pos,
{
    if 0 <= pos < s.len() && in_class(s[pos], k) {
        lemma_class_end(s, pos + 1, k);
    }
}

/// The facts of `lemma_class_end`, for every start and class.
proof fn lemma_all_runs(s: Seq<char>)
    ensures
        forall|pos: int, k: CharClass| #[trigger] class_end(s, pos, k) >= pos,
        forall|pos: int, k: CharClass|
            0 <= pos <= s.len() ==> #[trigger] class_end(s, pos, k) <= s.len(),
{
    assert forall|pos: int, k: CharClass| #[trigger] class_end(s, pos, k) >= pos by {
        lemma_class_end(s, pos, k);
    }
    assert forall|pos: int, k: CharClass|
        0 <= pos <= s.len() implies #[trigger] class_end(s, pos, k) <= s.len() by {
        lemma_class_end(s, pos, k);
    }
}

/// A format ends after the `{` it starts at and within the string.
pub proof fn lemma_format_end(s: Seq<char>, pos: int)
    requires
        0 <= pos,
        spec_format(s, pos) is Some,
    ensures
        pos < spec_format(s, pos).unwrap().1 <= s.len(),
{
    lemma_all_runs(s);
}

/// The argument that a parameter names, as the grammar reads it.
pub open spec fn arg_spec_of(p: Parameter) -> ArgSpec {
    match p {
        Parameter::Named(name) => ArgSpec::Named(name@),
        Parameter::Positional(i) => ArgSpec::Positional(i as nat),
    }
}

/// `arg_spec_of`, under an `Option`.
pub open spec fn opt_arg_spec_of(p: Option<Parameter>) -> Option<ArgSpec> {
    match p {
        Some(q) => Some(arg_spec_of(q)),
        None => None,
    }
}

/// Whether `c` can begin an identifier.
fn ident_start(c: char) -> (r: bool)
    ensures
        r == is_ident_start(c),
{
    ('a' <= c && c <= 'z') || ('A' <= c && c <= 'Z') || c == '_' || (c as u32) > 127
}

/// Whether `c` belongs to the class `k`.
fn char_in_class(c: char, k: CharClass) -> (r: bool)
    ensures
        r == in_class(c, k),
{
    match k {
        CharClass::Digit => '0' <= c && c <= '9',
        CharClass::IdentContinue => ident_start(c) || ('0' <= c && c <= '9'),
        CharClass::Whitespace => c == ' ' || c == '\t' || c == '\n' || c == '\r',
    }
}

/// Whether `s[pos]` exists and is `c` (`n` is the length of `s`).
fn char_is(s: &str, n: usize, pos: usize, c: char) -> (r: bool)
    requires
        n == s@.len(),
    ensures
        r == char_at(s@, pos as int, c),
{
    pos < n && s.get_char(pos) == c
}

/// The end of the run of characters of class `k` from `pos`.
fn run_end(s: &str, n: usize, pos: usize, k: CharClass) -> (e: usize)
    requires
        n == s@.len(),
        pos <= n,
    ensures
        e == class_end(s@, pos as int, k),
        pos <= e <= n,
{
    let mut i = pos;
    loop
        invariant
            n == s@.len(),
            pos <= i <= n,
            class_end(s@, i as int, k) == class_end(s@, pos as int, k),
        decreases n - i,
    {
        if i >= n || !char_in_class(s.get_char(i), k) {
            return i;
        }
        i = i + 1;
    }
}

/// Reads an integer at `pos`.
fn integer_at(s: &str, n: usize, pos: usize) -> (r: Option<(usize, usize)>)
    requires
        n == s@.len(),
        pos <= n,
    ensures
        match r {
            Some((v, e)) => spec_integer(s@, pos as int) == Some((v as nat, e as int)) && e <= n,
            None => spec_integer(s@, pos as int) is None,
        },
{
    let e = run_end(s, n, pos, CharClass::Digit);
    if e == pos {
        return None;
    }
    proof {
        lemma_class_end(s@, pos as int, CharClass::Digit);
    }
    let digits = s.substring_char(pos, e);
    assert forall|i: int| 0 <= i < digits@.len() implies '0' <= #[trigger] digits@[i] <= '9' by {
        assert(digits@[i] == s@[pos + i]);
    }
    match parse_usize(digits) {
        Some(v) => Some((v, e)),
        None => None,
    }
}

/// Reads an identifier at `pos`.
fn identifier_at(s: &str, n: usize, pos: usize) -> (r: Option<(String, usize)>)
    requires
        n == s@.len(),
        pos <= n,
    ensures
        match r {
            Some((name, e)) => spec_identifier(s@, pos as int) == Some((name@, e as int)) && e <= n,
            None => spec_identifier(s@, pos as int) is None,
        },
{
    if pos >= n {
        return None;
    }
    let c = s.get_char(pos);
    if !ident_start(c) {
        return None;
    }
    let e = run_end(s, n, pos + 1, CharClass::IdentContinue);
    if c == '_' && e == pos + 1 {
        return None;
    }
    Some((String::from_str(s.substring_char(pos, e)), e))
}

/// Reads an argument at `pos`.
fn argument_at(s: &str, n: usize, pos: usize) -> (r: Option<(Parameter, usize)>)
    requires
        n == s@.len(),
        pos <= n,
    ensures
        match r {
            Some((a, e)) => spec_argument(s@, pos as int) == Some((arg_spec_of(a), e as int)) && e
                <= n,
            None => spec_argument(s@, pos as int) is None,
        },
{
    match identifier_at(s, n, pos) {
        Some((name, e)) => Some((Parameter::Named(name), e)),
        None => match integer_at(s, n, pos) {
            Some((v, e)) => Some((Parameter::Positional(v), e)),
            None => None,
        },
    }
}

/// Reads a count at `pos`.
fn count_at(s: &str, n: usize, pos: usize) -> (r: Option<(Option<Parameter>, usize)>)
    requires
        n == s@.len(),
        pos <= n,
    ensures
        match r {
            Some((p, e)) => spec_count(s@, pos as int) == Some((opt_arg_spec_of(p), e as int)) && e
                <= n,
            None => spec_count(s@, pos as int) is None,
        },
{
    match argument_at(s, n, pos) {
        Some((a, e)) => {
            if char_is(s, n, e, '$') {
                return Some((Some(a), e + 1));
            }
        },
        None => {},
    }
    match integer_at(s, n, pos) {
        Some((_, e)) => Some((None, e)),
        None => None,
    }
}

/// Reads the type at `pos`.
fn type_at(s: &str, n: usize, pos: usize) -> (r: (FmtTrait, usize))
    requires
        n == s@.len(),
        pos <= n,
    ensures
        spec_type(s@, pos as int) == (r.0, r.1 as int),
        r.1 <= n,
{
    if (char_is(s, n, pos, 'x') || char_is(s, n, pos, 'X')) && char_is(s, n, pos + 1, '?') {
        (FmtTrait::Debug, pos + 2)
    } else if char_is(s, n, pos, '?') {
        (FmtTrait::Debug, pos + 1)
    } else if char_is(s, n, pos, 'e') {
        (FmtTrait::LowerExp, pos + 1)
    } else if char_is(s, n, pos, 'E') {
        (FmtTrait::UpperExp, pos + 1)
    } else if char_is(s, n, pos, 'o') {
        (FmtTrait::Octal, pos + 1)
    } else if char_is(s, n, pos, 'p') {
        (FmtTrait::Pointer, pos + 1)
    } else if char_is(s, n, pos, 'b') {
        (FmtTrait::Binary, pos + 1)
    } else if char_is(s, n, pos, 'x') {
        (FmtTrait::LowerHex, pos + 1)
    } else if char_is(s, n, pos, 'X') {
        (FmtTrait::UpperHex, pos + 1)
    } else {
        (FmtTrait::Display, pos)
    }
}

/// Whether `c` is an alignment.
fn align_char(c: char) -> (r: bool)
    ensures
        r == is_align(c),
{
    c == '<' || c == '^' || c == '>'
}

/// Skips the flags of a format spec at `pos`.
fn flags_end_at(s: &str, n: usize, pos: usize) -> (e: usize)
    requires
        n == s@.len(),
        pos <= n,
    ensures
        e == flags_end(s@, pos as int),
        e <= n,
{
    let p1 = if n - pos > 1 && align_char(s.get_char(pos + 1)) {
        pos + 2
    } else if pos < n && align_char(s.get_char(pos)) {
        pos + 1
    } else {
        pos
    };
    let p2 = if char_is(s, n, p1, '+') || char_is(s, n, p1, '-') {
        p1 + 1
    } else {
        p1
    };
    let p3 = if char_is(s, n, p2, '#') {
        p2 + 1
    } else {
        p2
    };
    if char_is(s, n, p3, '0') && !char_is(s, n, p3 + 1, '$') {
        p3 + 1
    } else {
        p3
    }
}

/// Reads a format spec at `pos`.
fn format_spec_at(s: &str, n: usize, pos: usize) -> (r: Option<
    (Option<Parameter>, Option<Parameter>, FmtTrait, usize),
>)
    requires
        n == s@.len(),
        pos <= n,
    ensures
        match r {
            Some((w, p, t, e)) => spec_format_spec(s@, pos as int) == Some(
                (opt_arg_spec_of(w), opt_arg_spec_of(p), t, e as int),
            ) && e <= n,
            None => spec_format_spec(s@, pos as int) is None,
        },
{
    let p4 = flags_end_at(s, n, pos);
    let (width, p5) = match count_at(s, n, p4) {
        Some((w, e)) => (w, e),
        None => (None, p4),
    };
    let (precision, p6) = if char_is(s, n, p5, '.') {
        if char_is(s, n, p5 + 1, '*') {
            (None, p5 + 2)
        } else {
            match count_at(s, n, p5 + 1) {
                Some((p, e)) => (p, e),
                None => {
                    return None;
                },
            }
        }
    } else {
        (None, p5)
    };
    let (t, p7) = type_at(s, n, p6);
    Some((width, precision, t, p7))
}

/// One format as read from the string, with owned parameters.
struct Format {
    arg: Option<Parameter>,
    width: Option<Parameter>,
    precision: Option<Parameter>,
    fmt_trait: FmtTrait,
    modified: bool,
}

/// A format, by what the grammar reads.
spec fn format_view(f: Format) -> FormatSpec {
    FormatSpec {
        arg: opt_arg_spec_of(f.arg),
        width: opt_arg_spec_of(f.width),
        precision: opt_arg_spec_of(f.precision),
        fmt_trait: f.fmt_trait,
        modified: f.modified,
    }
}

/// Whether the format spec at `pos` has flags, a width or a precision.
fn modified_at(s: &str, n: usize, pos: usize) -> (r: bool)
    requires
        n == s@.len(),
        pos <= n,
    ensures
        r == spec_modified(s@, pos as int),
{
    reveal(spec_modified);
    let p4 = flags_end_at(s, n, pos);
    let p5 = match count_at(s, n, p4) {
        Some((_, e)) => e,
        None => p4,
    };
    p4 != pos || p5 != p4 || char_is(s, n, p5, '.')
}

/// Reads a format at the `{` at `pos`.
fn format_at(s: &str, n: usize, pos: usize) -> (r: Option<(Format, usize)>)
    requires
        n == s@.len(),
        pos < n,
    ensures
        match r {
            Some((f, e)) => spec_format(s@, pos as int) == Some((format_view(f), e as int)) && e
                <= n,
            None => spec_format(s@, pos as int) is None,
        },
{
    let (arg, p1) = match argument_at(s, n, pos + 1) {
        Some((a, e)) => (Some(a), e),
        None => (None, pos + 1),
    };
    let (width, precision, t, e) = if char_is(s, n, p1, ':') {
        match format_spec_at(s, n, p1 + 1) {
            Some(x) => x,
            None => {
                return None;
            },
        }
    } else {
        (None, None, FmtTrait::Display, p1)
    };
    let modified = char_is(s, n, p1, ':') && modified_at(s, n, p1 + 1);
    let q = run_end(s, n, e, CharClass::Whitespace);
    if char_is(s, n, q, '}') {
        Some((Format { arg, width, precision, fmt_trait: t, modified }, q + 1))
    } else {
        None
    }
}

/// A placeholder as the grammar and the count of implicit positions give it.
pub struct PlaceholderSpec {
    pub arg: ArgSpec,
    pub width: Option<ArgSpec>,
    pub precision: Option<ArgSpec>,
    pub fmt_trait: FmtTrait,
    pub modified: bool,
}

/// How many of the first `i` formats name no argument.
pub open spec fn implicit_before(fs: Seq<FormatSpec>, i: int) -> nat
    decreases i,
{
    if i <= 0 {
        0
    } else {
        implicit_before(fs, i - 1) + if fs[i - 1].arg is None {
            1nat
        } else {
            0nat
        }
    }
}

/// The `i`th placeholder: a format that names no argument takes the next
/// position, counting only such formats.
pub open spec fn placeholder_of(fs: Seq<FormatSpec>, i: int) -> PlaceholderSpec {
    PlaceholderSpec {
        arg: match fs[i].arg {
            Some(a) => a,
            None => ArgSpec::Positional(implicit_before(fs, i)),
        },
        width: fs[i].width,
        precision: fs[i].precision,
        fmt_trait: fs[i].fmt_trait,
        modified: fs[i].modified,
    }
}

/// The placeholders of the formatting string `s`; none where `s` cannot be
/// read.
pub open spec fn fmt_placeholders(s: Seq<char>) -> Seq<PlaceholderSpec> {
    match spec_formats(s, 0) {
        Some(fs) => Seq::new(fs.len(), |i: int| placeholder_of(fs, i)),
        None => Seq::empty(),
    }
}

/// A placeholder of a formatting string: the argument it formats, the
/// parameters of its width and precision, and its trait.
#[derive(Debug)]
pub struct Placeholder {
    pub arg: Parameter,
    pub width: Option<Parameter>,
    pub precision: Option<Parameter>,
    pub fmt_trait: FmtTrait,
    /// Whether its format spec has flags, a width or a precision.
    pub has_modifiers: bool,
}

/// The placeholder `p`, by what the grammar reads.
pub open spec fn placeholder_view(p: Placeholder) -> PlaceholderSpec {
    PlaceholderSpec {
        arg: arg_spec_of(p.arg),
        width: opt_arg_spec_of(p.width),
        precision: opt_arg_spec_of(p.precision),
        fmt_trait: p.fmt_trait,
        modified: p.has_modifiers,
    }
}

/// `acc` followed by the formats of `rest`, where there are any.
spec fn prepend(acc: Seq<FormatSpec>, rest: Option<Seq<FormatSpec>>) -> Option<Seq<FormatSpec>> {
    match rest {
        Some(r) => Some(acc + r),
        None => None,
    }
}

/// Moving a format from the rest onto what was read keeps the whole.
proof fn lemma_prepend_push(acc: Seq<FormatSpec>, f: FormatSpec, rest: Option<Seq<FormatSpec>>)
    ensures
        prepend(
            acc,
            match rest {
                Some(r) => Some(seq![f] + r),
                None => None,
            },
        ) == prepend(acc.push(f), rest),
{
    if let Some(r) = rest {
        assert(acc + (seq![f] + r) =~= acc.push(f) + r);
    }
}

/// A format added at the end does not change the counts before it.
proof fn lemma_implicit_push(acc: Seq<FormatSpec>, f: FormatSpec, j: int)
    requires
        j <= acc.len(),
    ensures
        implicit_before(acc.push(f), j) == implicit_before(acc, j),
    decreases j,
{
    if j > 0 {
        lemma_implicit_push(acc, f, j - 1);
    }
}

impl Placeholder {
    /// The placeholders of the formatting string `s`, in order; none where
    /// `s` is no formatting string.
    pub fn parse_fmt_string(s: &str) -> (r: Vec<Placeholder>)
        ensures
            r@.map_values(|p: Placeholder| placeholder_view(p)) == fmt_placeholders(s@),
    {
        let n = s.unicode_len();
        let mut out: Vec<Placeholder> = Vec::new();
        let mut next: usize = 0;
        let mut i: usize = 0;
        let ghost mut acc: Seq<FormatSpec> = Seq::empty();
        assert(acc + spec_formats(s@, 0).unwrap() =~= spec_formats(s@, 0).unwrap());
        while i < n
            invariant
                n == s@.len(),
                i <= n,
                spec_formats(s@, 0) == prepend(acc, spec_formats(s@, i as int)),
                out.len() == acc.len(),
                out.len() <= i,
                next == implicit_before(acc, acc.len() as int),
                next <= out.len(),
                forall|j: int|
                    0 <= j < out.len() ==> placeholder_view(#[trigger] out[j]) == placeholder_of(
                        acc,
                        j,
                    ),
            decreases n - i,
        {
            let c = s.get_char(i);
            if c == '{' {
                if char_is(s, n, i + 1, '{') {
                    i = i + 2;
                } else {
                    match format_at(s, n, i) {
                        Some((f, e)) => {
                            let ghost fv = format_view(f);
                            proof {
                                lemma_format_end(s@, i as int);
                                lemma_prepend_push(acc, fv, spec_formats(s@, e as int));
                                lemma_implicit_push(acc, fv, acc.len() as int);
                            }
                            let Format { arg, width, precision, fmt_trait, modified } = f;
                            let arg = match arg {
                                Some(a) => a,
                                None => {
                                    let k = next;
                                    next = next + 1;
                                    Parameter::Positional(k)
                                },
                            };
                            let ghost old_out = out@;
                            out.push(
                                Placeholder { arg, width, precision, fmt_trait, has_modifiers: modified },
                            );
                            proof {
                                let acc2 = acc.push(fv);
                                assert forall|j: int|
                                    0 <= j < out.len() implies placeholder_view(#[trigger] out[j])
                                    == placeholder_of(acc2, j) by {
                                    if j < acc.len() {
                                        lemma_implicit_push(acc, fv, j);
                                        assert(out[j] == old_out[j]);
                                        assert(acc2[j] == acc[j]);
                                    }
                                }
                                assert(implicit_before(acc2, acc2.len() as int) == implicit_before(
                                    acc2,
                                    acc.len() as int,
                                ) + if fv.arg is None {
                                    1nat
                                } else {
                                    0nat
                                });
                                acc = acc2;
                            }
                            i = e;
                        },
                        None => {
                            return Vec::new();
                        },
                    }
                }
            } else if c == '}' {
                if char_is(s, n, i + 1, '}') {
                    i = i + 2;
                } else {
                    return Vec::new();
                }
            } else {
                i = i + 1;
            }
        }
        assert(acc + Seq::<FormatSpec>::empty() =~= acc);
        assert(out@.map_values(|p: Placeholder| placeholder_view(p)) =~= fmt_placeholders(s@));
        out
    }

    /// The name of the placeholder's trait.
    pub fn trait_name(&self) -> (r: &'static str)
        ensures
            r@ == trait_name_of(self.fmt_trait),
    {
        self.fmt_trait.trait_name()
    }
}

/// Formats that all name their argument do not move the implicit count.
proof fn lemma_no_implicit_between(fs: Seq<FormatSpec>, a: int, b: int)
    requires
        0 <= a <= b <= fs.len(),
        forall|k: int| a <= k < b ==> (#[trigger] fs[k]).arg is Some,
    ensures
        implicit_before(fs, b) == implicit_before(fs, a),
    decreases b - a,
{
    if a < b {
        lemma_no_implicit_between(fs, a, b - 1);
    }
}

/// The first placeholder that names no argument formats position 0.
pub proof fn lemma_first_implicit_position(fs: Seq<FormatSpec>, i: int)
    requires
        0 <= i < fs.len(),
        fs[i].arg is None,
        forall|k: int| 0 <= k < i ==> (#[trigger] fs[k]).arg is Some,
    ensures
        placeholder_of(fs, i).arg == ArgSpec::Positional(0),
{
    lemma_no_implicit_between(fs, 0, i);
}

/// A placeholder that names no argument formats the position after that of
/// the previous such placeholder.
pub proof fn lemma_next_implicit_position(fs: Seq<FormatSpec>, i: int, j: int)
    requires
        0 <= i < j < fs.len(),
        fs[i].arg is None,
        fs[j].arg is None,
        forall|k: int| i < k < j ==> (#[trigger] fs[k]).arg is Some,
    ensures
        placeholder_of(fs, i).arg matches ArgSpec::Positional(p) && placeholder_of(fs, j).arg
            == ArgSpec::Positional(p + 1),
{
    lemma_no_implicit_between(fs, i + 1, j);
}

/// A string without braces has no placeholders.
pub proof fn lemma_plain_text_has_no_placeholders(s: Seq<char>)
    requires
        forall|k: int| 0 <= k < s.len() ==> #[trigger] s[k] != '{' && s[k] != '}',
    ensures
        fmt_placeholders(s).len() == 0,
{
    lemma_plain_text_has_no_formats(s, 0);
}

/// Text without braces from `pos` on has no formats.
proof fn lemma_plain_text_has_no_formats(s: Seq<char>, pos: int)
    requires
        0 <= pos,
        forall|k: int| 0 <= k < s.len() ==> #[trigger] s[k] != '{' && s[k] != '}',
    ensures
        spec_formats(s, pos) == Some(Seq::<FormatSpec>::empty()),
    decreases s.len() - pos,
{
    if pos < s.len() {
        lemma_plain_text_has_no_formats(s, pos + 1);
    }
}

/// The lemmas `lemma_shift_*`: behind a prefix `p`, each part of the
/// grammar reads at `pos + p.len()` what it reads at `pos` without it, and
/// ends `p.len()` further on.
proof fn lemma_shift_char(p: Seq<char>, s: Seq<char>, pos: int, c: char)
    requires
        pos >= 0,
    ensures
        char_at(p + s, pos + p.len(), c) == char_at(s, pos, c),
{
    if 0 <= pos < s.len() {
        assert((p + s)[pos + p.len()] == s[pos]);
    }
}

proof fn lemma_shift_class(p: Seq<char>, s: Seq<char>, pos: int, k: CharClass)
    requires
        pos >= 0,
    ensures
        class_end(p + s, pos + p.len(), k) == class_end(s, pos, k) + p.len(),
    decreases s.len() - pos,
{
    if pos < s.len() {
        assert((p + s)[pos + p.len()] == s[pos]);
        lemma_shift_class(p, s, pos + 1, k);
    }
}

proof fn lemma_shift_integer(p: Seq<char>, s: Seq<char>, pos: int)
    requires
        pos >= 0,
    ensures
        spec_integer(p + s, pos + p.len()) == match spec_integer(s, pos) {
            Some((v, e)) => Some((v, e + p.len())),
            None => None,
        },
        spec_integer(s, pos) matches Some((_, e)) ==> e > pos,
{
    lemma_shift_class(p, s, pos, CharClass::Digit);
    lemma_class_end(s, pos, CharClass::Digit);
    let e = class_end(s, pos, CharClass::Digit);
    if e > pos {
        assert((p + s).subrange(pos + p.len(), e + p.len()) =~= s.subrange(pos, e));
    }
}

proof fn lemma_shift_identifier(p: Seq<char>, s: Seq<char>, pos: int)
    requires
        pos >= 0,
    ensures
        spec_identifier(p + s, pos + p.len()) == match spec_identifier(s, pos) {
            Some((name, e)) => Some((name, e + p.len())),
            None => None,
        },
        spec_identifier(s, pos) matches Some((_, e)) ==> e > pos,
{
    if pos < s.len() {
        assert((p + s)[pos + p.len()] == s[pos]);
        lemma_shift_class(p, s, pos + 1, CharClass::IdentContinue);
        lemma_class_end(s, pos + 1, CharClass::IdentContinue);
        let e = class_end(s, pos + 1, CharClass::IdentContinue);
        assert((p + s).subrange(pos + p.len(), e + p.len()) =~= s.subrange(pos, e));
    }
}

proof fn lemma_shift_argument(p: Seq<char>, s: Seq<char>, pos: int)
    requires
        pos >= 0,
    ensures
        spec_argument(p + s, pos + p.len()) == match spec_argument(s, pos) {
            Some((a, e)) => Some((a, e + p.len())),
            None => None,
        },
        spec_argument(s, pos) matches Some((_, e)) ==> e > pos,
{
    lemma_shift_identifier(p, s, pos);
    lemma_shift_integer(p, s, pos);
}

proof fn lemma_shift_count(p: Seq<char>, s: Seq<char>, pos: int)
    requires
        pos >= 0,
    ensures
        spec_count(p + s, pos + p.len()) == match spec_count(s, pos) {
            Some((a, e)) => Some((a, e + p.len())),
            None => None,
        },
        spec_count(s, pos) matches Some((_, e)) ==> e > pos,
{
    lemma_shift_argument(p, s, pos);
    lemma_shift_integer(p, s, pos);
    if let Some((a, e)) = spec_argument(s, pos) {
        lemma_shift_char(p, s, e, '$');
    }
}

proof fn lemma_shift_type(p: Seq<char>, s: Seq<char>, pos: int)
    requires
        pos >= 0,
    ensures
        spec_type(p + s, pos + p.len()) == (spec_type(s, pos).0, spec_type(s, pos).1 + p.len()),
        spec_type(s, pos).1 >= pos,
{
    lemma_shift_char(p, s, pos, 'x');
    lemma_shift_char(p, s, pos, 'X');
    lemma_shift_char(p, s, pos + 1, '?');
    lemma_shift_char(p, s, pos, '?');
    lemma_shift_char(p, s, pos, 'e');
    lemma_shift_char(p, s, pos, 'E');
    lemma_shift_char(p, s, pos, 'o');
    lemma_shift_char(p, s, pos, 'p');
    lemma_shift_char(p, s, pos, 'b');
}

proof fn lemma_shift_flags(p: Seq<char>, s: Seq<char>, pos: int)
    requires
        pos >= 0,
    ensures
        flags_end(p + s, pos + p.len()) == flags_end(s, pos) + p.len(),
        flags_end(s, pos) >= pos,
{
    let t = p + s;
    let n = p.len() as int;
    if pos + 1 < s.len() {
        assert(t[pos + 1 + n] == s[pos + 1]);
    }
    if pos < s.len() {
        assert(t[pos + n] == s[pos]);
    }
    let p1 = if 0 <= pos && pos + 1 < s.len() && is_align(s[pos + 1]) {
        pos + 2
    } else if 0 <= pos < s.len() && is_align(s[pos]) {
        pos + 1
    } else {
        pos
    };
    lemma_shift_char(p, s, p1, '+');
    lemma_shift_char(p, s, p1, '-');
    let p2 = if char_at(s, p1, '+') || char_at(s, p1, '-') {
        p1 + 1
    } else {
        p1
    };
    lemma_shift_char(p, s, p2, '#');
    let p3 = if char_at(s, p2, '#') {
        p2 + 1
    } else {
        p2
    };
    lemma_shift_char(p, s, p3, '0');
    lemma_shift_char(p, s, p3 + 1, '$');
}

proof fn lemma_shift_format_spec(p: Seq<char>, s: Seq<char>, pos: int)
    requires
        pos >= 0,
    ensures
        spec_format_spec(p + s, pos + p.len()) == match spec_format_spec(s, pos) {
            Some((w, q, t, e)) => Some((w, q, t, e + p.len())),
            None => None,
        },
        spec_format_spec(s, pos) matches Some((_, _, _, e)) ==> e >= pos,
{
    lemma_shift_flags(p, s, pos);
    let p4 = flags_end(s, pos);
    lemma_shift_count(p, s, p4);
    let p5 = match spec_count(s, p4) {
        Some((w, e)) => e,
        None => p4,
    };
    lemma_shift_char(p, s, p5, '.');
    lemma_shift_char(p, s, p5 + 1, '*');
    lemma_shift_count(p, s, p5 + 1);
    let p6 = if char_at(s, p5, '.') {
        if char_at(s, p5 + 1, '*') {
            p5 + 2
        } else {
            match spec_count(s, p5 + 1) {
                Some((q, e)) => e,
                None => p5,
            }
        }
    } else {
        p5
    };
    lemma_shift_type(p, s, p6);
}

proof fn lemma_shift_modified(p: Seq<char>, s: Seq<char>, pos: int)
    requires
        pos >= 0,
    ensures
        spec_modified(p + s, pos + p.len()) == spec_modified(s, pos),
{
    reveal(spec_modified);
    lemma_shift_flags(p, s, pos);
    let p4 = flags_end(s, pos);
    lemma_shift_count(p, s, p4);
    let p5 = match spec_count(s, p4) {
        Some((_, e)) => e,
        None => p4,
    };
    lemma_shift_char(p, s, p5, '.');
}

proof fn lemma_shift_format(p: Seq<char>, s: Seq<char>, pos: int)
    requires
        pos >= 0,
    ensures
        spec_format(p + s, pos + p.len()) == match spec_format(s, pos) {
            Some((f, e)) => Some((f, e + p.len())),
            None => None,
        },
{
    lemma_shift_argument(p, s, pos + 1);
    let p1 = match spec_argument(s, pos + 1) {
        Some((a, e)) => e,
        None => pos + 1,
    };
    lemma_shift_char(p, s, p1, ':');
    lemma_shift_format_spec(p, s, p1 + 1);
    lemma_shift_modified(p, s, p1 + 1);
    let e = if char_at(s, p1, ':') {
        match spec_format_spec(s, p1 + 1) {
            Some((w, q, t, e)) => e,
            None => p1,
        }
    } else {
        p1
    };
    lemma_shift_class(p, s, e, CharClass::Whitespace);
    lemma_class_end(s, e, CharClass::Whitespace);
    lemma_shift_char(p, s, class_end(s, e, CharClass::Whitespace), '}');
}

#[verifier::rlimit(50)]
proof fn lemma_shift_formats(p: Seq<char>, s: Seq<char>, pos: int)
    requires
        pos >= 0,
    ensures
        spec_formats(p + s, pos + p.len()) == spec_formats(s, pos),
    decreases s.len() - pos,
{
    let t = p + s;
    let n = p.len() as int;
    if pos < s.len() {
        assert(t[pos + n] == s[pos]);
        lemma_shift_char(p, s, pos + 1, '{');
        lemma_shift_char(p, s, pos + 1, '}');
        if s[pos] == '{' {
            if char_at(s, pos + 1, '{') {
                lemma_shift_formats(p, s, pos + 2);
            } else {
                lemma_shift_format(p, s, pos);
                if let Some((f, e)) = spec_format(s, pos) {
                    lemma_format_end(s, pos);
                    lemma_format_end(t, pos + n);
                    lemma_shift_formats(p, s, e);
                }
            }
        } else if s[pos] == '}' {
            if char_at(s, pos + 1, '}') {
                lemma_shift_formats(p, s, pos + 2);
            }
        } else {
            lemma_shift_formats(p, s, pos + 1);
        }
    }
}

/// `{{` and `}}` are escapes: putting one before a formatting string changes
/// none of its placeholders.
pub proof fn lemma_escapes_add_no_placeholders(s: Seq<char>)
    ensures
        fmt_placeholders(seq!['{', '{'] + s) == fmt_placeholders(s),
        fmt_placeholders(seq!['}', '}'] + s) == fmt_placeholders(s),
{
    lemma_shift_formats(seq!['{', '{'], s, 0);
    lemma_shift_formats(seq!['}', '}'], s, 0);
    assert((seq!['{', '{'] + s)[0] == '{');
    assert((seq!['{', '{'] + s)[1] == '{');
    assert((seq!['}', '}'] + s)[0] == '}');
    assert((seq!['}', '}'] + s)[1] == '}');
}

} // verus!
