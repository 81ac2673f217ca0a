//! Names: the cases that names are converted to, and the names of the
//! methods that the variant derives (`IsVariantAnd`, `TryIntoVariant`)
//! generate for each enum variant.

use convert_case::Casing;
use vstd::prelude::*;
use vstd::string::*;

use crate::text::{text_is, views};


verus! {

/// The cases that names are converted to.
#[derive(Debug, Clone, Copy, PartialEq, Eq, Structural)]
pub enum CaseStyle {
    /// `lowercase`: the words in lowercase, joined.
    Lower,
    /// `UPPERCASE`: the words in uppercase, joined.
    Upper,
    /// `PascalCase`
    Pascal,
    /// `camelCase`
    Camel,
    /// `snake_case`
    Snake,
    /// `SCREAMING_SNAKE_CASE`
    ScreamingSnake,
    /// `kebab-case`
    Kebab,
    /// `SCREAMING-KEBAB-CASE`
    ScreamingKebab,
}

/// `s` converted to the case `case` by `convert_case`: split into words at
/// underscores, hyphens and spaces, where lowercase turns to uppercase,
/// between letters and digits, and where an acronym meets a capitalized word,
/// then joined as the case has it.
pub uninterp spec fn case_converted(s: Seq<char>, case: CaseStyle) -> Seq<char>;

/// Converts `s` with `convert_case`'s `Casing::to_case`, to the case of
/// `convert_case` that `case` stands for (`Flat`, `UpperFlat`, `Pascal`,
/// `Camel`, `Snake`, `UpperSnake`, `Kebab`, `UpperKebab`). Its result is named
/// `case_converted`, a function of `s` and `case` alone (none of these cases
/// is a random one); how words are found and joined is `convert_case`'s.
#[verifier::external_body]
pub(crate) fn convert_case(s: &str, case: CaseStyle) -> (r: String)
    ensures
        r@ == case_converted(s@, case),
{
    s.to_case(
        match case {
            CaseStyle::Lower => convert_case::Case::Flat,
            CaseStyle::Upper => convert_case::Case::UpperFlat,
            CaseStyle::Pascal => convert_case::Case::Pascal,
            CaseStyle::Camel => convert_case::Case::Camel,
            CaseStyle::Snake => convert_case::Case::Snake,
            CaseStyle::ScreamingSnake => convert_case::Case::UpperSnake,
            CaseStyle::Kebab => convert_case::Case::Kebab,
            CaseStyle::ScreamingKebab => convert_case::Case::UpperKebab,
        },
    )
}

/// The snake case of `s`.
pub open spec fn snake_case(s: Seq<char>) -> Seq<char> {
    case_converted(s, CaseStyle::Snake)
}

/// The name of the `IsVariantAnd` method for the variant named `variant`:
/// `is_<variant in snake case>_and`.
pub fn is_variant_and_fn_name(variant: &str) -> (r: String)
    ensures
        r@ == "is_"@ + snake_case(variant@) + "_and"@,
{
    let mut out = String::from_str("is_");
    out.append(convert_case(variant, CaseStyle::Snake).as_str());
    out.append("_and");
    out
}

/// The names of the three `TryIntoVariant` methods for the variant named
/// `variant`: `try_into_<snake>`, `try_into_<snake>_ref` and
/// `try_into_<snake>_mut`.
pub fn try_into_variant_fn_names(variant: &str) -> (r: (String, String, String))
    ensures
        r.0@ == "try_into_"@ + snake_case(variant@),
        r.1@ == "try_into_"@ + snake_case(variant@) + "_ref"@,
        r.2@ == "try_into_"@ + snake_case(variant@) + "_mut"@,
{
    let snake = convert_case(variant, CaseStyle::Snake);
    let owned = String::from_str("try_into_").concat(snake.as_str());
    let by_ref = String::from_str("try_into_").concat(snake.as_str()).concat("_ref");
    let by_mut = String::from_str("try_into_").concat(snake.as_str()).concat("_mut");
    (owned, by_ref, by_mut)
}

/// Which of the `TryIntoVariant` methods (by value, by reference, by
/// mutable reference) are enabled.
#[derive(Debug, Clone, Copy, PartialEq, Eq, Structural)]
pub struct MethodFlags {
    pub owned: bool,
    pub by_ref: bool,
    pub by_ref_mut: bool,
}

/// The receiver of a `TryIntoVariant` method.
#[derive(Debug, Clone, Copy, PartialEq, Eq, Structural)]
pub enum MethodKind {
    /// `self`
    Owned,
    /// `&self`
    ByRef,
    /// `&mut self`
    ByRefMut,
}

/// The methods, by name and receiver.
pub open spec fn method_views(v: Seq<(String, MethodKind)>) -> Seq<(Seq<char>, MethodKind)> {
    v.map_values(|m: (String, MethodKind)| (m.0@, m.1))
}

/// The `TryIntoVariant` methods written for the variant named `variant`,
/// each with its receiver: each of the three, in order, that is enabled both
/// for the variant and for the enum.
pub fn enabled_try_into_variant_fns(variant: &str, for_variant: MethodFlags, for_enum: MethodFlags) -> (r:
    Vec<(String, MethodKind)>)
    ensures
        method_views(r@) == (if for_variant.owned && for_enum.owned {
            seq![("try_into_"@ + snake_case(variant@), MethodKind::Owned)]
        } else {
            Seq::empty()
        }) + (if for_variant.by_ref && for_enum.by_ref {
            seq![("try_into_"@ + snake_case(variant@) + "_ref"@, MethodKind::ByRef)]
        } else {
            Seq::empty()
        }) + (if for_variant.by_ref_mut && for_enum.by_ref_mut {
            seq![("try_into_"@ + snake_case(variant@) + "_mut"@, MethodKind::ByRefMut)]
        } else {
            Seq::empty()
        }),
{
    let (owned, by_ref, by_mut) = try_into_variant_fn_names(variant);
    let ghost (o, b, m) = (owned@, by_ref@, by_mut@);
    let mut out: Vec<(String, MethodKind)> = Vec::new();
    if for_variant.owned && for_enum.owned {
        out.push((owned, MethodKind::Owned));
    }
    let ghost first = method_views(out@);
    if for_variant.by_ref && for_enum.by_ref {
        out.push((by_ref, MethodKind::ByRef));
    }
    let ghost second = method_views(out@);
    if for_variant.by_ref_mut && for_enum.by_ref_mut {
        out.push((by_mut, MethodKind::ByRefMut));
    }
    proof {
        let one: Seq<(Seq<char>, MethodKind)> = if for_variant.owned && for_enum.owned {
            seq![(o, MethodKind::Owned)]
        } else {
            Seq::empty()
        };
        let two: Seq<(Seq<char>, MethodKind)> = if for_variant.by_ref && for_enum.by_ref {
            seq![(b, MethodKind::ByRef)]
        } else {
            Seq::empty()
        };
        let three: Seq<(Seq<char>, MethodKind)> = if for_variant.by_ref_mut && for_enum.by_ref_mut {
            seq![(m, MethodKind::ByRefMut)]
        } else {
            Seq::empty()
        };
        assert(first =~= one);
        assert(second =~= one + two);
        assert(method_views(out@) =~= one + two + three);
    }
    out
}

/// Whether `w` is one of `words`.
pub open spec fn has_word(words: Seq<Seq<char>>, w: Seq<char>) -> bool {
    exists|i: int| 0 <= i < words.len() && words[i] == w
}

/// What the words of `#[try_into_variant(...)]` attributes say: whether the
/// item is ignored, and the methods enabled: those named among `owned`,
/// `ref` and `ref_mut`, or all three where none of them is named.
pub open spec fn spec_flags_of(words: Seq<Seq<char>>) -> (bool, MethodFlags) {
    let none = !has_word(words, "owned"@) && !has_word(words, "ref"@) && !has_word(words, "ref_mut"@);
    (
        has_word(words, "ignore"@),
        MethodFlags {
            owned: none || has_word(words, "owned"@),
            by_ref: none || has_word(words, "ref"@),
            by_ref_mut: none || has_word(words, "ref_mut"@),
        },
    )
}

/// The methods that `#[try_into_variant(...)]` words enable: naming any of
/// `owned`, `ref` and `ref_mut` enables exactly the named ones (so `owned`
/// alone gives no `_ref` and no `_mut` method); naming none of them enables
/// all three. The word `ignore`, and only it, marks the item ignored.
pub proof fn lemma_flags_enable_named_methods(words: Seq<Seq<char>>)
    ensures
        ({
            let (ignored, flags) = spec_flags_of(words);
            let o = words.contains("owned"@);
            let r = words.contains("ref"@);
            let m = words.contains("ref_mut"@);
            &&& ignored == words.contains("ignore"@)
            &&& (o || r || m) ==> (flags.owned == o && flags.by_ref == r && flags.by_ref_mut == m)
            &&& !(o || r || m) ==> (flags.owned && flags.by_ref && flags.by_ref_mut)
        }),
{
    assert(has_word(words, "owned"@) == words.contains("owned"@));
    assert(has_word(words, "ref"@) == words.contains("ref"@));
    assert(has_word(words, "ref_mut"@) == words.contains("ref_mut"@));
    assert(has_word(words, "ignore"@) == words.contains("ignore"@));
}

/// Whether one of the words is `w`.
fn contains_word(words: &Vec<String>, w: &str) -> (r: bool)
    ensures
        r == has_word(views(words@), w@),
{
    let mut i: usize = 0;
    while i < words.len()
        invariant
            i <= words.len(),
            forall|k: int| 0 <= k < i ==> words@[k]@ != w@,
        decreases words.len() - i,
    {
        if text_is(&words[i], w) {
            assert(views(words@)[i as int] == w@);
            return true;
        }
        i = i + 1;
    }
    proof {
        assert forall|k: int| 0 <= k < views(words@).len() implies views(words@)[k] != w@ by {
            assert(views(words@)[k] == words@[k]@);
        }
    }
    false
}

/// Reads the words of `#[try_into_variant(...)]` attributes: whether the
/// item is ignored, and which methods are enabled.
pub fn flags_of(words: &Vec<String>) -> (r: (bool, MethodFlags))
    ensures
        r == spec_flags_of(views(words@)),
        ({
            let o = views(words@).contains("owned"@);
            let rf = views(words@).contains("ref"@);
            let m = views(words@).contains("ref_mut"@);
            &&& r.0 == views(words@).contains("ignore"@)
            &&& (o || rf || m) ==> (r.1.owned == o && r.1.by_ref == rf && r.1.by_ref_mut == m)
            &&& !(o || rf || m) ==> (r.1.owned && r.1.by_ref && r.1.by_ref_mut)
        }),
{
    proof {
        lemma_flags_enable_named_methods(views(words@));
    }
    let owned = contains_word(words, "owned");
    let by_ref = contains_word(words, "ref");
    let by_ref_mut = contains_word(words, "ref_mut");
    let none = !owned && !by_ref && !by_ref_mut;
    (
        contains_word(words, "ignore"),
        MethodFlags { owned: none || owned, by_ref: none || by_ref, by_ref_mut: none || by_ref_mut },
    )
}

} // verus!
