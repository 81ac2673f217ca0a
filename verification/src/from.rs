//! The decisions of the `From` derive: how `#[from(...)]` attributes
//! combine, which implementation each struct or variant gets, and whether the
//! types of a `#[from(types)]` attribute fit its fields.

use vstd::prelude::*;
use vstd::string::*;

use crate::attr::{is_skip_word, single_word, spec_is_skip, spec_single_word};
use crate::decimal::{decimal, push_decimal};
use crate::fmt::{ident_at, ident_text};
use crate::parsing::Type;
use crate::text::{join, joined, text_is, views};
use crate::tokens::TokenTree;

verus! {

/// A `#[from(...)]` attribute on a struct.
#[derive(Debug)]
pub enum StructAttribute {
    /// `#[from(Type, ...)]`: the types, referred to by indices that the caller
    /// gives them.
    Types(Vec<usize>),
    /// `#[from(forward)]`
    Forward,
}

/// A `#[from(...)]` attribute on an enum variant (or the attribute of a
/// struct, taken as one).
#[derive(Debug)]
pub enum VariantAttribute {
    /// `#[from(Type, ...)]`, as for a struct.
    Types(Vec<usize>),
    /// `#[from(forward)]`
    Forward,
    /// `#[from(skip)]` or `#[from(ignore)]`
    Skip,
    /// `#[from]`
    From,
}

/// What the arguments of a `#[from(...)]` attribute are, before any type
/// is read.
#[derive(Debug, Clone, Copy, PartialEq, Eq, Structural)]
pub enum FromArgs {
    /// Nothing, on a variant: `#[from()]`, the same as `#[from]`.
    From,
    /// The word `forward` alone.
    Forward,
    /// The word `skip` or `ignore` alone, on a variant.
    Skip,
    /// The legacy `types(...)` list: its first token is the word `types`.
    Legacy,
    /// Anything else, read as a list of types.
    Types,
}

/// The form of the arguments `s` of a `#[from(...)]` attribute on a variant
/// (`on_variant`) or a struct. A struct has no `skip`: there the word reads
/// as a type.
pub open spec fn spec_from_args(s: Seq<TokenTree>, on_variant: bool) -> FromArgs {
    if on_variant && s.len() == 0 {
        FromArgs::From
    } else if spec_single_word(s) == Some("forward"@) {
        FromArgs::Forward
    } else if on_variant && spec_is_skip(s) {
        FromArgs::Skip
    } else if s.len() > 0 && ident_at(s, 0) && ident_text(s[0]) == "types"@ {
        FromArgs::Legacy
    } else {
        FromArgs::Types
    }
}

/// How the arguments of `#[from(...)]` read, by their tokens: on a variant,
/// none mean `#[from]`, and the single word `skip` or `ignore` (either one)
/// leaves the variant out; the single word `forward` asks for forwarding;
/// arguments that begin with the word `types` are the legacy list; anything
/// else is a list of types (on a struct, `skip` and `ignore` too).
pub proof fn lemma_from_args_by_tokens(s: Seq<TokenTree>, on_variant: bool)
    ensures
        on_variant && s.len() == 0 ==> spec_from_args(s, on_variant) == FromArgs::From,
        on_variant && s.len() == 1 && (s[0] matches TokenTree::Ident(w) && (w@ == "skip"@ || w@
            == "ignore"@)) ==> spec_from_args(s, on_variant) == FromArgs::Skip,
        !on_variant && s.len() == 1 && (s[0] matches TokenTree::Ident(w) && (w@ == "skip"@ || w@
            == "ignore"@)) ==> spec_from_args(s, on_variant) == FromArgs::Types,
        s.len() == 1 && (s[0] matches TokenTree::Ident(w) && w@ == "forward"@) ==> spec_from_args(
            s,
            on_variant,
        ) == FromArgs::Forward,
        s.len() > 1 && (s[0] matches TokenTree::Ident(w) && w@ == "types"@) ==> spec_from_args(
            s,
            on_variant,
        ) == FromArgs::Legacy,
        s.len() > 0 && !(s[0] is Ident) ==> spec_from_args(s, on_variant) == FromArgs::Types,
        !on_variant && s.len() == 0 ==> spec_from_args(s, on_variant) == FromArgs::Types,
{
    reveal_strlit("skip");
    reveal_strlit("ignore");
    reveal_strlit("forward");
    reveal_strlit("types");
    assert("skip"@ != "forward"@ && "skip"@ != "types"@) by {
        assert("skip"@[0] != "forward"@[0] && "skip"@[0] != "types"@[0]);
    }
    assert("ignore"@ != "forward"@ && "ignore"@ != "types"@) by {
        assert("ignore"@[0] != "forward"@[0] && "ignore"@[0] != "types"@[0]);
    }
}

/// Reads the form of the arguments of a `#[from(...)]` attribute.
pub fn from_args(tokens: &Vec<TokenTree>, on_variant: bool) -> (r: FromArgs)
    ensures
        r == spec_from_args(tokens@, on_variant),
{
    if on_variant && tokens.len() == 0 {
        return FromArgs::From;
    }
    if let Some(w) = single_word(tokens) {
        if text_is(&w, "forward") {
            return FromArgs::Forward;
        }
    }
    if on_variant && is_skip_word(tokens) {
        return FromArgs::Skip;
    }
    if tokens.len() > 0 {
        if let TokenTree::Ident(i) = &tokens[0] {
            if text_is(i, "types") {
                return FromArgs::Legacy;
            }
        }
    }
    FromArgs::Types
}

/// More than one attribute where only one is allowed: the position of the
/// attribute that the error points at.
#[derive(Debug, Clone, Copy, PartialEq, Eq, Structural)]
pub struct DuplicateAttribute(pub usize);

/// The types of the struct attributes, merged in order, while every one is a
/// `Types` attribute.
pub open spec fn merged_types(attrs: Seq<StructAttribute>, n: int) -> Seq<usize>
    decreases n,
{
    if n <= 0 {
        Seq::empty()
    } else {
        match attrs[n - 1] {
            StructAttribute::Types(v) => merged_types(attrs, n - 1) + v@,
            StructAttribute::Forward => merged_types(attrs, n - 1),
        }
    }
}

/// Combines the `#[from(...)]` attributes of a struct, in order: `Types`
/// attributes merge their types; any other combination of two or more is an
/// error at the later attribute.
pub fn merge_struct_attributes(attrs: Vec<StructAttribute>) -> (r: Result<
    Option<StructAttribute>,
    DuplicateAttribute,
>)
    ensures
        attrs@.len() == 0 ==> r matches Ok(None),
        attrs@.len() == 1 ==> (r matches Ok(Some(a)) && a == attrs@[0]),
        attrs@.len() >= 2 && (forall|i: int| 0 <= i < attrs@.len() ==> attrs@[i] is Types) ==> (
        r matches Ok(Some(StructAttribute::Types(v))) && v@ == merged_types(
            attrs@,
            attrs@.len() as int,
        )),
        attrs@.len() >= 2 && (exists|i: int| 0 <= i < attrs@.len() && attrs@[i] is Forward) ==> (
        r matches Err(DuplicateAttribute(k)) && 1 <= k < attrs@.len() && (attrs@[k as int] is Forward
            || k == 1) && forall|j: int| 1 <= j < k ==> attrs@[j] is Types),
{
    let n = attrs.len();
    if n == 0 {
        return Ok(None);
    }
    let ghost all = attrs@;
    let mut rest = attrs;
    let first = rest.remove(0);
    if n == 1 {
        return Ok(Some(first));
    }
    let ghost first_attr = first;
    assert(first_attr == all[0]);
    let mut types = match first {
        StructAttribute::Types(v) => v,
        StructAttribute::Forward => {
            return Err(DuplicateAttribute(1));
        },
    };
    assert(rest@ == all.subrange(1, n as int));
    assert(merged_types(all, 0) =~= Seq::<usize>::empty());
    assert(types@ =~= merged_types(all, 1));
    let mut i: usize = 0;
    while i < rest.len()
        invariant
            all == attrs@,
            n == all.len(),
            n >= 2,
            rest@ == all.subrange(1, n as int),
            i <= rest.len(),
            all[0] is Types,
            forall|j: int| 1 <= j <= i ==> all[j] is Types,
            types@ == merged_types(all, i + 1),
        decreases rest.len() - i,
    {
        match &rest[i] {
            StructAttribute::Types(more) => {
                let mut k: usize = 0;
                let ghost before = types@;
                while k < more.len()
                    invariant
                        k <= more.len(),
                        types@ == before + more@.subrange(0, k as int),
                    decreases more.len() - k,
                {
                    types.push(more[k]);
                    proof {
                        assert(before + more@.subrange(0, k + 1) =~= (before + more@.subrange(
                            0,
                            k as int,
                        )).push(more@[k as int]));
                    }
                    k = k + 1;
                }
                proof {
                    assert(more@.subrange(0, more@.len() as int) =~= more@);
                }
            },
            StructAttribute::Forward => {
                return Err(DuplicateAttribute(i + 1));
            },
        }
        i = i + 1;
    }
    Ok(Some(StructAttribute::Types(types)))
}

/// Combines the `#[from(...)]` attributes of an enum variant: at most one is
/// allowed, and a second one is an error at the first.
pub fn merge_variant_attributes(attrs: Vec<VariantAttribute>) -> (r: Result<
    Option<VariantAttribute>,
    DuplicateAttribute,
>)
    ensures
        attrs@.len() == 0 ==> r matches Ok(None),
        attrs@.len() == 1 ==> (r matches Ok(Some(a)) && a == attrs@[0]),
        attrs@.len() >= 2 ==> r == Err::<Option<VariantAttribute>, DuplicateAttribute>(
            DuplicateAttribute(0),
        ),
{
    if attrs.len() >= 2 {
        return Err(DuplicateAttribute(0));
    }
    let mut attrs = attrs;
    if attrs.len() == 0 {
        Ok(None)
    } else {
        Ok(Some(attrs.remove(0)))
    }
}

/// The implementation generated for a struct or a variant.
#[derive(Debug, Clone, Copy, PartialEq, Eq, Structural)]
pub enum FromImpl {
    /// One implementation for each of the attribute's types.
    Types,
    /// An implementation from the tuple of the field types.
    FieldTuple,
    /// A forwarding implementation, generic over what converts into each
    /// field.
    Forward,
    /// Nothing.
    Nothing,
}

/// Which implementation a struct (`is_variant == false`) or an enum variant
/// gets from its attribute: a variant without fields, or any variant of an
/// enum where some variant forwards, gets nothing unless its attribute asks
/// for something.
pub open spec fn spec_from_impl(
    attr: Option<VariantAttribute>,
    is_variant: bool,
    field_count: nat,
    has_forward: bool,
) -> FromImpl {
    let skip = has_forward || (is_variant && field_count == 0);
    match attr {
        Some(VariantAttribute::Types(_)) => FromImpl::Types,
        Some(VariantAttribute::From) => FromImpl::FieldTuple,
        Some(VariantAttribute::Forward) => FromImpl::Forward,
        Some(VariantAttribute::Skip) => FromImpl::Nothing,
        None => if skip {
            FromImpl::Nothing
        } else {
            FromImpl::FieldTuple
        },
    }
}

/// Decides which implementation a struct or an enum variant gets.
pub fn from_impl(
    attr: &Option<VariantAttribute>,
    is_variant: bool,
    field_count: usize,
    has_forward: bool,
) -> (r: FromImpl)
    ensures
        r == spec_from_impl(*attr, is_variant, field_count as nat, has_forward),
{
    let skip = has_forward || (is_variant && field_count == 0);
    match attr {
        Some(VariantAttribute::Types(_)) => FromImpl::Types,
        Some(VariantAttribute::From) => FromImpl::FieldTuple,
        Some(VariantAttribute::Forward) => FromImpl::Forward,
        Some(VariantAttribute::Skip) => FromImpl::Nothing,
        None => if skip {
            FromImpl::Nothing
        } else {
            FromImpl::FieldTuple
        },
    }
}

/// Whether some variant of an enum has a `forward` attribute.
pub fn has_forward(attrs: &Vec<Option<VariantAttribute>>) -> (r: bool)
    ensures
        r == exists|i: int| 0 <= i < attrs@.len() && (#[trigger] attrs@[i] matches Some(VariantAttribute::Forward)),
{
    let mut i: usize = 0;
    while i < attrs.len()
        invariant
            i <= attrs.len(),
            forall|k: int| 0 <= k < i ==> !(#[trigger] attrs@[k] matches Some(VariantAttribute::Forward)),
        decreases attrs.len() - i,
    {
        if let Some(VariantAttribute::Forward) = &attrs[i] {
            return true;
        }
        i = i + 1;
    }
    false
}

/// Why a type of a `#[from(types)]` attribute does not fit the fields.
#[derive(Debug, Clone, Copy, PartialEq, Eq, Structural)]
pub enum FromTypeError {
    /// A tuple with fewer items than fields.
    TooFewTypes { expected: usize, found: usize },
    /// A tuple with more items than fields.
    TooManyTypes { expected: usize, found: usize },
    /// Not a tuple, where there are several fields.
    ExpectedTuple { fields: usize },
}

/// Checks that a type of the attribute fits `field_count` fields: with more
/// than one field, it must be a tuple with as many items. Returns how many
/// types it provides (the tuple's items, or the type itself).
pub fn validate_type(ty: &Type, field_count: usize) -> (r: Result<usize, FromTypeError>)
    ensures
        match *ty {
            Type::Tuple { items, .. } => if field_count > 1 && field_count > items@.len() {
                r == Err::<usize, FromTypeError>(
                    FromTypeError::TooFewTypes { expected: field_count, found: items@.len() as usize },
                )
            } else if field_count > 1 && field_count < items@.len() {
                r == Err::<usize, FromTypeError>(
                    FromTypeError::TooManyTypes { expected: field_count, found: items@.len() as usize },
                )
            } else {
                r == Ok::<usize, FromTypeError>(items@.len() as usize)
            },
            Type::Other(_) => if field_count > 1 {
                r == Err::<usize, FromTypeError>(FromTypeError::ExpectedTuple { fields: field_count })
            } else {
                r == Ok::<usize, FromTypeError>(1)
            },
        },
{
    match ty {
        Type::Tuple { items, .. } => {
            if field_count > 1 && field_count > items.len() {
                Err(FromTypeError::TooFewTypes { expected: field_count, found: items.len() })
            } else if field_count > 1 && field_count < items.len() {
                Err(FromTypeError::TooManyTypes { expected: field_count, found: items.len() })
            } else {
                Ok(items.len())
            }
        },
        Type::Other(_) => {
            if field_count > 1 {
                Err(FromTypeError::ExpectedTuple { fields: field_count })
            } else {
                Ok(1)
            }
        },
    }
}

/// The error for the legacy `#[from(types(...))]` syntax, given the texts of
/// the listed types (string literals by their values).
pub fn legacy_error(types: &Vec<String>) -> (r: String)
    ensures
        r@ == "legacy syntax, remove `types` and use `"@ + joined(views(types@), ", "@)
            + "` instead"@,
{
    let mut m = String::from_str("legacy syntax, remove `types` and use `");
    m.append(join(types, ", ").as_str());
    m.append("` instead");
    m
}

/// `n` placeholders `_`.
pub open spec fn blanks(n: nat) -> Seq<Seq<char>> {
    Seq::new(n, |_i: int| "_"@)
}

/// The plural ending for `n` types.
pub open spec fn plural(n: nat) -> Seq<char> {
    if n > 1 {
        "s"@
    } else {
        Seq::empty()
    }
}

/// Whether the error's counts are those of an error `validate_type` gives.
pub open spec fn well_formed_error(err: FromTypeError) -> bool {
    match err {
        FromTypeError::TooFewTypes { expected, found } => expected > found,
        FromTypeError::TooManyTypes { expected, found } => found > expected,
        FromTypeError::ExpectedTuple { fields } => fields > 1,
    }
}

/// The message of a type error: `texts` holds the texts of the tuple's
/// items, or of the type itself where a tuple was expected.
pub open spec fn type_error_message(err: FromTypeError, texts: Seq<Seq<char>>) -> Seq<char> {
    match err {
        FromTypeError::TooFewTypes { expected, found } => "Wrong tuple length: expected "@
            + decimal(expected as nat) + ", found "@ + decimal(found as nat) + ". Consider adding "@
            + decimal((expected - found) as nat) + " more type"@ + plural((expected - found) as nat)
            + ": `("@ + joined(texts + blanks((expected - found) as nat), ", "@) + ")`"@,
        FromTypeError::TooManyTypes { expected, found } => "Wrong tuple length: expected "@
            + decimal(expected as nat) + ", found "@ + decimal(found as nat)
            + ". Consider removing last "@ + decimal((found - expected) as nat) + " type"@
            + plural((found - expected) as nat) + ": `("@ + joined(
            texts.take(if expected <= texts.len() {
                expected as int
            } else {
                texts.len() as int
            }),
            ", "@,
        ) + ")`"@,
        FromTypeError::ExpectedTuple { fields } => "Expected tuple: `("@ + joined(texts, ", "@)
            + ", "@ + joined(blanks((fields - 1) as nat), ", "@) + ")`"@,
    }
}

/// `n` placeholders `_`.
fn blank_texts(n: usize) -> (r: Vec<String>)
    ensures
        views(r@) == blanks(n as nat),
{
    let mut out: Vec<String> = Vec::new();
    let mut k: usize = 0;
    while k < n
        invariant
            k <= n,
            views(out@) =~= blanks(k as nat),
        decreases n - k,
    {
        let ghost prev = out@;
        out.push(String::from_str("_"));
        proof {
            assert(views(out@) =~= views(prev).push("_"@));
        }
        k = k + 1;
    }
    out
}

/// The message of a type error, where `texts` holds the texts of the
/// tuple's items, or of the type itself where a tuple was expected.
pub fn type_error_message_of(err: FromTypeError, texts: &Vec<String>) -> (r: String)
    requires
        well_formed_error(err),
    ensures
        r@ == type_error_message(err, views(texts@)),
{
    match err {
        FromTypeError::TooFewTypes { expected, found } => {
            let missing = expected - found;
            let mut m = String::from_str("Wrong tuple length: expected ");
            push_decimal(&mut m, expected);
            m.append(", found ");
            push_decimal(&mut m, found);
            m.append(". Consider adding ");
            push_decimal(&mut m, missing);
            m.append(" more type");
            if missing > 1 {
                m.append("s");
            }
            m.append(": `(");
            let mut all: Vec<String> = Vec::new();
            let mut k: usize = 0;
            while k < texts.len()
                invariant
                    k <= texts.len(),
                    views(all@) =~= views(texts@.subrange(0, k as int)),
                decreases texts.len() - k,
            {
                let ghost prev = all@;
                all.push(texts[k].clone());
                proof {
                    assert(views(all@) =~= views(prev).push(texts@[k as int]@));
                    assert(views(texts@.subrange(0, k + 1)) =~= views(texts@.subrange(
                        0,
                        k as int,
                    )).push(texts@[k as int]@));
                }
                k = k + 1;
            }
            assert(texts@.subrange(0, texts@.len() as int) =~= texts@);
            let blanks_v = blank_texts(missing);
            let ghost before = views(all@);
            let mut j: usize = 0;
            while j < blanks_v.len()
                invariant
                    j <= blanks_v.len(),
                    views(all@) =~= before + views(blanks_v@.subrange(0, j as int)),
                decreases blanks_v.len() - j,
            {
                let ghost prev = all@;
                all.push(blanks_v[j].clone());
                proof {
                    assert(views(all@) =~= views(prev).push(blanks_v@[j as int]@));
                    assert(views(blanks_v@.subrange(0, j + 1)) =~= views(blanks_v@.subrange(
                        0,
                        j as int,
                    )).push(blanks_v@[j as int]@));
                }
                j = j + 1;
            }
            assert(blanks_v@.subrange(0, blanks_v@.len() as int) =~= blanks_v@);
            m.append(join(&all, ", ").as_str());
            m.append(")`");
            m
        },
        FromTypeError::TooManyTypes { expected, found } => {
            let extra = found - expected;
            let mut m = String::from_str("Wrong tuple length: expected ");
            push_decimal(&mut m, expected);
            m.append(", found ");
            push_decimal(&mut m, found);
            m.append(". Consider removing last ");
            push_decimal(&mut m, extra);
            m.append(" type");
            if extra > 1 {
                m.append("s");
            }
            m.append(": `(");
            let keep = if expected <= texts.len() {
                expected
            } else {
                texts.len()
            };
            let mut kept: Vec<String> = Vec::new();
            let mut k: usize = 0;
            while k < keep
                invariant
                    keep <= texts.len(),
                    k <= keep,
                    views(kept@) =~= views(texts@).take(k as int),
                decreases keep - k,
            {
                let ghost prev = kept@;
                kept.push(texts[k].clone());
                proof {
                    assert(views(kept@) =~= views(prev).push(texts@[k as int]@));
                }
                k = k + 1;
            }
            m.append(join(&kept, ", ").as_str());
            m.append(")`");
            m
        },
        FromTypeError::ExpectedTuple { fields } => {
            let mut m = String::from_str("Expected tuple: `(");
            m.append(join(texts, ", ").as_str());
            m.append(", ");
            m.append(join(&blank_texts(fields - 1), ", ").as_str());
            m.append(")`");
            m
        },
    }
}

/// The `From` expansion of a struct or an enum variant: a skip attribute,
/// or no attribute where some variant forwards or the variant has no
/// fields, gives no implementation; a `from` attribute, or no attribute
/// otherwise, gives the implementation from the tuple of the fields (from
/// the one field where there is one).
pub proof fn lemma_from_expansion(
    attr: Option<VariantAttribute>,
    is_variant: bool,
    field_count: nat,
    has_forward: bool,
)
    ensures
        (attr == Some(VariantAttribute::Skip) || (attr is None && (has_forward || (is_variant
            && field_count == 0)))) ==> spec_from_impl(attr, is_variant, field_count, has_forward)
            == FromImpl::Nothing,
        (attr == Some(VariantAttribute::From) || (attr is None && !(has_forward || (is_variant
            && field_count == 0)))) ==> spec_from_impl(attr, is_variant, field_count, has_forward)
            == FromImpl::FieldTuple,
        attr matches Some(VariantAttribute::Types(_)) ==> spec_from_impl(
            attr,
            is_variant,
            field_count,
            has_forward,
        ) == FromImpl::Types,
        attr == Some(VariantAttribute::Forward) ==> spec_from_impl(
            attr,
            is_variant,
            field_count,
            has_forward,
        ) == FromImpl::Forward,
{
}

/// Merging the types of a struct's attributes keeps every listed type and
/// adds none, and keeps the attributes' order: the types of the first `m`
/// attributes come first, before those of later ones.
pub proof fn lemma_merged_types_keep_order(attrs: Seq<StructAttribute>, m: int, n: int)
    requires
        0 <= m <= n <= attrs.len(),
    ensures
        merged_types(attrs, m).len() <= merged_types(attrs, n).len(),
        merged_types(attrs, n).subrange(0, merged_types(attrs, m).len() as int) == merged_types(
            attrs,
            m,
        ),
        forall|x: usize|
            merged_types(attrs, n).contains(x) <==> exists|i: int|
                0 <= i < n && (#[trigger] attrs[i] matches StructAttribute::Types(v) && v@.contains(
                    x,
                )),
    decreases n,
{
    if n > 0 {
        if m < n {
            lemma_merged_types_keep_order(attrs, m, n - 1);
        } else {
            lemma_merged_types_keep_order(attrs, n - 1, n - 1);
        }
        let prev = merged_types(attrs, n - 1);
        let cur = merged_types(attrs, n);
        lemma_merged_types_keep_order(attrs, n - 1, n - 1);
        assert forall|x: usize| cur.contains(x) <==> exists|i: int|
            0 <= i < n && (#[trigger] attrs[i] matches StructAttribute::Types(v) && v@.contains(x)) by {
            let in_prev = exists|i: int|
                0 <= i < n - 1 && (#[trigger] attrs[i] matches StructAttribute::Types(v) && v@.contains(x));
            assert(prev.contains(x) <==> in_prev);
            if cur.contains(x) {
                let k = choose|k: int| 0 <= k < cur.len() && cur[k] == x;
                match attrs[n - 1] {
                    StructAttribute::Types(v) => {
                        if k < prev.len() {
                            assert(prev[k] == x);
                            assert(prev.contains(x));
                        } else {
                            assert(v@[k - prev.len()] == x);
                            assert(v@.contains(x));
                            assert(attrs[n - 1] matches StructAttribute::Types(w) && w@.contains(x));
                        }
                    },
                    StructAttribute::Forward => {
                        assert(prev[k] == x);
                        assert(prev.contains(x));
                    },
                }
            }
            if exists|i: int|
                0 <= i < n && (#[trigger] attrs[i] matches StructAttribute::Types(w) && w@.contains(x)) {
                let i = choose|i: int|
                    0 <= i < n && (#[trigger] attrs[i] matches StructAttribute::Types(w) && w@.contains(x));
                if i < n - 1 {
                    assert(in_prev);
                    let k = choose|k: int| 0 <= k < prev.len() && prev[k] == x;
                    assert(cur[k] == x);
                } else {
                    match attrs[n - 1] {
                        StructAttribute::Types(v) => {
                            let k = choose|k: int| 0 <= k < v@.len() && v@[k] == x;
                            assert(cur[prev.len() + k] == x);
                        },
                        StructAttribute::Forward => {},
                    }
                }
            }
        }
    }
}

} // verus!
