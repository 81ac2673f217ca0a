//! The decisions of the `AsRef`/`AsMut` derives: which fields get an
//! implementation, with which conversions, and how each implementation
//! reaches the field.

use vstd::prelude::*;
use vstd::string::*;

use crate::attr::{is_skip_word, single_word, spec_is_skip, spec_single_word};
use crate::input::DataKind;
use crate::text::text_is;
use crate::tokens::TokenTree;
use crate::ty::{ty_same, Ty};

verus! {

/// The attribute on a field.
#[derive(Debug, Clone, Copy, PartialEq, Eq, Structural)]
pub enum FieldAttribute {
    /// The bare attribute: convert to the field's own type.
    Empty,
    /// Conversions (`forward` or a list of types), referred to by an index
    /// that the caller gives them.
    Args(usize),
    /// `skip` or `ignore`.
    Skip,
}

/// An implementation to generate: for which field, and with which
/// conversions (`None` for the field's own type).
#[derive(Debug, Clone, Copy, PartialEq, Eq, Structural)]
pub struct FieldExpansion {
    pub field: usize,
    pub conversion: Option<usize>,
}

/// Why the derive cannot be applied.
#[derive(Debug, Clone, Copy, PartialEq, Eq, Structural)]
pub enum AsError {
    /// It cannot be derived for enums.
    Enum,
    /// It cannot be derived for unions.
    Union,
    /// The struct attribute needs exactly one field; `empty` when there is
    /// none.
    FieldCount { empty: bool },
    /// The attribute is placed on both the struct and its field.
    BothAttributes,
    /// A skip attribute (on this field) stands beside other attributes.
    SkipWithOthers(usize),
}

/// Every attribute present on a field is a skip (which holds where there are
/// none).
pub open spec fn all_skips(fa: Seq<Option<FieldAttribute>>) -> bool {
    forall|i: int| 0 <= i < fa.len() && fa[i] is Some ==> fa[i] == Some(FieldAttribute::Skip)
}

/// The expansions for the first `n` fields: where every attribute is a skip,
/// one for each field without an attribute; otherwise one for each field
/// with a bare attribute or conversions.
pub open spec fn spec_selected(fa: Seq<Option<FieldAttribute>>, n: int, all: bool) -> Seq<
    FieldExpansion,
>
    decreases n,
{
    if n <= 0 {
        Seq::empty()
    } else {
        let prev = spec_selected(fa, n - 1, all);
        let i = (n - 1) as usize;
        if all {
            if fa[n - 1] is None {
                prev.push(FieldExpansion { field: i, conversion: None })
            } else {
                prev
            }
        } else {
            match fa[n - 1] {
                Some(FieldAttribute::Empty) => prev.push(FieldExpansion { field: i, conversion: None }),
                Some(FieldAttribute::Args(c)) => prev.push(
                    FieldExpansion { field: i, conversion: Some(c) },
                ),
                _ => prev,
            }
        }
    }
}

/// Decides the implementations to generate for data of kind `kind`, with the
/// struct attribute's conversions (`Some(None)` for a bare one) and each
/// field's attribute.
pub fn select_expansions(
    kind: DataKind,
    struct_attr: Option<Option<usize>>,
    field_attrs: &Vec<Option<FieldAttribute>>,
) -> (r: Result<Vec<FieldExpansion>, AsError>)
    ensures
        kind == DataKind::Enum ==> r matches Err(AsError::Enum),
        kind == DataKind::Union ==> r matches Err(AsError::Union),
        kind == DataKind::Struct && struct_attr is Some ==> {
            &&& field_attrs@.len() != 1 ==> (r matches Err(AsError::FieldCount { empty }) && empty
                == (field_attrs@.len() == 0))
            &&& field_attrs@.len() == 1 && field_attrs@[0] is Some ==> (r matches Err(
                AsError::BothAttributes,
            ))
            &&& field_attrs@.len() == 1 && field_attrs@[0] is None ==> (r matches Ok(v) && v@
                == seq![FieldExpansion { field: 0, conversion: struct_attr.unwrap() }])
        },
        kind == DataKind::Struct && struct_attr is None ==> {
            &&& !all_skips(field_attrs@) && (exists|i: int|
                0 <= i < field_attrs@.len() && field_attrs@[i] == Some(FieldAttribute::Skip))
                ==> (r matches Err(AsError::SkipWithOthers(i)) && 0 <= i < field_attrs@.len()
                && field_attrs@[i as int] == Some(FieldAttribute::Skip) && forall|k: int|
                0 <= k < i ==> field_attrs@[k] != Some(FieldAttribute::Skip))
            &&& (all_skips(field_attrs@) || !(exists|i: int|
                0 <= i < field_attrs@.len() && field_attrs@[i] == Some(FieldAttribute::Skip)))
                ==> (r matches Ok(v) && v@ == spec_selected(
                field_attrs@,
                field_attrs@.len() as int,
                all_skips(field_attrs@),
            ))
        },
{
    match kind {
        DataKind::Enum => {
            return Err(AsError::Enum);
        },
        DataKind::Union => {
            return Err(AsError::Union);
        },
        DataKind::Struct => {},
    }
    if let Some(conversion) = struct_attr {
        if field_attrs.len() != 1 {
            return Err(AsError::FieldCount { empty: field_attrs.len() == 0 });
        }
        if field_attrs[0].is_some() {
            return Err(AsError::BothAttributes);
        }
        let mut v = Vec::new();
        v.push(FieldExpansion { field: 0, conversion });
        proof {
            assert(v@ =~= seq![FieldExpansion { field: 0, conversion: struct_attr.unwrap() }]);
        }
        return Ok(v);
    }
    let mut all = true;
    let mut first_skip: Option<usize> = None;
    let mut i: usize = 0;
    while i < field_attrs.len()
        invariant
            i <= field_attrs.len(),
            all == forall|k: int|
                0 <= k < i && field_attrs@[k] is Some ==> field_attrs@[k] == Some(
                    FieldAttribute::Skip,
                ),
            match first_skip {
                Some(s) => s < i && field_attrs@[s as int] == Some(FieldAttribute::Skip)
                    && forall|k: int| 0 <= k < s ==> field_attrs@[k] != Some(FieldAttribute::Skip),
                None => forall|k: int| 0 <= k < i ==> field_attrs@[k] != Some(FieldAttribute::Skip),
            },
        decreases field_attrs.len() - i,
    {
        match field_attrs[i] {
            Some(FieldAttribute::Skip) => {
                if first_skip.is_none() {
                    first_skip = Some(i);
                }
            },
            Some(_) => {
                all = false;
            },
            None => {},
        }
        i = i + 1;
    }
    if !all {
        if let Some(s) = first_skip {
            return Err(AsError::SkipWithOthers(s));
        }
    }
    let mut out: Vec<FieldExpansion> = Vec::new();
    let mut j: usize = 0;
    while j < field_attrs.len()
        invariant
            j <= field_attrs.len(),
            all == all_skips(field_attrs@),
            out@ == spec_selected(field_attrs@, j as int, all),
        decreases field_attrs.len() - j,
    {
        if all {
            if field_attrs[j].is_none() {
                out.push(FieldExpansion { field: j, conversion: None });
            }
        } else {
            match field_attrs[j] {
                Some(FieldAttribute::Empty) => {
                    out.push(FieldExpansion { field: j, conversion: None });
                },
                Some(FieldAttribute::Args(c)) => {
                    out.push(FieldExpansion { field: j, conversion: Some(c) });
                },
                _ => {},
            }
        }
        j = j + 1;
    }
    Ok(out)
}

/// Whether a field gets an implementation: where every attribute is a skip,
/// each field without one; otherwise each field with a bare attribute or
/// conversions.
pub open spec fn field_selected(a: Option<FieldAttribute>, all: bool) -> bool {
    if all {
        a is None
    } else {
        a == Some(FieldAttribute::Empty) || a matches Some(FieldAttribute::Args(_))
    }
}

/// The implementations are for exactly the selected fields, each once, with
/// the field's conversions (`None` for a field without any, or with the bare
/// attribute).
pub proof fn lemma_selected_exactly(fa: Seq<Option<FieldAttribute>>, n: int, all: bool)
    requires
        0 <= n <= fa.len(),
        n <= usize::MAX,
    ensures
        forall|j: int|
            0 <= j < spec_selected(fa, n, all).len() ==> {
                let e = #[trigger] spec_selected(fa, n, all)[j];
                &&& e.field < n
                &&& field_selected(fa[e.field as int], all)
                &&& e.conversion == match fa[e.field as int] {
                    Some(FieldAttribute::Args(c)) => Some(c),
                    _ => None::<usize>,
                }
            },
        forall|f: int|
            0 <= f < n && field_selected(fa[f], all) ==> exists|j: int|
                0 <= j < spec_selected(fa, n, all).len() && (#[trigger] spec_selected(fa, n, all)[j]).field
                    == f,
    decreases n,
{
    if n > 0 {
        lemma_selected_exactly(fa, n - 1, all);
        let prev = spec_selected(fa, n - 1, all);
        let cur = spec_selected(fa, n, all);
        assert forall|f: int| 0 <= f < n && field_selected(fa[f], all) implies exists|j: int|
            0 <= j < cur.len() && (#[trigger] cur[j]).field == f by {
            if f < n - 1 {
                let j = choose|j: int| 0 <= j < prev.len() && (#[trigger] prev[j]).field == f;
                if cur.len() > prev.len() {
                    assert(cur[j] == prev[j]);
                } else {
                    assert(cur == prev);
                }
            } else {
                assert(cur[prev.len() as int].field == f);
            }
        }
        assert forall|j: int| 0 <= j < cur.len() implies {
            let e = #[trigger] cur[j];
            &&& e.field < n
            &&& field_selected(fa[e.field as int], all)
            &&& e.conversion == match fa[e.field as int] {
                Some(FieldAttribute::Args(c)) => Some(c),
                _ => None::<usize>,
            }
        } by {
            if j < prev.len() {
                if cur.len() > prev.len() {
                    assert(cur[j] == prev[j]);
                } else {
                    assert(cur == prev);
                }
            }
        }
    }
}

/// How an implementation returns its reference.
#[derive(Debug, Clone, Copy, PartialEq, Eq, Structural)]
pub enum ImplKind {
    /// A reference to the field itself.
    Direct,
    /// The field's own `as_ref`/`as_mut`, bounded by the trait on the field's
    /// type.
    Forwarded,
    /// A choice between the two at compile time, by whether the field's type
    /// is the return type (which does not work where generics are involved).
    Specialized,
}

/// Chooses how an implementation for `return_ty` reaches a field of type
/// `field_ty`: a `forward` attribute always forwards; the field's own type is
/// returned directly; where either type mentions a generic parameter (as
/// the caller found), it forwards; otherwise it specializes.
pub fn impl_kind(
    forward: bool,
    field_ty: &Ty,
    return_ty: &Ty,
    field_generic: bool,
    return_generic: bool,
) -> (r: ImplKind)
    ensures
        r == if forward {
            ImplKind::Forwarded
        } else if ty_same(*field_ty, *return_ty) {
            ImplKind::Direct
        } else if field_generic || return_generic {
            ImplKind::Forwarded
        } else {
            ImplKind::Specialized
        },
{
    if forward {
        ImplKind::Forwarded
    } else if field_ty.same(return_ty) {
        ImplKind::Direct
    } else if field_generic || return_generic {
        ImplKind::Forwarded
    } else {
        ImplKind::Specialized
    }
}

/// What the arguments of an `#[as_ref(...)]` (or `#[as_mut(...)]`)
/// attribute are, before any type is read.
#[derive(Debug, Clone, Copy, PartialEq, Eq, Structural)]
pub enum AsArgs {
    /// Nothing, on a field: `#[as_ref()]`, the same as `#[as_ref]`.
    Empty,
    /// The word `skip` or `ignore` alone, on a field.
    Skip,
    /// The word `forward` alone.
    Forward,
    /// Anything else, read as a list of types.
    Types,
}

/// The form of the arguments `s` of a conversion attribute on a field
/// (`on_field`) or on the struct. On the struct, no arguments are an empty
/// list of types, and `skip` reads as a type.
pub open spec fn spec_as_args(s: Seq<TokenTree>, on_field: bool) -> AsArgs {
    if on_field && s.len() == 0 {
        AsArgs::Empty
    } else if on_field && spec_is_skip(s) {
        AsArgs::Skip
    } else if spec_single_word(s) == Some("forward"@) {
        AsArgs::Forward
    } else {
        AsArgs::Types
    }
}

/// How a conversion attribute's arguments read, by their tokens: on a
/// field, no arguments mean the field itself, and the single word `skip`
/// or `ignore` (either one) leaves the field out; the single word `forward`
/// asks for forwarding, on a field or on the struct; anything else is a
/// list of types (on the struct, `skip` and `ignore` too).
pub proof fn lemma_as_args_by_tokens(s: Seq<TokenTree>, on_field: bool)
    ensures
        on_field && s.len() == 0 ==> spec_as_args(s, on_field) == AsArgs::Empty,
        on_field && s.len() == 1 && (s[0] matches TokenTree::Ident(w) && (w@ == "skip"@ || w@
            == "ignore"@)) ==> spec_as_args(s, on_field) == AsArgs::Skip,
        s.len() == 1 && (s[0] matches TokenTree::Ident(w) && w@ == "forward"@) ==> spec_as_args(
            s,
            on_field,
        ) == AsArgs::Forward,
        !on_field && s.len() == 1 && (s[0] matches TokenTree::Ident(w) && (w@ == "skip"@ || w@
            == "ignore"@)) ==> spec_as_args(s, on_field) == AsArgs::Types,
        !on_field && s.len() == 0 ==> spec_as_args(s, on_field) == AsArgs::Types,
        s.len() > 1 ==> spec_as_args(s, on_field) == AsArgs::Types,
{
    reveal_strlit("skip");
    reveal_strlit("ignore");
    reveal_strlit("forward");
    assert("skip"@ != "forward"@) by {
        assert("skip"@[0] != "forward"@[0]);
    }
    assert("ignore"@ != "forward"@) by {
        assert("ignore"@[0] != "forward"@[0]);
    }
}

/// Reads the form of the arguments of a conversion attribute.
pub fn as_args(tokens: &Vec<TokenTree>, on_field: bool) -> (r: AsArgs)
    ensures
        r == spec_as_args(tokens@, on_field),
{
    if on_field && tokens.len() == 0 {
        return AsArgs::Empty;
    }
    if on_field && is_skip_word(tokens) {
        return AsArgs::Skip;
    }
    match single_word(tokens) {
        Some(w) => if text_is(&w, "forward") {
            AsArgs::Forward
        } else {
            AsArgs::Types
        },
        None => AsArgs::Types,
    }
}

/// The conversions that an attribute asks for.
#[derive(Debug)]
pub enum ConversionAttribute {
    /// `forward`: every type that the field's type converts to.
    Forward,
    /// The listed types, referred to by indices that the caller gives them.
    Types(Vec<usize>),
}

impl ConversionAttribute {
    /// Merges the conversions of two attributes on the same item: two lists
    /// of types join; anything else cannot be merged.
    pub fn merge(self, other: ConversionAttribute) -> (r: Option<ConversionAttribute>)
        ensures
            match (self, other) {
                (ConversionAttribute::Types(a), ConversionAttribute::Types(b)) => r matches Some(
                    ConversionAttribute::Types(c),
                ) && c@ == a@ + b@,
                _ => r is None,
            },
    {
        match (self, other) {
            (ConversionAttribute::Types(a), ConversionAttribute::Types(b)) => {
                let mut c = a;
                let ghost start = c@;
                let mut k: usize = 0;
                while k < b.len()
                    invariant
                        k <= b.len(),
                        c@ == start + b@.subrange(0, k as int),
                    decreases b.len() - k,
                {
                    c.push(b[k]);
                    proof {
                        assert(start + b@.subrange(0, k + 1) =~= (start + b@.subrange(
                            0,
                            k as int,
                        )).push(b@[k as int]));
                    }
                    k = k + 1;
                }
                assert(b@.subrange(0, b@.len() as int) =~= b@);
                Some(ConversionAttribute::Types(c))
            },
            _ => None,
        }
    }
}

/// The message of a refusal, for the trait `trait_name`, its attribute
/// `attr_name`, and the word (`skip` or `ignore`) of the skip attribute.
pub open spec fn as_error_message(
    e: AsError,
    trait_name: Seq<char>,
    attr_name: Seq<char>,
    skip_word: Seq<char>,
) -> Seq<char> {
    match e {
        AsError::Enum => "`"@ + trait_name + "` cannot be derived for enums"@,
        AsError::Union => "`"@ + trait_name + "` cannot be derived for unions"@,
        AsError::FieldCount { .. } => "`#["@ + attr_name
            + "(...)]` attribute can only be placed on structs with exactly one field"@,
        AsError::BothAttributes => "`#["@ + attr_name
            + "(...)]` cannot be placed on both struct and its field"@,
        AsError::SkipWithOthers(_) => "`#["@ + attr_name + "("@ + skip_word
            + ")]` cannot be used in the same struct with other `#["@ + attr_name
            + "(...)]` attributes"@,
    }
}

impl AsError {
    /// The message of the refusal; `skip_word` is the word of the skip
    /// attribute that `SkipWithOthers` points at.
    pub fn message(&self, trait_name: &str, attr_name: &str, skip_word: &str) -> (r: String)
        ensures
            r@ == as_error_message(*self, trait_name@, attr_name@, skip_word@),
    {
        match self {
            AsError::Enum => {
                let mut m = String::from_str("`");
                m.append(trait_name);
                m.append("` cannot be derived for enums");
                m
            },
            AsError::Union => {
                let mut m = String::from_str("`");
                m.append(trait_name);
                m.append("` cannot be derived for unions");
                m
            },
            AsError::FieldCount { .. } => {
                let mut m = String::from_str("`#[");
                m.append(attr_name);
                m.append("(...)]` attribute can only be placed on structs with exactly one field");
                m
            },
            AsError::BothAttributes => {
                let mut m = String::from_str("`#[");
                m.append(attr_name);
                m.append("(...)]` cannot be placed on both struct and its field");
                m
            },
            AsError::SkipWithOthers(_) => {
                let mut m = String::from_str("`#[");
                m.append(attr_name);
                m.append("(");
                m.append(skip_word);
                m.append(")]` cannot be used in the same struct with other `#[");
                m.append(attr_name);
                m.append("(...)]` attributes");
                m
            },
        }
    }
}

/// The fields that get implementations: never a skipped one, each at most
/// once, in order; and without any attribute, every field, converting to
/// its own type.
pub proof fn lemma_selected_fields(fa: Seq<Option<FieldAttribute>>, n: int, all: bool)
    requires
        0 <= n <= fa.len(),
        n <= usize::MAX,
    ensures
        forall|j: int|
            0 <= j < spec_selected(fa, n, all).len() ==> (#[trigger] spec_selected(fa, n, all)[j]).field
                < n && fa[spec_selected(fa, n, all)[j].field as int] != Some(FieldAttribute::Skip),
        forall|j: int, k: int|
            0 <= j < k < spec_selected(fa, n, all).len() ==> spec_selected(fa, n, all)[j].field
                < spec_selected(fa, n, all)[k].field,
        (all && forall|i: int| 0 <= i < n ==> fa[i] is None) ==> spec_selected(fa, n, all)
            == Seq::new(n as nat, |i: int| FieldExpansion { field: i as usize, conversion: None }),
    decreases n,
{
    if n > 0 {
        lemma_selected_fields(fa, n - 1, all);
        if all && forall|i: int| 0 <= i < n ==> fa[i] is None {
            assert(spec_selected(fa, n, all) =~= Seq::new(
                n as nat,
                |i: int| FieldExpansion { field: i as usize, conversion: None },
            ));
        }
    }
}

} // verus!
