//! The decisions of the `Display`-like derives that do not depend on the
//! formatting string: which field types mention a type parameter (and so
//! need a trait bound), how the body of `fmt` is made for a struct or an
//! enum variant, which trait bounds it asks for, and which inputs need an
//! explicit formatting attribute.

use vstd::prelude::*;

use crate::fmt_string::FmtTrait;
use crate::fmt_traits::{attribute_name, is_display_like, trait_name_to_attribute_name};
use crate::text::{same_text_in, str_eq};
use crate::ty::{ArgList, BoundList, PathArgs, SegList, Ty, TyList};

verus! {

/// `name` is the name of one of the type parameters `ps`.
pub open spec fn is_param(ps: Seq<String>, name: Seq<char>) -> bool {
    exists|i: int| 0 <= i < ps.len() && ps[i]@ == name
}

/// The single identifier a path consists of, if it is one: no leading `::`,
/// one segment, no arguments.
pub open spec fn path_ident(leading_colon: bool, segs: SegList) -> Option<String> {
    if leading_colon {
        None
    } else {
        match segs {
            SegList::Cons(id, PathArgs::NoArgs, rest) => if *rest is Nil {
                Some(id)
            } else {
                None
            },
            _ => None,
        }
    }
}

/// A type parameter among `ps` occurs in `t`: as a path that is that single
/// identifier, or inside the qualified self, an element type, a tuple
/// element, a function argument or return type, a generic argument or
/// associated type binding of a path, or a trait bound of a trait object.
pub open spec fn generic_in(t: Ty, ps: Seq<String>) -> bool
    decreases t,
{
    ps.len() > 0 && match t {
        Ty::Path(q, _, lead, segs) => (match q {
            Some(x) => generic_in(*x, ps),
            None => false,
        }) || match path_ident(lead, segs) {
            Some(id) => is_param(ps, id@),
            None => segs_generic_in(segs, ps),
        },
        Ty::Array(e, _) => generic_in(*e, ps),
        Ty::Group(e) => generic_in(*e, ps),
        Ty::Paren(e) => generic_in(*e, ps),
        Ty::Ptr(_, e) => generic_in(*e, ps),
        Ty::Reference(_, _, e) => generic_in(*e, ps),
        Ty::Slice(e) => generic_in(*e, ps),
        Ty::BareFn(_, ins, out) => list_generic_in(ins, ps) || match out {
            Some(o) => generic_in(*o, ps),
            None => false,
        },
        Ty::Tuple(l) => list_generic_in(l, ps),
        Ty::TraitObject(_, bounds) => bounds_generic_in(bounds, ps),
        _ => false,
    }
}

/// A type parameter occurs in one of the types.
pub open spec fn list_generic_in(l: TyList, ps: Seq<String>) -> bool
    decreases l,
{
    match l {
        TyList::Nil => false,
        TyList::Cons(t, rest) => generic_in(*t, ps) || list_generic_in(*rest, ps),
    }
}

/// A type parameter occurs in the arguments of one of the segments.
pub open spec fn segs_generic_in(s: SegList, ps: Seq<String>) -> bool
    decreases s,
{
    match s {
        SegList::Nil => false,
        SegList::Cons(_, args, rest) => path_args_generic_in(args, ps) || segs_generic_in(
            *rest,
            ps,
        ),
    }
}

/// A type parameter occurs in the arguments of a segment.
pub open spec fn path_args_generic_in(a: PathArgs, ps: Seq<String>) -> bool
    decreases a,
{
    match a {
        PathArgs::NoArgs => false,
        PathArgs::AngleBracketed(_, args) => args_generic_in(args, ps),
        PathArgs::Parenthesized(_, ins, out) => list_generic_in(ins, ps) || match out {
            Some(o) => generic_in(*o, ps),
            None => false,
        },
    }
}

/// A type parameter occurs in a type argument or associated type binding.
pub open spec fn args_generic_in(a: ArgList, ps: Seq<String>) -> bool
    decreases a,
{
    match a {
        ArgList::Nil => false,
        ArgList::Type(t, rest) => generic_in(*t, ps) || args_generic_in(*rest, ps),
        ArgList::AssocType(_, t, rest) => generic_in(*t, ps) || args_generic_in(*rest, ps),
        ArgList::Other(_, rest) => args_generic_in(*rest, ps),
    }
}

/// A type parameter occurs in the path of a trait bound.
pub open spec fn bounds_generic_in(b: BoundList, ps: Seq<String>) -> bool
    decreases b,
{
    match b {
        BoundList::Nil => false,
        BoundList::Trait(segs, rest) => segs_generic_in(segs, ps) || bounds_generic_in(*rest, ps),
        BoundList::Other(rest) => bounds_generic_in(*rest, ps),
    }
}

/// Checks whether `ty` mentions one of the type parameters `type_params`.
pub fn contains_generic_param(type_params: &Vec<String>, ty: &Ty) -> (r: bool)
    ensures
        r == generic_in(*ty, type_params@),
    decreases *ty,
{
    if type_params.len() == 0 {
        return false;
    }
    match ty {
        Ty::Path(q, _, lead, segs) => {
            if let Some(x) = q {
                if contains_generic_param(type_params, x) {
                    return true;
                }
            }
            let mut single: Option<&String> = None;
            if !*lead {
                if let SegList::Cons(id, PathArgs::NoArgs, rest) = segs {
                    if let SegList::Nil = **rest {
                        single = Some(id);
                    }
                }
            }
            match single {
                Some(id) => same_text_in(type_params, id),
                None => path_contains_generic_param(type_params, segs),
            }
        },
        Ty::Array(e, _) => contains_generic_param(type_params, e),
        Ty::Group(e) => contains_generic_param(type_params, e),
        Ty::Paren(e) => contains_generic_param(type_params, e),
        Ty::Ptr(_, e) => contains_generic_param(type_params, e),
        Ty::Reference(_, _, e) => contains_generic_param(type_params, e),
        Ty::Slice(e) => contains_generic_param(type_params, e),
        Ty::BareFn(_, ins, out) => {
            list_contains_generic_param(type_params, ins) || match out {
                Some(o) => contains_generic_param(type_params, o),
                None => false,
            }
        },
        Ty::Tuple(l) => list_contains_generic_param(type_params, l),
        Ty::TraitObject(_, bounds) => bounds_contain_generic_param(type_params, bounds),
        _ => false,
    }
}

/// Checks whether one of the types mentions a type parameter.
pub fn list_contains_generic_param(type_params: &Vec<String>, l: &TyList) -> (r: bool)
    ensures
        r == list_generic_in(*l, type_params@),
    decreases *l,
{
    match l {
        TyList::Nil => false,
        TyList::Cons(t, rest) => contains_generic_param(type_params, t)
            || list_contains_generic_param(type_params, rest),
    }
}

/// Checks whether the arguments of a path's segments mention a type
/// parameter.
pub fn path_contains_generic_param(type_params: &Vec<String>, segs: &SegList) -> (r: bool)
    ensures
        r == segs_generic_in(*segs, type_params@),
    decreases *segs,
{
    match segs {
        SegList::Nil => false,
        SegList::Cons(_, args, rest) => path_args_contain_generic_param(type_params, args)
            || path_contains_generic_param(type_params, rest),
    }
}

fn path_args_contain_generic_param(type_params: &Vec<String>, a: &PathArgs) -> (r: bool)
    ensures
        r == path_args_generic_in(*a, type_params@),
    decreases *a,
{
    match a {
        PathArgs::NoArgs => false,
        PathArgs::AngleBracketed(_, args) => args_contain_generic_param(type_params, args),
        PathArgs::Parenthesized(_, ins, out) => {
            list_contains_generic_param(type_params, ins) || match out {
                Some(o) => contains_generic_param(type_params, o),
                None => false,
            }
        },
    }
}

fn args_contain_generic_param(type_params: &Vec<String>, a: &ArgList) -> (r: bool)
    ensures
        r == args_generic_in(*a, type_params@),
    decreases *a,
{
    match a {
        ArgList::Nil => false,
        ArgList::Type(t, rest) => contains_generic_param(type_params, t)
            || args_contain_generic_param(type_params, rest),
        ArgList::AssocType(_, t, rest) => contains_generic_param(type_params, t)
            || args_contain_generic_param(type_params, rest),
        ArgList::Other(_, rest) => args_contain_generic_param(type_params, rest),
    }
}

fn bounds_contain_generic_param(type_params: &Vec<String>, b: &BoundList) -> (r: bool)
    ensures
        r == bounds_generic_in(*b, type_params@),
    decreases *b,
{
    match b {
        BoundList::Nil => false,
        BoundList::Trait(segs, rest) => path_contains_generic_param(type_params, segs)
            || bounds_contain_generic_param(type_params, rest),
        BoundList::Other(rest) => bounds_contain_generic_param(type_params, rest),
    }
}

/// The formatting attribute of a struct or variant, as the body needs it.
#[derive(Debug, Clone, Copy, PartialEq, Eq, Structural)]
pub enum OwnFmt {
    /// No `#[display("...", ...)]` attribute.
    Absent,
    /// An attribute that only formats one expression with one trait, and so
    /// calls that trait's `fmt` directly.
    Transparent,
    /// Any other attribute.
    Other,
}

/// The formatting attribute that an enum shares between its variants.
#[derive(Debug, Clone, Copy, PartialEq, Eq, Structural)]
pub struct SharedFmt {
    /// It only formats one expression with one trait.
    pub transparent: bool,
    /// It mentions the `_variant` argument.
    pub mentions_variant: bool,
}

/// What formats a struct or an enum variant of its own.
#[derive(Debug, Clone, Copy, PartialEq, Eq, Structural)]
pub enum OwnBody {
    /// Nothing: the shared attribute alone formats the variant.
    Nothing,
    /// `&format_args!(..)` of the own attribute, as the shared one's
    /// `_variant`.
    FormatArgs,
    /// The trait's `fmt` of the own attribute's one expression.
    TransparentCall,
    /// `write!(f, ..)` of the own attribute.
    Write,
    /// The name, as the shared one's `_variant`.
    Name,
    /// `f.write_str(name)`.
    WriteName,
    /// `&format_args!(placeholder, field)`: the one field through the
    /// trait's default placeholder, as the shared one's `_variant`.
    FieldArgs,
    /// The trait's `fmt` of the one field.
    FieldFmt,
}

/// The body of `fmt` for a struct or an enum variant: what it formats of its
/// own, and whether the shared attribute writes the result (binding the own
/// part, where there is one, to `_variant`).
#[derive(Debug, Clone, Copy, PartialEq, Eq, Structural)]
pub struct DisplayBody {
    pub own: OwnBody,
    pub shared_write: bool,
}

/// Whether a shared attribute takes part in formatting: it is present and
/// not a transparent call.
pub open spec fn has_shared(shared: Option<SharedFmt>) -> bool {
    shared matches Some(a) && !a.transparent
}

/// Whether the own part of the body is made: without a shared attribute,
/// or with one that mentions `_variant`.
pub open spec fn own_part_made(shared: Option<SharedFmt>) -> bool {
    !has_shared(shared) || match shared {
        Some(a) => a.mentions_variant,
        None => true,
    }
}

/// The error for a struct or variant with several fields and no attribute.
pub open spec fn many_fields_error(trait_name: Seq<char>) -> Seq<char> {
    "struct or enum variant with more than 1 field must have `#["@ + attribute_name(trait_name)
        + "(\"...\", ...)]` attribute"@
}

/// The own part of the body.
pub open spec fn own_body(shared: Option<SharedFmt>, own: OwnFmt, field_count: nat) -> Option<
    OwnBody,
> {
    if !own_part_made(shared) {
        Some(OwnBody::Nothing)
    } else {
        match own {
            OwnFmt::Transparent => Some(
                if has_shared(shared) {
                    OwnBody::FormatArgs
                } else {
                    OwnBody::TransparentCall
                },
            ),
            OwnFmt::Other => Some(
                if has_shared(shared) {
                    OwnBody::FormatArgs
                } else {
                    OwnBody::Write
                },
            ),
            OwnFmt::Absent => if field_count == 0 {
                Some(
                    if has_shared(shared) {
                        OwnBody::Name
                    } else {
                        OwnBody::WriteName
                    },
                )
            } else if field_count == 1 {
                Some(
                    if has_shared(shared) {
                        OwnBody::FieldArgs
                    } else {
                        OwnBody::FieldFmt
                    },
                )
            } else {
                None
            },
        }
    }
}

/// What formats a struct or variant of its own, by its inputs. Where an
/// enum's shared attribute takes part (present, not a transparent call) and
/// mentions `_variant`, the variant's own part is handed to it as
/// `_variant`: an own attribute as `format_args!`, else the name or the one
/// field; where the shared attribute does not mention `_variant`, there is no
/// own part. Without a taking-part shared attribute, the variant writes
/// itself: its attribute with `write!` (or the trait's `fmt` for a
/// transparent call), else its name or its one field. Several fields without
/// an attribute are an error.
pub proof fn lemma_own_body_by_inputs(shared: Option<SharedFmt>, own: OwnFmt, field_count: nat)
    ensures
        ({
            let active = shared matches Some(a) && !a.transparent;
            let mentions = shared matches Some(a) && a.mentions_variant;
            let b = own_body(shared, own, field_count);
            &&& active && !mentions ==> b == Some(OwnBody::Nothing)
            &&& active && mentions ==> match own {
                OwnFmt::Absent => if field_count == 0 {
                    b == Some(OwnBody::Name)
                } else if field_count == 1 {
                    b == Some(OwnBody::FieldArgs)
                } else {
                    b is None
                },
                _ => b == Some(OwnBody::FormatArgs),
            }
            &&& !active ==> match own {
                OwnFmt::Other => b == Some(OwnBody::Write),
                OwnFmt::Transparent => b == Some(OwnBody::TransparentCall),
                OwnFmt::Absent => if field_count == 0 {
                    b == Some(OwnBody::WriteName)
                } else if field_count == 1 {
                    b == Some(OwnBody::FieldFmt)
                } else {
                    b is None
                },
            }
        }),
{
}

/// Makes the body of `fmt` of the `trait_name` derive for a struct or an
/// enum variant with `field_count` fields. Without an attribute, a struct
/// or variant with several fields is an error.
pub fn generate_body(trait_name: &str, shared: Option<SharedFmt>, own: OwnFmt, field_count: usize) -> (r:
    Result<DisplayBody, String>)
    requires
        is_display_like(trait_name@),
    ensures
        match own_body(shared, own, field_count as nat) {
            Some(b) => r == Ok::<DisplayBody, String>(
                DisplayBody { own: b, shared_write: has_shared(shared) },
            ),
            None => r matches Err(m) && m@ == many_fields_error(trait_name@),
        },
        r matches Ok(b) ==> b.shared_write == (shared matches Some(a) && !a.transparent),
{
    let shared_part = match shared {
        Some(a) => !a.transparent,
        None => false,
    };
    let made = !shared_part || match shared {
        Some(a) => a.mentions_variant,
        None => true,
    };
    let own_part = if !made {
        OwnBody::Nothing
    } else {
        match own {
            OwnFmt::Transparent => if shared_part {
                OwnBody::FormatArgs
            } else {
                OwnBody::TransparentCall
            },
            OwnFmt::Other => if shared_part {
                OwnBody::FormatArgs
            } else {
                OwnBody::Write
            },
            OwnFmt::Absent => if field_count == 0 {
                if shared_part {
                    OwnBody::Name
                } else {
                    OwnBody::WriteName
                }
            } else if field_count == 1 {
                if shared_part {
                    OwnBody::FieldArgs
                } else {
                    OwnBody::FieldFmt
                }
            } else {
                let mut m = String::from_str(
                    "struct or enum variant with more than 1 field must have `#[",
                );
                m.append(trait_name_to_attribute_name(trait_name));
                m.append("(\"...\", ...)]` attribute");
                return Err(m);
            },
        }
    };
    Ok(DisplayBody { own: own_part, shared_write: shared_part })
}

/// The trait bounds of a struct or an enum variant.
#[derive(Debug, Clone, Copy, PartialEq, Eq, Structural)]
pub struct DisplayBounds {
    /// The own attribute's bounds: those of its placeholders whose types
    /// mention a type parameter, and its explicit bounds.
    pub own_attribute: bool,
    /// The trait on the type of the first field.
    pub first_field: bool,
    /// The shared attribute's bounds, of its placeholders whose types mention
    /// a type parameter.
    pub shared_attribute: bool,
}

/// Decides the trait bounds of a struct or an enum variant: those of its own
/// attribute, or without one the trait on its first field's type where that
/// mentions a type parameter (only where the own part of the body is made
/// at all, so without a shared attribute or with one that mentions
/// `_variant`); and those of the shared attribute.
pub fn generate_bounds(
    type_params: &Vec<String>,
    shared: Option<SharedFmt>,
    own_has_fmt: bool,
    first_field: Option<&Ty>,
) -> (r: DisplayBounds)
    ensures
        r.own_attribute == (match shared {
            Some(a) => a.mentions_variant,
            None => true,
        } && own_has_fmt),
        r.first_field == (match shared {
            Some(a) => a.mentions_variant,
            None => true,
        } && !own_has_fmt && match first_field {
            Some(t) => generic_in(*t, type_params@),
            None => false,
        }),
        r.shared_attribute == shared is Some,
{
    let made = match shared {
        Some(a) => a.mentions_variant,
        None => true,
    };
    let field_bound = match first_field {
        Some(t) => contains_generic_param(type_params, t),
        None => false,
    };
    DisplayBounds {
        own_attribute: made && own_has_fmt,
        first_field: made && !own_has_fmt && field_bound,
        shared_attribute: shared.is_some(),
    }
}

/// The error for a unit variant without an attribute in a derive other than
/// `Display`.
pub open spec fn implicit_unit_error(attr_name: Seq<char>) -> Seq<char> {
    "implicit formatting of unit enum variant is supported only for `Display` macro, use `#["@
        + attr_name + "(\"...\")]` to explicitly specify the formatting"@
}

/// Checks an enum variant: only `Display` formats a unit variant without an
/// attribute (by its name).
pub fn check_unit_variant(attr_name: &str, has_fmt: bool, field_count: usize) -> (r: Result<
    (),
    String,
>)
    ensures
        (!has_fmt && field_count == 0 && attr_name@ != "display"@) ==> (r matches Err(m) && m@
            == implicit_unit_error(attr_name@)),
        !(!has_fmt && field_count == 0 && attr_name@ != "display"@) ==> r is Ok,
{
    if !has_fmt && field_count == 0 && !str_eq(attr_name, "display") {
        let mut m = String::from_str(
            "implicit formatting of unit enum variant is supported only for `Display` macro, use `#[",
        );
        m.append(attr_name);
        m.append("(\"...\")]` to explicitly specify the formatting");
        Err(m)
    } else {
        Ok(())
    }
}

/// The error for a union without an attribute.
pub open spec fn union_error(attr_name: Seq<char>) -> Seq<char> {
    "unions must have `#["@ + attr_name + "(\"...\", ...)]` attribute"@
}

/// Checks a union: it is formatted only by its attribute.
pub fn check_union(attr_name: &str, has_fmt: bool) -> (r: Result<(), String>)
    ensures
        has_fmt ==> r is Ok,
        !has_fmt ==> (r matches Err(m) && m@ == union_error(attr_name@)),
{
    if has_fmt {
        Ok(())
    } else {
        let mut m = String::from_str("unions must have `#[");
        m.append(attr_name);
        m.append("(\"...\", ...)]` attribute");
        Err(m)
    }
}

/// Of the first `n` pairs of a field and a trait, those whose field's type
/// mentions one of the type parameters `ps`, in order.
pub open spec fn generic_pairs(
    ps: Seq<String>,
    pairs: Seq<(usize, FmtTrait)>,
    field_types: Seq<Ty>,
    n: int,
) -> Seq<(usize, FmtTrait)>
    decreases n,
{
    if n <= 0 {
        Seq::empty()
    } else {
        let prev = generic_pairs(ps, pairs, field_types, n - 1);
        let (f, t) = pairs[n - 1];
        if f < field_types.len() && generic_in(field_types[f as int], ps) {
            prev.push((f, t))
        } else {
            prev
        }
    }
}

/// The bounds that the placeholders of a formatting attribute ask for (each
/// a field and the trait it is formatted with, as
/// `FmtAttribute::bounded_types` gives them): those on fields whose types
/// mention a type parameter, in order.
pub fn generic_bounds(
    type_params: &Vec<String>,
    pairs: &Vec<(usize, FmtTrait)>,
    field_types: &Vec<Ty>,
) -> (r: Vec<(usize, FmtTrait)>)
    ensures
        r@ == generic_pairs(type_params@, pairs@, field_types@, pairs@.len() as int),
{
    let mut out: Vec<(usize, FmtTrait)> = Vec::new();
    let mut i: usize = 0;
    while i < pairs.len()
        invariant
            i <= pairs.len(),
            out@ == generic_pairs(type_params@, pairs@, field_types@, i as int),
        decreases pairs.len() - i,
    {
        let (f, t) = pairs[i];
        if f < field_types.len() && contains_generic_param(type_params, &field_types[f]) {
            out.push((f, t));
        }
        i = i + 1;
    }
    out
}

} // verus!
