//! The decisions of the `Borrow`/`BorrowMut` derives: which structs they
//! accept, which field types would overlap with `core`'s blanket
//! implementations, and the name of the extra type parameter of a forwarding
//! implementation.

use vstd::prelude::*;
use vstd::relations::injective_on;
use vstd::set_lib::*;
use vstd::string::*;

use crate::input::DataKind;
use crate::decimal::{decimal, lemma_decimal_injective, lemma_decimal_len, push_decimal};
use crate::text::{same_text_in, text_is};
use crate::attr::{is_skip_word, single_word, spec_is_skip, spec_single_word};
use crate::display::{contains_generic_param, generic_in};
use crate::tokens::TokenTree;
use crate::ty::{ArgList, PathArgs, SegList, Ty};

verus! {

/// The arguments of the last segment of a path that names a fundamental
/// pointer type: `Box`, `Pin`, `std::boxed::Box`, `alloc::boxed::Box`,
/// `std::pin::Pin`, `core::pin::Pin` or `derive_more::core::pin::Pin`.
pub open spec fn fundamental_args(segs: SegList) -> Option<PathArgs> {
    match segs {
        SegList::Cons(a, aa, r1) => match *r1 {
            SegList::Nil => if a@ == "Box"@ || a@ == "Pin"@ {
                Some(aa)
            } else {
                None
            },
            SegList::Cons(b, _, r2) => match *r2 {
                SegList::Nil => None,
                SegList::Cons(c, ca, r3) => match *r3 {
                    SegList::Nil => if ((a@ == "std"@ || a@ == "alloc"@) && b@ == "boxed"@ && c@
                        == "Box"@) || ((a@ == "std"@ || a@ == "core"@) && b@ == "pin"@ && c@
                        == "Pin"@) {
                        Some(ca)
                    } else {
                        None
                    },
                    SegList::Cons(d, da, r4) => if *r4 is Nil && a@ == "derive_more"@ && b@
                        == "core"@ && c@ == "pin"@ && d@ == "Pin"@ {
                        Some(da)
                    } else {
                        None
                    },
                },
            },
        },
        SegList::Nil => None,
    }
}

/// The arguments of the fundamental pointer segment of `t`, where `t` is an
/// unqualified path to one.
pub open spec fn spec_fundamental_segment(t: Ty) -> Option<PathArgs> {
    match t {
        Ty::Path(None, _, _, segs) => fundamental_args(segs),
        _ => None,
    }
}

/// The first type among generic arguments.
pub open spec fn first_type_arg(a: ArgList) -> Option<Ty>
    decreases a,
{
    match a {
        ArgList::Nil => None,
        ArgList::Type(t, _) => Some(*t),
        ArgList::AssocType(_, _, rest) => first_type_arg(*rest),
        ArgList::Other(_, rest) => first_type_arg(*rest),
    }
}

/// The type that a fundamental pointer type points to: the first type
/// argument of its segment.
pub open spec fn spec_fundamental_inner(t: Ty) -> Option<Ty> {
    match spec_fundamental_segment(t) {
        Some(PathArgs::AngleBracketed(_, args)) => first_type_arg(args),
        _ => None,
    }
}

/// Finds the segment of a fundamental pointer type (`Box` or `Pin`, by one of
/// their paths), and returns its arguments.
pub fn fundamental_path_segment(ty: &Ty) -> (r: Option<&PathArgs>)
    ensures
        match spec_fundamental_segment(*ty) {
            Some(a) => r == Some(&a),
            None => r is None,
        },
{
    let segs = match ty {
        Ty::Path(None, _, _, segs) => segs,
        _ => {
            return None;
        },
    };
    match segs {
        SegList::Cons(a, aa, r1) => match &**r1 {
            SegList::Nil => if text_is(a, "Box") || text_is(a, "Pin") {
                Some(aa)
            } else {
                None
            },
            SegList::Cons(b, _, r2) => match &**r2 {
                SegList::Nil => None,
                SegList::Cons(c, ca, r3) => match &**r3 {
                    SegList::Nil => if ((text_is(a, "std") || text_is(a, "alloc")) && text_is(
                        b,
                        "boxed",
                    ) && text_is(c, "Box")) || ((text_is(a, "std") || text_is(a, "core"))
                        && text_is(b, "pin") && text_is(c, "Pin")) {
                        Some(ca)
                    } else {
                        None
                    },
                    SegList::Cons(d, da, r4) => if matches!(**r4, SegList::Nil) && text_is(
                        a,
                        "derive_more",
                    ) && text_is(b, "core") && text_is(c, "pin") && text_is(d, "Pin") {
                        Some(da)
                    } else {
                        None
                    },
                },
            },
        },
        SegList::Nil => None,
    }
}

fn first_type_argument(a: &ArgList) -> (r: Option<&Ty>)
    ensures
        match first_type_arg(*a) {
            Some(t) => r == Some(&t),
            None => r is None,
        },
    decreases *a,
{
    match a {
        ArgList::Nil => None,
        ArgList::Type(t, _) => Some(t),
        ArgList::AssocType(_, _, rest) => first_type_argument(rest),
        ArgList::Other(_, rest) => first_type_argument(rest),
    }
}

/// The type a fundamental pointer type points to.
pub fn fundamental_path_inner_type(ty: &Ty) -> (r: Option<&Ty>)
    ensures
        match spec_fundamental_inner(*ty) {
            Some(t) => r == Some(&t),
            None => r is None,
        },
{
    match fundamental_path_segment(ty) {
        Some(PathArgs::AngleBracketed(_, args)) => first_type_argument(args),
        _ => None,
    }
}

/// The first type argument is a part of the argument list, so a recursion
/// into it terminates.
pub proof fn lemma_first_type_arg_decreases(a: ArgList)
    ensures
        first_type_arg(a) matches Some(t) ==> decreases_to!(a => t),
    decreases a,
{
    match a {
        ArgList::AssocType(_, _, rest) => {
            lemma_first_type_arg_decreases(*rest);
        },
        ArgList::Other(_, rest) => {
            lemma_first_type_arg_decreases(*rest);
        },
        _ => {},
    }
}

/// The type that a fundamental pointer type points to is a part of that
/// type, so peeling pointers off terminates.
pub proof fn lemma_fundamental_inner_decreases(t: Ty)
    ensures
        spec_fundamental_inner(t) matches Some(x) ==> decreases_to!(t => x),
{
    if let Ty::Path(None, _, _, segs) = t {
        if let Some(PathArgs::AngleBracketed(_, args)) = fundamental_args(segs) {
            lemma_first_type_arg_decreases(args);
            if let SegList::Cons(_, _, r1) = segs {
                if let SegList::Cons(_, _, r2) = *r1 {
                    if let SegList::Cons(_, _, r3) = *r2 {
                        if let SegList::Cons(_, _, _) = *r3 {
                            assert(decreases_to!(t => segs));
                        }
                    }
                }
            }
        }
    }
}

/// `t` with references, groups, parentheses and fundamental pointers
/// (`Box`, `Pin`) peeled off.
pub open spec fn peel(t: Ty) -> Ty
    decreases t,
{
    match t {
        Ty::Group(e) => peel(*e),
        Ty::Paren(e) => peel(*e),
        Ty::Reference(_, _, e) => peel(*e),
        Ty::Path(_, _, _, _) => match spec_fundamental_inner(t) {
            Some(x) => {
                proof {
                    lemma_fundamental_inner_decreases(t);
                }
                peel(x)
            },
            None => t,
        },
        _ => t,
    }
}

/// Peels references, groups, parentheses and fundamental pointers off a
/// type, to the type that forwarding would reach.
pub fn peel_forwarding_pointer(ty: &Ty) -> (r: &Ty)
    ensures
        *r == peel(*ty),
    decreases *ty,
{
    match ty {
        Ty::Group(e) => peel_forwarding_pointer(e),
        Ty::Paren(e) => peel_forwarding_pointer(e),
        Ty::Reference(_, _, e) => peel_forwarding_pointer(e),
        Ty::Path(_, _, _, _) => match fundamental_path_inner_type(ty) {
            Some(x) => {
                proof {
                    lemma_fundamental_inner_decreases(*ty);
                }
                peel_forwarding_pointer(x)
            },
            None => ty,
        },
        _ => ty,
    }
}

/// `name` is one of the type parameters.
pub open spec fn is_param(ps: Seq<String>, name: Seq<char>) -> bool {
    exists|i: int| 0 <= i < ps.len() && ps[i]@ == name
}

/// `t` is an unqualified path of one segment naming a type parameter.
pub open spec fn spec_bare_param(t: Ty, ps: Seq<String>) -> bool {
    match t {
        Ty::Path(None, _, _, SegList::Cons(id, _, rest)) => *rest is Nil && is_param(ps, id@),
        _ => false,
    }
}

/// Checks whether the type is a bare generic type parameter.
pub fn is_bare_generic_param(ty: &Ty, type_params: &Vec<String>) -> (r: bool)
    ensures
        r == spec_bare_param(*ty, type_params@),
{
    match ty {
        Ty::Path(None, _, _, SegList::Cons(id, _, rest)) => matches!(**rest, SegList::Nil)
            && same_text_in(type_params, id),
        _ => false,
    }
}

/// Whether `t` is an associated type projection involving a generic
/// parameter: groups and parentheses are looked through; a qualified path
/// (`<T as Trait>::Assoc`) is one where a type parameter occurs in it; an
/// unqualified path of several segments whose first one is a type parameter
/// (`T::Assoc`) is one; nothing else is.
pub open spec fn spec_assoc_check(t: Ty, ps: Seq<String>) -> bool
    decreases t,
{
    match t {
        Ty::Group(e) => spec_assoc_check(*e, ps),
        Ty::Paren(e) => spec_assoc_check(*e, ps),
        Ty::Path(Some(_), _, _, _) => generic_in(t, ps),
        Ty::Path(None, _, _, SegList::Cons(id, _, rest)) => *rest is Cons && is_param(ps, id@),
        _ => false,
    }
}

/// Checks whether the type is an associated type projection involving a
/// generic parameter (`T::Assoc`, `<T as Trait>::Assoc`).
pub fn is_assoc_type_involving_generic_param(ty: &Ty, type_params: &Vec<String>) -> (r: bool)
    ensures
        r == spec_assoc_check(*ty, type_params@),
    decreases *ty,
{
    match ty {
        Ty::Group(e) => is_assoc_type_involving_generic_param(e, type_params),
        Ty::Paren(e) => is_assoc_type_involving_generic_param(e, type_params),
        Ty::Path(Some(_), _, _, _) => contains_generic_param(type_params, ty),
        Ty::Path(None, _, _, SegList::Cons(id, _, rest)) => matches!(**rest, SegList::Cons(_, _, _))
            && same_text_in(type_params, id),
        _ => false,
    }
}

/// Checks whether forwarding through the field type could overlap with
/// `core`'s blanket implementation: after peeling pointers, the type is a
/// bare generic parameter or an associated type projection involving one.
pub fn is_forwarded_overlap(ty: &Ty, type_params: &Vec<String>) -> (r: bool)
    ensures
        r == (spec_bare_param(peel(*ty), type_params@) || spec_assoc_check(peel(*ty), type_params@)),
{
    let peeled = peel_forwarding_pointer(ty);
    if is_bare_generic_param(peeled, type_params) {
        true
    } else {
        is_assoc_type_involving_generic_param(peeled, type_params)
    }
}

/// The `#[borrow(...)]` (or `#[borrow_mut(...)]`) attribute of the field.
#[derive(Debug, Clone, Copy, PartialEq, Eq, Structural)]
pub enum FieldAttribute {
    /// The bare attribute: borrow the field directly.
    Direct,
    /// `forward`: borrow whatever the field borrows as.
    Forward,
    /// `skip` or `ignore`.
    Skip,
}

/// Why the derive cannot be applied.
#[derive(Debug, Clone, Copy, PartialEq, Eq, Structural)]
pub enum BorrowError {
    /// It cannot be derived for enums.
    Enum,
    /// It cannot be derived for unions.
    Union,
    /// The struct does not have exactly one field; `empty` when it has none.
    FieldCount { empty: bool },
    /// The attribute is placed on both the struct and its field.
    BothAttributes,
    /// The field is skipped, but exactly one field must be borrowed.
    SkippedField,
}

/// Decides whether the derive applies to data of kind `kind` with
/// `field_count` fields, a struct attribute (`forward`) or not, and the
/// field's attribute if any; where it does, returns whether the
/// implementation forwards.
pub fn check_input(
    kind: DataKind,
    field_count: usize,
    struct_attr: bool,
    field_attr: Option<FieldAttribute>,
) -> (r: Result<bool, BorrowError>)
    ensures
        kind == DataKind::Enum ==> r == Err::<bool, BorrowError>(BorrowError::Enum),
        kind == DataKind::Union ==> r == Err::<bool, BorrowError>(BorrowError::Union),
        kind == DataKind::Struct && field_count != 1 ==> r == Err::<bool, BorrowError>(
            BorrowError::FieldCount { empty: field_count == 0 },
        ),
        kind == DataKind::Struct && field_count == 1 ==> r == (if struct_attr && field_attr is Some {
            Err(BorrowError::BothAttributes)
        } else if struct_attr {
            Ok(true)
        } else {
            match field_attr {
                Some(FieldAttribute::Direct) => Ok(false),
                Some(FieldAttribute::Forward) => Ok(true),
                Some(FieldAttribute::Skip) => Err(BorrowError::SkippedField),
                None => Ok(false),
            }
        }),
{
    match kind {
        DataKind::Enum => {
            return Err(BorrowError::Enum);
        },
        DataKind::Union => {
            return Err(BorrowError::Union);
        },
        DataKind::Struct => {},
    }
    if field_count != 1 {
        return Err(BorrowError::FieldCount { empty: field_count == 0 });
    }
    if struct_attr && field_attr.is_some() {
        return Err(BorrowError::BothAttributes);
    }
    if struct_attr {
        Ok(true)
    } else {
        match field_attr {
            Some(FieldAttribute::Direct) => Ok(false),
            Some(FieldAttribute::Forward) => Ok(true),
            Some(FieldAttribute::Skip) => Err(BorrowError::SkippedField),
            None => Ok(false),
        }
    }
}

/// The `index`-th candidate name for the extra type parameter: the prefix,
/// then the prefix followed by `1`, `2`, ...
pub open spec fn candidate(prefix: Seq<char>, index: nat) -> Seq<char> {
    if index == 0 {
        prefix
    } else {
        prefix + decimal(index)
    }
}

/// The prefix of the extra type parameter of a `Borrow` (`__BorrowT`) or
/// `BorrowMut` (`__BorrowMutT`) forwarding implementation.
pub open spec fn borrow_prefix(is_mutable: bool) -> Seq<char> {
    if is_mutable {
        "__BorrowMutT"@
    } else {
        "__BorrowT"@
    }
}

proof fn lemma_candidate_injective(prefix: Seq<char>, a: nat, b: nat)
    requires
        candidate(prefix, a) == candidate(prefix, b),
    ensures
        a == b,
{
    lemma_decimal_len(a);
    lemma_decimal_len(b);
    if a != 0 && b != 0 {
        assert(decimal(a) =~= candidate(prefix, a).subrange(
            prefix.len() as int,
            candidate(prefix, a).len() as int,
        ));
        assert(decimal(b) =~= candidate(prefix, b).subrange(
            prefix.len() as int,
            candidate(prefix, b).len() as int,
        ));
        lemma_decimal_injective(a, b);
    } else if a == 0 && b != 0 {
        assert(candidate(prefix, a).len() != candidate(prefix, b).len());
    } else if a != 0 && b == 0 {
        assert(candidate(prefix, a).len() != candidate(prefix, b).len());
    }
}

/// If the first `n` candidates are all among `names`, then `n` is at most the
/// number of names.
proof fn lemma_candidates_bounded(prefix: Seq<char>, names: Seq<String>, n: nat)
    requires
        forall|k: nat| k < n ==> is_param(names, #[trigger] candidate(prefix, k)),
    ensures
        n <= names.len(),
{
    let views = names.map_values(|s: String| s@);
    let all = views.to_set();
    views.lemma_cardinality_of_set();
    let x = Set::new(|k: nat| k < n);
    let f = |k: nat| candidate(prefix, k);
    let y = x.map(f);
    lemma_nat_range_finite(n);
    assert(injective_on(f, x)) by {
        assert forall|a: nat, b: nat| x.contains(a) && x.contains(b) && f(a) == f(b) implies a
            == b by {
            lemma_candidate_injective(prefix, a, b);
        }
    }
    lemma_map_size(x, y, f);
    assert(y.subset_of(all)) by {
        assert forall|s: Seq<char>| y.contains(s) implies all.contains(s) by {
            let k = choose|k: nat| x.contains(k) && f(k) == s;
            assert(is_param(names, candidate(prefix, k)));
            let i = choose|i: int| 0 <= i < names.len() && names[i]@ == candidate(prefix, k);
            assert(views[i] == s);
        }
    }
    lemma_len_subset(y, all);
}

proof fn lemma_nat_range_finite(n: nat)
    ensures
        Set::new(|k: nat| k < n).finite(),
        Set::new(|k: nat| k < n).len() == n,
    decreases n,
{
    if n == 0 {
        assert(Set::new(|k: nat| k < n) =~= Set::<nat>::empty());
    } else {
        lemma_nat_range_finite((n - 1) as nat);
        assert(Set::new(|k: nat| k < n) =~= Set::new(|k: nat| k < (n - 1) as nat).insert(
            (n - 1) as nat,
        ));
    }
}

/// Builds the extra type parameter of a forwarding implementation: the first
/// of `__BorrowT`, `__BorrowT1`, `__BorrowT2`, ... (with `__BorrowMutT` for
/// `BorrowMut`) that is not the name of an existing type or const parameter
/// in `params`.
pub fn extra_borrow_type_param(params: &Vec<String>, is_mutable: bool) -> (r: String)
    ensures
        !is_param(params@, r@),
        exists|k: nat|
            r@ == candidate(borrow_prefix(is_mutable), k) && forall|j: nat|
                j < k ==> is_param(params@, #[trigger] candidate(borrow_prefix(is_mutable), j)),
{
    let prefix: &str = if is_mutable {
        "__BorrowMutT"
    } else {
        "__BorrowT"
    };
    let ghost p = borrow_prefix(is_mutable);
    let mut ident = String::from_str(prefix);
    let mut index: usize = 0;
    while same_text_in(params, &ident)
        invariant
            p == prefix@,
            index <= params.len(),
            ident@ == candidate(p, index as nat),
            forall|j: nat| j < index ==> is_param(params@, #[trigger] candidate(p, j)),
        decreases params.len() - index,
    {
        proof {
            assert forall|j: nat| j < index + 1 implies is_param(params@, #[trigger] candidate(p, j)) by {
                if j == index {
                    assert(ident@ == candidate(p, j));
                }
            }
            lemma_candidates_bounded(p, params@, (index + 1) as nat);
        }
        index = index + 1;
        ident = String::from_str(prefix);
        push_decimal(&mut ident, index);
    }
    ident
}

/// The message of a refusal, for the trait `trait_name`, its attribute
/// `attr_name`, and the word (`skip` or `ignore`) that skipped the field.
pub open spec fn borrow_error_message(
    e: BorrowError,
    trait_name: Seq<char>,
    attr_name: Seq<char>,
    skip_word: Seq<char>,
) -> Seq<char> {
    match e {
        BorrowError::Enum => "`"@ + trait_name + "` cannot be derived for enums"@,
        BorrowError::Union => "`"@ + trait_name + "` cannot be derived for unions"@,
        BorrowError::FieldCount { .. } => "`"@ + trait_name
            + "` can only be derived for structs with exactly one field"@,
        BorrowError::BothAttributes => "`#["@ + attr_name
            + "(...)]` cannot be placed on both struct and its field"@,
        BorrowError::SkippedField => "`#["@ + attr_name + "("@ + skip_word
            + ")]` cannot be used when deriving `"@ + trait_name
            + "` because exactly one field must be borrowed"@,
    }
}

impl BorrowError {
    /// The message of the refusal.
    pub fn message(&self, trait_name: &str, attr_name: &str, skip_word: &str) -> (r: String)
        ensures
            r@ == borrow_error_message(*self, trait_name@, attr_name@, skip_word@),
    {
        match self {
            BorrowError::Enum => {
                let mut m = String::from_str("`");
                m.append(trait_name);
                m.append("` cannot be derived for enums");
                m
            },
            BorrowError::Union => {
                let mut m = String::from_str("`");
                m.append(trait_name);
                m.append("` cannot be derived for unions");
                m
            },
            BorrowError::FieldCount { .. } => {
                let mut m = String::from_str("`");
                m.append(trait_name);
                m.append("` can only be derived for structs with exactly one field");
                m
            },
            BorrowError::BothAttributes => {
                let mut m = String::from_str("`#[");
                m.append(attr_name);
                m.append("(...)]` cannot be placed on both struct and its field");
                m
            },
            BorrowError::SkippedField => {
                let mut m = String::from_str("`#[");
                m.append(attr_name);
                m.append("(");
                m.append(skip_word);
                m.append(")]` cannot be used when deriving `");
                m.append(trait_name);
                m.append("` because exactly one field must be borrowed");
                m
            },
        }
    }
}

/// The message for a field type that is an associated type projection
/// involving generic parameters.
pub open spec fn assoc_overlap_message(trait_name: Seq<char>) -> Seq<char> {
    "`"@ + trait_name
        + "` cannot be derived for an associated type projection involving generic parameters because the impl can overlap with `core`'s blanket `"@
        + trait_name + "` implementation"@
}

/// Builds `assoc_overlap_message`.
pub fn assoc_overlap_error(trait_name: &str) -> (r: String)
    ensures
        r@ == assoc_overlap_message(trait_name@),
{
    let mut m = String::from_str("`");
    m.append(trait_name);
    m.append(
        "` cannot be derived for an associated type projection involving generic parameters because the impl can overlap with `core`'s blanket `",
    );
    m.append(trait_name);
    m.append("` implementation");
    m
}

/// The message for a forwarding attribute on a field whose forwarding could
/// overlap with `core`'s blanket implementation.
pub open spec fn forward_overlap_message(attr_name: Seq<char>, trait_name: Seq<char>) -> Seq<char> {
    "`#["@ + attr_name
        + "(forward)]` cannot be used on a generic parameter field, an associated type projection involving generic parameters, or a forwarding pointer to one because the impl can overlap with `core`'s blanket `"@
        + trait_name + "` implementation"@
}

/// Builds `forward_overlap_message`.
pub fn forward_overlap_error(attr_name: &str, trait_name: &str) -> (r: String)
    ensures
        r@ == forward_overlap_message(attr_name@, trait_name@),
{
    let mut m = String::from_str("`#[");
    m.append(attr_name);
    m.append(
        "(forward)]` cannot be used on a generic parameter field, an associated type projection involving generic parameters, or a forwarding pointer to one because the impl can overlap with `core`'s blanket `",
    );
    m.append(trait_name);
    m.append("` implementation");
    m
}

/// What a field's attribute says: a bare `#[borrow]` borrows the field
/// directly; `#[borrow(forward)]` forwards; `#[borrow(skip)]` or
/// `#[borrow(ignore)]` skips it; `None` for any other arguments. `args` is
/// `None` for the bare attribute.
pub open spec fn spec_field_attribute(args: Option<Seq<TokenTree>>) -> Option<FieldAttribute> {
    match args {
        None => Some(FieldAttribute::Direct),
        Some(ts) => if spec_single_word(ts) == Some("forward"@) {
            Some(FieldAttribute::Forward)
        } else if spec_is_skip(ts) {
            Some(FieldAttribute::Skip)
        } else {
            None
        },
    }
}

/// A field's attribute by its tokens: the bare attribute borrows the field
/// itself; the single word `forward` forwards to the field's own borrows;
/// the single word `skip` or `ignore` (either one) leaves the field out;
/// any other arguments are refused.
pub proof fn lemma_field_attribute_by_tokens(args: Option<Seq<TokenTree>>)
    ensures
        args is None ==> spec_field_attribute(args) == Some(FieldAttribute::Direct),
        args matches Some(s) && s.len() == 1 && (s[0] matches TokenTree::Ident(w) && w@
            == "forward"@) ==> spec_field_attribute(args) == Some(FieldAttribute::Forward),
        args matches Some(s) && s.len() == 1 && (s[0] matches TokenTree::Ident(w) && (w@
            == "skip"@ || w@ == "ignore"@)) ==> spec_field_attribute(args) == Some(
            FieldAttribute::Skip,
        ),
        args matches Some(s) && !(s.len() == 1 && (s[0] matches TokenTree::Ident(w) && (w@
            == "forward"@ || w@ == "skip"@ || w@ == "ignore"@))) ==> spec_field_attribute(args)
            is None,
{
    reveal_strlit("skip");
    reveal_strlit("ignore");
    reveal_strlit("forward");
    assert("skip"@ != "forward"@) by {
        assert("skip"@[0] != "forward"@[0]);
    }
    assert("ignore"@ != "forward"@) by {
        assert("ignore"@[0] != "forward"@[0]);
    }
}

/// The token views of optional arguments.
pub open spec fn opt_tokens(args: Option<Vec<TokenTree>>) -> Option<Seq<TokenTree>> {
    match args {
        Some(v) => Some(v@),
        None => None,
    }
}

/// Reads a field's attribute from its arguments (`None` for the bare
/// attribute).
pub fn field_attribute_from(args: &Option<Vec<TokenTree>>) -> (r: Option<FieldAttribute>)
    ensures
        r == spec_field_attribute(opt_tokens(*args)),
{
    match args {
        None => Some(FieldAttribute::Direct),
        Some(ts) => {
            let word = single_word(ts);
            let forward = match &word {
                Some(w) => text_is(w, "forward"),
                None => false,
            };
            if forward {
                Some(FieldAttribute::Forward)
            } else if is_skip_word(ts) {
                Some(FieldAttribute::Skip)
            } else {
                None
            }
        },
    }
}

} // verus!
