//! The names that generated code binds the fields of a struct or variant to
//! when it matches on them: `Clone` binds a variant's fields by their own
//! names or as `_0`, `_1`, ...; `IsVariantAnd` binds every field as
//! `__field_0`, `__field_1`, ... and hands them to a closure;
//! `TryIntoVariant` unwraps positional fields as `field_0`, `field_1`, ....

use vstd::prelude::*;
use vstd::string::*;

use crate::decimal::{decimal, lemma_decimal_injective, push_decimal};
use crate::fmt::FieldNames;
use crate::text::views;

verus! {

/// `prefix` followed by each position below `n`, in order.
pub open spec fn numbered(prefix: Seq<char>, n: nat) -> Seq<Seq<char>> {
    Seq::new(n, |i: int| prefix + decimal(i as nat))
}

/// The names `<prefix>0`, `<prefix>1`, ... for `n` fields.
pub fn numbered_names(prefix: &str, n: usize) -> (r: Vec<String>)
    ensures
        views(r@) == numbered(prefix@, n as nat),
{
    let mut out: Vec<String> = Vec::new();
    let mut i: usize = 0;
    while i < n
        invariant
            i <= n,
            views(out@) == numbered(prefix@, i as nat),
        decreases n - i,
    {
        let mut name = String::from_str(prefix);
        push_decimal(&mut name, i);
        let ghost before = views(out@);
        out.push(name);
        proof {
            assert(views(out@) =~= before.push(prefix@ + decimal(i as nat)));
            assert(views(out@) =~= numbered(prefix@, (i + 1) as nat));
        }
        i = i + 1;
    }
    out
}

/// Numbered names are all different.
pub proof fn lemma_numbered_distinct(prefix: Seq<char>, n: nat)
    ensures
        forall|i: int, j: int|
            0 <= i < j < n ==> #[trigger] numbered(prefix, n)[i] != #[trigger] numbered(
                prefix,
                n,
            )[j],
{
    assert forall|i: int, j: int| 0 <= i < j < n implies #[trigger] numbered(prefix, n)[i]
        != #[trigger] numbered(prefix, n)[j] by {
        let a = prefix + decimal(i as nat);
        let b = prefix + decimal(j as nat);
        if a == b {
            assert(a.subrange(prefix.len() as int, a.len() as int) =~= decimal(i as nat));
            assert(b.subrange(prefix.len() as int, b.len() as int) =~= decimal(j as nat));
            lemma_decimal_injective(i as nat, j as nat);
        }
    }
}

/// The names that a derived `Clone` binds a variant's fields to.
pub open spec fn clone_binding_names(fields: FieldNames) -> Seq<Seq<char>> {
    match fields {
        FieldNames::Named(names) => views(names@),
        FieldNames::Unnamed(n) => numbered("_"@, n as nat),
        FieldNames::Unit => Seq::empty(),
    }
}

/// The names that a derived `Clone` binds a variant's fields to: named
/// fields by their own names, positional ones as `_0`, `_1`, ...; none for a
/// unit variant.
pub fn clone_bindings(fields: &FieldNames) -> (r: Vec<String>)
    ensures
        views(r@) == clone_binding_names(*fields),
{
    match fields {
        FieldNames::Named(names) => {
            let mut out: Vec<String> = Vec::new();
            let mut i: usize = 0;
            while i < names.len()
                invariant
                    i <= names.len(),
                    views(out@) == views(names@.subrange(0, i as int)),
                decreases names.len() - i,
            {
                let ghost before = views(out@);
                out.push(names[i].clone());
                proof {
                    assert(views(out@) =~= before.push(names@[i as int]@));
                    assert(views(names@.subrange(0, i + 1)) =~= views(names@.subrange(0, i as int)).push(
                        names@[i as int]@,
                    ));
                }
                i = i + 1;
            }
            proof {
                assert(names@.subrange(0, names@.len() as int) =~= names@);
            }
            out
        },
        FieldNames::Unnamed(n) => numbered_names("_", *n),
        FieldNames::Unit => Vec::new(),
    }
}

/// What an `IsVariantAnd` method does with a variant's fields: the names it
/// binds them to, in order, all of which it hands to the closure; a variant
/// without fields gets a closure that takes nothing.
#[derive(Debug)]
pub struct FieldInfo {
    pub bindings: Vec<String>,
    pub closure_takes_fields: bool,
}

/// The number of fields.
pub open spec fn field_count(fields: FieldNames) -> nat {
    match fields {
        FieldNames::Named(names) => names.len() as nat,
        FieldNames::Unnamed(n) => n as nat,
        FieldNames::Unit => 0,
    }
}

/// The bindings of an `IsVariantAnd` method: `__field_0`, `__field_1`, ...,
/// one for each field, named or positional; the closure takes the fields
/// exactly when there are any.
pub fn field_info(fields: &FieldNames) -> (r: FieldInfo)
    ensures
        views(r.bindings@) == numbered("__field_"@, field_count(*fields)),
        r.closure_takes_fields == (field_count(*fields) > 0),
{
    let n = match fields {
        FieldNames::Named(names) => names.len(),
        FieldNames::Unnamed(n) => *n,
        FieldNames::Unit => 0,
    };
    FieldInfo { bindings: numbered_names("__field_", n), closure_takes_fields: n > 0 }
}

/// The names that the `TryIntoVariant` methods unwrap a variant's fields
/// into: `field_0`, `field_1`, ... for positional fields, none for a unit
/// variant; a variant with named fields cannot be unwrapped (`None`).
pub fn try_into_bindings(fields: &FieldNames) -> (r: Option<Vec<String>>)
    ensures
        match *fields {
            FieldNames::Named(_) => r is None,
            FieldNames::Unnamed(n) => r matches Some(v) && views(v@) == numbered(
                "field_"@,
                n as nat,
            ),
            FieldNames::Unit => r matches Some(v) && v@.len() == 0,
        },
{
    match fields {
        FieldNames::Named(_) => None,
        FieldNames::Unnamed(n) => Some(numbered_names("field_", *n)),
        FieldNames::Unit => Some(Vec::new()),
    }
}

} // verus!
