//! The decisions of the `TryFrom` derive: which enums it accepts, and the
//! discriminants of the unit variants for a `repr` conversion.

use vstd::prelude::*;
use vstd::string::*;

use crate::input::DataKind;
use crate::text::{join, joined, views};

verus! {

/// The shape of an enum variant as the `TryFrom` derive reads it.
#[derive(Debug)]
pub struct VariantShape {
    /// The text of the type of each field, in order.
    pub field_types: Vec<String>,
    /// Whether the variant is a unit variant (no fields and no brackets).
    pub is_unit: bool,
    /// The text of the explicit discriminant, if any.
    pub discriminant: Option<String>,
}

/// Two variants with the same types collection.
#[derive(Debug)]
pub struct DuplicateTypes {
    /// The types collection, as `A, B`.
    pub types: String,
    /// The earlier variant.
    pub first: usize,
    /// The later variant.
    pub second: usize,
}

/// The error for a types collection that two variants share, named `first`
/// and `second`.
pub open spec fn duplicate_message(types: Seq<char>, first: Seq<char>, second: Seq<char>) -> Seq<
    char,
> {
    "`"@ + types + "` types collection is used for more than one variant (`"@ + first + "`, `"@
        + second
        + "`), non-repr `try_from` cannot be implemented (try changing the order of fields as a workaround)"@
}

impl DuplicateTypes {
    /// The error message, with the names of the two variants.
    pub fn message(&self, first: &str, second: &str) -> (r: String)
        ensures
            r@ == duplicate_message(self.types@, first@, second@),
    {
        let mut m = String::from_str("`");
        m.append(self.types.as_str());
        m.append("` types collection is used for more than one variant (`");
        m.append(first);
        m.append("`, `");
        m.append(second);
        m.append(
            "`), non-repr `try_from` cannot be implemented (try changing the order of fields as a workaround)",
        );
        m
    }
}

/// Why `TryFrom` cannot be derived.
#[derive(Debug)]
pub enum TryFromError {
    /// `TryFrom` cannot be derived for structs.
    Struct,
    /// `TryFrom` cannot be derived for unions.
    Union,
    /// Empty variant not supported when using non-repr `try_from`: the
    /// variant at this position.
    EmptyVariant(usize),
    /// A types collection is used for more than one variant.
    Duplicate(DuplicateTypes),
}

/// The field list of each variant: the texts of its fields, in order.
pub open spec fn keys(vs: Seq<VariantShape>) -> Seq<Seq<Seq<char>>> {
    vs.map_values(|v: VariantShape| views(v.field_types@))
}

/// No two of the first `n` field lists are the same.
pub open spec fn distinct_prefix(ks: Seq<Seq<Seq<char>>>, n: int) -> bool {
    forall|i: int, j: int| 0 <= i < j < n ==> ks[i] != ks[j]
}

/// `d` reports the first later variant whose field list an earlier variant
/// has, that earlier variant, and the types collection: the texts of the
/// fields joined by `, `.
pub open spec fn is_first_duplicate(vs: Seq<VariantShape>, d: DuplicateTypes) -> bool {
    &&& d.first < d.second < vs.len()
    &&& distinct_prefix(keys(vs), d.second as int)
    &&& keys(vs)[d.first as int] == keys(vs)[d.second as int]
    &&& d.types@ == joined(keys(vs)[d.second as int], ", "@)
}

/// Checks whether two variants have the same field list.
fn same_fields(a: &Vec<String>, b: &Vec<String>) -> (r: bool)
    ensures
        r == (views(a@) == views(b@)),
{
    if a.len() != b.len() {
        assert(views(a@).len() != views(b@).len());
        return false;
    }
    let mut k: usize = 0;
    while k < a.len()
        invariant
            a.len() == b.len(),
            k <= a.len(),
            forall|m: int| 0 <= m < k ==> a@[m]@ == b@[m]@,
        decreases a.len() - k,
    {
        if !(a[k] == b[k]) {
            assert(views(a@)[k as int] != views(b@)[k as int]);
            return false;
        }
        k = k + 1;
    }
    assert(views(a@) =~= views(b@));
    true
}

/// Checks that no two variants have the same ordered list of field texts;
/// otherwise returns the first later variant whose list an earlier one has,
/// with that earlier one and the list's texts joined by `, `.
pub fn are_fields_unique(variants: &Vec<VariantShape>) -> (r: Result<(), DuplicateTypes>)
    ensures
        r is Ok <==> distinct_prefix(keys(variants@), variants@.len() as int),
        r matches Err(d) ==> is_first_duplicate(variants@, d),
{
    let ghost ks = keys(variants@);
    let mut i: usize = 0;
    while i < variants.len()
        invariant
            ks == keys(variants@),
            i <= variants.len(),
            distinct_prefix(ks, i as int),
        decreases variants.len() - i,
    {
        let mut j: usize = 0;
        while j < i
            invariant
                ks == keys(variants@),
                j <= i < variants.len(),
                forall|k: int| 0 <= k < j ==> ks[k] != ks[i as int],
                distinct_prefix(ks, i as int),
            decreases i - j,
        {
            if same_fields(&variants[j].field_types, &variants[i].field_types) {
                assert(ks[j as int] == views(variants@[j as int].field_types@));
                assert(ks[i as int] == views(variants@[i as int].field_types@));
                assert(ks[j as int] == ks[i as int]);
                assert(!distinct_prefix(ks, variants@.len() as int));
                let types = join(&variants[i].field_types, ", ");
                return Err(DuplicateTypes { types, first: j, second: i });
            }
            proof {
                assert(ks[j as int] == views(variants@[j as int].field_types@));
                assert(ks[i as int] == views(variants@[i as int].field_types@));
            }
            j = j + 1;
        }
        i = i + 1;
    }
    Ok(())
}

/// The first unit variant, if any.
pub open spec fn first_unit(vs: Seq<VariantShape>) -> Option<int> {
    if exists|i: int| 0 <= i < vs.len() && vs[i].is_unit {
        Some(choose|i: int| 0 <= i < vs.len() && vs[i].is_unit && forall|k: int| 0 <= k < i ==> !vs[k].is_unit)
    } else {
        None
    }
}

/// Checks whether `TryFrom` can be derived for data of kind `kind`, with
/// `variants` where it is an enum, and with conversions from types requested
/// or not (`has_type_targets`). With type targets, no variant may be a unit
/// variant (the first one is reported) and no two variants may have the same
/// types collection.
pub fn check_input(kind: DataKind, variants: &Vec<VariantShape>, has_type_targets: bool) -> (r:
    Result<(), TryFromError>)
    ensures
        kind == DataKind::Struct ==> r matches Err(TryFromError::Struct),
        kind == DataKind::Union ==> r matches Err(TryFromError::Union),
        kind == DataKind::Enum && !has_type_targets ==> r is Ok,
        kind == DataKind::Enum && has_type_targets ==> {
            &&& (exists|i: int| 0 <= i < variants@.len() && variants@[i].is_unit) ==> (r matches Err(
                TryFromError::EmptyVariant(i),
            ) && 0 <= i < variants@.len() && variants@[i as int].is_unit && forall|k: int|
                0 <= k < i ==> !variants@[k].is_unit)
            &&& !(exists|i: int| 0 <= i < variants@.len() && variants@[i].is_unit) ==> match r {
                Ok(()) => distinct_prefix(keys(variants@), variants@.len() as int),
                Err(TryFromError::Duplicate(d)) => is_first_duplicate(variants@, d),
                Err(_) => false,
            }
        },
{
    match kind {
        DataKind::Struct => Err(TryFromError::Struct),
        DataKind::Union => Err(TryFromError::Union),
        DataKind::Enum => {
            if has_type_targets {
                let mut i: usize = 0;
                while i < variants.len()
                    invariant
                        kind == DataKind::Enum && has_type_targets,
                        i <= variants.len(),
                        forall|k: int| 0 <= k < i ==> !variants@[k].is_unit,
                    decreases variants.len() - i,
                {
                    if variants[i].is_unit {
                        return Err(TryFromError::EmptyVariant(i));
                    }
                    i = i + 1;
                }
                match are_fields_unique(variants) {
                    Ok(()) => Ok(()),
                    Err(d) => Err(TryFromError::Duplicate(d)),
                }
            } else {
                Ok(())
            }
        },
    }
}

/// The discriminant of a unit variant for a `repr` conversion: the last
/// explicit discriminant at or before it (or `0` where there is none) plus an
/// offset.
#[derive(Debug, Clone, Copy, PartialEq, Eq, Structural)]
pub struct UnitDiscriminant {
    /// The variant.
    pub variant: usize,
    /// The variant whose explicit discriminant is the base; `None` for `0`.
    pub base: Option<usize>,
    /// What is added to the base.
    pub offset: usize,
}

/// The last variant at or before `i` with an explicit discriminant.
pub open spec fn last_explicit(vs: Seq<VariantShape>, i: int) -> Option<int>
    decreases i + 1,
{
    if i < 0 {
        None
    } else if vs[i].discriminant is Some {
        Some(i)
    } else {
        last_explicit(vs, i - 1)
    }
}

/// The discriminant of variant `i`: counted from the last explicit one at or
/// before it, or from `0` at the first variant.
pub open spec fn discriminant_of(vs: Seq<VariantShape>, i: int) -> UnitDiscriminant {
    match last_explicit(vs, i) {
        Some(j) => UnitDiscriminant { variant: i as usize, base: Some(j as usize), offset: (i - j) as usize },
        None => UnitDiscriminant { variant: i as usize, base: None, offset: i as usize },
    }
}

/// The discriminants of the variants without fields among the first `n`, in
/// order.
pub open spec fn spec_discriminants(vs: Seq<VariantShape>, n: int) -> Seq<UnitDiscriminant>
    decreases n,
{
    if n <= 0 {
        Seq::empty()
    } else {
        let prev = spec_discriminants(vs, n - 1);
        if vs[n - 1].field_types@.len() == 0 {
            prev.push(discriminant_of(vs, n - 1))
        } else {
            prev
        }
    }
}

/// How discriminants count, variant after variant: a variant with an
/// explicit discriminant restarts the count from it; the first variant
/// without one is `0`; any other variant without one is the one before it
/// plus one (whether that one has fields or not).
pub proof fn lemma_discriminants_count(vs: Seq<VariantShape>, i: int)
    requires
        0 <= i < vs.len() <= usize::MAX,
    ensures
        vs[i].discriminant is Some ==> discriminant_of(vs, i) == (UnitDiscriminant {
            variant: i as usize,
            base: Some(i as usize),
            offset: 0,
        }),
        vs[i].discriminant is None && i == 0 ==> discriminant_of(vs, i) == (UnitDiscriminant {
            variant: 0,
            base: None,
            offset: 0,
        }),
        vs[i].discriminant is None && i > 0 ==> discriminant_of(vs, i).variant == i
            && discriminant_of(vs, i).base == discriminant_of(vs, i - 1).base && discriminant_of(
            vs,
            i,
        ).offset == discriminant_of(vs, i - 1).offset + 1,
{
    if vs[i].discriminant is None && i > 0 {
        lemma_last_explicit_before(vs, i - 1);
    }
}

proof fn lemma_last_explicit_before(vs: Seq<VariantShape>, i: int)
    requires
        0 <= i < vs.len(),
    ensures
        last_explicit(vs, i) matches Some(j) ==> 0 <= j <= i,
    decreases i + 1,
{
    if vs[i].discriminant is None {
        if i > 0 {
            lemma_last_explicit_before(vs, i - 1);
        } else {
            assert(last_explicit(vs, -1) is None);
        }
    }
}

/// The discriminants are listed for exactly the variants without fields,
/// each once, in order.
pub proof fn lemma_discriminants_of_unit_variants(vs: Seq<VariantShape>, n: int)
    requires
        0 <= n <= vs.len() <= usize::MAX,
    ensures
        forall|k: int|
            0 <= k < spec_discriminants(vs, n).len() ==> {
                let v = (#[trigger] spec_discriminants(vs, n)[k]).variant as int;
                &&& 0 <= v < n
                &&& vs[v].field_types@.len() == 0
                &&& spec_discriminants(vs, n)[k] == discriminant_of(vs, v)
            },
        forall|k: int, l: int|
            0 <= k < l < spec_discriminants(vs, n).len() ==> (#[trigger] spec_discriminants(vs, n)[k]).variant
                < (#[trigger] spec_discriminants(vs, n)[l]).variant,
        forall|v: int|
            0 <= v < n && vs[v].field_types@.len() == 0 ==> exists|k: int|
                0 <= k < spec_discriminants(vs, n).len() && (#[trigger] spec_discriminants(vs, n)[k]).variant
                    == v,
    decreases n,
{
    if n > 0 {
        lemma_discriminants_of_unit_variants(vs, n - 1);
        let prev = spec_discriminants(vs, n - 1);
        let cur = spec_discriminants(vs, n);
        if vs[n - 1].field_types@.len() == 0 {
            let d = discriminant_of(vs, n - 1);
            assert(cur == prev.push(d));
            assert(d.variant == n - 1);
            assert forall|k: int| 0 <= k < prev.len() implies cur[k] == prev[k] by {}
            assert forall|k: int, l: int| 0 <= k < l < cur.len() implies (#[trigger] cur[k]).variant
                < (#[trigger] cur[l]).variant by {
                assert(cur[k] == prev[k]);
                if l < prev.len() {
                    assert(cur[l] == prev[l]);
                }
            }
            assert forall|v: int| 0 <= v < n && vs[v].field_types@.len() == 0 implies exists|k: int|
                0 <= k < cur.len() && (#[trigger] cur[k]).variant == v by {
                if v < n - 1 {
                    let k = choose|k: int| 0 <= k < prev.len() && (#[trigger] prev[k]).variant == v;
                    assert(cur[k] == prev[k]);
                } else {
                    assert(cur[prev.len() as int] == d);
                }
            }
        }
    }
}

/// The discriminants of the variants without fields, for converting from the
/// enum's `repr` integer: an explicit discriminant resets the count, and
/// every variant (with fields or not) advances it by one.
pub fn repr_discriminants(variants: &Vec<VariantShape>) -> (r: Vec<UnitDiscriminant>)
    ensures
        r@ == spec_discriminants(variants@, variants@.len() as int),
{
    let mut out: Vec<UnitDiscriminant> = Vec::new();
    let mut last: Option<usize> = None;
    let mut inc: usize = 0;
    let mut i: usize = 0;
    while i < variants.len()
        invariant
            i <= variants.len(),
            out@ == spec_discriminants(variants@, i as int),
            opt_usize(last) == last_explicit(variants@, i - 1),
            inc == match last {
                Some(j) => (i - j) as usize,
                None => i,
            },
            match last {
                Some(j) => j < i,
                None => true,
            },
        decreases variants.len() - i,
    {
        if variants[i].discriminant.is_some() {
            last = Some(i);
            inc = 0;
        }
        if variants[i].field_types.len() == 0 {
            out.push(UnitDiscriminant { variant: i, base: last, offset: inc });
        }
        inc = inc + 1;
        i = i + 1;
    }
    out
}

/// An optional index, as a mathematical integer.
pub open spec fn opt_usize(o: Option<usize>) -> Option<int> {
    match o {
        Some(j) => Some(j as int),
        None => None,
    }
}

} // verus!
