//! The decisions of the `Eq` derive: which field types get an `Eq` bound
//! and which are asserted to be `Eq` instead (those that mention the type
//! itself).

use vstd::prelude::*;

use crate::ty::{
    contains_self, contains_structurally, lemma_ty_same_reflexive, lemma_ty_same_symmetric,
    lemma_ty_same_transitive, ty_same, Ty,
};

verus! {

/// The bounds and assertions of the `Eq` implementation.
#[derive(Debug)]
pub struct EqPlan {
    /// `Self: PartialEq` (for a generic type).
    pub self_partial_eq: bool,
    /// The field types (by the position of their first occurrence) bounded
    /// by `Eq`.
    pub bounded: Vec<usize>,
    /// The field types (by the position of their first occurrence) that
    /// mention `Self` or the implementing type, asserted to be `Eq`.
    pub asserted: Vec<usize>,
}

/// Whether the `i`-th type is the first occurrence of its type.
pub open spec fn first_occurrence(ts: Seq<Ty>, i: int) -> bool {
    forall|j: int| 0 <= j < i ==> !ty_same(ts[j], ts[i])
}

/// Whether a type mentions `Self` or the implementing type.
pub open spec fn mentions_itself(t: Ty, implementor: Ty) -> bool {
    contains_self(t) || contains_structurally(t, implementor)
}

/// The first occurrences among the first `n` types that do (`asserted`) or
/// do not mention the type itself.
pub open spec fn selected(ts: Seq<Ty>, implementor: Ty, asserted: bool, n: int) -> Seq<usize>
    decreases n,
{
    if n <= 0 {
        Seq::empty()
    } else {
        let prev = selected(ts, implementor, asserted, n - 1);
        if first_occurrence(ts, n - 1) && mentions_itself(ts[n - 1], implementor) == asserted {
            prev.push((n - 1) as usize)
        } else {
            prev
        }
    }
}

/// The types asserted to be `Eq` are exactly the (first occurrences of)
/// types that mention `Self` or the implementing type, and the types
/// bounded by `Eq` are those that do not: each listed type is the first
/// occurrence of its type, on the side of whether it mentions the type
/// itself, listed once, in order.
pub proof fn lemma_selected_side(ts: Seq<Ty>, implementor: Ty, asserted: bool, n: int)
    requires
        0 <= n <= ts.len() <= usize::MAX,
    ensures
        forall|k: int|
            0 <= k < selected(ts, implementor, asserted, n).len() ==> {
                let x = #[trigger] selected(ts, implementor, asserted, n)[k] as int;
                &&& 0 <= x < n
                &&& first_occurrence(ts, x)
                &&& (contains_self(ts[x]) || contains_structurally(ts[x], implementor)) == asserted
            },
        forall|k: int, l: int|
            0 <= k < l < selected(ts, implementor, asserted, n).len() ==> #[trigger] selected(
                ts,
                implementor,
                asserted,
                n,
            )[k] < #[trigger] selected(ts, implementor, asserted, n)[l],
    decreases n,
{
    if n > 0 {
        lemma_selected_side(ts, implementor, asserted, n - 1);
        let prev = selected(ts, implementor, asserted, n - 1);
        let cur = selected(ts, implementor, asserted, n);
        if first_occurrence(ts, n - 1) && mentions_itself(ts[n - 1], implementor) == asserted {
            assert(cur == prev.push((n - 1) as usize));
            assert forall|k: int| 0 <= k < prev.len() implies cur[k] == prev[k] by {}
            assert forall|k: int, l: int| 0 <= k < l < cur.len() implies #[trigger] cur[k]
                < #[trigger] cur[l] by {
                assert(cur[k] == prev[k]);
                if l < prev.len() {
                    assert(cur[l] == prev[l]);
                }
            }
        }
    }
}

/// Plans the `Eq` implementation for a type with the given field types (of
/// all its fields, or of all its variants' fields, in order): each distinct
/// field type is asserted where it mentions the type itself, else bounded.
pub fn eq_plan(has_generics: bool, field_types: &Vec<Ty>, implementor: &Ty) -> (r: EqPlan)
    ensures
        r.self_partial_eq == has_generics,
        r.bounded@ == selected(field_types@, *implementor, false, field_types@.len() as int),
        r.asserted@ == selected(field_types@, *implementor, true, field_types@.len() as int),
{
    let ghost ts = field_types@;
    let mut bounded: Vec<usize> = Vec::new();
    let mut asserted: Vec<usize> = Vec::new();
    let mut i: usize = 0;
    while i < field_types.len()
        invariant
            ts == field_types@,
            i <= ts.len(),
            bounded@ == selected(ts, *implementor, false, i as int),
            asserted@ == selected(ts, *implementor, true, i as int),
        decreases ts.len() - i,
    {
        let mut first = true;
        let mut j: usize = 0;
        while j < i
            invariant
                ts == field_types@,
                i < ts.len(),
                j <= i,
                first == forall|k: int| 0 <= k < j ==> !ty_same(ts[k], ts[i as int]),
            decreases i - j,
        {
            if field_types[j].same(&field_types[i]) {
                first = false;
            }
            j = j + 1;
        }
        if first {
            let t = &field_types[i];
            if t.contains_self() || t.contains_type_structurally(implementor) {
                asserted.push(i);
            } else {
                bounded.push(i);
            }
        }
        i = i + 1;
    }
    EqPlan { self_partial_eq: has_generics, bounded, asserted }
}

/// A first occurrence is selected on the side of whether it mentions the
/// type itself.
proof fn lemma_first_occurrence_selected(ts: Seq<Ty>, implementor: Ty, j: int, n: int)
    requires
        0 <= j < n <= ts.len(),
        ts.len() <= usize::MAX,
        first_occurrence(ts, j),
    ensures
        selected(ts, implementor, mentions_itself(ts[j], implementor), n).contains(j as usize),
    decreases n,
{
    let flag = mentions_itself(ts[j], implementor);
    if j < n - 1 {
        lemma_first_occurrence_selected(ts, implementor, j, n - 1);
        let prev = selected(ts, implementor, flag, n - 1);
        let k = choose|k: int| 0 <= k < prev.len() && prev[k] == j as usize;
        if first_occurrence(ts, n - 1) && mentions_itself(ts[n - 1], implementor) == flag {
            assert(prev.push((n - 1) as usize)[k] == j as usize);
        }
    } else {
        assert(selected(ts, implementor, flag, n).last() == j as usize);
    }
}

/// Every field type is structurally equal to a first occurrence of a type
/// at or before it.
proof fn lemma_has_first_occurrence(ts: Seq<Ty>, i: int)
    requires
        0 <= i < ts.len(),
    ensures
        exists|j: int| 0 <= j <= i && first_occurrence(ts, j) && ty_same(ts[j], ts[i]),
    decreases i,
{
    if first_occurrence(ts, i) {
        lemma_ty_same_reflexive(ts[i]);
    } else {
        let k = choose|k: int| 0 <= k < i && ty_same(ts[k], ts[i]);
        lemma_has_first_occurrence(ts, k);
        let j = choose|j: int| 0 <= j <= k && first_occurrence(ts, j) && ty_same(ts[j], ts[k]);
        lemma_ty_same_transitive(ts[j], ts[k], ts[i]);
    }
}

/// Every field's type is either bounded by `Eq` or asserted to be `Eq`: a
/// structurally equal type at or before it is in one of the two lists.
pub proof fn lemma_every_field_type_checked(ts: Seq<Ty>, implementor: Ty, i: int)
    requires
        0 <= i < ts.len(),
        ts.len() <= usize::MAX,
    ensures
        exists|j: int|
            0 <= j <= i && ty_same(ts[j], ts[i]) && (selected(
                ts,
                implementor,
                false,
                ts.len() as int,
            ).contains(j as usize) || selected(ts, implementor, true, ts.len() as int).contains(
                j as usize,
            )),
{
    lemma_has_first_occurrence(ts, i);
    let j = choose|j: int| 0 <= j <= i && first_occurrence(ts, j) && ty_same(ts[j], ts[i]);
    lemma_first_occurrence_selected(ts, implementor, j, ts.len() as int);
}

} // verus!
