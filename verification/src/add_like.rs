//! The decisions of the `Add`-like and `AddAssign`-like derives: the method
//! that an implementation defines, what becomes of each field of a struct,
//! and the arms of the `match` that combines two enum values.

use vstd::prelude::*;
use vstd::string::*;

use crate::partial_eq::{compared, compared_fields};
use crate::text::{lowercase, to_lowercase};

verus! {

/// Whether `s` ends with `suffix`.
pub open spec fn ends_with(s: Seq<char>, suffix: Seq<char>) -> bool {
    suffix.len() <= s.len() && s.subrange(s.len() - suffix.len(), s.len() as int) == suffix
}

/// `s` with every repetition of `suffix` at its end removed.
pub open spec fn trim_end_all(s: Seq<char>, suffix: Seq<char>) -> Seq<char>
    decreases s.len(),
{
    if suffix.len() > 0 && ends_with(s, suffix) {
        trim_end_all(s.subrange(0, s.len() - suffix.len()), suffix)
    } else {
        s
    }
}

/// Trimming removes repetitions of the suffix from the end, and all of
/// them: the result begins `s`, what is cut off is made of whole copies of
/// the suffix, and the result no longer ends with it.
pub proof fn lemma_trim_end_all(s: Seq<char>, suffix: Seq<char>)
    requires
        suffix.len() > 0,
    ensures
        trim_end_all(s, suffix).len() <= s.len(),
        s.subrange(0, trim_end_all(s, suffix).len() as int) == trim_end_all(s, suffix),
        (s.len() - trim_end_all(s, suffix).len()) % (suffix.len() as int) == 0,
        !ends_with(trim_end_all(s, suffix), suffix),
    decreases s.len(),
{
    if ends_with(s, suffix) {
        let shorter = s.subrange(0, s.len() - suffix.len());
        lemma_trim_end_all(shorter, suffix);
        let t = trim_end_all(shorter, suffix);
        assert(s.subrange(0, t.len() as int) =~= shorter.subrange(0, t.len() as int));
        assert((s.len() - t.len()) == (shorter.len() - t.len()) + suffix.len());
        assert(((shorter.len() - t.len()) + suffix.len()) % (suffix.len() as int) == 0) by (nonlinear_arith)
            requires
                (shorter.len() - t.len()) % (suffix.len() as int) == 0,
                suffix.len() > 0,
        ;
        assert(trim_end_all(s, suffix) == t);
    } else {
        assert(trim_end_all(s, suffix) == s);
        assert(0int % (suffix.len() as int) == 0) by (nonlinear_arith)
            requires
                suffix.len() > 0,
        ;
    }
}

/// Removes every repetition of `suffix` at the end of `s`.
fn trim_end_matches(s: &str, suffix: &str) -> (r: String)
    requires
        suffix@.len() > 0,
    ensures
        r@ == trim_end_all(s@, suffix@),
{
    let n = s.unicode_len();
    let m = suffix.unicode_len();
    let mut end: usize = n;
    assert(s@.subrange(0, n as int) =~= s@);
    loop
        invariant
            n == s@.len(),
            m == suffix@.len(),
            m > 0,
            end <= n,
            trim_end_all(s@.subrange(0, end as int), suffix@) == trim_end_all(s@, suffix@),
        ensures
            end <= n,
            trim_end_all(s@.subrange(0, end as int), suffix@) == trim_end_all(s@, suffix@),
            !ends_with(s@.subrange(0, end as int), suffix@),
        decreases end,
    {
        if end < m {
            break;
        }
        let start = end - m;
        let mut k: usize = 0;
        let mut matches = true;
        while k < m
            invariant
                n == s@.len(),
                m == suffix@.len(),
                start + m == end,
                end <= n,
                k <= m,
                matches == forall|j: int| 0 <= j < k ==> s@[start + j] == suffix@[j],
            decreases m - k,
        {
            if s.get_char(start + k) != suffix.get_char(k) {
                matches = false;
            }
            k = k + 1;
        }
        let ghost prefix = s@.subrange(0, end as int);
        if !matches {
            proof {
                if ends_with(prefix, suffix@) {
                    assert forall|j: int| 0 <= j < m implies s@[start + j] == suffix@[j] by {
                        assert(prefix.subrange(start as int, end as int)[j] == suffix@[j]);
                    }
                }
            }
            break;
        }
        proof {
            assert(prefix.subrange(start as int, end as int) =~= suffix@);
            assert(prefix.subrange(0, start as int) =~= s@.subrange(0, start as int));
        }
        end = start;
    }
    let r = String::from_str(s.substring_char(0, end));
    assert(trim_end_all(s@.subrange(0, end as int), suffix@) == s@.subrange(0, end as int));
    r
}

/// The trait and the method of an `Add`-like derive: the derive's name
/// without a trailing `Self`, and that in lowercase (`Add` gives `Add` and
/// `add`; `MulSelf` gives `Mul` and `mul`).
pub fn add_trait_and_method(trait_name: &str) -> (r: (String, String))
    ensures
        r.0@ == trim_end_all(trait_name@, "Self"@),
        r.1@ == lowercase(trim_end_all(trait_name@, "Self"@)),
{
    proof {
        reveal_strlit("Self");
    }
    let trimmed = trim_end_matches(trait_name, "Self");
    let method = to_lowercase(trimmed.as_str());
    (trimmed, method)
}

/// The method of an `AddAssign`-like trait: the trait's name without a
/// trailing `Assign`, in lowercase, then `_assign` (`AddAssign` gives
/// `add_assign`).
pub fn add_assign_method_name(trait_name: &str) -> (r: String)
    ensures
        r@ == lowercase(trim_end_all(trait_name@, "Assign"@)) + "_assign"@,
{
    proof {
        reveal_strlit("Assign");
    }
    let trimmed = trim_end_matches(trait_name, "Assign");
    let mut out = to_lowercase(trimmed.as_str());
    out.append("_assign");
    out
}

/// What the implementation makes of a struct field.
#[derive(Debug, Clone, Copy, PartialEq, Eq, Structural)]
pub enum FieldExpr {
    /// The left operand's field, kept as it is (the field is skipped).
    Kept(usize),
    /// The two operands' fields combined by the method.
    Combined(usize),
}

/// The expression of a field.
pub open spec fn field_expr(skipped: Seq<bool>, i: int) -> FieldExpr {
    if skipped[i] {
        FieldExpr::Kept(i as usize)
    } else {
        FieldExpr::Combined(i as usize)
    }
}

/// The expression of each field of a struct (skipped fields keep the left
/// operand's value, the others are combined), and the fields that take part.
pub fn struct_exprs_and_used_fields(skipped: &Vec<bool>) -> (r: (Vec<FieldExpr>, Vec<usize>))
    ensures
        r.0@ == Seq::new(skipped@.len(), |i: int| field_expr(skipped@, i)),
        r.1@ == compared(skipped@),
{
    let mut exprs: Vec<FieldExpr> = Vec::new();
    let mut i: usize = 0;
    while i < skipped.len()
        invariant
            i <= skipped.len(),
            exprs@ =~= Seq::new(i as nat, |k: int| field_expr(skipped@, k)),
        decreases skipped.len() - i,
    {
        if skipped[i] {
            exprs.push(FieldExpr::Kept(i));
        } else {
            exprs.push(FieldExpr::Combined(i));
        }
        i = i + 1;
    }
    (exprs, compared_fields(skipped))
}

/// An arm of the `match` on the two enum operands.
#[derive(Debug, Clone, Copy, PartialEq, Eq, Structural)]
pub enum AddArm {
    /// Both operands are this variant, with fields: combine them field by
    /// field into the variant, `Ok`.
    Combine(usize),
    /// Both operands are this unit variant: a `Unit` error.
    UnitError(usize),
    /// Any other pair: a `Mismatch` error.
    Mismatch,
}

/// The arm for a variant.
pub open spec fn variant_arm(unit_variants: Seq<bool>, i: int) -> AddArm {
    if unit_variants[i] {
        AddArm::UnitError(i as usize)
    } else {
        AddArm::Combine(i as usize)
    }
}

/// The arms for an enum: one for each variant, in order, and a last one for
/// different variants where there are several.
pub open spec fn planned_arms(unit_variants: Seq<bool>) -> Seq<AddArm> {
    Seq::new(unit_variants.len(), |i: int| variant_arm(unit_variants, i)) + if unit_variants.len()
        > 1 {
        seq![AddArm::Mismatch]
    } else {
        Seq::empty()
    }
}

/// Builds the arms of the `match` on the two operands of an enum, given
/// which variants are units.
pub fn enum_arms(unit_variants: &Vec<bool>) -> (r: Vec<AddArm>)
    ensures
        r@ == planned_arms(unit_variants@),
{
    let mut arms: Vec<AddArm> = Vec::new();
    let mut i: usize = 0;
    while i < unit_variants.len()
        invariant
            i <= unit_variants.len(),
            arms@ =~= Seq::new(i as nat, |k: int| variant_arm(unit_variants@, k)),
        decreases unit_variants.len() - i,
    {
        if unit_variants[i] {
            arms.push(AddArm::UnitError(i));
        } else {
            arms.push(AddArm::Combine(i));
        }
        i = i + 1;
    }
    if unit_variants.len() > 1 {
        arms.push(AddArm::Mismatch);
    }
    assert(arms@ =~= planned_arms(unit_variants@));
    arms
}

/// Whether an arm matches the operands of variants `l` and `r`.
pub open spec fn arm_matches(arm: AddArm, l: int, r: int) -> bool {
    match arm {
        AddArm::Combine(v) => l == v && r == v,
        AddArm::UnitError(v) => l == v && r == v,
        AddArm::Mismatch => true,
    }
}

/// The first arm, from the `k`-th on, that matches variants `l` and `r`.
pub open spec fn first_match(arms: Seq<AddArm>, l: int, r: int, k: int) -> Option<AddArm>
    decreases arms.len() - k,
{
    if k < 0 || k >= arms.len() {
        None
    } else if arm_matches(arms[k], l, r) {
        Some(arms[k])
    } else {
        first_match(arms, l, r, k + 1)
    }
}

/// No arm for a variant before `k` matches variants other than its own.
proof fn lemma_first_match_skips(unit_variants: Seq<bool>, l: int, r: int, k: int)
    requires
        unit_variants.len() <= usize::MAX,
        0 <= k <= unit_variants.len(),
        0 <= l < unit_variants.len(),
        0 <= r < unit_variants.len(),
        l != r || l >= k,
    ensures
        first_match(planned_arms(unit_variants), l, r, k) == if l != r {
            Some(AddArm::Mismatch)
        } else {
            Some(variant_arm(unit_variants, l))
        },
    decreases unit_variants.len() - k,
{
    let arms = planned_arms(unit_variants);
    let n = unit_variants.len() as int;
    assert(arms.len() == n + if n > 1 {
        1int
    } else {
        0int
    });
    if k < n {
        assert(arms[k] == variant_arm(unit_variants, k));
        if l == r && l == k {
        } else {
            lemma_first_match_skips(unit_variants, l, r, k + 1);
        }
    } else {
        assert(l != r);
        assert(arms[n] == AddArm::Mismatch);
    }
}

/// Combining two values of an enum with the planned arms gives: a mismatch
/// error for different variants, a unit error for the same unit variant,
/// and the variant's fields combined for the same variant with fields.
pub proof fn lemma_enum_arms_outcome(unit_variants: Seq<bool>, l: int, r: int)
    requires
        unit_variants.len() <= usize::MAX,
        0 <= l < unit_variants.len(),
        0 <= r < unit_variants.len(),
    ensures
        first_match(planned_arms(unit_variants), l, r, 0) == if l != r {
            Some(AddArm::Mismatch)
        } else if unit_variants[l] {
            Some(AddArm::UnitError(l as usize))
        } else {
            Some(AddArm::Combine(l as usize))
        },
{
    lemma_first_match_skips(unit_variants, l, r, 0);
}

} // verus!
