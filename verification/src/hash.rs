//! The decisions of the `Hash` derive: what the body of `hash` hashes for a
//! struct or an enum.

use vstd::prelude::*;

use crate::partial_eq::{compared, compared_fields, VariantFields};

verus! {

/// The body of the generated `hash` method.
#[derive(Debug)]
pub enum HashBody {
    /// Nothing to hash.
    Nothing,
    /// The discriminant is hashed (for an enum); then, unless `arms` is
    /// empty, a `match` hashes the fields of each kept variant that are not
    /// skipped (one arm for each, in order), with a last arm `_ => {}` where
    /// `wildcard` holds.
    Hash { discriminant: bool, arms: Vec<Vec<usize>>, wildcard: bool },
}

/// Whether the body hashes nothing: an enum without variants, a skipped
/// struct, or a single struct or variant (with no variant of the enum
/// skipped) whose fields are all skipped.
pub open spec fn hashes_nothing(is_enum: bool, has_skipped_variants: bool, vs: Seq<VariantFields>) -> bool {
    ||| is_enum && vs.len() == 0 && !has_skipped_variants
    ||| !is_enum && vs.len() == 0 && has_skipped_variants
    ||| !(is_enum && has_skipped_variants) && vs.len() == 1 && compared(vs[0].skipped@).len() == 0
}

/// What `body` gives: nothing where it hashes nothing; otherwise the
/// discriminant for an enum, an arm for each kept variant with the fields it
/// does not skip, and a last `_` arm where some variants were skipped.
pub open spec fn hash_body_is(is_enum: bool, has_skipped_variants: bool, vs: Seq<VariantFields>, r: HashBody) -> bool {
    &&& hashes_nothing(is_enum, has_skipped_variants, vs) ==> r is Nothing
    &&& !hashes_nothing(is_enum, has_skipped_variants, vs) ==> (r matches HashBody::Hash {
        discriminant,
        arms,
        wildcard,
    } && discriminant == is_enum && arms@.len() == vs.len() && (forall|i: int|
        0 <= i < vs.len() ==> (#[trigger] arms@[i])@ == compared(vs[i].skipped@)) && wildcard == (
    has_skipped_variants && vs.len() > 0))
}

/// Builds the body of `hash` for the kept variants of an enum (or the
/// struct, as a single variant; none where it is skipped), given whether
/// some variants (or the struct) were skipped.
pub fn body(is_enum: bool, has_skipped_variants: bool, variants: &Vec<VariantFields>) -> (r: HashBody)
    ensures
        hash_body_is(is_enum, has_skipped_variants, variants@, r),
{
    let n = variants.len();
    if is_enum && n == 0 && !has_skipped_variants {
        return HashBody::Nothing;
    }
    if !is_enum && n == 0 && has_skipped_variants {
        return HashBody::Nothing;
    }
    if !(is_enum && has_skipped_variants) && n == 1 {
        let first = compared_fields(&variants[0].skipped);
        if first.len() == 0 {
            return HashBody::Nothing;
        }
    }
    let mut arms: Vec<Vec<usize>> = Vec::new();
    let mut i: usize = 0;
    while i < n
        invariant
            n == variants@.len(),
            i <= n,
            arms@.len() == i,
            forall|k: int| 0 <= k < i ==> (#[trigger] arms@[k])@ == compared(variants@[k].skipped@),
        decreases n - i,
    {
        arms.push(compared_fields(&variants[i].skipped));
        i = i + 1;
    }
    HashBody::Hash { discriminant: is_enum, arms, wildcard: has_skipped_variants && n > 0 }
}

/// The fields that `compared` lists are exactly those not skipped.
proof fn lemma_compared_members(skipped: Seq<bool>, k: usize)
    requires
        skipped.len() <= usize::MAX,
    ensures
        compared(skipped).contains(k) <==> (k < skipped.len() && !skipped[k as int]),
    decreases skipped.len(),
{
    if skipped.len() > 0 {
        let prefix = skipped.drop_last();
        lemma_compared_members(prefix, k);
        let prev = compared(prefix);
        let last = (skipped.len() - 1) as usize;
        if !skipped.last() {
            if k == last {
                assert(prev.push(last)[prev.len() as int] == k);
            } else if compared(skipped).contains(k) {
                let i = choose|i: int| 0 <= i < compared(skipped).len() && compared(skipped)[i] == k;
                assert(prev[i] == k);
            } else if prev.contains(k) {
                let i = choose|i: int| 0 <= i < prev.len() && prev[i] == k;
                assert(prev.push(last)[i] == k);
            }
        }
        if k < prefix.len() {
            assert(prefix[k as int] == skipped[k as int]);
        }
    }
}

/// The `Hash` derive hashes only fields that the `PartialEq` derive compares
/// (every field that `PartialEq` skips is skipped by `Hash` too), so that
/// equal values hash alike.
pub proof fn lemma_hashed_fields_are_compared(eq_skipped: Seq<bool>, hash_skipped: Seq<bool>, k: usize)
    requires
        eq_skipped.len() == hash_skipped.len(),
        eq_skipped.len() <= usize::MAX,
        forall|i: int| 0 <= i < eq_skipped.len() && eq_skipped[i] ==> hash_skipped[i],
        compared(hash_skipped).contains(k),
    ensures
        compared(eq_skipped).contains(k),
{
    lemma_compared_members(hash_skipped, k);
    lemma_compared_members(eq_skipped, k);
}

/// What the generated `hash` feeds the hasher.
pub enum Feed {
    /// `mem::discriminant` of the value.
    Discriminant,
    /// The field at this position.
    Field(usize),
}

/// What the body feeds the hasher for a value of the `v`-th kept variant.
pub open spec fn fed(b: HashBody, v: int) -> Seq<Feed> {
    match b {
        HashBody::Nothing => Seq::empty(),
        HashBody::Hash { discriminant, arms, .. } => (if discriminant {
            seq![Feed::Discriminant]
        } else {
            Seq::empty()
        }) + if 0 <= v < arms@.len() {
            arms@[v]@.map_values(|k: usize| Feed::Field(k))
        } else {
            Seq::empty()
        },
    }
}

/// The generated `hash` feeds the hasher, for a value of a kept variant,
/// first the discriminant (for an enum), then each field that is not
/// skipped, in declaration order, and nothing else; so two values of one
/// variant with equal unskipped fields feed the same things.
pub proof fn lemma_hash_feeds(
    is_enum: bool,
    has_skipped_variants: bool,
    vs: Seq<VariantFields>,
    b: HashBody,
    v: int,
)
    requires
        hash_body_is(is_enum, has_skipped_variants, vs, b),
        0 <= v < vs.len(),
    ensures
        fed(b, v) == if hashes_nothing(is_enum, has_skipped_variants, vs) {
            Seq::empty()
        } else {
            (if is_enum {
                seq![Feed::Discriminant]
            } else {
                Seq::<Feed>::empty()
            }) + compared(vs[v].skipped@).map_values(|k: usize| Feed::Field(k))
        },
{
    if !hashes_nothing(is_enum, has_skipped_variants, vs) {
        if let HashBody::Hash { discriminant, arms, .. } = b {
            assert(arms@[v]@ == compared(vs[v].skipped@));
        }
    }
}

} // verus!
