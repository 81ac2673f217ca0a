//! The decision of the `DerefMut` derive: which field a struct or an enum
//! variant dereferences to.

use vstd::prelude::*;

verus! {

/// How many of the first `n` fields are not ignored.
pub open spec fn enabled_count(ignored: Seq<bool>, n: int) -> nat
    decreases n,
{
    if n <= 0 {
        0
    } else {
        enabled_count(ignored, n - 1) + if ignored[n - 1] {
            0nat
        } else {
            1nat
        }
    }
}

/// Exactly one field is not ignored, and that field is `i`.
pub open spec fn only_enabled(ignored: Seq<bool>, i: int) -> bool {
    0 <= i < ignored.len() && !ignored[i] && forall|j: int|
        0 <= j < ignored.len() && j != i ==> ignored[j]
}

/// A count of one, with `i` not ignored, means every other field is.
proof fn lemma_count_one_is_only(ignored: Seq<bool>, n: int, i: int)
    requires
        0 <= i < n <= ignored.len(),
        !ignored[i],
        enabled_count(ignored, n) == 1,
    ensures
        forall|j: int| 0 <= j < n && j != i ==> ignored[j],
    decreases n,
{
    if n - 1 != i {
        lemma_count_positive(ignored, n - 1, i);
        lemma_count_one_is_only(ignored, n - 1, i);
    } else {
        lemma_count_zero(ignored, n - 1);
    }
}

/// A field not ignored among the first `n` counts.
proof fn lemma_count_positive(ignored: Seq<bool>, n: int, i: int)
    requires
        0 <= i < n <= ignored.len(),
        !ignored[i],
    ensures
        enabled_count(ignored, n) >= 1,
    decreases n,
{
    if n - 1 != i {
        lemma_count_positive(ignored, n - 1, i);
    }
}

/// A count of zero means every field is ignored.
proof fn lemma_count_zero(ignored: Seq<bool>, n: int)
    requires
        0 <= n <= ignored.len(),
        enabled_count(ignored, n) == 0,
    ensures
        forall|j: int| 0 <= j < n ==> ignored[j],
    decreases n,
{
    if n > 0 {
        lemma_count_zero(ignored, n - 1);
    }
}

/// A single field not ignored counts once.
proof fn lemma_only_counts_one(ignored: Seq<bool>, n: int, i: int)
    requires
        0 <= n <= ignored.len(),
        only_enabled(ignored, i),
    ensures
        enabled_count(ignored, n) == if i < n {
            1nat
        } else {
            0nat
        },
    decreases n,
{
    if n > 0 {
        lemma_only_counts_one(ignored, n - 1, i);
    }
}

/// The field that a struct or an enum variant dereferences to: the one field
/// that is not ignored; `None` where not exactly one is.
pub fn single_enabled_field(ignored: &Vec<bool>) -> (r: Option<usize>)
    ensures
        match r {
            Some(i) => only_enabled(ignored@, i as int),
            None => forall|i: int| !only_enabled(ignored@, i),
        },
{
    let mut found: Option<usize> = None;
    let mut count: usize = 0;
    let mut k: usize = 0;
    while k < ignored.len()
        invariant
            k <= ignored.len(),
            count == enabled_count(ignored@, k as int),
            count <= k,
            count == 0 <==> found is None,
            found matches Some(i) ==> i < k && !ignored@[i as int],
        decreases ignored.len() - k,
    {
        if !ignored[k] {
            if count == 0 {
                found = Some(k);
            }
            count = count + 1;
        }
        k = k + 1;
    }
    if count == 1 {
        let i = found.unwrap();
        proof {
            lemma_count_one_is_only(ignored@, ignored@.len() as int, i as int);
        }
        Some(i)
    } else {
        proof {
            assert forall|i: int| !only_enabled(ignored@, i) by {
                if only_enabled(ignored@, i) {
                    lemma_only_counts_one(ignored@, ignored@.len() as int, i);
                }
            }
        }
        None
    }
}

} // verus!
