//! The shape of the `eq` and `ne` methods that the `PartialEq` derive
//! generates: which comparisons they make, and which they leave out.

use vstd::prelude::*;

verus! {

/// The fields of a struct or an enum variant, by whether each is skipped.
#[derive(Debug)]
pub struct VariantFields {
    /// For each field, whether it is skipped from the comparison.
    pub skipped: Vec<bool>,
}

/// One arm of the generated `match (self, other)`: the variant and the
/// fields that it compares.
#[derive(Debug)]
pub struct EqArm {
    pub variant: usize,
    pub fields: Vec<usize>,
}

/// The `match (self, other)` of the generated method.
#[derive(Debug)]
pub struct EqMatch {
    /// The arms, one for each variant with fields to compare.
    pub arms: Vec<EqArm>,
    /// Whether a `_ => <result for no fields>` arm follows (some variant has
    /// no fields to compare).
    pub no_fields_arm: bool,
    /// Whether a `_ => unreachable` arm follows (there are several variants
    /// and every one has an arm).
    pub unreachable_arm: bool,
}

/// The body of a generated `eq` (or `ne`) method.
#[derive(Debug)]
pub enum EqBody {
    /// The method is not generated.
    Absent,
    /// `match *self {}`: the type has no variants.
    EmptyMatch,
    /// The constant result (`true` for `eq`, `false` for `ne`): there are no
    /// fields to compare.
    Constant,
    /// A comparison of the discriminants (where `discriminants` holds), of the
    /// fields (where `fields` is present), or of both, chained.
    Compare { discriminants: bool, fields: Option<EqMatch> },
}

/// The indices of the fields that are not skipped, in order.
pub open spec fn compared(skipped: Seq<bool>) -> Seq<usize>
    decreases skipped.len(),
{
    if skipped.len() == 0 {
        Seq::empty()
    } else {
        let prev = compared(skipped.drop_last());
        if skipped.last() {
            prev
        } else {
            prev.push((skipped.len() - 1) as usize)
        }
    }
}

/// The compared fields are exactly the fields that are not skipped, each
/// once, in the order of the fields.
pub proof fn lemma_compared_are_unskipped(skipped: Seq<bool>)
    requires
        skipped.len() <= usize::MAX,
    ensures
        forall|k: int|
            0 <= k < compared(skipped).len() ==> #[trigger] compared(skipped)[k] < skipped.len()
                && !skipped[compared(skipped)[k] as int],
        forall|k: int, l: int|
            0 <= k < l < compared(skipped).len() ==> #[trigger] compared(skipped)[k]
                < #[trigger] compared(skipped)[l],
        forall|f: int| 0 <= f < skipped.len() && !skipped[f] ==> compared(skipped).contains(f as usize),
    decreases skipped.len(),
{
    if skipped.len() > 0 {
        let prefix = skipped.drop_last();
        lemma_compared_are_unskipped(prefix);
        let prev = compared(prefix);
        let cur = compared(skipped);
        assert forall|k: int| 0 <= k < prev.len() implies prefix[prev[k] as int] == skipped[prev[k] as int] by {}
        if !skipped.last() {
            let last = (skipped.len() - 1) as usize;
            assert(cur == prev.push(last));
            assert forall|k: int, l: int| 0 <= k < l < cur.len() implies #[trigger] cur[k]
                < #[trigger] cur[l] by {
                assert(cur[k] == prev[k]);
                if l < prev.len() {
                    assert(cur[l] == prev[l]);
                }
            }
            assert forall|f: int| 0 <= f < skipped.len() && !skipped[f] implies cur.contains(
                f as usize,
            ) by {
                if f < skipped.len() - 1 {
                    assert(prefix[f] == skipped[f]);
                    let k = choose|k: int| 0 <= k < prev.len() && prev[k] == f as usize;
                    assert(cur[k] == f as usize);
                } else {
                    assert(cur[prev.len() as int] == f as usize);
                }
            }
        } else {
            assert forall|f: int| 0 <= f < skipped.len() && !skipped[f] implies cur.contains(
                f as usize,
            ) by {
                assert(prefix[f] == skipped[f]);
            }
        }
    }
}

/// The arms for the first `n` variants: one for each variant with a field
/// to compare, with its variant index and compared fields.
pub open spec fn spec_arms(vs: Seq<VariantFields>, n: int) -> Seq<(usize, Seq<usize>)>
    decreases n,
{
    if n <= 0 {
        Seq::empty()
    } else {
        let prev = spec_arms(vs, n - 1);
        let c = compared(vs[n - 1].skipped@);
        if c.len() > 0 {
            prev.push(((n - 1) as usize, c))
        } else {
            prev
        }
    }
}

/// The arms, as variant indices with the compared fields.
pub open spec fn arms_view(arms: Seq<EqArm>) -> Seq<(usize, Seq<usize>)> {
    arms.map_values(|a: EqArm| (a.variant, a.fields@))
}

/// What `body(vs, eq)` is: no method for an empty type's `ne`, a constant
/// where a single variant has nothing to compare, and otherwise a comparison
/// of the discriminants (for several variants) chained with a match over the
/// variants that have fields to compare; `ne` is left out where only the
/// discriminants would be compared.
pub open spec fn body_is(vs: Seq<VariantFields>, eq: bool, b: EqBody) -> bool {
    if vs.len() == 0 {
        if eq {
            b is EmptyMatch
        } else {
            b is Absent
        }
    } else if vs.len() == 1 && compared(vs[0].skipped@).len() == 0 {
        if eq {
            b is Constant
        } else {
            b is Absent
        }
    } else {
        let arms = spec_arms(vs, vs.len() as int);
        if !eq && vs.len() > 1 && arms.len() == 0 {
            b is Absent
        } else {
            b matches EqBody::Compare { discriminants, fields } && discriminants == (vs.len() > 1)
                && if arms.len() == 0 {
                fields is None
            } else {
                fields matches Some(m) && arms_view(m.arms@) == arms && m.no_fields_arm == (
                arms.len() != vs.len()) && m.unreachable_arm == (vs.len() > 1 && arms.len()
                == vs.len())
            }
        }
    }
}

/// The indices of the fields that are not skipped.
pub fn compared_fields(skipped: &Vec<bool>) -> (r: Vec<usize>)
    ensures
        r@ == compared(skipped@),
{
    let mut out: Vec<usize> = Vec::new();
    let mut i: usize = 0;
    while i < skipped.len()
        invariant
            i <= skipped.len(),
            out@ == compared(skipped@.subrange(0, i as int)),
        decreases skipped.len() - i,
    {
        proof {
            assert(skipped@.subrange(0, i + 1).drop_last() =~= skipped@.subrange(0, i as int));
        }
        if !skipped[i] {
            out.push(i);
        }
        i = i + 1;
    }
    proof {
        assert(skipped@.subrange(0, skipped@.len() as int) =~= skipped@);
    }
    out
}

/// Plans the body of the generated `eq` method (`eq == true`) or `ne` method
/// (`eq == false`) for a struct (one variant) or an enum.
pub fn body(variants: &Vec<VariantFields>, eq: bool) -> (r: EqBody)
    ensures
        body_is(variants@, eq, r),
{
    if variants.len() == 0 {
        return if eq {
            EqBody::EmptyMatch
        } else {
            EqBody::Absent
        };
    }
    if variants.len() == 1 && compared_fields(&variants[0].skipped).len() == 0 {
        return if eq {
            EqBody::Constant
        } else {
            EqBody::Absent
        };
    }
    let mut arms: Vec<EqArm> = Vec::new();
    let mut i: usize = 0;
    while i < variants.len()
        invariant
            i <= variants.len(),
            arms_view(arms@) == spec_arms(variants@, i as int),
            arms.len() <= i,
        decreases variants.len() - i,
    {
        let fields = compared_fields(&variants[i].skipped);
        if fields.len() > 0 {
            let ghost old_arms = arms@;
            arms.push(EqArm { variant: i, fields });
            proof {
                assert(arms_view(arms@) =~= arms_view(old_arms).push((i, fields@)));
            }
        }
        i = i + 1;
    }
    let discriminants = variants.len() > 1;
    if !eq && discriminants && arms.len() == 0 {
        return EqBody::Absent;
    }
    if arms.len() == 0 {
        EqBody::Compare { discriminants, fields: None }
    } else {
        let no_fields_arm = arms.len() != variants.len();
        let unreachable_arm = variants.len() > 1 && !no_fields_arm;
        EqBody::Compare {
            discriminants,
            fields: Some(EqMatch { arms, no_fields_arm, unreachable_arm }),
        }
    }
}

/// The fields that the arm of variant `v` compares, where there is one.
pub open spec fn arm_fields(arms: Seq<(usize, Seq<usize>)>, v: usize) -> Option<Seq<usize>>
    decreases arms.len(),
{
    if arms.len() == 0 {
        None
    } else if arms[0].0 == v {
        Some(arms[0].1)
    } else {
        arm_fields(arms.drop_first(), v)
    }
}

/// What an arm's comparisons give: for `eq`, whether every field compares
/// equal; for `ne`, whether some field does not.
pub open spec fn arm_result(fields: Seq<usize>, eq: bool, field_eq: spec_fn(usize) -> bool) -> bool {
    if eq {
        forall|k: int| 0 <= k < fields.len() ==> field_eq(fields[k])
    } else {
        exists|k: int| 0 <= k < fields.len() && !field_eq(fields[k])
    }
}

/// What the generated `match (self, other)` gives for values of variants `v`
/// and (where `same`) the same one: the arm of `v` where both are of it,
/// else the result for no fields (`eq` itself); the unreachable arm is taken
/// only after the discriminants differed, and its value does not matter.
pub open spec fn match_result(
    m: EqMatch,
    eq: bool,
    same: bool,
    v: usize,
    field_eq: spec_fn(usize) -> bool,
) -> bool {
    if same {
        match arm_fields(arms_view(m.arms@), v) {
            Some(fields) => arm_result(fields, eq, field_eq),
            None => eq,
        }
    } else {
        eq
    }
}

/// What a generated method returns on two values: `same` tells whether they
/// are of the same variant, `v` is the variant of the first, and `field_eq`
/// tells for each field of that variant whether it compares equal (each
/// field's `ne` being the negation of its `eq`). `None` where the method is
/// not generated (and `ne` is the default, the negation of `eq`).
pub open spec fn eval_body(
    b: EqBody,
    eq: bool,
    same: bool,
    v: usize,
    field_eq: spec_fn(usize) -> bool,
) -> Option<bool> {
    match b {
        EqBody::Absent => None,
        EqBody::EmptyMatch => Some(eq),
        EqBody::Constant => Some(eq),
        EqBody::Compare { discriminants, fields } => {
            let d = if eq {
                same
            } else {
                !same
            };
            Some(
                match fields {
                    None => d,
                    Some(m) => if !discriminants {
                        match_result(m, eq, same, v, field_eq)
                    } else if eq {
                        d && match_result(m, eq, same, v, field_eq)
                    } else {
                        d || match_result(m, eq, same, v, field_eq)
                    },
                },
            )
        },
    }
}

proof fn lemma_arm_fields_push(s: Seq<(usize, Seq<usize>)>, x: (usize, Seq<usize>), v: usize)
    ensures
        arm_fields(s.push(x), v) == match arm_fields(s, v) {
            Some(f) => Some(f),
            None => if x.0 == v {
                Some(x.1)
            } else {
                None
            },
        },
    decreases s.len(),
{
    if s.len() > 0 {
        assert(s.push(x).drop_first() =~= s.drop_first().push(x));
        assert(s.push(x)[0] == s[0]);
        lemma_arm_fields_push(s.drop_first(), x, v);
    } else {
        assert(s.push(x).drop_first() =~= Seq::<(usize, Seq<usize>)>::empty());
        assert(s.push(x)[0] == x);
        assert(arm_fields(Seq::<(usize, Seq<usize>)>::empty(), v) is None);
    }
}

proof fn lemma_arms_fields(vs: Seq<VariantFields>, n: int, v: usize)
    requires
        0 <= n <= vs.len(),
        vs.len() <= usize::MAX,
    ensures
        arm_fields(spec_arms(vs, n), v) == if v < n && compared(vs[v as int].skipped@).len() > 0 {
            Some(compared(vs[v as int].skipped@))
        } else {
            None::<Seq<usize>>
        },
    decreases n,
{
    if n > 0 {
        lemma_arms_fields(vs, n - 1, v);
        let prev = spec_arms(vs, n - 1);
        let c = compared(vs[n - 1].skipped@);
        if c.len() > 0 {
            lemma_arm_fields_push(prev, ((n - 1) as usize, c), v);
        }
    }
}

/// The generated `eq` holds of two values exactly where they are of the same
/// variant and every field of that variant that is not skipped compares
/// equal. `v` is the variant of the first value, `same` whether the second
/// is of it too (always so for a struct, whose values have one variant), and
/// `field_eq` whether each field compares equal.
pub proof fn lemma_eq_is_same_fields(
    vs: Seq<VariantFields>,
    b: EqBody,
    same: bool,
    v: usize,
    field_eq: spec_fn(usize) -> bool,
)
    requires
        body_is(vs, true, b),
        v < vs.len() <= usize::MAX,
        vs.len() == 1 ==> same,
    ensures
        eval_body(b, true, same, v, field_eq) == Some(
            same && forall|k: int|
                0 <= k < compared(vs[v as int].skipped@).len() ==> field_eq(
                    #[trigger] compared(vs[v as int].skipped@)[k],
                ),
        ),
{
    lemma_arms_fields(vs, vs.len() as int, v);
}

/// The generated `ne` is the negation of the generated `eq`, on every two
/// values: where `ne` is generated at all, it returns the opposite of `eq`.
pub proof fn lemma_ne_is_not_eq(
    vs: Seq<VariantFields>,
    b_eq: EqBody,
    b_ne: EqBody,
    same: bool,
    v: usize,
    field_eq: spec_fn(usize) -> bool,
)
    requires
        body_is(vs, true, b_eq),
        body_is(vs, false, b_ne),
        vs.len() == 1 ==> same && v == 0,
    ensures
        eval_body(b_eq, true, same, v, field_eq) is Some,
        eval_body(b_ne, false, same, v, field_eq) matches Some(r) ==> r == !eval_body(
            b_eq,
            true,
            same,
            v,
            field_eq,
        ).unwrap(),
{
    if let EqBody::Compare { discriminants: _, fields: Some(mn) } = b_ne {
        if let EqBody::Compare { discriminants: _, fields: Some(me) } = b_eq {
            if same {
                match arm_fields(arms_view(me.arms@), v) {
                    Some(fields) => {
                        assert(arms_view(mn.arms@) == arms_view(me.arms@));
                        if arm_result(fields, true, field_eq) {
                            assert(!arm_result(fields, false, field_eq));
                        } else {
                            let k = choose|k: int| 0 <= k < fields.len() && !field_eq(fields[k]);
                            assert(arm_result(fields, false, field_eq));
                        }
                    },
                    None => {},
                }
            }
        }
    }
}

} // verus!
