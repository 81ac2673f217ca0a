//! The decisions of the `FromStr` derive: which expansion a type gets, the
//! string that each unit value is matched by, when two values would be
//! matched by the same string, and the arms of the generated `match`.

use vstd::prelude::*;

use crate::text::{join, joined, lowercase, to_lowercase, views};
use crate::input::DataKind;
use crate::naming::{case_converted, convert_case, CaseStyle};

verus! {

/// The two ways `#[derive(FromStr)]` expands.
#[derive(Debug, Clone, Copy, PartialEq, Eq, Structural)]
pub enum FromStrExpansion {
    /// Matches the input against the names of unit values (an enum of unit
    /// variants, or a struct without fields).
    Flat,
    /// Forwards to the `FromStr` of the one field of a struct.
    Forward,
}

/// `FromStr` cannot be derived for unions.
#[derive(Debug, Clone, Copy, PartialEq, Eq, Structural)]
pub struct UnionError;

/// Chooses the expansion: a struct without fields and an enum are matched
/// flat, a struct with fields forwards to its field.
pub fn expand(kind: DataKind, field_count: usize) -> (r: Result<FromStrExpansion, UnionError>)
    ensures
        match kind {
            DataKind::Struct => r == Ok::<FromStrExpansion, UnionError>(
                if field_count == 0 {
                    FromStrExpansion::Flat
                } else {
                    FromStrExpansion::Forward
                },
            ),
            DataKind::Enum => r == Ok::<FromStrExpansion, UnionError>(FromStrExpansion::Flat),
            DataKind::Union => r == Err::<FromStrExpansion, UnionError>(UnionError),
        },
{
    match kind {
        DataKind::Struct => if field_count == 0 {
            Ok(FromStrExpansion::Flat)
        } else {
            Ok(FromStrExpansion::Forward)
        },
        DataKind::Enum => Ok(FromStrExpansion::Flat),
        DataKind::Union => Err(UnionError),
    }
}

/// Why the forwarding expansion refuses its input.
#[derive(Debug, Clone, Copy, PartialEq, Eq, Structural)]
pub enum ForwardError {
    /// Only a struct can forward.
    NotStruct,
    /// A forwarding struct takes no `#[from_str(...)]` attribute.
    AttributeNotAllowed,
    /// Only a struct with a single field can forward.
    FieldCount,
}

/// Checks a type for the forwarding expansion, in the order of the checks:
/// the kind, then the attribute, then the number of fields.
pub fn check_forward(kind: DataKind, has_attribute: bool, field_count: usize) -> (r: Result<
    (),
    ForwardError,
>)
    ensures
        r == if !(kind is Struct) {
            Err::<(), ForwardError>(ForwardError::NotStruct)
        } else if has_attribute {
            Err(ForwardError::AttributeNotAllowed)
        } else if field_count != 1 {
            Err(ForwardError::FieldCount)
        } else {
            Ok(())
        },
{
    match kind {
        DataKind::Struct => {},
        _ => {
            return Err(ForwardError::NotStruct);
        },
    }
    if has_attribute {
        Err(ForwardError::AttributeNotAllowed)
    } else if field_count != 1 {
        Err(ForwardError::FieldCount)
    } else {
        Ok(())
    }
}

/// A unit value that the flat expansion matches: an enum variant, or the
/// struct itself.
#[derive(Debug)]
pub struct UnitValue {
    /// The name of the variant or struct.
    pub name: String,
    /// Whether it has fields (which the flat expansion refuses).
    pub has_fields: bool,
    /// The case of the value's own `#[from_str(rename_all = ...)]`, if it
    /// has one.
    pub rename: Option<CaseStyle>,
}

/// The name of a value converted by its own renaming, if it has one.
pub open spec fn renamed_of(v: UnitValue) -> Option<Seq<char>> {
    match v.rename {
        Some(c) => Some(case_converted(v.name@, c)),
        None => None,
    }
}

/// The lowercase name of a value.
pub open spec fn lower_of(v: UnitValue) -> Seq<char> {
    lowercase(v.name@)
}

/// The keys under which a value counts among the similar ones: its renamed
/// name where that differs from its lowercase name, and its lowercase name.
pub open spec fn keys_of(v: UnitValue) -> Seq<Seq<char>> {
    match renamed_of(v) {
        Some(r) => if r != lower_of(v) {
            seq![r, lower_of(v)]
        } else {
            seq![lower_of(v)]
        },
        None => seq![lower_of(v)],
    }
}

/// The keys of all the values, in order.
pub open spec fn similar_keys(vs: Seq<UnitValue>) -> Seq<Seq<char>>
    decreases vs.len(),
{
    if vs.len() == 0 {
        Seq::empty()
    } else {
        similar_keys(vs.drop_last()) + keys_of(vs.last())
    }
}

/// How many times `key` occurs in `keys`.
pub open spec fn count_of(keys: Seq<Seq<char>>, key: Seq<char>) -> nat
    decreases keys.len(),
{
    if keys.len() == 0 {
        0
    } else {
        count_of(keys.drop_last(), key) + if keys.last() == key {
            1nat
        } else {
            0nat
        }
    }
}

/// Whether the `i`-th value shares its lowercase name with another value
/// (without a container-wide renaming).
pub open spec fn is_similar(vs: Seq<UnitValue>, i: int) -> bool {
    count_of(similar_keys(vs), lower_of(vs[i])) > 1
}

/// The string that the `i`-th value is matched by exactly: its name
/// converted by its own renaming, else by the container-wide one (the case
/// of `container`); without either, the name itself where it is similar to
/// another value's, else the lowercase name.
pub open spec fn exact_string(vs: Seq<UnitValue>, container: Option<CaseStyle>, i: int) -> Seq<
    char,
> {
    match renamed_of(vs[i]) {
        Some(r) => r,
        None => match container {
            Some(c) => case_converted(vs[i].name@, c),
            None => if is_similar(vs, i) {
                vs[i].name@
            } else {
                lower_of(vs[i])
            },
        },
    }
}

/// The exact strings of all the values.
pub open spec fn exact_strings(vs: Seq<UnitValue>, container: Option<CaseStyle>) -> Seq<
    Seq<char>,
> {
    Seq::new(vs.len(), |i: int| exact_string(vs, container, i))
}

/// Whether a later string equals the `i`-th.
pub open spec fn has_later_duplicate(ex: Seq<Seq<char>>, i: int) -> bool {
    exists|j: int| i < j < ex.len() && ex[j] == ex[i]
}

/// The names of the values whose exact string is `s`, in order.
pub open spec fn names_with(vs: Seq<UnitValue>, ex: Seq<Seq<char>>, s: Seq<char>, n: int) -> Seq<
    Seq<char>,
>
    decreases n,
{
    if n <= 0 {
        Seq::empty()
    } else if ex[n - 1] == s {
        names_with(vs, ex, s, n - 1).push(vs[n - 1].name@)
    } else {
        names_with(vs, ex, s, n - 1)
    }
}

/// An arm of the generated `match`: a pattern for the (lowercased, where the
/// plan says so) input, `None` for `_`, and a guard that the input equals a
/// string.
#[derive(Debug)]
pub struct MatchArm {
    pub pattern: Option<String>,
    pub guard: Option<String>,
}

/// The view of an optional string.
pub open spec fn opt_str(o: Option<String>) -> Option<Seq<char>> {
    match o {
        Some(s) => Some(s@),
        None => None,
    }
}

/// An arm by its pattern and guard.
pub open spec fn arm_view(a: MatchArm) -> (Option<Seq<char>>, Option<Seq<char>>) {
    (opt_str(a.pattern), opt_str(a.guard))
}

/// The arm for the `i`-th value. With a container-wide renaming: its exact
/// string. Without: a guard on its own conversion where it has one; else its
/// lowercase name, guarded by its exact name where it is similar to another.
pub open spec fn arm_of(vs: Seq<UnitValue>, container: Option<CaseStyle>, i: int) -> (
    Option<Seq<char>>,
    Option<Seq<char>>,
) {
    match container {
        Some(_) => (Some(exact_string(vs, container, i)), None),
        None => match renamed_of(vs[i]) {
            Some(r) => (None, Some(r)),
            None => (
                Some(lower_of(vs[i])),
                if is_similar(vs, i) {
                    Some(vs[i].name@)
                } else {
                    None
                },
            ),
        },
    }
}

/// The generated `match`: its arms in the order of the values, and whether
/// it matches the lowercased input (it does without a container-wide
/// renaming).
#[derive(Debug)]
pub struct FlatPlan {
    pub arms: Vec<MatchArm>,
    pub lowercase_input: bool,
}

/// Why the flat expansion refuses its input.
#[derive(Debug)]
pub enum FlatError {
    /// Only structs with no fields can derive `FromStr` flat.
    StructWithFields,
    /// Only enums with no fields can derive `FromStr`: the first variant with
    /// fields.
    VariantWithFields(usize),
    /// The flat expansion is for enums and structs.
    Union,
    /// Values that would be matched by the same string: the string, and the
    /// names of all the values it matches.
    SameRepresentation { string: String, names: Vec<String> },
}

/// The count of `key` in `keys`.
fn count_key(keys: &Vec<String>, key: &String) -> (r: usize)
    ensures
        r == count_of(views(keys@), key@),
{
    let mut c: usize = 0;
    let mut k: usize = 0;
    while k < keys.len()
        invariant
            k <= keys.len(),
            c == count_of(views(keys@.subrange(0, k as int)), key@),
            c <= k,
        decreases keys.len() - k,
    {
        proof {
            assert(views(keys@.subrange(0, k + 1)).drop_last() =~= views(
                keys@.subrange(0, k as int),
            ));
        }
        if keys[k] == *key {
            c = c + 1;
        }
        k = k + 1;
    }
    assert(keys@.subrange(0, keys@.len() as int) =~= keys@);
    c
}

/// Whether no value has fields.
pub open spec fn all_unit(vs: Seq<UnitValue>) -> bool {
    forall|i: int| 0 <= i < vs.len() ==> !vs[i].has_fields
}

/// Whether two values have the same exact string.
pub open spec fn has_duplicate(ex: Seq<Seq<char>>) -> bool {
    exists|i: int, j: int| 0 <= i < j < ex.len() && ex[i] == ex[j]
}

/// Checks the values of an enum, or the struct, for the flat expansion and
/// plans its `match`. `container` is the case of the container's
/// `#[from_str(rename_all = ...)]`, where it has one. Of several groups of
/// values that share a string, the one of the first such value is reported.
#[verifier::loop_isolation(false)]
pub fn flat_expansion(kind: DataKind, values: &Vec<UnitValue>, container: Option<CaseStyle>) -> (r:
    Result<FlatPlan, FlatError>)
    ensures
        kind is Union ==> r matches Err(FlatError::Union),
        kind is Struct && !all_unit(values@) ==> r matches Err(FlatError::StructWithFields),
        kind is Enum && !all_unit(values@) ==> (r matches Err(FlatError::VariantWithFields(i))
            && i < values@.len() && values@[i as int].has_fields && forall|k: int|
            0 <= k < i ==> !values@[k].has_fields),
        !(kind is Union) && all_unit(values@) ==> ({
            let ex = exact_strings(values@, container);
            &&& has_duplicate(ex) <==> r is Err
            &&& r matches Err(e) ==> (e matches FlatError::SameRepresentation { string, names }
                && exists|i: int|
                0 <= i < ex.len() && has_later_duplicate(ex, i) && (forall|k: int|
                    0 <= k < i ==> !has_later_duplicate(ex, k)) && string@ == ex[i] && views(names@)
                    == names_with(values@, ex, ex[i], ex.len() as int))
            &&& r matches Ok(plan) ==> (plan.lowercase_input == (container is None)
                && plan.arms@.len() == values@.len() && forall|i: int|
                0 <= i < values@.len() ==> arm_view(#[trigger] plan.arms@[i]) == arm_of(
                    values@,
                    container,
                    i,
                ))
        }),
{
    let n = values.len();
    match kind {
        DataKind::Union => {
            return Err(FlatError::Union);
        },
        _ => {},
    }
    let mut k: usize = 0;
    while k < n
        invariant
            n == values@.len(),
            k <= n,
            forall|j: int| 0 <= j < k ==> !values@[j].has_fields,
        decreases n - k,
    {
        if values[k].has_fields {
            match kind {
                DataKind::Struct => {
                    return Err(FlatError::StructWithFields);
                },
                _ => {
                    return Err(FlatError::VariantWithFields(k));
                },
            }
        }
        k = k + 1;
    }
    let ghost vs = values@;
    // The names converted by their own renamings.
    let mut renamed: Vec<Option<String>> = Vec::new();
    let mut k: usize = 0;
    while k < n
        invariant
            n == vs.len(),
            vs == values@,
            k <= n,
            renamed@.len() == k,
            forall|j: int| 0 <= j < k ==> opt_str(#[trigger] renamed@[j]) == renamed_of(vs[j]),
        decreases n - k,
    {
        let r = match values[k].rename {
            Some(c) => Some(convert_case(values[k].name.as_str(), c)),
            None => None,
        };
        renamed.push(r);
        k = k + 1;
    }
    // The lowercase names and the keys of similar values.
    let mut lowers: Vec<String> = Vec::new();
    let mut keys: Vec<String> = Vec::new();
    let mut k: usize = 0;
    while k < n
        invariant
            n == vs.len(),
            vs == values@,
            k <= n,
            lowers@.len() == k,
            forall|j: int| 0 <= j < k ==> #[trigger] lowers@[j]@ == lower_of(vs[j]),
            views(keys@) == similar_keys(vs.subrange(0, k as int)),
            renamed@.len() == n,
            forall|j: int| 0 <= j < n ==> opt_str(#[trigger] renamed@[j]) == renamed_of(vs[j]),
        decreases n - k,
    {
        let low = to_lowercase(values[k].name.as_str());
        let ghost before = keys@;
        match &renamed[k] {
            Some(r) => {
                if *r != low {
                    keys.push(r.clone());
                }
            },
            None => {},
        }
        keys.push(low.clone());
        lowers.push(low);
        proof {
            assert(vs.subrange(0, k + 1).drop_last() =~= vs.subrange(0, k as int));
            assert(views(keys@) =~= views(before) + keys_of(vs[k as int]));
        }
        k = k + 1;
    }
    assert(vs.subrange(0, n as int) =~= vs);
    // The exact strings.
    let ghost ex = exact_strings(vs, container);
    let mut exact: Vec<String> = Vec::new();
    let mut k: usize = 0;
    while k < n
        invariant
            n == vs.len(),
            vs == values@,
            ex == exact_strings(vs, container),
            renamed@.len() == n,
            forall|j: int| 0 <= j < n ==> opt_str(#[trigger] renamed@[j]) == renamed_of(vs[j]),
            lowers@.len() == n,
            forall|j: int| 0 <= j < n ==> #[trigger] lowers@[j]@ == lower_of(vs[j]),
            views(keys@) == similar_keys(vs),
            k <= n,
            exact@.len() == k,
            forall|j: int| 0 <= j < k ==> #[trigger] exact@[j]@ == ex[j],
        decreases n - k,
    {
        let e = match &renamed[k] {
            Some(r) => r.clone(),
            None => match container {
                Some(c) => convert_case(values[k].name.as_str(), c),
                None => if count_key(&keys, &lowers[k]) > 1 {
                    values[k].name.clone()
                } else {
                    lowers[k].clone()
                },
            },
        };
        exact.push(e);
        k = k + 1;
    }
    // The first value whose exact string a later one shares.
    let mut i: usize = 0;
    while i < n
        invariant
            n == vs.len(),
            vs == values@,
            ex.len() == n,
            exact@.len() == n,
            forall|j: int| 0 <= j < n ==> #[trigger] exact@[j]@ == ex[j],
            i <= n,
            forall|a: int| 0 <= a < i ==> !has_later_duplicate(ex, a),
        decreases n - i,
    {
        let mut j: usize = i + 1;
        while j < n
            invariant
                n == vs.len(),
                ex.len() == n,
                exact@.len() == n,
                forall|b: int| 0 <= b < n ==> #[trigger] exact@[b]@ == ex[b],
                i < n,
                i + 1 <= j <= n,
                forall|b: int| i < b < j ==> ex[b] != ex[i as int],
            decreases n - j,
        {
            if exact[j] == exact[i] {
                let mut names: Vec<String> = Vec::new();
                let mut k: usize = 0;
                while k < n
                    invariant
                        n == vs.len(),
                        vs == values@,
                        ex.len() == n,
                        exact@.len() == n,
                        forall|b: int| 0 <= b < n ==> #[trigger] exact@[b]@ == ex[b],
                        i < n,
                        k <= n,
                        views(names@) == names_with(vs, ex, ex[i as int], k as int),
                    decreases n - k,
                {
                    let ghost before = names@;
                    if exact[k] == exact[i] {
                        names.push(values[k].name.clone());
                        assert(views(names@) =~= views(before).push(vs[k as int].name@));
                    }
                    k = k + 1;
                }
                proof {
                    assert(has_later_duplicate(ex, i as int));
                }
                return Err(FlatError::SameRepresentation { string: exact[i].clone(), names });
            }
            j = j + 1;
        }
        i = i + 1;
    }
    proof {
        if has_duplicate(ex) {
            let (a, b) = choose|a: int, b: int| 0 <= a < b < ex.len() && ex[a] == ex[b];
            assert(has_later_duplicate(ex, a));
        }
    }
    // The arms.
    let mut arms: Vec<MatchArm> = Vec::new();
    let mut k: usize = 0;
    while k < n
        invariant
            n == vs.len(),
            vs == values@,
            ex == exact_strings(vs, container),
            renamed@.len() == n,
            forall|j: int| 0 <= j < n ==> opt_str(#[trigger] renamed@[j]) == renamed_of(vs[j]),
            exact@.len() == n,
            forall|j: int| 0 <= j < n ==> #[trigger] exact@[j]@ == ex[j],
            lowers@.len() == n,
            forall|j: int| 0 <= j < n ==> #[trigger] lowers@[j]@ == lower_of(vs[j]),
            views(keys@) == similar_keys(vs),
            k <= n,
            arms@.len() == k,
            forall|j: int| 0 <= j < k ==> arm_view(#[trigger] arms@[j]) == arm_of(vs, container, j),
        decreases n - k,
    {
        let arm = match container {
            Some(_) => MatchArm { pattern: Some(exact[k].clone()), guard: None },
            None => match &renamed[k] {
                Some(r) => MatchArm { pattern: None, guard: Some(r.clone()) },
                None => MatchArm {
                    pattern: Some(lowers[k].clone()),
                    guard: if count_key(&keys, &lowers[k]) > 1 {
                        Some(values[k].name.clone())
                    } else {
                        None
                    },
                },
            },
        };
        arms.push(arm);
        k = k + 1;
    }
    Ok(FlatPlan { arms, lowercase_input: container.is_none() })
}

impl FlatError {
    /// The error message.
    pub fn message(&self) -> (r: String)
        ensures
            match self {
                FlatError::StructWithFields => r@ == "only structs with no fields can derive `FromStr`"@,
                FlatError::VariantWithFields(_) => r@ == "only enums with no fields can derive `FromStr`"@,
                FlatError::Union => r@ == "expected an enum or a struct for flat `FromStr` derive"@,
                FlatError::SameRepresentation { string, names } => r@ == "`"@ + joined(
                    views(names@),
                    "`, `"@,
                ) + "` variants cannot have the same \""@ + string@
                    + "\" string representation"@,
            },
    {
        match self {
            FlatError::StructWithFields => String::from_str(
                "only structs with no fields can derive `FromStr`",
            ),
            FlatError::VariantWithFields(_) => String::from_str(
                "only enums with no fields can derive `FromStr`",
            ),
            FlatError::Union => String::from_str(
                "expected an enum or a struct for flat `FromStr` derive",
            ),
            FlatError::SameRepresentation { string, names } => {
                let mut m = String::from_str("`");
                m.append(join(names, "`, `").as_str());
                m.append("` variants cannot have the same \"");
                m.append(string.as_str());
                m.append("\" string representation");
                m
            },
        }
    }
}

/// Whether an arm accepts the input `s`, in a `match` on the lowercased
/// input where `lowercase_input` holds, else on the input itself.
pub open spec fn accepts(arm: (Option<Seq<char>>, Option<Seq<char>>), lowercase_input: bool, s: Seq<
    char,
>) -> bool {
    let scrutinee = if lowercase_input {
        lowercase(s)
    } else {
        s
    };
    &&& arm.0 matches Some(p) ==> p == scrutinee
    &&& arm.1 matches Some(g) ==> g == s
}

/// With a container-wide renaming, the exact string of every value parses
/// back to that value: its own arm accepts it, and no earlier arm does.
pub proof fn lemma_renamed_strings_parse_back(vs: Seq<UnitValue>, c: CaseStyle, i: int)
    requires
        !has_duplicate(exact_strings(vs, Some(c))),
        0 <= i < vs.len(),
    ensures
        accepts(arm_of(vs, Some(c), i), false, exact_string(vs, Some(c), i)),
        forall|j: int|
            0 <= j < i ==> !accepts(
                #[trigger] arm_of(vs, Some(c), j),
                false,
                exact_string(vs, Some(c), i),
            ),
{
    let ex = exact_strings(vs, Some(c));
    assert forall|j: int| 0 <= j < i implies !accepts(
        #[trigger] arm_of(vs, Some(c), j),
        false,
        exact_string(vs, Some(c), i),
    ) by {
        assert(ex[j] == exact_string(vs, Some(c), j));
        assert(ex[i] == exact_string(vs, Some(c), i));
    }
}

/// Two occurrences of `key` count at least twice.
proof fn lemma_count_two(keys: Seq<Seq<char>>, a: int, b: int, key: Seq<char>)
    requires
        0 <= a < b < keys.len(),
        keys[a] == key,
        keys[b] == key,
    ensures
        count_of(keys, key) >= 2,
    decreases keys.len(),
{
    if b < keys.len() - 1 {
        lemma_count_two(keys.drop_last(), a, b, key);
    } else {
        lemma_count_one(keys.drop_last(), a, key);
    }
}

/// One occurrence of `key` counts at least once.
proof fn lemma_count_one(keys: Seq<Seq<char>>, a: int, key: Seq<char>)
    requires
        0 <= a < keys.len(),
        keys[a] == key,
    ensures
        count_of(keys, key) >= 1,
    decreases keys.len(),
{
    if a < keys.len() - 1 {
        lemma_count_one(keys.drop_last(), a, key);
    }
}

/// Occurrences past one: a key counted more than once occurs at two
/// positions, one of them other than any given position.
proof fn lemma_count_other(keys: Seq<Seq<char>>, key: Seq<char>, i: int)
    requires
        count_of(keys, key) > 1,
    ensures
        exists|j: int| 0 <= j < keys.len() && j != i && keys[j] == key,
    decreases keys.len(),
{
    let p = keys.drop_last();
    if keys.last() == key && keys.len() - 1 != i {
        assert(keys[keys.len() - 1] == key);
    } else if count_of(p, key) > 1 {
        lemma_count_other(p, key, i);
        let j = choose|j: int| 0 <= j < p.len() && j != i && p[j] == key;
        assert(keys[j] == key);
    } else {
        // the last one is the key at `i`, and one more occurs before it
        lemma_count_positive_has(p, key);
        let j = choose|j: int| 0 <= j < p.len() && p[j] == key;
        assert(keys[j] == key);
    }
}

proof fn lemma_count_positive_has(keys: Seq<Seq<char>>, key: Seq<char>)
    requires
        count_of(keys, key) > 0,
    ensures
        exists|j: int| 0 <= j < keys.len() && keys[j] == key,
    decreases keys.len(),
{
    let p = keys.drop_last();
    if keys.last() == key {
        assert(keys[keys.len() - 1] == key);
    } else {
        lemma_count_positive_has(p, key);
        let j = choose|j: int| 0 <= j < p.len() && p[j] == key;
        assert(keys[j] == key);
    }
}

/// Without renamings, a value is similar to another exactly where another
/// value has the same lowercase name.
pub proof fn lemma_similar_iff_shared_lowercase(vs: Seq<UnitValue>, i: int)
    requires
        0 <= i < vs.len(),
        forall|k: int| 0 <= k < vs.len() ==> vs[k].rename is None,
    ensures
        is_similar(vs, i) <==> exists|j: int|
            0 <= j < vs.len() && j != i && lower_of(#[trigger] vs[j]) == lower_of(vs[i]),
{
    lemma_plain_keys(vs);
    let keys = similar_keys(vs);
    if is_similar(vs, i) {
        lemma_count_other(keys, lower_of(vs[i]), i);
        let j = choose|j: int| 0 <= j < keys.len() && j != i && keys[j] == lower_of(vs[i]);
        assert(keys[j] == lower_of(vs[j]));
    }
    if exists|j: int| 0 <= j < vs.len() && j != i && lower_of(#[trigger] vs[j]) == lower_of(vs[i]) {
        let j = choose|j: int| 0 <= j < vs.len() && j != i && lower_of(#[trigger] vs[j]) == lower_of(vs[i]);
        assert(keys[j] == lower_of(vs[j]));
        assert(keys[i] == lower_of(vs[i]));
        if j < i {
            lemma_count_two(keys, j, i, lower_of(vs[i]));
        } else {
            lemma_count_two(keys, i, j, lower_of(vs[i]));
        }
    }
}

/// Without renamings, the keys are the lowercase names.
proof fn lemma_plain_keys(vs: Seq<UnitValue>)
    requires
        forall|k: int| 0 <= k < vs.len() ==> vs[k].rename is None,
    ensures
        similar_keys(vs) == vs.map_values(|v: UnitValue| lower_of(v)),
    decreases vs.len(),
{
    if vs.len() > 0 {
        lemma_plain_keys(vs.drop_last());
        assert(similar_keys(vs) =~= vs.map_values(|v: UnitValue| lower_of(v)));
    }
}

/// Without any renaming, the exact string of a value parses back to that
/// value when lowercasing it gives the value's lowercase name (as it does
/// for a value similar to another, whose exact string is its name): its own
/// arm accepts it, and no earlier arm does.
pub proof fn lemma_plain_names_parse_back(vs: Seq<UnitValue>, i: int)
    requires
        forall|k: int| 0 <= k < vs.len() ==> vs[k].rename is None,
        !has_duplicate(exact_strings(vs, None)),
        0 <= i < vs.len(),
        lowercase(exact_string(vs, None, i)) == lower_of(vs[i]),
    ensures
        accepts(arm_of(vs, None, i), true, exact_string(vs, None, i)),
        forall|j: int|
            0 <= j < i ==> !accepts(#[trigger] arm_of(vs, None, j), true, exact_string(vs, None, i)),
{
    let ex = exact_strings(vs, None);
    let keys = similar_keys(vs);
    lemma_plain_keys(vs);
    assert forall|j: int| 0 <= j < i implies !accepts(
        #[trigger] arm_of(vs, None, j),
        true,
        exact_string(vs, None, i),
    ) by {
        assert(ex[j] == exact_string(vs, None, j));
        assert(ex[i] == exact_string(vs, None, i));
        if lower_of(vs[j]) == lower_of(vs[i]) {
            assert(keys[j] == lower_of(vs[j]));
            assert(keys[i] == lower_of(vs[i]));
            lemma_count_two(keys, j, i, lower_of(vs[j]));
        }
    }
}

/// The arm of a value accepts exactly: with a container-wide renaming, the
/// value's exact string, case-sensitively; without one, its own conversion
/// where it has one, else any string whose lowercase is the value's
/// lowercase name, and only its exact name where another value shares that
/// lowercase name.
pub proof fn lemma_arm_accepts(vs: Seq<UnitValue>, container: Option<CaseStyle>, i: int, s: Seq<char>)
    requires
        0 <= i < vs.len(),
    ensures
        accepts(arm_of(vs, container, i), container is None, s) <==> match container {
            Some(_) => s == exact_string(vs, container, i),
            None => match renamed_of(vs[i]) {
                Some(r) => s == r,
                None => lowercase(s) == lower_of(vs[i]) && (is_similar(vs, i) ==> s
                    == vs[i].name@),
            },
        },
{
}

/// The value that the generated `from_str` gives for the input `s`, among
/// the first `n` values: the first whose arm accepts `s`; `None` (the
/// error) where no arm does.
pub open spec fn first_accepting(vs: Seq<UnitValue>, container: Option<CaseStyle>, s: Seq<char>, n: int) -> Option<int>
    decreases n,
{
    if n <= 0 {
        None
    } else {
        match first_accepting(vs, container, s, n - 1) {
            Some(k) => Some(k),
            None => if accepts(arm_of(vs, container, n - 1), container is None, s) {
                Some(n - 1)
            } else {
                None
            },
        }
    }
}

proof fn lemma_first_accepting(vs: Seq<UnitValue>, container: Option<CaseStyle>, s: Seq<char>, n: int)
    requires
        0 <= n,
    ensures
        first_accepting(vs, container, s, n) matches Some(i) ==> 0 <= i < n && accepts(
            arm_of(vs, container, i),
            container is None,
            s,
        ) && forall|j: int|
            0 <= j < i ==> !accepts(#[trigger] arm_of(vs, container, j), container is None, s),
        first_accepting(vs, container, s, n) is None ==> forall|j: int|
            0 <= j < n ==> !accepts(#[trigger] arm_of(vs, container, j), container is None, s),
    decreases n,
{
    if n > 0 {
        lemma_first_accepting(vs, container, s, n - 1);
    }
}

/// Where the exact strings differ, and either the container renames every
/// value or no value is renamed, at most one arm accepts any input.
proof fn lemma_one_arm_accepts(
    vs: Seq<UnitValue>,
    container: Option<CaseStyle>,
    s: Seq<char>,
    i: int,
    j: int,
)
    requires
        !has_duplicate(exact_strings(vs, container)),
        container is Some || forall|k: int| 0 <= k < vs.len() ==> vs[k].rename is None,
        0 <= j < i < vs.len(),
        accepts(arm_of(vs, container, i), container is None, s),
    ensures
        !accepts(arm_of(vs, container, j), container is None, s),
{
    let ex = exact_strings(vs, container);
    assert(ex[i] == exact_string(vs, container, i));
    assert(ex[j] == exact_string(vs, container, j));
    if container is None && accepts(arm_of(vs, container, j), container is None, s) {
        let keys = similar_keys(vs);
        lemma_plain_keys(vs);
        assert(keys[j] == lower_of(vs[j]));
        assert(keys[i] == lower_of(vs[i]));
        lemma_count_two(keys, j, i, lower_of(vs[j]));
    }
}

/// What the generated `from_str` returns for any input `s`, where the plan
/// was made (the exact strings differ): the value of the first arm that
/// accepts `s`, or the error where none does. With a container-wide
/// renaming, or with no renaming at all, the value is the one whose arm
/// accepts `s`: with the renaming, the value whose converted name is `s`
/// (case-sensitively); without any, the value whose lowercase name is the
/// lowercase of `s`, and only by its exact name where another value shares
/// that lowercase name.
pub proof fn lemma_from_str_result(vs: Seq<UnitValue>, container: Option<CaseStyle>, s: Seq<char>)
    requires
        !has_duplicate(exact_strings(vs, container)),
    ensures
        match first_accepting(vs, container, s, vs.len() as int) {
            Some(i) => 0 <= i < vs.len() && accepts(arm_of(vs, container, i), container is None, s)
                && forall|j: int|
                0 <= j < i ==> !accepts(#[trigger] arm_of(vs, container, j), container is None, s),
            None => forall|j: int|
                0 <= j < vs.len() ==> !accepts(
                    #[trigger] arm_of(vs, container, j),
                    container is None,
                    s,
                ),
        },
        (container is Some || (forall|k: int| 0 <= k < vs.len() ==> vs[k].rename is None)) ==> (
        forall|i: int|
            #![trigger vs[i]]
            0 <= i < vs.len() ==> (first_accepting(vs, container, s, vs.len() as int)
                == Some(i) <==> match container {
                Some(_) => s == exact_string(vs, container, i),
                None => lowercase(s) == lower_of(vs[i]) && (is_similar(vs, i) ==> s
                    == vs[i].name@),
            })),
{
    lemma_first_accepting(vs, container, s, vs.len() as int);
    if container is Some || (forall|k: int| 0 <= k < vs.len() ==> vs[k].rename is None) {
        assert forall|i: int| #![trigger vs[i]] 0 <= i < vs.len() implies (first_accepting(
            vs,
            container,
            s,
            vs.len() as int,
        ) == Some(i) <==> match container {
            Some(_) => s == exact_string(vs, container, i),
            None => lowercase(s) == lower_of(vs[i]) && (is_similar(vs, i) ==> s == vs[i].name@),
        }) by {
            lemma_arm_accepts(vs, container, i, s);
            match first_accepting(vs, container, s, vs.len() as int) {
                Some(k) => {
                    if k != i && accepts(arm_of(vs, container, i), container is None, s) {
                        if k < i {
                            lemma_one_arm_accepts(vs, container, s, i, k);
                        }
                    }
                },
                None => {},
            }
        }
    }
}

} // verus!
