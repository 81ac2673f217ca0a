//! The decisions of the `Into` derive: how an `#[into(...)]` attribute reads,
//! how several of them combine, which conversions a struct gets, and the
//! error that points a user of the legacy `types(...)` syntax at the current
//! one.

use vstd::prelude::*;
use vstd::string::*;

use crate::text::{join, joined, text_is, views};
use crate::input::DataKind;

verus! {

/// One entry of an `#[into(...)]` attribute. Types are referred to by
/// indices that the caller gives them.
#[derive(Debug)]
pub enum IntoEntry {
    /// `owned` or `owned(Type, ...)`
    Owned(Vec<usize>),
    /// `ref` or `ref(Type, ...)`
    Ref(Vec<usize>),
    /// `ref_mut` or `ref_mut(Type, ...)`
    RefMut(Vec<usize>),
    /// A bare type, converted into by value.
    Type(usize),
}

/// The `#[into(...)]` attribute of a struct: the target types of the
/// conversions by value, by reference and by mutable reference. `Some` of an
/// empty list asks for the conversion into the tuple of the fields.
#[derive(Debug)]
pub struct StructAttribute {
    pub owned: Option<Vec<usize>>,
    pub by_ref: Option<Vec<usize>>,
    pub by_ref_mut: Option<Vec<usize>>,
}

/// Bare types mixed with `owned`/`ref`/`ref_mut` entries in one attribute:
/// the first bare type.
#[derive(Debug, Clone, Copy, PartialEq, Eq, Structural)]
pub struct MixedTypes(pub usize);

/// The contents of an optional list of types.
pub open spec fn opt_view(o: Option<Vec<usize>>) -> Option<Seq<usize>> {
    match o {
        Some(v) => Some(v@),
        None => None,
    }
}

/// The list, created where absent, with `tys` added at its end.
pub open spec fn add_types(acc: Option<Seq<usize>>, tys: Seq<usize>) -> Option<Seq<usize>> {
    match acc {
        Some(a) => Some(a + tys),
        None => Some(tys),
    }
}

/// The three lists that the entries give, read in order.
pub open spec fn read_entries(es: Seq<IntoEntry>) -> (
    Option<Seq<usize>>,
    Option<Seq<usize>>,
    Option<Seq<usize>>,
)
    decreases es.len(),
{
    if es.len() == 0 {
        (None, None, None)
    } else {
        let (o, r, m) = read_entries(es.drop_last());
        match es.last() {
            IntoEntry::Owned(t) => (add_types(o, t@), r, m),
            IntoEntry::Ref(t) => (o, add_types(r, t@), m),
            IntoEntry::RefMut(t) => (o, r, add_types(m, t@)),
            IntoEntry::Type(t) => (add_types(o, seq![t]), r, m),
        }
    }
}

/// The types that an entry adds to the list of way `way` (`0` by value,
/// `1` by reference, `2` by mutable reference): `owned(...)` and a bare type
/// to the first, `ref(...)` to the second, `ref_mut(...)` to the third.
pub open spec fn entry_types(e: IntoEntry, way: int) -> Option<Seq<usize>> {
    match e {
        IntoEntry::Owned(t) => if way == 0 { Some(t@) } else { None },
        IntoEntry::Type(t) => if way == 0 { Some(seq![t]) } else { None },
        IntoEntry::Ref(t) => if way == 1 { Some(t@) } else { None },
        IntoEntry::RefMut(t) => if way == 2 { Some(t@) } else { None },
    }
}

/// One of the three lists.
pub open spec fn list_of(
    ls: (Option<Seq<usize>>, Option<Seq<usize>>, Option<Seq<usize>>),
    way: int,
) -> Option<Seq<usize>> {
    if way == 0 {
        ls.0
    } else if way == 1 {
        ls.1
    } else {
        ls.2
    }
}

/// Whether an optional list holds `x`.
pub open spec fn in_list(o: Option<Seq<usize>>, x: usize) -> bool {
    o matches Some(l) && l.contains(x)
}

/// Each list of an `#[into(...)]` attribute gathers exactly the entries of
/// its way: it is there exactly where some entry is of that way (`owned(...)`
/// or a bare type for by value, `ref(...)` for by reference, `ref_mut(...)`
/// for by mutable reference), it holds exactly the types those entries name,
/// and the earlier entries' types come first.
pub proof fn lemma_entries_fill_their_lists(es: Seq<IntoEntry>, way: int)
    requires
        0 <= way <= 2,
    ensures
        list_of(read_entries(es), way) is Some <==> exists|k: int|
            0 <= k < es.len() && entry_types(#[trigger] es[k], way) is Some,
        forall|x: usize|
            #[trigger] in_list(list_of(read_entries(es), way), x) <==> exists|k: int|
                0 <= k < es.len() && in_list(entry_types(#[trigger] es[k], way), x),
        forall|m: int|
            0 <= m <= es.len() && #[trigger] list_of(read_entries(es.subrange(0, m)), way) is Some
                ==> (list_of(read_entries(es), way) matches Some(l) && list_of(
                read_entries(es.subrange(0, m)),
                way,
            ).unwrap().len() <= l.len() && l.subrange(
                0,
                list_of(read_entries(es.subrange(0, m)), way).unwrap().len() as int,
            ) == list_of(read_entries(es.subrange(0, m)), way).unwrap()),
    decreases es.len(),
{
    if es.len() > 0 {
        let p = es.drop_last();
        lemma_entries_fill_their_lists(p, way);
        let last = es.last();
        let before = list_of(read_entries(p), way);
        let after = list_of(read_entries(es), way);
        assert(after == match entry_types(last, way) {
            Some(t) => add_types(before, t),
            None => before,
        });
        assert forall|k: int| 0 <= k < p.len() implies p[k] == es[k] by {}
        assert(es[es.len() - 1] == last);
        assert((list_of(read_entries(es), way) is Some) <==> exists|k: int|
            0 <= k < es.len() && entry_types(#[trigger] es[k], way) is Some) by {
            if exists|k: int| 0 <= k < es.len() && entry_types(#[trigger] es[k], way) is Some {
                let k = choose|k: int| 0 <= k < es.len() && entry_types(#[trigger] es[k], way) is Some;
                if k < p.len() {
                    assert(entry_types(p[k], way) is Some);
                }
            }
            if before is Some {
                let k = choose|k: int| 0 <= k < p.len() && entry_types(#[trigger] p[k], way) is Some;
                assert(es[k] == p[k]);
            }
        }
        assert forall|x: usize| #[trigger] in_list(list_of(read_entries(es), way), x) <==> exists|k: int|
            0 <= k < es.len() && in_list(entry_types(#[trigger] es[k], way), x) by {
            let in_before = in_list(before, x);
            assert(in_before <==> exists|k: int|
                0 <= k < p.len() && in_list(entry_types(#[trigger] p[k], way), x));
            if in_list(after, x) {
                let l = after.unwrap();
                let i = choose|i: int| 0 <= i < l.len() && l[i] == x;
                match entry_types(last, way) {
                    Some(t) => {
                        match before {
                            Some(b) => {
                                if i < b.len() {
                                    assert(b[i] == x);
                                    assert(in_before);
                                    let k = choose|k: int|
                                        0 <= k < p.len() && in_list(entry_types(#[trigger] p[k], way), x);
                                    assert(es[k] == p[k]);
                                } else {
                                    assert(t[i - b.len()] == x);
                                    assert(in_list(entry_types(es[es.len() - 1], way), x));
                                }
                            },
                            None => {
                                assert(t[i] == x);
                                assert(in_list(entry_types(es[es.len() - 1], way), x));
                            },
                        }
                    },
                    None => {
                        assert(in_before);
                        let k = choose|k: int|
                            0 <= k < p.len() && in_list(entry_types(#[trigger] p[k], way), x);
                        assert(es[k] == p[k]);
                    },
                }
            }
            if exists|k: int| 0 <= k < es.len() && in_list(entry_types(#[trigger] es[k], way), x) {
                let k = choose|k: int| 0 <= k < es.len() && in_list(entry_types(#[trigger] es[k], way), x);
                if k < p.len() {
                    assert(es[k] == p[k]);
                    assert(in_list(entry_types(p[k], way), x));
                    assert(in_before);
                    let b = before.unwrap();
                    let i = choose|i: int| 0 <= i < b.len() && b[i] == x;
                    match entry_types(last, way) {
                        Some(t) => {
                            assert((b + t)[i] == x);
                        },
                        None => {},
                    }
                } else {
                    let t = entry_types(last, way).unwrap();
                    let i = choose|i: int| 0 <= i < t.len() && t[i] == x;
                    match before {
                        Some(b) => {
                            assert((b + t)[b.len() + i] == x);
                        },
                        None => {},
                    }
                }
            }
        }
        assert forall|m: int|
            0 <= m <= es.len() && #[trigger] list_of(read_entries(es.subrange(0, m)), way) is Some implies (list_of(
            read_entries(es),
            way,
        ) matches Some(l) && list_of(read_entries(es.subrange(0, m)), way).unwrap().len() <= l.len()
            && l.subrange(
            0,
            list_of(read_entries(es.subrange(0, m)), way).unwrap().len() as int,
        ) == list_of(read_entries(es.subrange(0, m)), way).unwrap()) by {
            if m == es.len() {
                assert(es.subrange(0, m) =~= es);
                let l = after.unwrap();
                assert(l.subrange(0, l.len() as int) =~= l);
            } else {
                assert(es.subrange(0, m) =~= p.subrange(0, m));
                let pre = list_of(read_entries(p.subrange(0, m)), way).unwrap();
                let b = before.unwrap();
                assert(b.subrange(0, pre.len() as int) == pre);
                match entry_types(last, way) {
                    Some(t) => {
                        assert((b + t).subrange(0, pre.len() as int) =~= b.subrange(0, pre.len() as int));
                    },
                    None => {},
                }
            }
        }
    }
}

/// The first bare type among the entries.
pub open spec fn first_bare_type(es: Seq<IntoEntry>) -> Option<usize>
    decreases es.len(),
{
    if es.len() == 0 {
        None
    } else {
        match first_bare_type(es.drop_last()) {
            Some(t) => Some(t),
            None => match es.last() {
                IntoEntry::Type(t) => Some(t),
                _ => None,
            },
        }
    }
}

/// Whether some entry is `owned`, `ref` or `ref_mut`.
pub open spec fn has_wrapped(es: Seq<IntoEntry>) -> bool {
    exists|k: int| 0 <= k < es.len() && !(es[k] is Type)
}

/// The attribute as the three lists.
pub open spec fn attr_view(a: StructAttribute) -> (
    Option<Seq<usize>>,
    Option<Seq<usize>>,
    Option<Seq<usize>>,
) {
    (opt_view(a.owned), opt_view(a.by_ref), opt_view(a.by_ref_mut))
}

/// Appends `more` to `v`.
fn push_all(v: &mut Vec<usize>, more: &Vec<usize>)
    ensures
        final(v)@ == old(v)@ + more@,
{
    let ghost before = v@;
    let mut k: usize = 0;
    while k < more.len()
        invariant
            k <= more.len(),
            v@ == before + more@.subrange(0, k as int),
        decreases more.len() - k,
    {
        v.push(more[k]);
        proof {
            assert(before + more@.subrange(0, k + 1) =~= (before + more@.subrange(0, k as int)).push(
                more@[k as int],
            ));
        }
        k = k + 1;
    }
    assert(more@.subrange(0, more@.len() as int) =~= more@);
}

/// The list, created where absent, with `tys` added at its end.
fn add_to(acc: Option<Vec<usize>>, tys: &Vec<usize>) -> (r: Option<Vec<usize>>)
    ensures
        opt_view(r) == add_types(opt_view(acc), tys@),
{
    let mut v = match acc {
        Some(v) => v,
        None => Vec::new(),
    };
    push_all(&mut v, tys);
    Some(v)
}

/// The error for bare types beside wrapped entries, for the first bare
/// type, written as `ty`.
pub open spec fn mixing_message(ty: Seq<char>) -> Seq<char> {
    "mixing regular types with wrapped into `owned`/`ref`/`ref_mut` is not allowed, try wrapping this type into `owned("@
        + ty + "), ref("@ + ty + "), ref_mut("@ + ty + ")`"@
}

impl MixedTypes {
    /// The error message, for the first bare type written as `ty`.
    pub fn message(&self, ty: &str) -> (r: String)
        ensures
            r@ == mixing_message(ty@),
    {
        let mut m = String::from_str(
            "mixing regular types with wrapped into `owned`/`ref`/`ref_mut` is not allowed, try wrapping this type into `owned(",
        );
        m.append(ty);
        m.append("), ref(");
        m.append(ty);
        m.append("), ref_mut(");
        m.append(ty);
        m.append(")`");
        m
    }
}

impl StructAttribute {
    /// Reads the entries of one `#[into(...)]` attribute, in order: bare types
    /// and the types of `owned(...)` go into `owned`, those of `ref(...)` and
    /// `ref_mut(...)` into `by_ref` and `by_ref_mut`. A list is present once an
    /// entry names it. Bare types beside wrapped entries are an error at the
    /// first bare type.
    pub fn parse(entries: &Vec<IntoEntry>) -> (r: Result<StructAttribute, MixedTypes>)
        ensures
            match r {
                Ok(a) => !(first_bare_type(entries@) is Some && has_wrapped(entries@))
                    && attr_view(a) == read_entries(entries@),
                Err(MixedTypes(t)) => has_wrapped(entries@) && first_bare_type(entries@)
                    == Some(t),
            },
    {
        let mut owned: Option<Vec<usize>> = None;
        let mut by_ref: Option<Vec<usize>> = None;
        let mut by_ref_mut: Option<Vec<usize>> = None;
        let mut first: Option<usize> = None;
        let mut wrapped = false;
        let mut i: usize = 0;
        while i < entries.len()
            invariant
                i <= entries.len(),
                (opt_view(owned), opt_view(by_ref), opt_view(by_ref_mut)) == read_entries(
                    entries@.subrange(0, i as int),
                ),
                first == first_bare_type(entries@.subrange(0, i as int)),
                wrapped == has_wrapped(entries@.subrange(0, i as int)),
            decreases entries.len() - i,
        {
            let ghost prefix = entries@.subrange(0, i as int);
            let ghost next = entries@.subrange(0, i + 1);
            assert(next.drop_last() =~= prefix);
            match &entries[i] {
                IntoEntry::Owned(t) => {
                    owned = add_to(owned, t);
                    wrapped = true;
                    assert(!(next[i as int] is Type));
                },
                IntoEntry::Ref(t) => {
                    by_ref = add_to(by_ref, t);
                    wrapped = true;
                    assert(!(next[i as int] is Type));
                },
                IntoEntry::RefMut(t) => {
                    by_ref_mut = add_to(by_ref_mut, t);
                    wrapped = true;
                    assert(!(next[i as int] is Type));
                },
                IntoEntry::Type(t) => {
                    let one = vec![*t];
                    assert(one@ =~= seq![*t]);
                    owned = add_to(owned, &one);
                    if first.is_none() {
                        first = Some(*t);
                    }
                    proof {
                        if has_wrapped(next) {
                            let k = choose|k: int| 0 <= k < next.len() && !(next[k] is Type);
                            assert(k < i);
                            assert(prefix[k] == next[k]);
                        }
                    }
                },
            }
            proof {
                if has_wrapped(prefix) {
                    let k = choose|k: int| 0 <= k < prefix.len() && !(prefix[k] is Type);
                    assert(next[k] == prefix[k]);
                }
            }
            i = i + 1;
        }
        assert(entries@.subrange(0, entries@.len() as int) =~= entries@);
        if wrapped {
            if let Some(t) = first {
                return Err(MixedTypes(t));
            }
        }
        Ok(StructAttribute { owned, by_ref, by_ref_mut })
    }
}

/// The later list added to the earlier: absent lists change nothing.
pub open spec fn merged(prev: Option<Seq<usize>>, new: Option<Seq<usize>>) -> Option<Seq<usize>> {
    match new {
        None => prev,
        Some(t) => add_types(prev, t),
    }
}

impl StructAttribute {
    /// Combines two `#[into(...)]` attributes of one struct: each list of the
    /// later one is added at the end of the earlier one's.
    pub fn merge_attrs(self, new: StructAttribute) -> (r: StructAttribute)
        ensures
            opt_view(r.owned) == merged(opt_view(self.owned), opt_view(new.owned)),
            opt_view(r.by_ref) == merged(opt_view(self.by_ref), opt_view(new.by_ref)),
            opt_view(r.by_ref_mut) == merged(opt_view(self.by_ref_mut), opt_view(new.by_ref_mut)),
    {
        StructAttribute {
            owned: merge_list(self.owned, new.owned),
            by_ref: merge_list(self.by_ref, new.by_ref),
            by_ref_mut: merge_list(self.by_ref_mut, new.by_ref_mut),
        }
    }
}

/// The later list added to the earlier one.
fn merge_list(prev: Option<Vec<usize>>, new: Option<Vec<usize>>) -> (r: Option<Vec<usize>>)
    ensures
        opt_view(r) == merged(opt_view(prev), opt_view(new)),
{
    match new {
        None => prev,
        Some(t) => add_to(prev, &t),
    }
}

/// What a conversion converts into.
#[derive(Debug, Clone, Copy, PartialEq, Eq, Structural)]
pub enum IntoTarget {
    /// The tuple of the struct's fields that are not skipped.
    Fields,
    /// The type with this index.
    Type(usize),
}

/// One `From` implementation that the derive writes: from the struct, taken
/// by value, by reference or by mutable reference, into the target.
#[derive(Debug, Clone, Copy, PartialEq, Eq, Structural)]
pub struct IntoImpl {
    pub by_ref: bool,
    pub by_mut: bool,
    pub target: IntoTarget,
}

/// Why the derive refuses its input.
#[derive(Debug, Clone, Copy, PartialEq, Eq, Structural)]
pub enum IntoError {
    /// `Into` cannot be derived for enums.
    Enum,
    /// `Into` cannot be derived for unions.
    Union,
}

/// The implementations that one list asks for: none without the list, one
/// into the tuple of the fields for an empty list, else one for each type.
pub open spec fn impls_for(tys: Option<Seq<usize>>, by_ref: bool, by_mut: bool) -> Seq<IntoImpl> {
    match tys {
        None => Seq::empty(),
        Some(t) => if t.len() == 0 {
            seq![IntoImpl { by_ref, by_mut, target: IntoTarget::Fields }]
        } else {
            t.map_values(|ty: usize| IntoImpl { by_ref, by_mut, target: IntoTarget::Type(ty) })
        },
    }
}

/// Each list of an `#[into(...)]` attribute plans conversions by the list's
/// own way of taking the struct, and no other: every implementation planned
/// from a list with `(by_ref, by_mut)` carries exactly that `by_ref` and
/// `by_mut`, whether the list is empty or names types. An empty list plans
/// one conversion into the tuple of the fields; a list of types, one into
/// each type, in order; no list, none.
pub proof fn lemma_impls_keep_their_list(tys: Option<Seq<usize>>, by_ref: bool, by_mut: bool)
    ensures
        forall|k: int|
            0 <= k < impls_for(tys, by_ref, by_mut).len() ==> (#[trigger] impls_for(
                tys,
                by_ref,
                by_mut,
            )[k]).by_ref == by_ref && impls_for(tys, by_ref, by_mut)[k].by_mut == by_mut,
        match tys {
            None => impls_for(tys, by_ref, by_mut).len() == 0,
            Some(t) => if t.len() == 0 {
                impls_for(tys, by_ref, by_mut).len() == 1 && impls_for(tys, by_ref, by_mut)[0].target
                    == IntoTarget::Fields
            } else {
                impls_for(tys, by_ref, by_mut).len() == t.len() && forall|k: int|
                    0 <= k < t.len() ==> (#[trigger] impls_for(tys, by_ref, by_mut)[k]).target
                        == IntoTarget::Type(t[k])
            },
        },
{
}

/// The conversions of a whole attribute: by value from the `owned` list,
/// then by reference from `ref`, then by mutable reference from `ref_mut`.
/// A conversion is by mutable reference exactly where it comes from
/// `ref_mut`, and every conversion by mutable reference is also by
/// reference.
pub proof fn lemma_planned_ways(a: (Option<Seq<usize>>, Option<Seq<usize>>, Option<Seq<usize>>))
    ensures
        ({
            let p = planned_impls(a);
            let n0 = impls_for(a.0, false, false).len();
            let n1 = impls_for(a.1, true, false).len();
            &&& forall|k: int| 0 <= k < p.len() ==> ((#[trigger] p[k]).by_ref <==> k >= n0)
            &&& forall|k: int| 0 <= k < p.len() ==> ((#[trigger] p[k]).by_mut <==> k >= n0 + n1)
        }),
{
    lemma_impls_keep_their_list(a.0, false, false);
    lemma_impls_keep_their_list(a.1, true, false);
    lemma_impls_keep_their_list(a.2, true, true);
    let x = impls_for(a.0, false, false);
    let y = impls_for(a.1, true, false);
    let z = impls_for(a.2, true, true);
    let p = planned_impls(a);
    assert forall|k: int| 0 <= k < p.len() implies ((#[trigger] p[k]).by_ref <==> k >= x.len())
        && (p[k].by_mut <==> k >= x.len() + y.len()) by {
        if k < x.len() {
            assert(p[k] == x[k]);
        } else if k < x.len() + y.len() {
            assert(p[k] == y[k - x.len()]);
        } else {
            assert(p[k] == z[k - x.len() - y.len()]);
        }
    }
}

/// The implementations for an attribute: by value, then by reference, then
/// by mutable reference.
pub open spec fn planned_impls(a: (Option<Seq<usize>>, Option<Seq<usize>>, Option<Seq<usize>>)) -> Seq<IntoImpl> {
    impls_for(a.0, false, false) + impls_for(a.1, true, false) + impls_for(a.2, true, true)
}

/// Appends the implementations that one list asks for.
fn push_impls(out: &mut Vec<IntoImpl>, tys: &Option<Vec<usize>>, by_ref: bool, by_mut: bool)
    ensures
        final(out)@ == old(out)@ + impls_for(opt_view(*tys), by_ref, by_mut),
{
    match tys {
        None => {
            assert(old(out)@ + Seq::<IntoImpl>::empty() =~= old(out)@);
        },
        Some(t) => {
            if t.len() == 0 {
                out.push(IntoImpl { by_ref, by_mut, target: IntoTarget::Fields });
                assert(old(out)@.push(IntoImpl { by_ref, by_mut, target: IntoTarget::Fields })
                    =~= old(out)@ + seq![IntoImpl { by_ref, by_mut, target: IntoTarget::Fields }]);
            } else {
                let ghost before = out@;
                let ghost all = t@.map_values(
                    |ty: usize| IntoImpl { by_ref, by_mut, target: IntoTarget::Type(ty) },
                );
                let mut k: usize = 0;
                while k < t.len()
                    invariant
                        k <= t.len(),
                        all == t@.map_values(
                            |ty: usize| IntoImpl { by_ref, by_mut, target: IntoTarget::Type(ty) },
                        ),
                        out@ == before + all.subrange(0, k as int),
                    decreases t.len() - k,
                {
                    out.push(IntoImpl { by_ref, by_mut, target: IntoTarget::Type(t[k]) });
                    proof {
                        assert(before + all.subrange(0, k + 1) =~= (before + all.subrange(
                            0,
                            k as int,
                        )).push(all[k as int]));
                    }
                    k = k + 1;
                }
                assert(all.subrange(0, all.len() as int) =~= all);
            }
        },
    }
}

/// The fields among the first `n` that are not skipped (`skipped[i]` tells
/// whether field `i` carries `#[into(skip)]`), by index, in order.
pub open spec fn kept_fields(skipped: Seq<bool>, n: int) -> Seq<usize>
    decreases n,
{
    if n <= 0 {
        Seq::empty()
    } else if skipped[n - 1] {
        kept_fields(skipped, n - 1)
    } else {
        kept_fields(skipped, n - 1).push((n - 1) as usize)
    }
}

proof fn lemma_kept_fields(skipped: Seq<bool>, n: int)
    requires
        0 <= n <= skipped.len(),
        skipped.len() <= usize::MAX,
    ensures
        forall|i: int|
            0 <= i < kept_fields(skipped, n).len() ==> #[trigger] kept_fields(skipped, n)[i] < n
                && !skipped[kept_fields(skipped, n)[i] as int],
        forall|i: int, j: int|
            0 <= i < j < kept_fields(skipped, n).len() ==> #[trigger] kept_fields(skipped, n)[i]
                < #[trigger] kept_fields(skipped, n)[j],
        forall|f: int| 0 <= f < n && !skipped[f] ==> kept_fields(skipped, n).contains(f as usize),
    decreases n,
{
    if n > 0 {
        lemma_kept_fields(skipped, n - 1);
        let prev = kept_fields(skipped, n - 1);
        if !skipped[n - 1] {
            let cur = kept_fields(skipped, n);
            assert(cur == prev.push((n - 1) as usize));
            assert forall|i: int, j: int| 0 <= i < j < cur.len() implies #[trigger] cur[i]
                < #[trigger] cur[j] by {
                if j == cur.len() - 1 {
                    assert(cur[i] == prev[i]);
                } else {
                    assert(cur[i] == prev[i] && cur[j] == prev[j]);
                }
            }
            assert forall|f: int| 0 <= f < n && !skipped[f] implies kept_fields(skipped, n).contains(
                f as usize,
            ) by {
                if f < n - 1 {
                    let k = choose|k: int| 0 <= k < prev.len() && prev[k] == f as usize;
                    assert(kept_fields(skipped, n)[k] == f as usize);
                } else {
                    assert(kept_fields(skipped, n)[prev.len() as int] == f as usize);
                }
            }
        }
    }
}

/// What `#[derive(Into)]` writes for a struct: the `From` implementations,
/// and the fields (by index) that form the tuple they convert into.
#[derive(Debug)]
pub struct IntoPlan {
    pub impls: Vec<IntoImpl>,
    pub fields: Vec<usize>,
}

/// Plans `#[derive(Into)]` for a type of the given kind with the given
/// attribute and fields (`skipped[i]` tells whether field `i` carries
/// `#[into(skip)]`). A struct without an attribute converts into the tuple of
/// its fields; every conversion leaves the skipped fields out, keeping the
/// others in order.
pub fn expand(kind: DataKind, attr: Option<StructAttribute>, skipped: &Vec<bool>) -> (r: Result<
    IntoPlan,
    IntoError,
>)
    ensures
        match kind {
            DataKind::Enum => r matches Err(e) && e == IntoError::Enum,
            DataKind::Union => r matches Err(e) && e == IntoError::Union,
            DataKind::Struct => r matches Ok(p) && p.impls@ == planned_impls(
                match attr {
                    Some(a) => attr_view(a),
                    None => (Some(Seq::empty()), None, None),
                },
            ) && p.fields@ == kept_fields(skipped@, skipped@.len() as int),
        },
        r matches Ok(p) ==> {
            &&& forall|i: int|
                0 <= i < p.fields@.len() ==> #[trigger] p.fields@[i] < skipped@.len()
                    && !skipped@[p.fields@[i] as int]
            &&& forall|i: int, j: int|
                0 <= i < j < p.fields@.len() ==> #[trigger] p.fields@[i] < #[trigger] p.fields@[j]
            &&& forall|f: int|
                0 <= f < skipped@.len() && !skipped@[f] ==> p.fields@.contains(f as usize)
        },
{
    match kind {
        DataKind::Enum => {
            return Err(IntoError::Enum);
        },
        DataKind::Union => {
            return Err(IntoError::Union);
        },
        DataKind::Struct => {},
    }
    let attr = match attr {
        Some(a) => a,
        None => StructAttribute { owned: Some(Vec::new()), by_ref: None, by_ref_mut: None },
    };
    let mut out: Vec<IntoImpl> = Vec::new();
    push_impls(&mut out, &attr.owned, false, false);
    push_impls(&mut out, &attr.by_ref, true, false);
    push_impls(&mut out, &attr.by_ref_mut, true, true);
    assert(out@ =~= planned_impls(attr_view(attr)));
    let mut fields: Vec<usize> = Vec::new();
    let mut i: usize = 0;
    while i < skipped.len()
        invariant
            i <= skipped.len(),
            fields@ == kept_fields(skipped@, i as int),
        decreases skipped.len() - i,
    {
        if !skipped[i] {
            fields.push(i);
        }
        i = i + 1;
    }
    proof {
        lemma_kept_fields(skipped@, skipped@.len() as int);
    }
    Ok(IntoPlan { impls: out, fields })
}

/// An item of an attribute's arguments, as the legacy syntax check reads it.
#[derive(Debug)]
pub enum MetaItem {
    /// A string literal, by its value.
    Str(String),
    /// A path, by its text.
    Path(String),
    /// A path with parenthesized arguments; `None` where the arguments do not
    /// read as a comma-separated list of items.
    List(String, Option<Vec<MetaItem>>),
    /// Any other literal or item.
    Other,
}

/// The text lists that the legacy syntax check collects: the top-level
/// `types(...)`, then those under `owned`, `ref` and `ref_mut`.
pub type LegacyLists = (
    Option<Seq<Seq<char>>>,
    Option<Seq<Seq<char>>>,
    Option<Seq<Seq<char>>>,
    Option<Seq<Seq<char>>>,
);

/// The contents of an optional list of texts.
pub open spec fn opt_texts(o: Option<Vec<String>>) -> Option<Seq<Seq<char>>> {
    match o {
        Some(v) => Some(views(v@)),
        None => None,
    }
}

/// The text that a `types(...)` argument stands for.
pub open spec fn item_text(a: MetaItem) -> Seq<char> {
    match a {
        MetaItem::Str(s) => s@,
        MetaItem::Path(p) => p@,
        _ => Seq::empty(),
    }
}

/// The texts of a `types(...)` list whose arguments are all string
/// literals or paths; `None` for anything else.
pub open spec fn types_list(item: MetaItem) -> Option<Seq<Seq<char>>> {
    match item {
        MetaItem::List(p, Some(args)) => if p@ == "types"@ && (forall|k: int|
            0 <= k < args@.len() ==> (args@[k] is Str || args@[k] is Path)) {
            Some(args@.map_values(|a: MetaItem| item_text(a)))
        } else {
            None
        },
        _ => None,
    }
}

/// The list with `texts` added; nothing changes for no texts.
pub open spec fn extend_texts(acc: Option<Seq<Seq<char>>>, texts: Seq<Seq<char>>) -> Option<Seq<Seq<char>>> {
    if texts.len() == 0 {
        acc
    } else {
        match acc {
            Some(a) => Some(a + texts),
            None => Some(texts),
        }
    }
}

/// Whether the item is the path `name`, bare or with arguments.
pub open spec fn is_named(meta: MetaItem, name: Seq<char>) -> bool {
    match meta {
        MetaItem::Path(p) => p@ == name,
        MetaItem::List(p, _) => p@ == name,
        _ => false,
    }
}

/// What an `owned`, `ref` or `ref_mut` item makes of its list: a bare one
/// makes it present, one with arguments takes the `types(...)` list that ends
/// them; `None` where it is anything else.
pub open spec fn wrapped_list(meta: MetaItem, acc: Option<Seq<Seq<char>>>) -> Option<Option<Seq<Seq<char>>>> {
    match meta {
        MetaItem::Path(_) => Some(Some(
            match acc {
                Some(a) => a,
                None => Seq::empty(),
            },
        )),
        MetaItem::List(_, Some(args)) => if args@.len() == 0 {
            None
        } else {
            match types_list(args@.last()) {
                Some(texts) => Some(extend_texts(acc, texts)),
                None => None,
            }
        },
        _ => None,
    }
}

/// The lists after reading one more item; `None` once an item is not of the
/// legacy syntax.
pub open spec fn legacy_step(st: Option<LegacyLists>, meta: MetaItem) -> Option<LegacyLists> {
    match st {
        None => None,
        Some((top, owned, by_ref, by_ref_mut)) => if is_named(meta, "owned"@) {
            match wrapped_list(meta, owned) {
                Some(l) => Some((top, l, by_ref, by_ref_mut)),
                None => None,
            }
        } else if is_named(meta, "ref"@) {
            match wrapped_list(meta, by_ref) {
                Some(l) => Some((top, owned, l, by_ref_mut)),
                None => None,
            }
        } else if is_named(meta, "ref_mut"@) {
            match wrapped_list(meta, by_ref_mut) {
                Some(l) => Some((top, owned, by_ref, l)),
                None => None,
            }
        } else {
            match types_list(meta) {
                Some(texts) => Some((extend_texts(top, texts), owned, by_ref, by_ref_mut)),
                None => None,
            }
        },
    }
}

/// The lists after reading the first `n` items.
pub open spec fn legacy_lists(metas: Seq<MetaItem>, n: int) -> Option<LegacyLists>
    decreases n,
{
    if n <= 0 {
        Some((None, None, None, None))
    } else {
        legacy_step(legacy_lists(metas, n - 1), metas[n - 1])
    }
}

/// Whether the list is present and not empty.
pub open spec fn filled(l: Option<Seq<Seq<char>>>) -> bool {
    l matches Some(v) && v.len() > 0
}

/// A type as it stands for all the fields: repeated in a tuple, one for each
/// field, where there are several.
pub open spec fn for_all_fields(ty: Seq<char>, n: nat) -> Seq<char> {
    if n > 1 {
        "("@ + joined(Seq::new(n, |_i: int| ty), ", "@) + ")"@
    } else {
        ty
    }
}

/// The type of the fields: none, the one field's type, or the tuple of them.
pub open spec fn fields_type(fields: Seq<Seq<char>>) -> Seq<Seq<char>> {
    if fields.len() == 0 {
        Seq::empty()
    } else if fields.len() == 1 {
        seq![fields[0]]
    } else {
        seq!["("@ + joined(fields, ", "@) + ")"@]
    }
}

/// The current syntax for one of `owned`, `ref` and `ref_mut`.
pub open spec fn wrapped_syntax(
    list: Option<Seq<Seq<char>>>,
    name: Seq<char>,
    top: Option<Seq<Seq<char>>>,
    fields: Seq<Seq<char>>,
) -> Seq<Seq<char>> {
    match list {
        None => Seq::empty(),
        Some(l) => {
            let top_texts = match top {
                Some(t) => t,
                None => Seq::empty(),
            };
            if top_texts.len() == 0 && l.len() == 0 {
                seq![name]
            } else {
                seq![
                    name + "("@ + joined(
                        (l + top_texts).map_values(|t: Seq<char>| for_all_fields(t, fields.len()))
                            + fields_type(fields),
                        ", "@,
                    ) + ")"@,
                ]
            }
        },
    }
}

/// The error that the legacy syntax check gives for the attribute's items
/// (`None` where they do not read as items) on a struct with fields of the
/// given types; `None` where it gives none.
pub open spec fn legacy_error(metas: Option<Seq<MetaItem>>, fields: Seq<Seq<char>>) -> Option<Seq<char>> {
    match metas {
        None => None,
        Some(ms) => match legacy_lists(ms, ms.len() as int) {
            None => None,
            Some((top, owned, by_ref, by_ref_mut)) => if !(filled(top) || filled(owned) || filled(
                by_ref,
            ) || filled(by_ref_mut)) {
                None
            } else if owned is Some || by_ref is Some || by_ref_mut is Some {
                Some(
                    "legacy syntax, use `"@ + joined(
                        wrapped_syntax(owned, "owned"@, top, fields) + wrapped_syntax(
                            by_ref,
                            "ref"@,
                            top,
                            fields,
                        ) + wrapped_syntax(by_ref_mut, "ref_mut"@, top, fields),
                        ", "@,
                    ) + "` instead"@,
                )
            } else {
                Some(
                    "legacy syntax, remove `types` and use `"@ + joined(
                        match top {
                            Some(t) => t,
                            None => Seq::empty(),
                        },
                        ", "@,
                    ) + "` instead"@,
                )
            },
        },
    }
}

/// The items of the arguments, where they read as items.
pub open spec fn opt_metas(metas: Option<Vec<MetaItem>>) -> Option<Seq<MetaItem>> {
    match metas {
        Some(v) => Some(v@),
        None => None,
    }
}

/// Appends copies of `more` to `v`.
fn push_texts(v: &mut Vec<String>, more: &Vec<String>)
    ensures
        views(final(v)@) == views(old(v)@) + views(more@),
{
    let ghost before = views(v@);
    let mut k: usize = 0;
    while k < more.len()
        invariant
            k <= more.len(),
            views(v@) == before + views(more@.subrange(0, k as int)),
        decreases more.len() - k,
    {
        let ghost prev = v@;
        v.push(more[k].clone());
        proof {
            assert(views(v@) =~= views(prev).push(more@[k as int]@));
            assert(views(more@.subrange(0, k + 1)) =~= views(more@.subrange(0, k as int)).push(
                more@[k as int]@,
            ));
        }
        k = k + 1;
    }
    assert(more@.subrange(0, more@.len() as int) =~= more@);
}

/// The texts of a `types(...)` list of string literals and paths.
#[verifier::loop_isolation(false)]
fn types_list_of(item: &MetaItem) -> (r: Option<Vec<String>>)
    ensures
        opt_texts(r) == types_list(*item),
{
    match item {
        MetaItem::List(p, Some(args)) => {
            if !text_is(p, "types") {
                return None;
            }
            let mut out: Vec<String> = Vec::new();
            let mut k: usize = 0;
            while k < args.len()
                invariant
                    k <= args.len(),
                    forall|j: int| 0 <= j < k ==> (args@[j] is Str || args@[j] is Path),
                    views(out@) == args@.subrange(0, k as int).map_values(
                        |a: MetaItem| item_text(a),
                    ),
                decreases args.len() - k,
            {
                let ghost prev = out@;
                match &args[k] {
                    MetaItem::Str(s) => out.push(s.clone()),
                    MetaItem::Path(q) => out.push(q.clone()),
                    _ => {
                        assert(!(args@[k as int] is Str || args@[k as int] is Path));
                        return None;
                    },
                }
                proof {
                    assert(views(out@) =~= views(prev).push(item_text(args@[k as int])));
                    assert(args@.subrange(0, k + 1).map_values(|a: MetaItem| item_text(a))
                        =~= args@.subrange(0, k as int).map_values(|a: MetaItem| item_text(a)).push(
                        item_text(args@[k as int]),
                    ));
                }
                k = k + 1;
            }
            assert(args@.subrange(0, args@.len() as int) =~= args@);
            Some(out)
        },
        _ => None,
    }
}

/// The list with `texts` added; nothing changes for no texts.
fn extend_texts_of(acc: Option<Vec<String>>, texts: &Vec<String>) -> (r: Option<Vec<String>>)
    ensures
        opt_texts(r) == extend_texts(opt_texts(acc), views(texts@)),
{
    if texts.len() == 0 {
        return acc;
    }
    let mut v = match acc {
        Some(v) => v,
        None => Vec::new(),
    };
    let ghost before = v@;
    push_texts(&mut v, texts);
    proof {
        if before.len() == 0 {
            assert(views(before) =~= Seq::<Seq<char>>::empty());
            assert(views(v@) =~= views(texts@));
        }
    }
    Some(v)
}

/// Whether the item is the path `name`, bare or with arguments.
fn is_named_item(meta: &MetaItem, name: &str) -> (r: bool)
    ensures
        r == is_named(*meta, name@),
{
    match meta {
        MetaItem::Path(p) => text_is(p, name),
        MetaItem::List(p, _) => text_is(p, name),
        _ => false,
    }
}

/// What an `owned`, `ref` or `ref_mut` item makes of its list.
fn wrapped_list_of(meta: &MetaItem, acc: Option<Vec<String>>) -> (r: Option<Option<Vec<String>>>)
    ensures
        match r {
            None => wrapped_list(*meta, opt_texts(acc)) is None,
            Some(l) => wrapped_list(*meta, opt_texts(acc)) == Some(opt_texts(l)),
        },
{
    match meta {
        MetaItem::Path(_) => {
            let v = match acc {
                Some(v) => v,
                None => Vec::new(),
            };
            proof {
                if opt_texts(acc) is None {
                    assert(views(v@) =~= Seq::<Seq<char>>::empty());
                }
            }
            Some(Some(v))
        },
        MetaItem::List(_, Some(args)) => {
            if args.len() == 0 {
                return None;
            }
            match types_list_of(&args[args.len() - 1]) {
                Some(texts) => Some(extend_texts_of(acc, &texts)),
                None => None,
            }
        },
        _ => None,
    }
}

/// Once an item is not of the legacy syntax, the lists stay absent.
proof fn lemma_lists_stay_absent(metas: Seq<MetaItem>, i: int, n: int)
    requires
        0 <= i <= n,
        legacy_lists(metas, i) is None,
    ensures
        legacy_lists(metas, n) is None,
    decreases n - i,
{
    if i < n {
        lemma_lists_stay_absent(metas, i + 1, n);
    }
}

/// A type as it stands for all `n` fields.
fn for_all_fields_of(ty: &String, n: usize) -> (r: String)
    ensures
        r@ == for_all_fields(ty@, n as nat),
{
    if n <= 1 {
        return ty.clone();
    }
    let mut reps: Vec<String> = Vec::new();
    let mut k: usize = 0;
    while k < n
        invariant
            k <= n,
            views(reps@) =~= Seq::new(k as nat, |_i: int| ty@),
        decreases n - k,
    {
        let ghost prev = reps@;
        reps.push(ty.clone());
        proof {
            assert(views(reps@) =~= views(prev).push(ty@));
        }
        k = k + 1;
    }
    let mut out = String::from_str("(");
    out.append(join(&reps, ", ").as_str());
    out.append(")");
    out
}

/// The type of the fields: none, the one field's type, or their tuple.
fn fields_type_of(fields: &Vec<String>) -> (r: Vec<String>)
    ensures
        views(r@) == fields_type(views(fields@)),
{
    let mut out: Vec<String> = Vec::new();
    if fields.len() == 1 {
        out.push(fields[0].clone());
        assert(views(out@) =~= seq![fields@[0]@]);
    } else if fields.len() > 1 {
        let mut t = String::from_str("(");
        t.append(join(fields, ", ").as_str());
        t.append(")");
        out.push(t);
        assert(views(out@) =~= seq![t@]);
    } else {
        assert(views(out@) =~= Seq::<Seq<char>>::empty());
    }
    out
}

/// The current syntax for one of `owned`, `ref` and `ref_mut`.
fn wrapped_syntax_of(
    list: &Option<Vec<String>>,
    name: &str,
    top: &Option<Vec<String>>,
    fields: &Vec<String>,
) -> (r: Vec<String>)
    ensures
        views(r@) == wrapped_syntax(opt_texts(*list), name@, opt_texts(*top), views(fields@)),
{
    let mut out: Vec<String> = Vec::new();
    let l = match list {
        None => {
            assert(views(out@) =~= Seq::<Seq<char>>::empty());
            return out;
        },
        Some(l) => l,
    };
    let mut all: Vec<String> = Vec::new();
    push_texts(&mut all, l);
    let top_len: usize = match top {
        Some(t) => {
            push_texts(&mut all, t);
            t.len()
        },
        None => 0,
    };
    let ghost top_texts = match opt_texts(*top) {
        Some(t) => t,
        None => Seq::<Seq<char>>::empty(),
    };
    assert(views(all@) =~= views(l@) + top_texts);
    if top_len == 0 && l.len() == 0 {
        out.push(String::from_str(name));
        assert(views(out@) =~= seq![name@]);
        return out;
    }
    let n = fields.len();
    let mut parts: Vec<String> = Vec::new();
    let mut k: usize = 0;
    while k < all.len()
        invariant
            k <= all.len(),
            n == fields.len(),
            views(parts@) == views(all@).subrange(0, k as int).map_values(
                |t: Seq<char>| for_all_fields(t, n as nat),
            ),
        decreases all.len() - k,
    {
        let ghost prev = parts@;
        parts.push(for_all_fields_of(&all[k], n));
        proof {
            assert(views(parts@) =~= views(prev).push(for_all_fields(all@[k as int]@, n as nat)));
            assert(views(all@).subrange(0, k + 1).map_values(
                |t: Seq<char>| for_all_fields(t, n as nat),
            ) =~= views(all@).subrange(0, k as int).map_values(
                |t: Seq<char>| for_all_fields(t, n as nat),
            ).push(for_all_fields(views(all@)[k as int], n as nat)));
        }
        k = k + 1;
    }
    assert(views(all@).subrange(0, all@.len() as int) =~= views(all@));
    let tail = fields_type_of(fields);
    push_texts(&mut parts, &tail);
    let mut t = String::from_str(name);
    t.append("(");
    t.append(join(&parts, ", ").as_str());
    t.append(")");
    out.push(t);
    assert(views(out@) =~= seq![t@]);
    out
}

/// Checks an `#[into(...)]` attribute for the legacy syntax
/// (`#[into(types(i32, "&str"))]`, also under `owned`, `ref` and `ref_mut`)
/// and gives the error that shows the current syntax for it. `metas` holds the
/// attribute's items, or `None` where its arguments do not read as items;
/// `field_types` holds the texts of the struct's field types.
pub fn check_legacy_syntax(metas: &Option<Vec<MetaItem>>, field_types: &Vec<String>) -> (r: Result<
    (),
    String,
>)
    ensures
        match r {
            Ok(_) => legacy_error(opt_metas(*metas), views(field_types@)) is None,
            Err(m) => legacy_error(opt_metas(*metas), views(field_types@)) == Some(m@),
        },
{
    let ms = match metas {
        None => {
            return Ok(());
        },
        Some(ms) => ms,
    };
    let mut top: Option<Vec<String>> = None;
    let mut owned: Option<Vec<String>> = None;
    let mut by_ref: Option<Vec<String>> = None;
    let mut by_ref_mut: Option<Vec<String>> = None;
    let mut i: usize = 0;
    while i < ms.len()
        invariant
            i <= ms.len(),
            opt_metas(*metas) == Some(ms@),
            legacy_lists(ms@, i as int) == Some(
                (opt_texts(top), opt_texts(owned), opt_texts(by_ref), opt_texts(by_ref_mut)),
            ),
        decreases ms.len() - i,
    {
        let meta = &ms[i];
        if is_named_item(meta, "owned") {
            match wrapped_list_of(meta, owned) {
                Some(l) => {
                    owned = l;
                },
                None => {
                    proof {
                        lemma_lists_stay_absent(ms@, i + 1, ms@.len() as int);
                    }
                    return Ok(());
                },
            }
        } else if is_named_item(meta, "ref") {
            match wrapped_list_of(meta, by_ref) {
                Some(l) => {
                    by_ref = l;
                },
                None => {
                    proof {
                        lemma_lists_stay_absent(ms@, i + 1, ms@.len() as int);
                    }
                    return Ok(());
                },
            }
        } else if is_named_item(meta, "ref_mut") {
            match wrapped_list_of(meta, by_ref_mut) {
                Some(l) => {
                    by_ref_mut = l;
                },
                None => {
                    proof {
                        lemma_lists_stay_absent(ms@, i + 1, ms@.len() as int);
                    }
                    return Ok(());
                },
            }
        } else {
            match types_list_of(meta) {
                Some(texts) => {
                    top = extend_texts_of(top, &texts);
                },
                None => {
                    proof {
                        lemma_lists_stay_absent(ms@, i + 1, ms@.len() as int);
                    }
                    return Ok(());
                },
            }
        }
        i = i + 1;
    }
    let any_filled = filled_list(&top) || filled_list(&owned) || filled_list(&by_ref)
        || filled_list(&by_ref_mut);
    if !any_filled {
        return Ok(());
    }
    if owned.is_some() || by_ref.is_some() || by_ref_mut.is_some() {
        let mut formats: Vec<String> = Vec::new();
        let a = wrapped_syntax_of(&owned, "owned", &top, field_types);
        let b = wrapped_syntax_of(&by_ref, "ref", &top, field_types);
        let c = wrapped_syntax_of(&by_ref_mut, "ref_mut", &top, field_types);
        push_texts(&mut formats, &a);
        push_texts(&mut formats, &b);
        push_texts(&mut formats, &c);
        assert(views(formats@) =~= views(a@) + views(b@) + views(c@));
        let mut m = String::from_str("legacy syntax, use `");
        m.append(join(&formats, ", ").as_str());
        m.append("` instead");
        Err(m)
    } else {
        let mut m = String::from_str("legacy syntax, remove `types` and use `");
        match &top {
            Some(t) => m.append(join(t, ", ").as_str()),
            None => {},
        }
        m.append("` instead");
        Err(m)
    }
}

/// Whether the list is present and not empty.
fn filled_list(l: &Option<Vec<String>>) -> (r: bool)
    ensures
        r == filled(opt_texts(*l)),
{
    match l {
        Some(v) => v.len() > 0,
        None => false,
    }
}

/// Whether an item holds a `types(...)` list with something in it: itself,
/// or as the last of its arguments.
pub open spec fn has_filled_types(m: MetaItem) -> bool {
    ||| (types_list(m) matches Some(t) && t.len() > 0)
    ||| (m matches MetaItem::List(_, Some(args)) && args@.len() > 0 && (types_list(args@.last())
        matches Some(t) && t.len() > 0))
}

/// Reading items none of which holds a filled `types(...)` list leaves every
/// list unfilled.
proof fn lemma_lists_unfilled(ms: Seq<MetaItem>, n: int)
    requires
        0 <= n <= ms.len(),
        forall|i: int| 0 <= i < ms.len() ==> !has_filled_types(#[trigger] ms[i]),
    ensures
        legacy_lists(ms, n) matches Some((a, b, c, d)) ==> !filled(a) && !filled(b) && !filled(c)
            && !filled(d),
    decreases n,
{
    if n > 0 {
        lemma_lists_unfilled(ms, n - 1);
        assert(!has_filled_types(ms[n - 1]));
    }
}

/// The legacy syntax check passes on the current syntax: where no item holds
/// a `types(...)` list with a type in it (at the top level or as the last
/// argument of `owned`, `ref` or `ref_mut`), or where the tokens do not read
/// as items, there is no error.
pub proof fn lemma_current_syntax_passes(metas: Option<Seq<MetaItem>>, fields: Seq<Seq<char>>)
    requires
        metas matches Some(ms) ==> forall|i: int| 0 <= i < ms.len() ==> !has_filled_types(#[trigger] ms[i]),
    ensures
        legacy_error(metas, fields) is None,
{
    if let Some(ms) = metas {
        lemma_lists_unfilled(ms, ms.len() as int);
    }
}

} // verus!
