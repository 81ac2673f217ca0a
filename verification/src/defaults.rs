//! The decisions of the `Default` derive: which variant of an enum is the
//! default one, and which value each field takes.

use vstd::prelude::*;

verus! {

/// An attribute of a variant or field, as the `Default` derive reads it.
#[derive(Debug, Clone, Copy, PartialEq, Eq, Structural)]
pub enum Attr {
    /// An attribute other than `default`.
    Other,
    /// `#[default]`
    DefaultPath,
    /// `#[default(...)]`, with its tokens referred to by an index that the
    /// caller gives them.
    DefaultList(usize),
    /// `#[default = ...]`
    DefaultNameValue,
}

/// Why the derive refuses an enum.
#[derive(Debug, Clone, Copy, PartialEq, Eq, Structural)]
pub enum DefaultError {
    /// One variant must be marked with `#[default]`.
    NoDefaultVariant,
    /// `#[default]` on the variant (by its position) must not have
    /// arguments.
    Arguments(usize),
}

/// Whether an attribute is a `default` one.
pub open spec fn is_default(a: Attr) -> bool {
    !(a is Other)
}

/// Whether some attribute is a `default` one.
pub open spec fn has_default(attrs: Seq<Attr>) -> bool {
    exists|k: int| 0 <= k < attrs.len() && is_default(attrs[k])
}

/// The position of the first `default` attribute.
pub open spec fn first_default(attrs: Seq<Attr>) -> int
    decreases attrs.len(),
{
    if attrs.len() == 0 {
        0
    } else if has_default(attrs.drop_last()) {
        first_default(attrs.drop_last())
    } else {
        attrs.len() - 1
    }
}

/// The position `first_default` gives is that of the first `default`
/// attribute: it is one, and none comes before it.
pub proof fn lemma_first_default(attrs: Seq<Attr>)
    requires
        has_default(attrs),
    ensures
        0 <= first_default(attrs) < attrs.len(),
        is_default(attrs[first_default(attrs)]),
        forall|k: int| 0 <= k < first_default(attrs) ==> !is_default(attrs[k]),
    decreases attrs.len(),
{
    let prefix = attrs.drop_last();
    if has_default(prefix) {
        lemma_first_default(prefix);
        let f = first_default(prefix);
        assert(prefix[f] == attrs[f]);
        assert forall|k: int| 0 <= k < f implies !is_default(attrs[k]) by {
            assert(prefix[k] == attrs[k]);
        }
    } else {
        let k = choose|k: int| 0 <= k < attrs.len() && is_default(attrs[k]);
        if k < attrs.len() - 1 {
            assert(prefix[k] == attrs[k]);
        }
        assert forall|j: int| 0 <= j < attrs.len() - 1 implies !is_default(attrs[j]) by {
            assert(prefix[j] == attrs[j]);
        }
    }
}

/// Finds the position of the first `default` attribute.
fn find_default(attrs: &Vec<Attr>) -> (r: Option<usize>)
    ensures
        match r {
            Some(k) => has_default(attrs@) && k == first_default(attrs@),
            None => !has_default(attrs@),
        },
{
    let mut k: usize = 0;
    while k < attrs.len()
        invariant
            k <= attrs.len(),
            forall|j: int| 0 <= j < k ==> !is_default(attrs@[j]),
        decreases attrs.len() - k,
    {
        if attrs[k] != Attr::Other {
            proof {
                lemma_first_default(attrs@);
            }
            return Some(k);
        }
        k = k + 1;
    }
    None
}

/// Chooses the default variant of an enum, given the attributes of each
/// variant: the first variant with a `default` attribute, whose first such
/// attribute must be the bare `#[default]`.
pub fn default_variant(variants: &Vec<Vec<Attr>>) -> (r: Result<usize, DefaultError>)
    ensures
        (forall|i: int| 0 <= i < variants@.len() ==> !has_default(variants@[i]@)) ==> r
            == Err::<usize, DefaultError>(DefaultError::NoDefaultVariant),
        forall|i: int|
            0 <= i < variants@.len() && has_default(variants@[i]@) && (forall|j: int|
                0 <= j < i ==> !has_default(variants@[j]@)) ==> r == if variants@[i]@[first_default(
                variants@[i]@,
            )] == Attr::DefaultPath {
                Ok::<usize, DefaultError>(i as usize)
            } else {
                Err(DefaultError::Arguments(i as usize))
            },
{
    let mut i: usize = 0;
    while i < variants.len()
        invariant
            i <= variants.len(),
            forall|j: int| 0 <= j < i ==> !has_default(variants@[j]@),
        decreases variants.len() - i,
    {
        if let Some(k) = find_default(&variants[i]) {
            proof {
                lemma_first_default(variants@[i as int]@);
                assert forall|a: int|
                    0 <= a < variants@.len() && has_default(variants@[a]@) && (forall|j: int|
                        0 <= j < a ==> !has_default(variants@[j]@)) implies a == i by {
                    if a > i {
                        assert(!has_default(variants@[i as int]@));
                    }
                }
            }
            if variants[i][k] == Attr::DefaultPath {
                return Ok(i);
            } else {
                return Err(DefaultError::Arguments(i));
            }
        }
        i = i + 1;
    }
    Err(DefaultError::NoDefaultVariant)
}

/// The value of a field: the tokens of its first `#[default(...)]`
/// attribute, or `None` for `Default::default()`.
pub fn field_default_value(attrs: &Vec<Attr>) -> (r: Option<usize>)
    ensures
        match r {
            Some(t) => exists|k: int|
                0 <= k < attrs@.len() && attrs@[k] == Attr::DefaultList(t) && forall|j: int|
                    0 <= j < k ==> !(attrs@[j] is DefaultList),
            None => forall|k: int| 0 <= k < attrs@.len() ==> !(attrs@[k] is DefaultList),
        },
{
    let mut k: usize = 0;
    while k < attrs.len()
        invariant
            k <= attrs.len(),
            forall|j: int| 0 <= j < k ==> !(attrs@[j] is DefaultList),
        decreases attrs.len() - k,
    {
        if let Attr::DefaultList(t) = attrs[k] {
            return Some(t);
        }
        k = k + 1;
    }
    None
}

} // verus!
