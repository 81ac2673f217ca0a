//! The decisions of the `Constructor` derive: which fields the generated
//! `new` converts with `Into`, and whether `new` can be a `const fn`.

use vstd::prelude::*;

verus! {

/// Why a field's `#[constructor(...)]` attributes are refused.
#[derive(Debug, Clone, Copy, PartialEq, Eq, Structural)]
pub enum ConstructorError {
    /// Only `into` is supported by `#[constructor(...)]`.
    NotInto,
    /// Only a single `#[constructor(into)]` attribute is allowed on a field.
    Duplicate,
}

/// Reads the `#[constructor(...)]` attributes of a field, each given by
/// whether its argument is `into`: the field converts with `Into` where it
/// has one; an argument other than `into`, or a second attribute, is an
/// error (checked in that order, attribute by attribute).
pub fn field_is_into(attrs: &Vec<bool>) -> (r: Result<bool, ConstructorError>)
    ensures
        r == if attrs@.len() == 0 {
            Ok::<bool, ConstructorError>(false)
        } else if !attrs@[0] {
            Err(ConstructorError::NotInto)
        } else if attrs@.len() == 1 {
            Ok(true)
        } else if !attrs@[1] {
            Err(ConstructorError::NotInto)
        } else {
            Err(ConstructorError::Duplicate)
        },
{
    let mut is_into = false;
    let mut i: usize = 0;
    while i < attrs.len()
        invariant
            i <= attrs.len(),
            i <= 1,
            is_into == (i == 1),
            i == 1 ==> attrs@[0],
        decreases attrs.len() - i,
    {
        if !attrs[i] {
            return Err(ConstructorError::NotInto);
        }
        if is_into {
            return Err(ConstructorError::Duplicate);
        }
        is_into = true;
        i = i + 1;
    }
    Ok(is_into)
}

/// Whether `new` can be a `const fn`: no field converts with `Into`.
pub fn is_const(into_fields: &Vec<bool>) -> (r: bool)
    ensures
        r == forall|i: int| 0 <= i < into_fields@.len() ==> !into_fields@[i],
{
    let mut i: usize = 0;
    while i < into_fields.len()
        invariant
            i <= into_fields.len(),
            forall|j: int| 0 <= j < i ==> !into_fields@[j],
        decreases into_fields.len() - i,
    {
        if into_fields[i] {
            return false;
        }
        i = i + 1;
    }
    true
}

} // verus!
