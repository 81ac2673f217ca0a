//! What a derive is applied to.

use vstd::prelude::*;

verus! {

/// The kind of item that a derive is applied to.
#[derive(Debug, Clone, Copy, PartialEq, Eq, Structural)]
pub enum DataKind {
    Struct,
    Enum,
    Union,
}

} // verus!
