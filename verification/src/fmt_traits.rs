//! The `fmt` traits that the formatting derives implement, and the names
//! that go with each.

use vstd::prelude::*;

use crate::text::str_eq;

verus! {

/// `name` is one of the traits that the `Display`-like derive implements.
pub open spec fn is_display_like(name: Seq<char>) -> bool {
    ||| name == "Binary"@
    ||| name == "Display"@
    ||| name == "LowerExp"@
    ||| name == "LowerHex"@
    ||| name == "Octal"@
    ||| name == "Pointer"@
    ||| name == "UpperExp"@
    ||| name == "UpperHex"@
}

/// The attribute that configures the derive of trait `name`.
pub open spec fn attribute_name(name: Seq<char>) -> Seq<char> {
    if name == "Binary"@ {
        "binary"@
    } else if name == "Display"@ {
        "display"@
    } else if name == "LowerExp"@ {
        "lower_exp"@
    } else if name == "LowerHex"@ {
        "lower_hex"@
    } else if name == "Octal"@ {
        "octal"@
    } else if name == "Pointer"@ {
        "pointer"@
    } else if name == "UpperExp"@ {
        "upper_exp"@
    } else {
        "upper_hex"@
    }
}

/// Matches a trait name to the name of its formatting attribute.
pub fn trait_name_to_attribute_name(trait_name: &str) -> (r: &'static str)
    requires
        is_display_like(trait_name@),
    ensures
        r@ == attribute_name(trait_name@),
{
    if str_eq(trait_name, "Binary") {
        "binary"
    } else if str_eq(trait_name, "Display") {
        "display"
    } else if str_eq(trait_name, "LowerExp") {
        "lower_exp"
    } else if str_eq(trait_name, "LowerHex") {
        "lower_hex"
    } else if str_eq(trait_name, "Octal") {
        "octal"
    } else if str_eq(trait_name, "Pointer") {
        "pointer"
    } else if str_eq(trait_name, "UpperExp") {
        "upper_exp"
    } else {
        "upper_hex"
    }
}

/// Matches a derive macro name to the name of the trait it implements (the
/// same name, for every trait that the derive supports).
pub fn normalize_trait_name(name: &str) -> (r: &'static str)
    requires
        is_display_like(name@),
    ensures
        r@ == name@,
{
    if str_eq(name, "Binary") {
        "Binary"
    } else if str_eq(name, "Display") {
        "Display"
    } else if str_eq(name, "LowerExp") {
        "LowerExp"
    } else if str_eq(name, "LowerHex") {
        "LowerHex"
    } else if str_eq(name, "Octal") {
        "Octal"
    } else if str_eq(name, "Pointer") {
        "Pointer"
    } else if str_eq(name, "UpperExp") {
        "UpperExp"
    } else {
        "UpperHex"
    }
}

/// `name` is a formatting trait with a default placeholder.
pub open spec fn has_default_placeholder(name: Seq<char>) -> bool {
    is_display_like(name) || name == "Debug"@
}

/// The placeholder that formats one value with trait `name`.
pub open spec fn default_placeholder(name: Seq<char>) -> Seq<char> {
    if name == "Binary"@ {
        "{:b}"@
    } else if name == "Debug"@ {
        "{:?}"@
    } else if name == "Display"@ {
        "{}"@
    } else if name == "LowerExp"@ {
        "{:e}"@
    } else if name == "LowerHex"@ {
        "{:x}"@
    } else if name == "Octal"@ {
        "{:o}"@
    } else if name == "Pointer"@ {
        "{:p}"@
    } else if name == "UpperExp"@ {
        "{:E}"@
    } else {
        "{:X}"@
    }
}

/// Matches a formatting trait name to the placeholder literal that formats
/// a single value with it.
pub fn trait_name_to_default_placeholder_literal(name: &str) -> (r: &'static str)
    requires
        has_default_placeholder(name@),
    ensures
        r@ == default_placeholder(name@),
{
    if str_eq(name, "Binary") {
        "{:b}"
    } else if str_eq(name, "Debug") {
        "{:?}"
    } else if str_eq(name, "Display") {
        "{}"
    } else if str_eq(name, "LowerExp") {
        "{:e}"
    } else if str_eq(name, "LowerHex") {
        "{:x}"
    } else if str_eq(name, "Octal") {
        "{:o}"
    } else if str_eq(name, "Pointer") {
        "{:p}"
    } else if str_eq(name, "UpperExp") {
        "{:E}"
    } else {
        "{:X}"
    }
}

} // verus!
