//! Verified core of the `derive_more` derive macros: token-level parsing of
//! types and formatting arguments, structural type search, and the checks
//! and naming rules that decide what a derive expands to.

pub mod input;
pub mod text;
pub mod tokens;
pub mod attr;
pub mod parsing;
pub mod fmt;
pub mod fmt_string;
pub mod ty;
pub mod try_from;
pub mod fmt_traits;
pub mod partial_eq;
pub mod display;
pub mod decimal;
pub mod borrow;
pub mod as_expand;
pub mod from;
pub mod naming;
pub mod into;
pub mod into_grammar;
pub mod from_str;
pub mod debug;
pub mod add_like;
pub mod hash;
pub mod eq;
pub mod defaults;
pub mod constructor;
pub mod bindings;
pub mod deref_mut;
