use derive_more_impl::bindings::{clone_bindings, field_info, numbered_names, try_into_bindings};
use derive_more_impl::deref_mut::single_enabled_field;
use derive_more_impl::fmt::FieldNames;

#[test]
fn numbered_names_count_from_zero() {
    assert_eq!(numbered_names("_", 3), vec!["_0", "_1", "_2"]);
    assert_eq!(numbered_names("__field_", 11)[10], "__field_10");
    assert!(numbered_names("x", 0).is_empty());
}

#[test]
fn clone_binds_named_fields_by_name() {
    let fields = FieldNames::Named(vec!["a".to_string(), "bee".to_string()]);
    assert_eq!(clone_bindings(&fields), vec!["a", "bee"]);
}

#[test]
fn clone_binds_positional_fields_by_number() {
    assert_eq!(clone_bindings(&FieldNames::Unnamed(2)), vec!["_0", "_1"]);
    assert!(clone_bindings(&FieldNames::Unit).is_empty());
    assert!(clone_bindings(&FieldNames::Unnamed(0)).is_empty());
}

#[test]
fn numbered_bindings_are_distinct() {
    let names = numbered_names("_", 120);
    for i in 0..names.len() {
        for j in i + 1..names.len() {
            assert_ne!(names[i], names[j]);
        }
    }
}

#[test]
fn is_variant_and_binds_every_field() {
    let named = field_info(&FieldNames::Named(vec!["x".to_string(), "y".to_string()]));
    assert_eq!(named.bindings, vec!["__field_0", "__field_1"]);
    assert!(named.closure_takes_fields);
    let tuple = field_info(&FieldNames::Unnamed(1));
    assert_eq!(tuple.bindings, vec!["__field_0"]);
    assert!(tuple.closure_takes_fields);
    for empty in [FieldNames::Unit, FieldNames::Unnamed(0), FieldNames::Named(vec![])] {
        let info = field_info(&empty);
        assert!(info.bindings.is_empty());
        assert!(!info.closure_takes_fields);
    }
}

#[test]
fn try_into_variant_unwraps_positional_fields() {
    assert_eq!(try_into_bindings(&FieldNames::Unnamed(2)).unwrap(), vec!["field_0", "field_1"]);
    assert!(try_into_bindings(&FieldNames::Unit).unwrap().is_empty());
    assert!(try_into_bindings(&FieldNames::Named(vec!["a".to_string()])).is_none());
}

#[test]
fn deref_mut_needs_exactly_one_field() {
    assert_eq!(single_enabled_field(&vec![false]), Some(0));
    assert_eq!(single_enabled_field(&vec![true, false, true]), Some(1));
    assert_eq!(single_enabled_field(&vec![false, false]), None);
    assert_eq!(single_enabled_field(&vec![true, true]), None);
    assert_eq!(single_enabled_field(&vec![]), None);
}
