use derive_more_impl::input::DataKind;
use derive_more_impl::as_expand::{
    self, select_expansions, AsError, ConversionAttribute, FieldExpansion,
};
use derive_more_impl::borrow::{self, check_input, extra_borrow_type_param, BorrowError};
use derive_more_impl::fmt_traits::{
    normalize_trait_name, trait_name_to_attribute_name,
    trait_name_to_default_placeholder_literal,
};
use derive_more_impl::from::{
    from_impl, has_forward, legacy_error, merge_struct_attributes, type_error_message_of, merge_variant_attributes, validate_type,
    DuplicateAttribute, FromImpl, FromTypeError, StructAttribute, VariantAttribute,
};
use derive_more_impl::naming::{is_variant_and_fn_name, try_into_variant_fn_names};
use derive_more_impl::parsing::{TokenRange, Type};
use derive_more_impl::partial_eq::{body, EqBody, VariantFields};
use derive_more_impl::try_from::{
    are_fields_unique, check_input as try_from_check, repr_discriminants,
    TryFromError, UnitDiscriminant, VariantShape,
};

fn variant(types: &[&str], is_unit: bool, discriminant: Option<&str>) -> VariantShape {
    VariantShape {
        field_types: types.iter().map(|t| t.to_string()).collect(),
        is_unit,
        discriminant: discriminant.map(str::to_string),
    }
}

#[test]
fn try_from_rejects_duplicate_types_collections() {
    let vs = vec![
        variant(&["u8"], false, None),
        variant(&["u16", "u8"], false, None),
        variant(&["u8", "u16"], false, None),
        variant(&["u16", "u8"], false, None),
    ];
    let d = are_fields_unique(&vs).unwrap_err();
    assert_eq!((d.first, d.second), (1, 3));
    assert_eq!(d.types, "u16, u8");
    assert_eq!(
        d.message("B", "D"),
        "`u16, u8` types collection is used for more than one variant (`B`, `D`), non-repr \
         `try_from` cannot be implemented (try changing the order of fields as a workaround)",
    );
    assert!(are_fields_unique(&vs[..3].iter().map(|v| variant(
        &v.field_types.iter().map(String::as_str).collect::<Vec<_>>(),
        false,
        None
    )).collect()).is_ok());
}

#[test]
fn try_from_compares_ordered_field_lists() {
    // [A(u32, u16), B(u16, u32)] has no duplicate
    let vs = vec![variant(&["u32", "u16"], false, None), variant(&["u16", "u32"], false, None)];
    assert!(are_fields_unique(&vs).is_ok());
    // a one-field tuple is not the two fields it lists
    let vs = vec![variant(&["(u8 , u16)"], false, None), variant(&["u8", "u16"], false, None)];
    assert!(are_fields_unique(&vs).is_ok());
    let vs = vec![
        variant(&["u32", "u16"], false, None),
        variant(&["u8"], false, None),
        variant(&["u32", "u16"], false, None),
    ];
    let d = are_fields_unique(&vs).unwrap_err();
    assert_eq!((d.first, d.second, d.types.as_str()), (0, 2, "u32, u16"));
}

#[test]
fn try_from_input_checks() {
    let vs = vec![variant(&["u8"], false, None), variant(&[], true, None)];
    assert!(matches!(
        try_from_check(DataKind::Enum, &vs, true),
        Err(TryFromError::EmptyVariant(1))
    ));
    assert!(try_from_check(DataKind::Enum, &vs, false).is_ok());
    assert!(matches!(try_from_check(DataKind::Struct, &vs, false), Err(TryFromError::Struct)));
    assert!(matches!(try_from_check(DataKind::Union, &vs, true), Err(TryFromError::Union)));
    let dup = vec![variant(&["u8"], false, None), variant(&["u8"], false, None)];
    assert!(matches!(
        try_from_check(DataKind::Enum, &dup, true),
        Err(TryFromError::Duplicate(d)) if d.first == 0 && d.second == 1 && d.types == "u8"
    ));
}

#[test]
fn repr_discriminants_count_from_the_last_explicit_one() {
    // enum E { A, B = 5, C(u8), D, E = 10, F }
    let vs = vec![
        variant(&[], true, None),
        variant(&[], true, Some("5")),
        variant(&["u8"], false, None),
        variant(&[], true, None),
        variant(&[], true, Some("10")),
        variant(&[], true, None),
    ];
    assert_eq!(
        repr_discriminants(&vs),
        vec![
            UnitDiscriminant { variant: 0, base: None, offset: 0 },
            UnitDiscriminant { variant: 1, base: Some(1), offset: 0 },
            UnitDiscriminant { variant: 3, base: Some(1), offset: 2 },
            UnitDiscriminant { variant: 4, base: Some(4), offset: 0 },
            UnitDiscriminant { variant: 5, base: Some(4), offset: 1 },
        ],
    );
}

fn fields(skipped: &[bool]) -> VariantFields {
    VariantFields { skipped: skipped.to_vec() }
}

#[test]
fn partial_eq_bodies() {
    assert!(matches!(body(&vec![], true), EqBody::EmptyMatch));
    assert!(matches!(body(&vec![], false), EqBody::Absent));
    assert!(matches!(body(&vec![fields(&[true, true])], true), EqBody::Constant));
    assert!(matches!(body(&vec![fields(&[])], false), EqBody::Absent));
    match body(&vec![fields(&[false, true, false])], true) {
        EqBody::Compare { discriminants, fields: Some(m) } => {
            assert!(!discriminants);
            assert_eq!(m.arms.len(), 1);
            assert_eq!(m.arms[0].fields, vec![0, 2]);
            assert!(!m.no_fields_arm);
            assert!(!m.unreachable_arm);
        }
        other => panic!("unexpected {other:?}"),
    }
    let two = vec![fields(&[false]), fields(&[])];
    match body(&two, false) {
        EqBody::Compare { discriminants, fields: Some(m) } => {
            assert!(discriminants);
            assert_eq!(m.arms.len(), 1);
            assert_eq!(m.arms[0].variant, 0);
            assert!(m.no_fields_arm);
            assert!(!m.unreachable_arm);
        }
        other => panic!("unexpected {other:?}"),
    }
    let both = vec![fields(&[false]), fields(&[false])];
    match body(&both, true) {
        EqBody::Compare { fields: Some(m), .. } => assert!(m.unreachable_arm),
        other => panic!("unexpected {other:?}"),
    }
    let units = vec![fields(&[]), fields(&[])];
    assert!(matches!(body(&units, false), EqBody::Absent));
    assert!(matches!(
        body(&units, true),
        EqBody::Compare { discriminants: true, fields: None }
    ));
}

#[test]
fn as_ref_expansions() {
    assert_eq!(
        select_expansions(DataKind::Struct, Some(Some(7)), &vec![None]).unwrap(),
        vec![FieldExpansion { field: 0, conversion: Some(7) }],
    );
    assert_eq!(
        select_expansions(DataKind::Struct, Some(None), &vec![None, None]).unwrap_err(),
        AsError::FieldCount { empty: false },
    );
    assert_eq!(
        select_expansions(DataKind::Struct, Some(None), &vec![Some(as_expand::FieldAttribute::Empty)])
            .unwrap_err(),
        AsError::BothAttributes,
    );
    assert_eq!(
        select_expansions(
            DataKind::Struct,
            None,
            &vec![None, Some(as_expand::FieldAttribute::Skip), None]
        )
        .unwrap(),
        vec![
            FieldExpansion { field: 0, conversion: None },
            FieldExpansion { field: 2, conversion: None },
        ],
    );
    assert_eq!(
        select_expansions(
            DataKind::Struct,
            None,
            &vec![Some(as_expand::FieldAttribute::Args(3)), None, Some(as_expand::FieldAttribute::Empty)]
        )
        .unwrap(),
        vec![
            FieldExpansion { field: 0, conversion: Some(3) },
            FieldExpansion { field: 2, conversion: None },
        ],
    );
    assert_eq!(
        select_expansions(
            DataKind::Struct,
            None,
            &vec![Some(as_expand::FieldAttribute::Empty), Some(as_expand::FieldAttribute::Skip)]
        )
        .unwrap_err(),
        AsError::SkipWithOthers(1),
    );
    assert_eq!(
        select_expansions(DataKind::Enum, None, &vec![]).unwrap_err(),
        AsError::Enum
    );
}

#[test]
fn borrow_input_checks() {
    assert_eq!(check_input(DataKind::Struct, 1, false, None), Ok(false));
    assert_eq!(check_input(DataKind::Struct, 1, true, None), Ok(true));
    assert_eq!(
        check_input(DataKind::Struct, 1, false, Some(borrow::FieldAttribute::Forward)),
        Ok(true)
    );
    assert_eq!(
        check_input(DataKind::Struct, 1, true, Some(borrow::FieldAttribute::Direct)),
        Err(BorrowError::BothAttributes)
    );
    assert_eq!(
        check_input(DataKind::Struct, 1, false, Some(borrow::FieldAttribute::Skip)),
        Err(BorrowError::SkippedField)
    );
    assert_eq!(
        check_input(DataKind::Struct, 0, false, None),
        Err(BorrowError::FieldCount { empty: true })
    );
    assert_eq!(
        check_input(DataKind::Struct, 2, false, None),
        Err(BorrowError::FieldCount { empty: false })
    );
    assert_eq!(check_input(DataKind::Enum, 1, false, None), Err(BorrowError::Enum));
    assert_eq!(check_input(DataKind::Union, 1, false, None), Err(BorrowError::Union));
}

#[test]
fn borrow_type_param_is_fresh() {
    let none: Vec<String> = vec![];
    assert_eq!(extra_borrow_type_param(&none, false), "__BorrowT");
    assert_eq!(extra_borrow_type_param(&none, true), "__BorrowMutT");
    let taken: Vec<String> = ["__BorrowT", "__BorrowT1", "T", "__BorrowT3"]
        .iter()
        .map(|s| s.to_string())
        .collect();
    assert_eq!(extra_borrow_type_param(&taken, false), "__BorrowT2");
    let many: Vec<String> = std::iter::once("__BorrowMutT".to_string())
        .chain((1..=11).map(|i| format!("__BorrowMutT{i}")))
        .collect();
    assert_eq!(extra_borrow_type_param(&many, true), "__BorrowMutT12");
}

#[test]
fn from_attributes_merge() {
    let merged = merge_struct_attributes(vec![
        StructAttribute::Types(vec![0, 1]),
        StructAttribute::Types(vec![2]),
    ])
    .unwrap();
    assert!(matches!(merged, Some(StructAttribute::Types(v)) if v == vec![0, 1, 2]));
    assert!(matches!(merge_struct_attributes(vec![]), Ok(None)));
    assert_eq!(
        merge_struct_attributes(vec![
            StructAttribute::Types(vec![0]),
            StructAttribute::Types(vec![1]),
            StructAttribute::Forward,
        ])
        .unwrap_err(),
        DuplicateAttribute(2)
    );
    assert_eq!(
        merge_struct_attributes(vec![StructAttribute::Forward, StructAttribute::Types(vec![])])
            .unwrap_err(),
        DuplicateAttribute(1)
    );
    assert!(matches!(
        merge_variant_attributes(vec![VariantAttribute::Skip]),
        Ok(Some(VariantAttribute::Skip))
    ));
    assert_eq!(
        merge_variant_attributes(vec![VariantAttribute::Skip, VariantAttribute::From])
            .unwrap_err(),
        DuplicateAttribute(0)
    );
}

#[test]
fn from_implementations() {
    assert_eq!(from_impl(&None, false, 2, false), FromImpl::FieldTuple);
    assert_eq!(from_impl(&None, true, 0, false), FromImpl::Nothing);
    assert_eq!(from_impl(&None, true, 1, true), FromImpl::Nothing);
    assert_eq!(from_impl(&Some(VariantAttribute::From), true, 0, true), FromImpl::FieldTuple);
    assert_eq!(from_impl(&Some(VariantAttribute::Forward), true, 1, true), FromImpl::Forward);
    assert_eq!(from_impl(&Some(VariantAttribute::Types(vec![0])), true, 1, false), FromImpl::Types);
    assert_eq!(from_impl(&Some(VariantAttribute::Skip), false, 1, false), FromImpl::Nothing);
    assert!(has_forward(&vec![None, Some(VariantAttribute::Forward)]));
    assert!(!has_forward(&vec![None, Some(VariantAttribute::Skip)]));
}

#[test]
fn from_types_fit_fields() {
    let r = |start, end| TokenRange { start, end };
    let pair = Type::Tuple { items: vec![r(0, 1), r(2, 3)], trailing_comma: false };
    assert_eq!(validate_type(&pair, 2), Ok(2));
    assert_eq!(
        validate_type(&pair, 3),
        Err(FromTypeError::TooFewTypes { expected: 3, found: 2 })
    );
    let triple = Type::Tuple { items: vec![r(0, 1), r(2, 3), r(4, 5)], trailing_comma: true };
    assert_eq!(
        validate_type(&triple, 2),
        Err(FromTypeError::TooManyTypes { expected: 2, found: 3 })
    );
    assert_eq!(validate_type(&triple, 1), Ok(3));
    let other = Type::Other(r(0, 1));
    assert_eq!(validate_type(&other, 1), Ok(1));
    assert_eq!(validate_type(&other, 2), Err(FromTypeError::ExpectedTuple { fields: 2 }));
}

#[test]
fn fmt_trait_names() {
    assert_eq!(trait_name_to_attribute_name("LowerHex"), "lower_hex");
    assert_eq!(trait_name_to_attribute_name("Display"), "display");
    assert_eq!(trait_name_to_attribute_name("UpperExp"), "upper_exp");
    assert_eq!(normalize_trait_name("Pointer"), "Pointer");
    assert_eq!(trait_name_to_default_placeholder_literal("Debug"), "{:?}");
    assert_eq!(trait_name_to_default_placeholder_literal("UpperHex"), "{:X}");
    assert_eq!(trait_name_to_default_placeholder_literal("Display"), "{}");
}

#[test]
fn variant_method_names() {
    assert_eq!(is_variant_and_fn_name("FooBar"), "is_foo_bar_and");
    assert_eq!(is_variant_and_fn_name("A"), "is_a_and");
    let (owned, by_ref, by_mut) = try_into_variant_fn_names("HttpRequest");
    assert_eq!(owned, "try_into_http_request");
    assert_eq!(by_ref, "try_into_http_request_ref");
    assert_eq!(by_mut, "try_into_http_request_mut");
}

#[test]
fn from_legacy_types_error() {
    let types: Vec<String> = vec!["i32".to_string(), "&str".to_string()];
    assert_eq!(
        legacy_error(&types),
        "legacy syntax, remove `types` and use `i32, &str` instead"
    );
}

#[test]
fn from_type_error_messages() {
    let texts = |xs: &[&str]| xs.iter().map(|x| x.to_string()).collect::<Vec<_>>();
    assert_eq!(
        type_error_message_of(FromTypeError::TooFewTypes { expected: 3, found: 2 }, &texts(&["A", "B"])),
        "Wrong tuple length: expected 3, found 2. Consider adding 1 more type: `(A, B, _)`",
    );
    assert_eq!(
        type_error_message_of(FromTypeError::TooFewTypes { expected: 12, found: 1 }, &texts(&["u8"])),
        "Wrong tuple length: expected 12, found 1. Consider adding 11 more types: \
         `(u8, _, _, _, _, _, _, _, _, _, _, _)`",
    );
    assert_eq!(
        type_error_message_of(
            FromTypeError::TooManyTypes { expected: 2, found: 4 },
            &texts(&["A", "B", "C", "D"])
        ),
        "Wrong tuple length: expected 2, found 4. Consider removing last 2 types: `(A, B)`",
    );
    assert_eq!(
        type_error_message_of(FromTypeError::ExpectedTuple { fields: 3 }, &texts(&["String"])),
        "Expected tuple: `(String, _, _)`",
    );
}

#[test]
fn as_ref_conversions_merge() {
    match ConversionAttribute::Types(vec![1, 2]).merge(ConversionAttribute::Types(vec![3])) {
        Some(ConversionAttribute::Types(v)) => assert_eq!(v, vec![1, 2, 3]),
        other => panic!("unexpected {other:?}"),
    }
    assert!(ConversionAttribute::Forward.merge(ConversionAttribute::Types(vec![])).is_none());
    assert!(ConversionAttribute::Types(vec![]).merge(ConversionAttribute::Forward).is_none());
}
