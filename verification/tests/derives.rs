use derive_more_impl::add_like::{
    add_assign_method_name, add_trait_and_method, enum_arms, struct_exprs_and_used_fields, AddArm,
    FieldExpr,
};
use derive_more_impl::constructor::{field_is_into, is_const, ConstructorError};
use derive_more_impl::debug::{
    self, validate_attrs, DebugBody, DebugBound, DebugEntry, DebugFieldAttr, FieldFmtNotAllowed,
    FieldsKind,
};
use derive_more_impl::defaults::{default_variant, field_default_value, Attr, DefaultError};
use derive_more_impl::display::{
    self, check_union, check_unit_variant, DisplayBody, DisplayBounds, OwnBody, OwnFmt, SharedFmt,
};
use derive_more_impl::fmt::{check_legacy_bound, FmtAttribute, Literal};
use derive_more_impl::from_str::{
    check_forward, expand as from_str_expand, flat_expansion, FlatError, ForwardError,
    FromStrExpansion, UnionError, UnitValue,
};
use derive_more_impl::hash::{self, HashBody};
use derive_more_impl::into::{
    check_legacy_syntax, expand as into_expand, IntoEntry, IntoError, IntoImpl, IntoTarget,
    MetaItem, MixedTypes, StructAttribute,
};
use derive_more_impl::naming::{enabled_try_into_variant_fns, CaseStyle, MethodFlags, MethodKind};
use derive_more_impl::partial_eq::{compared_fields, VariantFields};
use derive_more_impl::input::DataKind;

fn s(x: &str) -> String {
    x.to_string()
}

fn path(x: &str) -> MetaItem {
    MetaItem::Path(s(x))
}

fn list(name: &str, args: Vec<MetaItem>) -> MetaItem {
    MetaItem::List(s(name), Some(args))
}

fn strs(xs: &[&str]) -> Vec<String> {
    xs.iter().map(|x| x.to_string()).collect()
}

#[test]
fn into_attribute_reads_entries_in_order() {
    let a = StructAttribute::parse(&vec![
        IntoEntry::Owned(vec![1]),
        IntoEntry::Ref(vec![]),
        IntoEntry::Owned(vec![2, 3]),
    ])
    .unwrap();
    assert_eq!(a.owned, Some(vec![1, 2, 3]));
    assert_eq!(a.by_ref, Some(vec![]));
    assert_eq!(a.by_ref_mut, None);

    let bare = StructAttribute::parse(&vec![IntoEntry::Type(4), IntoEntry::Type(5)]).unwrap();
    assert_eq!(bare.owned, Some(vec![4, 5]));
    assert_eq!(bare.by_ref, None);

    assert_eq!(
        StructAttribute::parse(&vec![
            IntoEntry::Type(7),
            IntoEntry::RefMut(vec![1]),
            IntoEntry::Type(8),
        ])
        .unwrap_err(),
        MixedTypes(7),
    );
}

#[test]
fn into_attributes_merge() {
    let a = StructAttribute { owned: Some(vec![1]), by_ref: None, by_ref_mut: Some(vec![]) };
    let b = StructAttribute { owned: Some(vec![2]), by_ref: Some(vec![3]), by_ref_mut: None };
    let m = a.merge_attrs(b);
    assert_eq!(m.owned, Some(vec![1, 2]));
    assert_eq!(m.by_ref, Some(vec![3]));
    assert_eq!(m.by_ref_mut, Some(vec![]));
}

#[test]
fn into_expansion_plans_impls() {
    let fields = IntoImpl { by_ref: false, by_mut: false, target: IntoTarget::Fields };
    let plan = into_expand(DataKind::Struct, None, &vec![false, false]).unwrap();
    assert_eq!(plan.impls, vec![fields]);
    assert_eq!(plan.fields, vec![0, 1]);
    let attr = StructAttribute { owned: Some(vec![5, 6]), by_ref: Some(vec![]), by_ref_mut: Some(vec![7]) };
    assert_eq!(
        into_expand(DataKind::Struct, Some(attr), &vec![]).unwrap().impls,
        vec![
            IntoImpl { by_ref: false, by_mut: false, target: IntoTarget::Type(5) },
            IntoImpl { by_ref: false, by_mut: false, target: IntoTarget::Type(6) },
            IntoImpl { by_ref: true, by_mut: false, target: IntoTarget::Fields },
            IntoImpl { by_ref: true, by_mut: true, target: IntoTarget::Type(7) },
        ],
    );
    assert_eq!(into_expand(DataKind::Enum, None, &vec![]).unwrap_err(), IntoError::Enum);
    assert_eq!(into_expand(DataKind::Union, None, &vec![]).unwrap_err(), IntoError::Union);
}

#[test]
fn into_leaves_skipped_fields_out() {
    // struct S { a: A, #[into(skip)] b: B, c: C }
    let plan = into_expand(DataKind::Struct, None, &vec![false, true, false]).unwrap();
    assert_eq!(
        plan.impls,
        vec![IntoImpl { by_ref: false, by_mut: false, target: IntoTarget::Fields }],
    );
    assert_eq!(plan.fields, vec![0, 2]);
    // the same with #[into(ref)]
    let attr = StructAttribute { owned: None, by_ref: Some(vec![]), by_ref_mut: None };
    let plan = into_expand(DataKind::Struct, Some(attr), &vec![false, true, false]).unwrap();
    assert_eq!(
        plan.impls,
        vec![IntoImpl { by_ref: true, by_mut: false, target: IntoTarget::Fields }],
    );
    assert_eq!(plan.fields, vec![0, 2]);
    let plan = into_expand(DataKind::Struct, None, &vec![true, true]).unwrap();
    assert!(plan.fields.is_empty());
}

#[test]
fn into_legacy_top_level_types() {
    // #[into(types(i32, "&str"))]
    let metas = Some(vec![list("types", vec![path("i32"), MetaItem::Str(s("&str"))])]);
    assert_eq!(
        check_legacy_syntax(&metas, &strs(&["i64"])).unwrap_err(),
        "legacy syntax, remove `types` and use `i32, &str` instead",
    );
}

#[test]
fn into_legacy_wrapped_types() {
    // #[into(owned(types(i32)), ref(types(i64)))] on `struct Foo(String)`
    let metas = Some(vec![
        list("owned", vec![list("types", vec![path("i32")])]),
        list("ref", vec![list("types", vec![path("i64")])]),
    ]);
    assert_eq!(
        check_legacy_syntax(&metas, &strs(&["String"])).unwrap_err(),
        "legacy syntax, use `owned(i32, String), ref(i64, String)` instead",
    );
}

#[test]
fn into_legacy_types_for_several_fields() {
    // #[into(owned, types(i64))] on `struct Foo(i32, u8)`
    let metas = Some(vec![path("owned"), list("types", vec![path("i64")])]);
    assert_eq!(
        check_legacy_syntax(&metas, &strs(&["i32", "u8"])).unwrap_err(),
        "legacy syntax, use `owned((i64, i64), (i32, u8))` instead",
    );
}

#[test]
fn into_legacy_bare_wrapper_without_types() {
    // #[into(owned, ref_mut(types(u8)))] on `struct Foo { x: u16 }`
    let metas = Some(vec![path("owned"), list("ref_mut", vec![list("types", vec![path("u8")])])]);
    assert_eq!(
        check_legacy_syntax(&metas, &strs(&["u16"])).unwrap_err(),
        "legacy syntax, use `owned, ref_mut(u8, u16)` instead",
    );
}

#[test]
fn into_current_syntax_passes_legacy_check() {
    let fields = strs(&["i32"]);
    assert!(check_legacy_syntax(&None, &fields).is_ok());
    assert!(check_legacy_syntax(&Some(vec![path("i64")]), &fields).is_ok());
    assert!(check_legacy_syntax(&Some(vec![path("owned"), path("ref")]), &fields).is_ok());
    assert!(check_legacy_syntax(&Some(vec![list("owned", vec![path("i64")])]), &fields).is_ok());
    assert!(check_legacy_syntax(&Some(vec![list("types", vec![MetaItem::Other])]), &fields).is_ok());
    assert!(check_legacy_syntax(&Some(vec![MetaItem::List(s("types"), None)]), &fields).is_ok());
    assert!(check_legacy_syntax(&Some(vec![list("types", vec![])]), &fields).is_ok());
}

fn unit(name: &str) -> UnitValue {
    UnitValue { name: s(name), has_fields: false, rename: None }
}

fn renamed(name: &str, case: CaseStyle) -> UnitValue {
    UnitValue { name: s(name), has_fields: false, rename: Some(case) }
}

fn arms_of(plan: &derive_more_impl::from_str::FlatPlan) -> Vec<(Option<String>, Option<String>)> {
    plan.arms.iter().map(|a| (a.pattern.clone(), a.guard.clone())).collect()
}

#[test]
fn from_str_expansion_kinds() {
    assert_eq!(from_str_expand(DataKind::Struct, 0), Ok(FromStrExpansion::Flat));
    assert_eq!(from_str_expand(DataKind::Struct, 1), Ok(FromStrExpansion::Forward));
    assert_eq!(from_str_expand(DataKind::Enum, 3), Ok(FromStrExpansion::Flat));
    assert_eq!(from_str_expand(DataKind::Union, 1), Err(UnionError));
    assert_eq!(check_forward(DataKind::Struct, false, 1), Ok(()));
    assert_eq!(check_forward(DataKind::Enum, false, 1), Err(ForwardError::NotStruct));
    assert_eq!(check_forward(DataKind::Struct, true, 1), Err(ForwardError::AttributeNotAllowed));
    assert_eq!(check_forward(DataKind::Struct, false, 2), Err(ForwardError::FieldCount));
}

#[test]
fn from_str_matches_lowercase_names() {
    let plan = flat_expansion(DataKind::Enum, &vec![unit("Foo"), unit("BarBaz")], None).unwrap();
    assert!(plan.lowercase_input);
    assert_eq!(
        arms_of(&plan),
        vec![(Some(s("foo")), None), (Some(s("barbaz")), None)],
    );
}

#[test]
fn from_str_guards_similar_names() {
    let plan =
        flat_expansion(DataKind::Enum, &vec![unit("Foo"), unit("FOO"), unit("Bar")], None)
            .unwrap();
    assert_eq!(
        arms_of(&plan),
        vec![
            (Some(s("foo")), Some(s("Foo"))),
            (Some(s("foo")), Some(s("FOO"))),
            (Some(s("bar")), None),
        ],
    );
}

#[test]
fn from_str_renamed_variant_is_guarded() {
    let plan = flat_expansion(
        DataKind::Enum,
        &vec![renamed("FooBar", CaseStyle::Snake), unit("Baz")],
        None,
    )
    .unwrap();
    assert_eq!(
        arms_of(&plan),
        vec![(None, Some(s("foo_bar"))), (Some(s("baz")), None)],
    );
    // A renaming that another name lowercases to makes that one exact.
    let plan =
        flat_expansion(DataKind::Enum, &vec![renamed("FOO", CaseStyle::Lower), unit("Foo")], None)
            .unwrap();
    assert_eq!(
        arms_of(&plan),
        vec![(None, Some(s("foo"))), (Some(s("foo")), Some(s("Foo")))],
    );
}

#[test]
fn from_str_container_renaming_matches_exactly() {
    let plan = flat_expansion(
        DataKind::Enum,
        &vec![unit("FooBar"), renamed("Baz", CaseStyle::Upper)],
        Some(CaseStyle::Snake),
    )
    .unwrap();
    assert!(!plan.lowercase_input);
    assert_eq!(
        arms_of(&plan),
        vec![(Some(s("foo_bar")), None), (Some(s("BAZ")), None)],
    );
}

#[test]
fn from_str_refuses_shared_representations() {
    let err = flat_expansion(
        DataKind::Enum,
        &vec![renamed("XY", CaseStyle::Lower), unit("B"), renamed("X_Y", CaseStyle::Lower)],
        None,
    )
    .unwrap_err();
    match &err {
        FlatError::SameRepresentation { string, names } => {
            assert_eq!(string, "xy");
            assert_eq!(names, &strs(&["XY", "X_Y"]));
        }
        other => panic!("unexpected {other:?}"),
    }
    assert_eq!(
        err.message(),
        "`XY`, `X_Y` variants cannot have the same \"xy\" string representation",
    );
    let err = flat_expansion(
        DataKind::Enum,
        &vec![unit("FooBar"), unit("foo_bar")],
        Some(CaseStyle::Snake),
    )
    .unwrap_err();
    assert!(matches!(err, FlatError::SameRepresentation { .. }));
}

#[test]
fn from_str_refuses_fields() {
    let with_fields = UnitValue { name: s("B"), has_fields: true, rename: None };
    let err = flat_expansion(DataKind::Enum, &vec![unit("A"), with_fields], None).unwrap_err();
    assert!(matches!(err, FlatError::VariantWithFields(1)));
    assert_eq!(err.message(), "only enums with no fields can derive `FromStr`");
    let st = UnitValue { name: s("S"), has_fields: true, rename: None };
    let err = flat_expansion(DataKind::Struct, &vec![st], None).unwrap_err();
    assert!(matches!(err, FlatError::StructWithFields));
    assert_eq!(err.message(), "only structs with no fields can derive `FromStr`");
    let err = flat_expansion(DataKind::Union, &vec![], None).unwrap_err();
    assert!(matches!(err, FlatError::Union));
    let plan = flat_expansion(DataKind::Struct, &vec![unit("Unit")], None).unwrap();
    assert_eq!(arms_of(&plan), vec![(Some(s("unit")), None)]);
}

#[test]
fn display_bodies() {
    let body = |shared, own, n| display::generate_body("Display", shared, own, n).unwrap();
    assert_eq!(
        body(None, OwnFmt::Other, 3),
        DisplayBody { own: OwnBody::Write, shared_write: false }
    );
    assert_eq!(
        body(None, OwnFmt::Transparent, 1),
        DisplayBody { own: OwnBody::TransparentCall, shared_write: false }
    );
    assert_eq!(
        body(None, OwnFmt::Absent, 0),
        DisplayBody { own: OwnBody::WriteName, shared_write: false }
    );
    assert_eq!(
        body(None, OwnFmt::Absent, 1),
        DisplayBody { own: OwnBody::FieldFmt, shared_write: false }
    );
    let shared = Some(SharedFmt { transparent: false, mentions_variant: true });
    assert_eq!(
        body(shared, OwnFmt::Absent, 1),
        DisplayBody { own: OwnBody::FieldArgs, shared_write: true }
    );
    assert_eq!(
        body(shared, OwnFmt::Absent, 0),
        DisplayBody { own: OwnBody::Name, shared_write: true }
    );
    assert_eq!(
        body(shared, OwnFmt::Transparent, 2),
        DisplayBody { own: OwnBody::FormatArgs, shared_write: true }
    );
    let without = Some(SharedFmt { transparent: false, mentions_variant: false });
    assert_eq!(
        body(without, OwnFmt::Absent, 5),
        DisplayBody { own: OwnBody::Nothing, shared_write: true }
    );
    let transparent = Some(SharedFmt { transparent: true, mentions_variant: false });
    assert_eq!(
        body(transparent, OwnFmt::Absent, 0),
        DisplayBody { own: OwnBody::WriteName, shared_write: false }
    );
}

#[test]
fn display_needs_attribute_for_several_fields() {
    assert_eq!(
        display::generate_body("Display", None, OwnFmt::Absent, 2).unwrap_err(),
        "struct or enum variant with more than 1 field must have `#[display(\"...\", ...)]` attribute",
    );
    assert_eq!(
        display::generate_body("LowerHex", None, OwnFmt::Absent, 3).unwrap_err(),
        "struct or enum variant with more than 1 field must have `#[lower_hex(\"...\", ...)]` attribute",
    );
}

#[test]
fn display_unit_and_union_checks() {
    assert!(check_unit_variant("display", false, 0).is_ok());
    assert!(check_unit_variant("binary", true, 0).is_ok());
    assert!(check_unit_variant("binary", false, 1).is_ok());
    assert_eq!(
        check_unit_variant("octal", false, 0).unwrap_err(),
        "implicit formatting of unit enum variant is supported only for `Display` macro, use `#[octal(\"...\")]` to explicitly specify the formatting",
    );
    assert!(check_union("display", true).is_ok());
    assert_eq!(
        check_union("display", false).unwrap_err(),
        "unions must have `#[display(\"...\", ...)]` attribute",
    );
}

#[test]
fn display_bounds_without_generics() {
    let none: Vec<String> = vec![];
    assert_eq!(
        display::generate_bounds(&none, None, true, None),
        DisplayBounds { own_attribute: true, first_field: false, shared_attribute: false },
    );
    let shared = Some(SharedFmt { transparent: false, mentions_variant: false });
    assert_eq!(
        display::generate_bounds(&none, shared, true, None),
        DisplayBounds { own_attribute: false, first_field: false, shared_attribute: true },
    );
}

#[test]
fn legacy_fmt_syntax() {
    let fmt = Some(s("fmt"));
    let lits = Some(vec![Literal::Str(s("Hello {}")), Literal::Str(s("world"))]);
    assert_eq!(
        FmtAttribute::check_legacy_fmt(&fmt, &lits).unwrap_err(),
        "legacy syntax, remove `fmt =` and use `\"Hello {}\", world` instead",
    );
    let later_only = Some(vec![Literal::Other, Literal::Str(s("x"))]);
    assert_eq!(
        FmtAttribute::check_legacy_fmt(&fmt, &later_only).unwrap_err(),
        "legacy syntax, remove `fmt =` and use `x` instead",
    );
    assert!(FmtAttribute::check_legacy_fmt(&fmt, &Some(vec![Literal::Other])).is_ok());
    assert!(FmtAttribute::check_legacy_fmt(&fmt, &None).is_ok());
    assert!(FmtAttribute::check_legacy_fmt(&Some(s("bound")), &lits).is_ok());
    assert!(FmtAttribute::check_legacy_fmt(&None, &lits).is_ok());
}

#[test]
fn legacy_bound_syntax() {
    assert_eq!(
        check_legacy_bound(&Some(s("bound")), &Some(Literal::Str(s("T: Display")))).unwrap_err(),
        "legacy syntax, use `bound(T: Display)` instead",
    );
    assert!(check_legacy_bound(&Some(s("bound")), &Some(Literal::Other)).is_ok());
    assert!(check_legacy_bound(&Some(s("fmt")), &Some(Literal::Str(s("x")))).is_ok());
    assert!(check_legacy_bound(&None, &None).is_ok());
}

#[test]
fn debug_attribute_checks() {
    let fields = vec![None, Some(DebugFieldAttr::Fmt), Some(DebugFieldAttr::Fmt)];
    assert_eq!(validate_attrs(true, &fields), Err(FieldFmtNotAllowed(1)));
    assert_eq!(validate_attrs(false, &fields), Ok(()));
    assert_eq!(validate_attrs(true, &vec![None, Some(DebugFieldAttr::Skip)]), Ok(()));
}

#[test]
fn debug_bodies_and_bounds() {
    let fields = vec![None, Some(DebugFieldAttr::Skip), Some(DebugFieldAttr::Fmt)];
    assert!(matches!(debug::generate_body(true, FieldsKind::Named, &fields), DebugBody::Write));
    assert!(matches!(debug::generate_body(false, FieldsKind::Unit, &vec![]), DebugBody::Name));
    match debug::generate_body(false, FieldsKind::Unnamed, &fields) {
        DebugBody::Tuple { entries, exhaustive } => {
            assert_eq!(entries, vec![DebugEntry::Plain(0), DebugEntry::Formatted(2)]);
            assert!(!exhaustive);
        }
        other => panic!("unexpected {other:?}"),
    }
    match debug::generate_body(false, FieldsKind::Named, &vec![None, None]) {
        DebugBody::Struct { entries, exhaustive } => {
            assert_eq!(entries, vec![DebugEntry::Plain(0), DebugEntry::Plain(1)]);
            assert!(exhaustive);
        }
        other => panic!("unexpected {other:?}"),
    }
    assert_eq!(debug::generate_bounds(true, &fields), vec![DebugBound::OwnAttribute]);
    assert_eq!(
        debug::generate_bounds(false, &fields),
        vec![DebugBound::FieldDebug(0), DebugBound::FieldAttribute(2)],
    );
    assert!(debug::check_enum(false).is_ok());
    assert!(debug::check_enum(true).is_err());
}

#[test]
fn add_method_names() {
    let names = |t: &str| add_trait_and_method(t);
    assert_eq!(names("Add"), ("Add".to_string(), "add".to_string()));
    assert_eq!(names("BitXor"), ("BitXor".to_string(), "bitxor".to_string()));
    assert_eq!(names("MulSelf"), ("Mul".to_string(), "mul".to_string()));
    assert_eq!(names("SubSelfSelf"), ("Sub".to_string(), "sub".to_string()));
    assert_eq!(add_assign_method_name("AddAssign"), "add_assign");
    assert_eq!(add_assign_method_name("BitAndAssign"), "bitand_assign");
    assert_eq!(add_assign_method_name("Shl"), "shl_assign");
}

#[test]
fn add_struct_fields() {
    let (exprs, used) = struct_exprs_and_used_fields(&vec![false, true, false]);
    assert_eq!(
        exprs,
        vec![FieldExpr::Combined(0), FieldExpr::Kept(1), FieldExpr::Combined(2)],
    );
    assert_eq!(used, vec![0, 2]);
}

#[test]
fn add_enum_arms() {
    assert_eq!(
        enum_arms(&vec![false, true, false]),
        vec![AddArm::Combine(0), AddArm::UnitError(1), AddArm::Combine(2), AddArm::Mismatch],
    );
    assert_eq!(enum_arms(&vec![false]), vec![AddArm::Combine(0)]);
    assert_eq!(enum_arms(&vec![true]), vec![AddArm::UnitError(0)]);
    assert_eq!(enum_arms(&vec![]), vec![]);
}

fn fields(skipped: &[bool]) -> VariantFields {
    VariantFields { skipped: skipped.to_vec() }
}

#[test]
fn hash_bodies() {
    assert!(matches!(hash::body(true, false, &vec![]), HashBody::Nothing));
    assert!(matches!(hash::body(false, true, &vec![]), HashBody::Nothing));
    assert!(matches!(hash::body(false, false, &vec![fields(&[])]), HashBody::Nothing));
    assert!(matches!(hash::body(false, false, &vec![fields(&[true, true])]), HashBody::Nothing));
    match hash::body(false, false, &vec![fields(&[false, true, false])]) {
        HashBody::Hash { discriminant, arms, wildcard } => {
            assert!(!discriminant);
            assert_eq!(arms, vec![vec![0, 2]]);
            assert!(!wildcard);
        }
        other => panic!("unexpected {other:?}"),
    }
    match hash::body(true, true, &vec![fields(&[])]) {
        HashBody::Hash { discriminant, arms, wildcard } => {
            assert!(discriminant);
            assert_eq!(arms, vec![Vec::<usize>::new()]);
            assert!(wildcard);
        }
        other => panic!("unexpected {other:?}"),
    }
    match hash::body(true, true, &vec![]) {
        HashBody::Hash { discriminant, arms, wildcard } => {
            assert!(discriminant);
            assert!(arms.is_empty());
            assert!(!wildcard);
        }
        other => panic!("unexpected {other:?}"),
    }
}

#[test]
fn try_into_variant_methods() {
    let all = MethodFlags { owned: true, by_ref: true, by_ref_mut: true };
    assert_eq!(
        enabled_try_into_variant_fns("FooBar", all, all),
        vec![
            (s("try_into_foo_bar"), MethodKind::Owned),
            (s("try_into_foo_bar_ref"), MethodKind::ByRef),
            (s("try_into_foo_bar_mut"), MethodKind::ByRefMut),
        ],
    );
    let by_ref_only = MethodFlags { owned: false, by_ref: true, by_ref_mut: false };
    assert_eq!(
        enabled_try_into_variant_fns("Baz", all, by_ref_only),
        vec![(s("try_into_baz_ref"), MethodKind::ByRef)],
    );
    // A variant whose name ends in `Mut` still gets a method by value.
    assert_eq!(
        enabled_try_into_variant_fns("BufMut", all, MethodFlags { owned: true, by_ref: false, by_ref_mut: false }),
        vec![(s("try_into_buf_mut"), MethodKind::Owned)],
    );
}

#[test]
fn default_variant_choice() {
    let variants = vec![
        vec![Attr::Other],
        vec![Attr::Other, Attr::DefaultPath],
        vec![Attr::DefaultPath],
    ];
    assert_eq!(default_variant(&variants), Ok(1));
    assert_eq!(
        default_variant(&vec![vec![], vec![Attr::Other]]),
        Err(DefaultError::NoDefaultVariant)
    );
    assert_eq!(
        default_variant(&vec![vec![Attr::DefaultList(0), Attr::DefaultPath]]),
        Err(DefaultError::Arguments(0))
    );
    assert_eq!(
        field_default_value(&vec![Attr::DefaultPath, Attr::DefaultList(4), Attr::DefaultList(5)]),
        Some(4)
    );
    assert_eq!(field_default_value(&vec![Attr::Other, Attr::DefaultNameValue]), None);
}

#[test]
fn constructor_into_fields() {
    assert_eq!(field_is_into(&vec![]), Ok(false));
    assert_eq!(field_is_into(&vec![true]), Ok(true));
    assert_eq!(field_is_into(&vec![false]), Err(ConstructorError::NotInto));
    assert_eq!(field_is_into(&vec![true, true]), Err(ConstructorError::Duplicate));
    assert_eq!(field_is_into(&vec![true, false]), Err(ConstructorError::NotInto));
    assert!(is_const(&vec![false, false]));
    assert!(!is_const(&vec![false, true]));
}

/// The variant that the generated `match` gives for `s`, if any.
fn parse_with(plan: &derive_more_impl::from_str::FlatPlan, s: &str) -> Option<usize> {
    let scrutinee = if plan.lowercase_input { s.to_lowercase() } else { s.to_string() };
    plan.arms.iter().position(|arm| {
        arm.pattern.as_ref().map_or(true, |p| *p == scrutinee)
            && arm.guard.as_ref().map_or(true, |g| g == s)
    })
}

#[test]
fn from_str_strings_parse_back() {
    let values = vec![unit("FooBar"), renamed("Baz", CaseStyle::Upper), unit("Qux")];
    let plan = flat_expansion(DataKind::Enum, &values, Some(CaseStyle::Snake)).unwrap();
    for (i, exact) in ["foo_bar", "BAZ", "qux"].iter().enumerate() {
        assert_eq!(parse_with(&plan, exact), Some(i));
    }
    assert_eq!(parse_with(&plan, "FooBar"), None);

    let values = vec![unit("Foo"), unit("FOO"), unit("Bar")];
    let plan = flat_expansion(DataKind::Enum, &values, None).unwrap();
    assert_eq!(parse_with(&plan, "Foo"), Some(0));
    assert_eq!(parse_with(&plan, "FOO"), Some(1));
    assert_eq!(parse_with(&plan, "bar"), Some(2));
    assert_eq!(parse_with(&plan, "BaR"), Some(2));
    assert_eq!(parse_with(&plan, "foo"), None);
}

/// What the generated `match` does for operands of variants `l` and `r`.
fn add_outcome(arms: &[AddArm], l: usize, r: usize) -> Option<AddArm> {
    arms.iter().copied().find(|arm| match *arm {
        AddArm::Combine(v) | AddArm::UnitError(v) => l == v && r == v,
        AddArm::Mismatch => true,
    })
}

#[test]
fn add_enum_outcomes() {
    let units = vec![false, true, false];
    let arms = enum_arms(&units);
    for l in 0..3 {
        for r in 0..3 {
            let expected = if l != r {
                AddArm::Mismatch
            } else if units[l] {
                AddArm::UnitError(l)
            } else {
                AddArm::Combine(l)
            };
            assert_eq!(add_outcome(&arms, l, r), Some(expected));
        }
    }
}

#[test]
fn hashed_fields_are_compared() {
    let eq_skipped = vec![false, true, false, false];
    let hash_skipped = vec![false, true, true, false];
    let compared = compared_fields(&eq_skipped);
    match hash::body(false, false, &vec![fields(&hash_skipped)]) {
        HashBody::Hash { arms, .. } => {
            assert_eq!(arms, vec![vec![0, 3]]);
            assert!(arms[0].iter().all(|f| compared.contains(f)));
        }
        other => panic!("unexpected {other:?}"),
    }
}

#[test]
fn from_str_container_cases() {
    let cases = [
        (CaseStyle::Lower, "foobar"),
        (CaseStyle::Upper, "FOOBAR"),
        (CaseStyle::Pascal, "FooBar"),
        (CaseStyle::Camel, "fooBar"),
        (CaseStyle::Snake, "foo_bar"),
        (CaseStyle::ScreamingSnake, "FOO_BAR"),
        (CaseStyle::Kebab, "foo-bar"),
        (CaseStyle::ScreamingKebab, "FOO-BAR"),
    ];
    for (case, expected) in cases {
        let plan = flat_expansion(DataKind::Enum, &vec![unit("FooBar")], Some(case)).unwrap();
        assert_eq!(arms_of(&plan), vec![(Some(s(expected)), None)]);
        let plan = flat_expansion(DataKind::Enum, &vec![renamed("FooBar", case)], None).unwrap();
        assert_eq!(arms_of(&plan), vec![(None, Some(s(expected)))]);
    }
}
