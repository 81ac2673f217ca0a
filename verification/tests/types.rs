use derive_more_impl::borrow::{
    fundamental_path_inner_type, is_assoc_type_involving_generic_param, is_bare_generic_param,
    is_forwarded_overlap, peel_forwarding_pointer,
};
use derive_more_impl::as_expand::{impl_kind, ImplKind};
use derive_more_impl::display::{self, contains_generic_param, DisplayBounds, SharedFmt};
use derive_more_impl::eq::eq_plan;
use derive_more_impl::fmt_string::FmtTrait;
use derive_more_impl::ty::{needs_trait_bound, ArgList, BoundList, PathArgs, SegList, Ty, TyList};
use quote::ToTokens as _;

fn text<T: quote::ToTokens>(t: &T) -> String {
    t.to_token_stream().to_string()
}

fn model(t: &syn::Type) -> Ty {
    match t {
        syn::Type::Array(a) => Ty::Array(Box::new(model(&a.elem)), text(&a.len)),
        syn::Type::BareFn(b) => Ty::BareFn(
            text(b),
            list(b.inputs.iter().map(|a| &a.ty).collect::<Vec<_>>().as_slice()),
            output(&b.output),
        ),
        syn::Type::Group(g) => Ty::Group(Box::new(model(&g.elem))),
        syn::Type::ImplTrait(i) => Ty::ImplTrait(text(i)),
        syn::Type::Infer(_) => Ty::Infer,
        syn::Type::Macro(m) => Ty::Macro(text(m)),
        syn::Type::Never(_) => Ty::Never,
        syn::Type::Paren(p) => Ty::Paren(Box::new(model(&p.elem))),
        syn::Type::Path(p) => Ty::Path(
            p.qself.as_ref().map(|q| Box::new(model(&q.ty))),
            p.qself.as_ref().map_or(0, |q| q.position),
            p.path.leading_colon.is_some(),
            segments(p.path.segments.iter().collect::<Vec<_>>().as_slice()),
        ),
        syn::Type::Ptr(p) => Ty::Ptr(p.mutability.is_some(), Box::new(model(&p.elem))),
        syn::Type::Reference(r) => Ty::Reference(
            r.lifetime.as_ref().map(|l| l.to_string()),
            r.mutability.is_some(),
            Box::new(model(&r.elem)),
        ),
        syn::Type::Slice(s) => Ty::Slice(Box::new(model(&s.elem))),
        syn::Type::TraitObject(t) => Ty::TraitObject(
            text(t),
            bounds(t.bounds.iter().collect::<Vec<_>>().as_slice()),
        ),
        syn::Type::Tuple(t) => Ty::Tuple(list(t.elems.iter().collect::<Vec<_>>().as_slice())),
        other => Ty::Verbatim(text(other)),
    }
}

fn list(items: &[&syn::Type]) -> TyList {
    match items.split_first() {
        None => TyList::Nil,
        Some((first, rest)) => TyList::Cons(Box::new(model(first)), Box::new(list(rest))),
    }
}

fn segments(segs: &[&syn::PathSegment]) -> SegList {
    match segs.split_first() {
        None => SegList::Nil,
        Some((first, rest)) => {
            let args = match &first.arguments {
                syn::PathArguments::None => PathArgs::NoArgs,
                syn::PathArguments::AngleBracketed(a) => PathArgs::AngleBracketed(
                    a.colon2_token.is_some(),
                    arguments(a.args.iter().collect::<Vec<_>>().as_slice()),
                ),
                syn::PathArguments::Parenthesized(p) => PathArgs::Parenthesized(
                    text(p),
                    list(p.inputs.iter().collect::<Vec<_>>().as_slice()),
                    output(&p.output),
                ),
            };
            SegList::Cons(first.ident.to_string(), args, Box::new(segments(rest)))
        }
    }
}

fn arguments(args: &[&syn::GenericArgument]) -> ArgList {
    match args.split_first() {
        None => ArgList::Nil,
        Some((syn::GenericArgument::Type(t), rest)) => {
            ArgList::Type(Box::new(model(t)), Box::new(arguments(rest)))
        }
        Some((syn::GenericArgument::AssocType(a), rest)) => ArgList::AssocType(
            text(a),
            Box::new(model(&a.ty)),
            Box::new(arguments(rest)),
        ),
        Some((other, rest)) => ArgList::Other(text(*other), Box::new(arguments(rest))),
    }
}

fn output(o: &syn::ReturnType) -> Option<Box<Ty>> {
    match o {
        syn::ReturnType::Default => None,
        syn::ReturnType::Type(_, t) => Some(Box::new(model(t))),
    }
}

fn bounds(bs: &[&syn::TypeParamBound]) -> BoundList {
    match bs.split_first() {
        None => BoundList::Nil,
        Some((syn::TypeParamBound::Trait(t), rest)) => BoundList::Trait(
            segments(t.path.segments.iter().collect::<Vec<_>>().as_slice()),
            Box::new(bounds(rest)),
        ),
        Some((_, rest)) => BoundList::Other(Box::new(bounds(rest))),
    }
}

fn parse(s: &str) -> syn::Type {
    syn::parse_str(s).unwrap()
}

#[test]
fn contains() {
    for (input, container) in [
        ("Self", "Self"),
        ("Self", "(Self)"),
        ("Self", "(Self,)"),
        ("Self", "(Self, Foo)"),
        ("Self", "(Foo, Bar, Baz, Self)"),
        ("Self", "[Self]"),
        ("Self", "[Self; N]"),
        ("Self", "*const Self"),
        ("Self", "*mut Self"),
        ("Self", "&'a Self"),
        ("Self", "&'a mut Self"),
        ("Self", "Box<Self>"),
        ("Self", "PhantomData<Self>"),
        ("Self", "Arc<Mutex<Self>>"),
        ("Self", "[*const (&'a [Arc<Mutex<Self>>],); 0]"),
    ] {
        let (input, container) = (parse(input), parse(container));
        assert!(
            model(&container).contains_type_structurally(&model(&input)),
            "cannot find type `{}` in type `{}`",
            input.into_token_stream(),
            container.into_token_stream(),
        );
    }
}

#[test]
fn not_contains() {
    for (input, container) in [
        ("Self", "Foo"),
        ("Self", "(Foo)"),
        ("Self", "(Foo,)"),
        ("Self", "(Foo, Bar, Baz)"),
        ("Self", "[Foo]"),
        ("Self", "[Foo; N]"),
        ("Self", "*const Foo"),
        ("Self", "*mut Foo"),
        ("Self", "&'a Foo"),
        ("Self", "&'a mut Foo"),
        ("Self", "Box<Foo>"),
        ("Self", "PhantomData<Foo>"),
        ("Self", "Arc<Mutex<Foo>>"),
        ("Self", "[*const (&'a [Arc<Mutex<Foo>>],); 0]"),
        ("Self", "fn(Self) -> Foo"),
        ("Self", "fn(Foo) -> Self"),
        ("Self", "impl Foo<Self>"),
        ("Self", "impl Foo<Type = Self>"),
        ("Self", "dyn Foo<Self>"),
        ("Self", "dyn Sync + Foo<Type = Self>"),
    ] {
        let (input, container) = (parse(input), parse(container));
        assert!(
            !model(&container).contains_type_structurally(&model(&input)),
            "found type `{}` in type `{}`",
            input.into_token_stream(),
            container.into_token_stream(),
        );
    }
}

#[test]
fn equality_is_structural() {
    let a = model(&parse("Vec<(u8, &'a str)>"));
    assert!(a.same(&model(&parse("Vec<(u8, &'a str)>"))));
    assert!(!a.same(&model(&parse("Vec<(u8, &'b str)>"))));
    assert!(!a.same(&model(&parse("Vec::<(u8, &'a str)>"))));
    assert!(!a.same(&model(&parse("Vec<(u8, &'a mut str)>"))));
    // A type contains itself, and what its parts contain.
    assert!(a.contains_type_structurally(&a));
    assert!(a.contains_type_structurally(&model(&parse("&'a str"))));
    assert!(!a.contains_type_structurally(&model(&parse("&'a mut str"))));
}

#[test]
fn qualified_self_is_not_searched() {
    let container = model(&parse("<Self as Trait>::Assoc"));
    assert!(!container.contains_type_structurally(&model(&parse("Self"))));
}

fn params(names: &[&str]) -> Vec<String> {
    names.iter().map(|n| n.to_string()).collect()
}

#[test]
fn generic_params_are_found_where_they_occur() {
    let ps = params(&["T", "U"]);
    for (ty, expected) in [
        ("T", true),
        ("V", false),
        ("Vec<T>", true),
        ("Vec<V>", false),
        ("&'a [T; 3]", true),
        ("(u8, U)", true),
        ("fn(T) -> u8", true),
        ("fn(u8) -> U", true),
        ("fn(u8)", false),
        ("dyn Fn(T) -> u8", true),
        ("dyn Iterator<Item = U>", true),
        ("dyn Send", false),
        ("impl Foo<T>", false),
        ("<V as Trait<T>>::Assoc", true),
        ("<T as Trait>::Assoc", true),
        ("T::Assoc", false),
        ("::T", false),
        ("[u8; N]", false),
    ] {
        assert_eq!(
            contains_generic_param(&ps, &model(&parse(ty))),
            expected,
            "type `{ty}`",
        );
    }
    assert!(!contains_generic_param(&params(&[]), &model(&parse("T"))));
}

#[test]
fn fundamental_pointers_are_peeled() {
    for (ty, inner) in [
        ("Box<T>", Some("T")),
        ("Pin<T>", Some("T")),
        ("std::boxed::Box<T>", Some("T")),
        ("alloc::boxed::Box<T>", Some("T")),
        ("core::pin::Pin<T>", Some("T")),
        ("std::pin::Pin<T>", Some("T")),
        ("derive_more::core::pin::Pin<T>", Some("T")),
        ("core::boxed::Box<T>", None),
        ("Arc<T>", None),
        ("<X as Y>::Box<T>", None),
        ("Box", None),
    ] {
        let m = model(&parse(ty));
        let found = fundamental_path_inner_type(&m);
        match inner {
            Some(i) => assert!(found.expect(ty).same(&model(&parse(i))), "type `{ty}`"),
            None => assert!(found.is_none(), "type `{ty}`"),
        }
    }
    let peeled = model(&parse("&mut Box<(Pin<&T>)>"));
    assert!(peel_forwarding_pointer(&peeled).same(&model(&parse("T"))));
    let not = model(&parse("Vec<T>"));
    assert!(peel_forwarding_pointer(&not).same(&not));
}

#[test]
fn borrow_overlap_checks() {
    let ps = params(&["T"]);
    assert!(is_bare_generic_param(&model(&parse("T")), &ps));
    assert!(!is_bare_generic_param(&model(&parse("U")), &ps));
    assert!(!is_bare_generic_param(&model(&parse("T::Assoc")), &ps));
    let check = |t: &str| is_assoc_type_involving_generic_param(&model(&parse(t)), &ps);
    for t in ["T::Assoc", "(T::Assoc)", "<T as Tr>::A"] {
        assert!(check(t), "{t}");
    }
    for t in ["T", "Vec<T>", "U::Assoc", "&T::Assoc", "<U as Tr>::A"] {
        assert!(!check(t), "{t}");
    }
    assert!(is_forwarded_overlap(&model(&parse("&Box<T>")), &ps));
    assert!(is_forwarded_overlap(&model(&parse("&<T as Tr>::A")), &ps));
    assert!(!is_forwarded_overlap(&model(&parse("Box<String>")), &ps));
}

#[test]
fn self_is_found_structurally() {
    for (ty, expected) in [
        ("Self", true),
        ("Box<Self>", true),
        ("(u8, &Self)", true),
        ("Vec<u8>", false),
        ("<Self as Trait>::Assoc", false),
        ("fn(Self)", false),
    ] {
        assert_eq!(model(&parse(ty)).contains_self(), expected, "type `{ty}`");
    }
}

#[test]
fn trait_bounds_for_fields() {
    let implementor = model(&parse("Foo<T>"));
    assert!(needs_trait_bound(&model(&parse("T")), true, &implementor));
    assert!(!needs_trait_bound(&model(&parse("T")), false, &implementor));
    assert!(!needs_trait_bound(&model(&parse("Box<Self>")), true, &implementor));
    assert!(!needs_trait_bound(&model(&parse("Vec<Foo<T>>")), true, &implementor));
    assert!(needs_trait_bound(&model(&parse("Vec<Foo<U>>")), true, &implementor));
}

#[test]
fn eq_bounds_and_assertions() {
    let implementor = model(&parse("Node<T>"));
    let tys: Vec<Ty> = ["T", "Box<Self>", "T", "u8", "Vec<Node<T>>", "u8"]
        .iter()
        .map(|t| model(&parse(t)))
        .collect();
    let plan = eq_plan(true, &tys, &implementor);
    assert!(plan.self_partial_eq);
    assert_eq!(plan.bounded, vec![0, 3]);
    assert_eq!(plan.asserted, vec![1, 4]);
    assert!(!eq_plan(false, &vec![], &implementor).self_partial_eq);
}

#[test]
fn as_ref_impl_kinds() {
    let field = model(&parse("Vec<u8>"));
    let same = model(&parse("Vec<u8>"));
    let slice = model(&parse("[u8]"));
    assert_eq!(impl_kind(true, &field, &same, false, false), ImplKind::Forwarded);
    assert_eq!(impl_kind(false, &field, &same, true, true), ImplKind::Direct);
    assert_eq!(impl_kind(false, &field, &slice, false, true), ImplKind::Forwarded);
    assert_eq!(impl_kind(false, &field, &slice, false, false), ImplKind::Specialized);
}

#[test]
fn display_bounds_on_first_field() {
    let ps = params(&["T"]);
    let generic = model(&parse("Vec<T>"));
    let plain = model(&parse("u8"));
    assert_eq!(
        display::generate_bounds(&ps, None, false, Some(&generic)),
        DisplayBounds { own_attribute: false, first_field: true, shared_attribute: false },
    );
    assert_eq!(
        display::generate_bounds(&ps, None, false, Some(&plain)),
        DisplayBounds { own_attribute: false, first_field: false, shared_attribute: false },
    );
    let shared = Some(SharedFmt { transparent: false, mentions_variant: true });
    assert_eq!(
        display::generate_bounds(&ps, shared, false, Some(&generic)),
        DisplayBounds { own_attribute: false, first_field: true, shared_attribute: true },
    );
}

#[test]
fn display_bounds_only_on_generic_fields() {
    let ps = params(&["T", "U"]);
    let types = vec![model(&parse("i32")), model(&parse("Vec<T>")), model(&parse("&U"))];
    let pairs = vec![
        (0, FmtTrait::Display),
        (1, FmtTrait::Debug),
        (2, FmtTrait::LowerHex),
        (1, FmtTrait::Display),
        (5, FmtTrait::Display),
    ];
    assert_eq!(
        display::generic_bounds(&ps, &pairs, &types),
        vec![(1, FmtTrait::Debug), (2, FmtTrait::LowerHex), (1, FmtTrait::Display)],
    );
    assert!(display::generic_bounds(&params(&[]), &pairs, &types).is_empty());
}
