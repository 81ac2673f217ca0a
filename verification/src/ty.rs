//! A plain model of Rust types as the derive macros inspect them, with the
//! structural equality of types and the structural search of one type in
//! another.
//!
//! Lists (tuple elements, path segments, generic arguments) are cons lists,
//! so that every function over a type recurses on its structure.

use vstd::prelude::*;
use vstd::string::*;

verus! {

/// A Rust type.
#[derive(Debug)]
pub enum Ty {
    /// `[elem; len]`, with the text of the length expression.
    Array(Box<Ty>, String),
    /// A bare function type, by its text, with its argument types and its
    /// return type (if any).
    BareFn(String, TyList, Option<Box<Ty>>),
    /// A type in an invisible group.
    Group(Box<Ty>),
    /// `impl Bounds`, by its text.
    ImplTrait(String),
    /// `_`
    Infer,
    /// A macro in type position, by its text.
    Macro(String),
    /// `!`
    Never,
    /// `(elem)`
    Paren(Box<Ty>),
    /// A path, possibly qualified: `<qself as Trait>::rest` where `qself` is
    /// given with the number of segments that belong to the trait.
    Path(Option<Box<Ty>>, usize, bool, SegList),
    /// `*const elem` or (when `true`) `*mut elem`.
    Ptr(bool, Box<Ty>),
    /// `&'lifetime mut elem`, with the lifetime's name and mutability.
    Reference(Option<String>, bool, Box<Ty>),
    /// `[elem]`
    Slice(Box<Ty>),
    /// `dyn Bounds`, by its text, with its bounds.
    TraitObject(String, BoundList),
    /// `(elems, ...)`
    Tuple(TyList),
    /// Tokens that form no other variant, by their text.
    Verbatim(String),
}

/// A list of types.
#[derive(Debug)]
pub enum TyList {
    Nil,
    Cons(Box<Ty>, Box<TyList>),
}

/// The segments of a path: identifier and arguments of each.
#[derive(Debug)]
pub enum SegList {
    Nil,
    Cons(String, PathArgs, Box<SegList>),
}

/// The arguments of a path segment.
#[derive(Debug)]
pub enum PathArgs {
    /// No arguments.
    NoArgs,
    /// `<...>`, with whether it is written `::<...>`.
    AngleBracketed(bool, ArgList),
    /// `(...) -> ...`, by its text, with the argument types and the return
    /// type (if any).
    Parenthesized(String, TyList, Option<Box<Ty>>),
}

/// The bounds of a trait object.
#[derive(Debug)]
pub enum BoundList {
    Nil,
    /// A trait bound, by the segments of its path.
    Trait(SegList, Box<BoundList>),
    /// A lifetime or any other bound.
    Other(Box<BoundList>),
}

/// A list of generic arguments.
#[derive(Debug)]
pub enum ArgList {
    Nil,
    /// A type argument.
    Type(Box<Ty>, Box<ArgList>),
    /// An associated type binding `Name = Type`, by its text, with the type.
    AssocType(String, Box<Ty>, Box<ArgList>),
    /// Any other argument (lifetime, constant, associated item, bound), by
    /// its text.
    Other(String, Box<ArgList>),
}

/// Two optional strings hold the same text.
pub open spec fn same_opt_text(a: Option<String>, b: Option<String>) -> bool {
    match (a, b) {
        (Some(x), Some(y)) => x@ == y@,
        (None, None) => true,
        _ => false,
    }
}

/// Two types are equal as syntax trees.
pub open spec fn ty_same(a: Ty, b: Ty) -> bool
    decreases a,
{
    match (a, b) {
        (Ty::Array(x, n), Ty::Array(y, m)) => n@ == m@ && ty_same(*x, *y),
        (Ty::BareFn(x, _, _), Ty::BareFn(y, _, _)) => x@ == y@,
        (Ty::Group(x), Ty::Group(y)) => ty_same(*x, *y),
        (Ty::ImplTrait(x), Ty::ImplTrait(y)) => x@ == y@,
        (Ty::Infer, Ty::Infer) => true,
        (Ty::Macro(x), Ty::Macro(y)) => x@ == y@,
        (Ty::Never, Ty::Never) => true,
        (Ty::Paren(x), Ty::Paren(y)) => ty_same(*x, *y),
        (Ty::Path(qx, px, lx, sx), Ty::Path(qy, py, ly, sy)) => {
            &&& px == py
            &&& lx == ly
            &&& match (qx, qy) {
                (Some(x), Some(y)) => ty_same(*x, *y),
                (None, None) => true,
                _ => false,
            }
            &&& segs_same(sx, sy)
        },
        (Ty::Ptr(mx, x), Ty::Ptr(my, y)) => mx == my && ty_same(*x, *y),
        (Ty::Reference(lx, mx, x), Ty::Reference(ly, my, y)) => same_opt_text(lx, ly) && mx == my
            && ty_same(*x, *y),
        (Ty::Slice(x), Ty::Slice(y)) => ty_same(*x, *y),
        (Ty::TraitObject(x, _), Ty::TraitObject(y, _)) => x@ == y@,
        (Ty::Tuple(x), Ty::Tuple(y)) => tys_same(x, y),
        (Ty::Verbatim(x), Ty::Verbatim(y)) => x@ == y@,
        _ => false,
    }
}

/// Two lists of types are equal element by element.
pub open spec fn tys_same(a: TyList, b: TyList) -> bool
    decreases a,
{
    match (a, b) {
        (TyList::Nil, TyList::Nil) => true,
        (TyList::Cons(x, xs), TyList::Cons(y, ys)) => ty_same(*x, *y) && tys_same(*xs, *ys),
        _ => false,
    }
}

/// Two lists of path segments are equal segment by segment.
pub open spec fn segs_same(a: SegList, b: SegList) -> bool
    decreases a,
{
    match (a, b) {
        (SegList::Nil, SegList::Nil) => true,
        (SegList::Cons(ix, ax, xs), SegList::Cons(iy, ay, ys)) => ix@ == iy@ && path_args_same(
            ax,
            ay,
        ) && segs_same(*xs, *ys),
        _ => false,
    }
}

/// Two path arguments are equal.
pub open spec fn path_args_same(a: PathArgs, b: PathArgs) -> bool
    decreases a,
{
    match (a, b) {
        (PathArgs::NoArgs, PathArgs::NoArgs) => true,
        (PathArgs::AngleBracketed(tx, x), PathArgs::AngleBracketed(ty, y)) => tx == ty && args_same(
            x,
            y,
        ),
        (PathArgs::Parenthesized(x, _, _), PathArgs::Parenthesized(y, _, _)) => x@ == y@,
        _ => false,
    }
}

/// Two lists of generic arguments are equal argument by argument.
pub open spec fn args_same(a: ArgList, b: ArgList) -> bool
    decreases a,
{
    match (a, b) {
        (ArgList::Nil, ArgList::Nil) => true,
        (ArgList::Type(x, xs), ArgList::Type(y, ys)) => ty_same(*x, *y) && args_same(*xs, *ys),
        (ArgList::AssocType(x, _, xs), ArgList::AssocType(y, _, ys)) => x@ == y@ && args_same(
            *xs,
            *ys,
        ),
        (ArgList::Other(x, xs), ArgList::Other(y, ys)) => x@ == y@ && args_same(*xs, *ys),
        _ => false,
    }
}

/// Checks whether two strings hold the same text.
pub fn same_text(a: &String, b: &String) -> (r: bool)
    ensures
        r == (a@ == b@),
{
    *a == *b
}

fn same_opt(a: &Option<String>, b: &Option<String>) -> (r: bool)
    ensures
        r == same_opt_text(*a, *b),
{
    match (a, b) {
        (Some(x), Some(y)) => same_text(x, y),
        (None, None) => true,
        _ => false,
    }
}

impl Ty {
    /// Checks whether two types are equal as syntax trees.
    pub fn same(&self, other: &Ty) -> (r: bool)
        ensures
            r == ty_same(*self, *other),
        decreases *self,
    {
        match (self, other) {
            (Ty::Array(x, n), Ty::Array(y, m)) => same_text(n, m) && x.same(y),
            (Ty::BareFn(x, _, _), Ty::BareFn(y, _, _)) => same_text(x, y),
            (Ty::Group(x), Ty::Group(y)) => x.same(y),
            (Ty::ImplTrait(x), Ty::ImplTrait(y)) => same_text(x, y),
            (Ty::Infer, Ty::Infer) => true,
            (Ty::Macro(x), Ty::Macro(y)) => same_text(x, y),
            (Ty::Never, Ty::Never) => true,
            (Ty::Paren(x), Ty::Paren(y)) => x.same(y),
            (Ty::Path(qx, px, lx, sx), Ty::Path(qy, py, ly, sy)) => {
                if *px != *py || *lx != *ly {
                    return false;
                }
                let q = match (qx, qy) {
                    (Some(x), Some(y)) => x.same(y),
                    (None, None) => true,
                    _ => false,
                };
                q && sx.same(sy)
            },
            (Ty::Ptr(mx, x), Ty::Ptr(my, y)) => *mx == *my && x.same(y),
            (Ty::Reference(lx, mx, x), Ty::Reference(ly, my, y)) => same_opt(lx, ly) && *mx == *my
                && x.same(y),
            (Ty::Slice(x), Ty::Slice(y)) => x.same(y),
            (Ty::TraitObject(x, _), Ty::TraitObject(y, _)) => same_text(x, y),
            (Ty::Tuple(x), Ty::Tuple(y)) => x.same(y),
            (Ty::Verbatim(x), Ty::Verbatim(y)) => same_text(x, y),
            _ => false,
        }
    }
}

impl TyList {
    /// Checks whether two lists of types are equal element by element.
    pub fn same(&self, other: &TyList) -> (r: bool)
        ensures
            r == tys_same(*self, *other),
        decreases *self,
    {
        match (self, other) {
            (TyList::Nil, TyList::Nil) => true,
            (TyList::Cons(x, xs), TyList::Cons(y, ys)) => x.same(y) && xs.same(ys),
            _ => false,
        }
    }
}

impl SegList {
    /// Checks whether two lists of path segments are equal.
    pub fn same(&self, other: &SegList) -> (r: bool)
        ensures
            r == segs_same(*self, *other),
        decreases *self,
    {
        match (self, other) {
            (SegList::Nil, SegList::Nil) => true,
            (SegList::Cons(ix, ax, xs), SegList::Cons(iy, ay, ys)) => same_text(ix, iy) && ax.same(
                ay,
            ) && xs.same(ys),
            _ => false,
        }
    }
}

impl PathArgs {
    /// Checks whether two path arguments are equal.
    pub fn same(&self, other: &PathArgs) -> (r: bool)
        ensures
            r == path_args_same(*self, *other),
        decreases *self,
    {
        match (self, other) {
            (PathArgs::NoArgs, PathArgs::NoArgs) => true,
            (PathArgs::AngleBracketed(tx, x), PathArgs::AngleBracketed(ty, y)) => *tx == *ty
                && x.same(y),
            (PathArgs::Parenthesized(x, _, _), PathArgs::Parenthesized(y, _, _)) => same_text(x, y),
            _ => false,
        }
    }
}

impl ArgList {
    /// Checks whether two lists of generic arguments are equal.
    pub fn same(&self, other: &ArgList) -> (r: bool)
        ensures
            r == args_same(*self, *other),
        decreases *self,
    {
        match (self, other) {
            (ArgList::Nil, ArgList::Nil) => true,
            (ArgList::Type(x, xs), ArgList::Type(y, ys)) => x.same(y) && xs.same(ys),
            (ArgList::AssocType(x, _, xs), ArgList::AssocType(y, _, ys)) => same_text(x, y)
                && xs.same(ys),
            (ArgList::Other(x, xs), ArgList::Other(y, ys)) => same_text(x, y) && xs.same(ys),
            _ => false,
        }
    }
}

/// `needle` occurs in `t` as part of its structure: `t` is `needle`, or
/// `needle` occurs in the element of an array, group, parenthesized type,
/// pointer, reference or slice, in an element of a tuple, or in a type
/// argument of a segment of a path. It does not look into bare functions,
/// `impl` and `dyn` bounds, macros or the qualified self of a path.
pub open spec fn contains_structurally(t: Ty, needle: Ty) -> bool
    decreases t,
{
    ty_same(t, needle) || match t {
        Ty::Array(e, _) => contains_structurally(*e, needle),
        Ty::Group(e) => contains_structurally(*e, needle),
        Ty::Paren(e) => contains_structurally(*e, needle),
        Ty::Ptr(_, e) => contains_structurally(*e, needle),
        Ty::Reference(_, _, e) => contains_structurally(*e, needle),
        Ty::Slice(e) => contains_structurally(*e, needle),
        Ty::Tuple(l) => list_contains(l, needle),
        Ty::Path(_, _, _, segs) => segs_contain(segs, needle),
        _ => false,
    }
}

/// `needle` occurs structurally in an element of the list.
pub open spec fn list_contains(l: TyList, needle: Ty) -> bool
    decreases l,
{
    match l {
        TyList::Nil => false,
        TyList::Cons(t, rest) => contains_structurally(*t, needle) || list_contains(*rest, needle),
    }
}

/// `needle` occurs structurally in a type argument of one of the segments.
pub open spec fn segs_contain(s: SegList, needle: Ty) -> bool
    decreases s,
{
    match s {
        SegList::Nil => false,
        SegList::Cons(_, args, rest) => (match args {
            PathArgs::AngleBracketed(_, a) => args_contain(a, needle),
            _ => false,
        }) || segs_contain(*rest, needle),
    }
}

/// `needle` occurs structurally in one of the type arguments.
pub open spec fn args_contain(a: ArgList, needle: Ty) -> bool
    decreases a,
{
    match a {
        ArgList::Nil => false,
        ArgList::Type(t, rest) => contains_structurally(*t, needle) || args_contain(*rest, needle),
        ArgList::AssocType(_, _, rest) => args_contain(*rest, needle),
        ArgList::Other(_, rest) => args_contain(*rest, needle),
    }
}

impl Ty {
    /// Checks whether `needle` is contained within this type structurally (as
    /// part of its actual structure).
    ///
    /// This gives false positives where a type parameter is not used
    /// directly but through an associated type (`T::Assoc`), as the
    /// structure of a type cannot be scanned by its name only.
    pub fn contains_type_structurally(&self, needle: &Ty) -> (r: bool)
        ensures
            r == contains_structurally(*self, *needle),
        decreases *self,
    {
        if self.same(needle) {
            return true;
        }
        match self {
            Ty::Array(e, _) => e.contains_type_structurally(needle),
            Ty::Group(e) => e.contains_type_structurally(needle),
            Ty::Paren(e) => e.contains_type_structurally(needle),
            Ty::Ptr(_, e) => e.contains_type_structurally(needle),
            Ty::Reference(_, _, e) => e.contains_type_structurally(needle),
            Ty::Slice(e) => e.contains_type_structurally(needle),
            Ty::Tuple(l) => l.contains_type_structurally(needle),
            Ty::Path(_, _, _, segs) => segs.contains_type_structurally(needle),
            _ => false,
        }
    }
}

impl TyList {
    /// Checks whether `needle` is contained structurally in an element.
    pub fn contains_type_structurally(&self, needle: &Ty) -> (r: bool)
        ensures
            r == list_contains(*self, *needle),
        decreases *self,
    {
        match self {
            TyList::Nil => false,
            TyList::Cons(t, rest) => t.contains_type_structurally(needle)
                || rest.contains_type_structurally(needle),
        }
    }
}

impl SegList {
    /// Checks whether `needle` is contained structurally in a type argument
    /// of one of the segments.
    pub fn contains_type_structurally(&self, needle: &Ty) -> (r: bool)
        ensures
            r == segs_contain(*self, *needle),
        decreases *self,
    {
        match self {
            SegList::Nil => false,
            SegList::Cons(_, args, rest) => {
                let here = match args {
                    PathArgs::AngleBracketed(_, a) => a.contains_type_structurally(needle),
                    _ => false,
                };
                here || rest.contains_type_structurally(needle)
            },
        }
    }
}

impl ArgList {
    /// Checks whether `needle` is contained structurally in a type argument.
    pub fn contains_type_structurally(&self, needle: &Ty) -> (r: bool)
        ensures
            r == args_contain(*self, *needle),
        decreases *self,
    {
        match self {
            ArgList::Nil => false,
            ArgList::Type(t, rest) => t.contains_type_structurally(needle)
                || rest.contains_type_structurally(needle),
            ArgList::AssocType(_, _, rest) => rest.contains_type_structurally(needle),
            ArgList::Other(_, rest) => rest.contains_type_structurally(needle),
        }
    }
}

/// Every type is equal to itself.
pub proof fn lemma_ty_same_reflexive(t: Ty)
    ensures
        ty_same(t, t),
    decreases t,
{
    match t {
        Ty::Array(e, _) => lemma_ty_same_reflexive(*e),
        Ty::Group(e) => lemma_ty_same_reflexive(*e),
        Ty::Paren(e) => lemma_ty_same_reflexive(*e),
        Ty::Path(q, _, _, segs) => {
            if let Some(x) = q {
                lemma_ty_same_reflexive(*x);
            }
            lemma_segs_same_reflexive(segs);
        },
        Ty::Ptr(_, e) => lemma_ty_same_reflexive(*e),
        Ty::Reference(_, _, e) => lemma_ty_same_reflexive(*e),
        Ty::Slice(e) => lemma_ty_same_reflexive(*e),
        Ty::Tuple(l) => lemma_tys_same_reflexive(l),
        _ => {},
    }
}

proof fn lemma_tys_same_reflexive(l: TyList)
    ensures
        tys_same(l, l),
    decreases l,
{
    if let TyList::Cons(t, rest) = l {
        lemma_ty_same_reflexive(*t);
        lemma_tys_same_reflexive(*rest);
    }
}

proof fn lemma_segs_same_reflexive(s: SegList)
    ensures
        segs_same(s, s),
    decreases s,
{
    if let SegList::Cons(_, args, rest) = s {
        if let PathArgs::AngleBracketed(_, a) = args {
            lemma_args_same_reflexive(a);
        }
        assert(path_args_same(args, args));
        lemma_segs_same_reflexive(*rest);
    }
}

proof fn lemma_args_same_reflexive(a: ArgList)
    ensures
        args_same(a, a),
    decreases a,
{
    match a {
        ArgList::Type(t, rest) => {
            lemma_ty_same_reflexive(*t);
            lemma_args_same_reflexive(*rest);
        },
        ArgList::AssocType(_, _, rest) => lemma_args_same_reflexive(*rest),
        ArgList::Other(_, rest) => lemma_args_same_reflexive(*rest),
        ArgList::Nil => {},
    }
}

/// Every type contains itself structurally.
pub proof fn lemma_contains_self(t: Ty)
    ensures
        contains_structurally(t, t),
{
    lemma_ty_same_reflexive(t);
}

/// Structural equality of types is symmetric.
pub proof fn lemma_ty_same_symmetric(a: Ty, b: Ty)
    requires
        ty_same(a, b),
    ensures
        ty_same(b, a),
    decreases a,
{
    match (a, b) {
        (Ty::Array(x, _), Ty::Array(y, _)) => lemma_ty_same_symmetric(*x, *y),
        (Ty::Group(x), Ty::Group(y)) => lemma_ty_same_symmetric(*x, *y),
        (Ty::Paren(x), Ty::Paren(y)) => lemma_ty_same_symmetric(*x, *y),
        (Ty::Path(qx, _, _, sx), Ty::Path(qy, _, _, sy)) => {
            match (qx, qy) {
                (Some(x), Some(y)) => lemma_ty_same_symmetric(*x, *y),
                _ => {},
            }
            lemma_segs_same_symmetric(sx, sy);
        },
        (Ty::Ptr(_, x), Ty::Ptr(_, y)) => lemma_ty_same_symmetric(*x, *y),
        (Ty::Reference(_, _, x), Ty::Reference(_, _, y)) => lemma_ty_same_symmetric(*x, *y),
        (Ty::Slice(x), Ty::Slice(y)) => lemma_ty_same_symmetric(*x, *y),
        (Ty::Tuple(x), Ty::Tuple(y)) => lemma_tys_same_symmetric(x, y),
        _ => {},
    }
}

proof fn lemma_tys_same_symmetric(a: TyList, b: TyList)
    requires
        tys_same(a, b),
    ensures
        tys_same(b, a),
    decreases a,
{
    match (a, b) {
        (TyList::Cons(x, xs), TyList::Cons(y, ys)) => {
            lemma_ty_same_symmetric(*x, *y);
            lemma_tys_same_symmetric(*xs, *ys);
        },
        _ => {},
    }
}

proof fn lemma_segs_same_symmetric(a: SegList, b: SegList)
    requires
        segs_same(a, b),
    ensures
        segs_same(b, a),
    decreases a,
{
    match (a, b) {
        (SegList::Cons(_, ax, xs), SegList::Cons(_, ay, ys)) => {
            assert(path_args_same(ax, ay));
            match (ax, ay) {
                (PathArgs::AngleBracketed(_, x), PathArgs::AngleBracketed(_, y)) => {
                    assert(args_same(x, y));
                    lemma_args_same_symmetric(x, y);
                },
                _ => {},
            }
            assert(path_args_same(ay, ax));
            lemma_segs_same_symmetric(*xs, *ys);
        },
        _ => {},
    }
}

proof fn lemma_args_same_symmetric(a: ArgList, b: ArgList)
    requires
        args_same(a, b),
    ensures
        args_same(b, a),
    decreases a,
{
    match (a, b) {
        (ArgList::Type(x, xs), ArgList::Type(y, ys)) => {
            lemma_ty_same_symmetric(*x, *y);
            lemma_args_same_symmetric(*xs, *ys);
        },
        (ArgList::AssocType(_, _, xs), ArgList::AssocType(_, _, ys)) => {
            lemma_args_same_symmetric(*xs, *ys);
        },
        (ArgList::Other(_, xs), ArgList::Other(_, ys)) => {
            lemma_args_same_symmetric(*xs, *ys);
        },
        _ => {},
    }
}

/// Structural equality of types is transitive.
pub proof fn lemma_ty_same_transitive(a: Ty, b: Ty, c: Ty)
    requires
        ty_same(a, b),
        ty_same(b, c),
    ensures
        ty_same(a, c),
    decreases a,
{
    match (a, b, c) {
        (Ty::Array(x, _), Ty::Array(y, _), Ty::Array(z, _)) => lemma_ty_same_transitive(*x, *y, *z),
        (Ty::Group(x), Ty::Group(y), Ty::Group(z)) => lemma_ty_same_transitive(*x, *y, *z),
        (Ty::Paren(x), Ty::Paren(y), Ty::Paren(z)) => lemma_ty_same_transitive(*x, *y, *z),
        (Ty::Path(qx, _, _, sx), Ty::Path(qy, _, _, sy), Ty::Path(qz, _, _, sz)) => {
            match (qx, qy, qz) {
                (Some(x), Some(y), Some(z)) => lemma_ty_same_transitive(*x, *y, *z),
                _ => {},
            }
            lemma_segs_same_transitive(sx, sy, sz);
        },
        (Ty::Ptr(_, x), Ty::Ptr(_, y), Ty::Ptr(_, z)) => lemma_ty_same_transitive(*x, *y, *z),
        (Ty::Reference(_, _, x), Ty::Reference(_, _, y), Ty::Reference(_, _, z)) => {
            lemma_ty_same_transitive(*x, *y, *z)
        },
        (Ty::Slice(x), Ty::Slice(y), Ty::Slice(z)) => lemma_ty_same_transitive(*x, *y, *z),
        (Ty::Tuple(x), Ty::Tuple(y), Ty::Tuple(z)) => lemma_tys_same_transitive(x, y, z),
        _ => {},
    }
}

proof fn lemma_tys_same_transitive(a: TyList, b: TyList, c: TyList)
    requires
        tys_same(a, b),
        tys_same(b, c),
    ensures
        tys_same(a, c),
    decreases a,
{
    match (a, b, c) {
        (TyList::Cons(x, xs), TyList::Cons(y, ys), TyList::Cons(z, zs)) => {
            lemma_ty_same_transitive(*x, *y, *z);
            lemma_tys_same_transitive(*xs, *ys, *zs);
        },
        _ => {},
    }
}

proof fn lemma_segs_same_transitive(a: SegList, b: SegList, c: SegList)
    requires
        segs_same(a, b),
        segs_same(b, c),
    ensures
        segs_same(a, c),
    decreases a,
{
    match (a, b, c) {
        (SegList::Cons(_, ax, xs), SegList::Cons(_, ay, ys), SegList::Cons(_, az, zs)) => {
            assert(path_args_same(ax, ay));
            assert(path_args_same(ay, az));
            match (ax, ay, az) {
                (
                    PathArgs::AngleBracketed(_, x),
                    PathArgs::AngleBracketed(_, y),
                    PathArgs::AngleBracketed(_, z),
                ) => {
                    assert(args_same(x, y));
                    assert(args_same(y, z));
                    lemma_args_same_transitive(x, y, z);
                },
                _ => {},
            }
            assert(path_args_same(ax, az));
            lemma_segs_same_transitive(*xs, *ys, *zs);
        },
        _ => {},
    }
}

proof fn lemma_args_same_transitive(a: ArgList, b: ArgList, c: ArgList)
    requires
        args_same(a, b),
        args_same(b, c),
    ensures
        args_same(a, c),
    decreases a,
{
    match (a, b, c) {
        (ArgList::Type(x, xs), ArgList::Type(y, ys), ArgList::Type(z, zs)) => {
            lemma_ty_same_transitive(*x, *y, *z);
            lemma_args_same_transitive(*xs, *ys, *zs);
        },
        (ArgList::AssocType(_, _, xs), ArgList::AssocType(_, _, ys), ArgList::AssocType(_, _, zs)) => {
            lemma_args_same_transitive(*xs, *ys, *zs);
        },
        (ArgList::Other(_, xs), ArgList::Other(_, ys), ArgList::Other(_, zs)) => {
            lemma_args_same_transitive(*xs, *ys, *zs);
        },
        _ => {},
    }
}

/// Searching for two structurally equal types gives the same answer.
pub proof fn lemma_contains_same_needle(t: Ty, n1: Ty, n2: Ty)
    requires
        ty_same(n1, n2),
    ensures
        contains_structurally(t, n1) == contains_structurally(t, n2),
    decreases t,
{
    lemma_ty_same_symmetric(n1, n2);
    if ty_same(t, n1) {
        lemma_ty_same_transitive(t, n1, n2);
    }
    if ty_same(t, n2) {
        lemma_ty_same_transitive(t, n2, n1);
    }
    match t {
        Ty::Array(e, _) => lemma_contains_same_needle(*e, n1, n2),
        Ty::Group(e) => lemma_contains_same_needle(*e, n1, n2),
        Ty::Paren(e) => lemma_contains_same_needle(*e, n1, n2),
        Ty::Ptr(_, e) => lemma_contains_same_needle(*e, n1, n2),
        Ty::Reference(_, _, e) => lemma_contains_same_needle(*e, n1, n2),
        Ty::Slice(e) => lemma_contains_same_needle(*e, n1, n2),
        Ty::Tuple(l) => lemma_list_contains_same_needle(l, n1, n2),
        Ty::Path(_, _, _, segs) => lemma_segs_contain_same_needle(segs, n1, n2),
        _ => {},
    }
}

proof fn lemma_list_contains_same_needle(l: TyList, n1: Ty, n2: Ty)
    requires
        ty_same(n1, n2),
    ensures
        list_contains(l, n1) == list_contains(l, n2),
    decreases l,
{
    if let TyList::Cons(t, rest) = l {
        lemma_contains_same_needle(*t, n1, n2);
        lemma_list_contains_same_needle(*rest, n1, n2);
    }
}

proof fn lemma_segs_contain_same_needle(s: SegList, n1: Ty, n2: Ty)
    requires
        ty_same(n1, n2),
    ensures
        segs_contain(s, n1) == segs_contain(s, n2),
    decreases s,
{
    if let SegList::Cons(_, args, rest) = s {
        if let PathArgs::AngleBracketed(_, a) = args {
            lemma_args_contain_same_needle(a, n1, n2);
        }
        lemma_segs_contain_same_needle(*rest, n1, n2);
    }
}

proof fn lemma_args_contain_same_needle(a: ArgList, n1: Ty, n2: Ty)
    requires
        ty_same(n1, n2),
    ensures
        args_contain(a, n1) == args_contain(a, n2),
    decreases a,
{
    match a {
        ArgList::Type(t, rest) => {
            lemma_contains_same_needle(*t, n1, n2);
            lemma_args_contain_same_needle(*rest, n1, n2);
        },
        ArgList::AssocType(_, _, rest) => lemma_args_contain_same_needle(*rest, n1, n2),
        ArgList::Other(_, rest) => lemma_args_contain_same_needle(*rest, n1, n2),
        ArgList::Nil => {},
    }
}

/// `t` is the type `Self`.
pub open spec fn is_self_ty(t: Ty) -> bool {
    t matches Ty::Path(None, 0, false, SegList::Cons(id, PathArgs::NoArgs, rest)) && id@ == "Self"@
        && *rest is Nil
}

/// `Self` occurs in `t` as part of its structure.
pub open spec fn contains_self(t: Ty) -> bool {
    exists|s: Ty| is_self_ty(s) && contains_structurally(t, s)
}

/// Any two `Self` types are structurally equal.
proof fn lemma_self_tys_same(s: Ty, t: Ty)
    requires
        is_self_ty(s),
        is_self_ty(t),
    ensures
        ty_same(s, t),
{
    if let (Ty::Path(_, _, _, ss), Ty::Path(_, _, _, st)) = (s, t) {
        if let (SegList::Cons(_, a, ra), SegList::Cons(_, b, rb)) = (ss, st) {
            assert(path_args_same(a, b));
            assert(segs_same(*ra, *rb));
            assert(segs_same(ss, st));
        }
    }
}

/// The type `Self`.
fn self_ty() -> (r: Ty)
    ensures
        is_self_ty(r),
{
    Ty::Path(
        None,
        0,
        false,
        SegList::Cons(String::from_str("Self"), PathArgs::NoArgs, Box::new(SegList::Nil)),
    )
}

impl Ty {
    /// Checks whether `Self` is contained within this type structurally.
    pub fn contains_self(&self) -> (r: bool)
        ensures
            r == contains_self(*self),
    {
        let s = self_ty();
        let r = self.contains_type_structurally(&s);
        proof {
            if r {
                assert(is_self_ty(s) && contains_structurally(*self, s));
            } else {
                assert forall|t: Ty| is_self_ty(t) implies !contains_structurally(*self, t) by {
                    lemma_self_tys_same(s, t);
                    lemma_contains_same_needle(*self, s, t);
                }
            }
        }
        r
    }
}

/// Decides whether a field type needs the derived trait as a bound: it
/// mentions a generic parameter (as the caller found), and contains neither
/// `Self` nor the implementing type (whose implementation is the one being
/// written).
pub fn needs_trait_bound(field_ty: &Ty, mentions_generic: bool, implementor: &Ty) -> (r: bool)
    ensures
        r == (mentions_generic && !contains_self(*field_ty) && !contains_structurally(
            *field_ty,
            *implementor,
        )),
{
    mentions_generic && !field_ty.contains_self() && !field_ty.contains_type_structurally(
        implementor,
    )
}

} // verus!
