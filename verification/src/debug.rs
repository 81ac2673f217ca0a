//! The decisions of the `Debug` derive: which attributes may stand
//! together, how the body of `fmt` is built for a struct or an enum variant,
//! and which trait bounds it asks for.

use vstd::prelude::*;

verus! {

/// The `#[debug(...)]` attribute of a field.
#[derive(Debug, Clone, Copy, PartialEq, Eq, Structural)]
pub enum DebugFieldAttr {
    /// `#[debug("...", ...)]`: the field is formatted by the attribute.
    Fmt,
    /// `#[debug(skip)]` or `#[debug(ignore)]`: the field is left out.
    Skip,
}

/// The shape of the fields of a struct or an enum variant.
#[derive(Debug, Clone, Copy, PartialEq, Eq, Structural)]
pub enum FieldsKind {
    Named,
    Unnamed,
    Unit,
}

/// `#[debug("...", ...)]` on a struct or variant that also has it on a
/// field: the position of the first such field.
#[derive(Debug, Clone, Copy, PartialEq, Eq, Structural)]
pub struct FieldFmtNotAllowed(pub usize);

/// Checks the attributes of a struct or variant: with its own formatting
/// attribute, no field may have one.
pub fn validate_attrs(has_fmt: bool, fields: &Vec<Option<DebugFieldAttr>>) -> (r: Result<
    (),
    FieldFmtNotAllowed,
>)
    ensures
        match r {
            Ok(_) => !has_fmt || forall|i: int|
                0 <= i < fields@.len() ==> fields@[i] != Some(DebugFieldAttr::Fmt),
            Err(FieldFmtNotAllowed(i)) => has_fmt && i < fields@.len() && fields@[i as int] == Some(
                DebugFieldAttr::Fmt,
            ) && forall|k: int| 0 <= k < i ==> fields@[k] != Some(DebugFieldAttr::Fmt),
        },
{
    if !has_fmt {
        return Ok(());
    }
    let mut i: usize = 0;
    while i < fields.len()
        invariant
            has_fmt,
            i <= fields.len(),
            forall|k: int| 0 <= k < i ==> fields@[k] != Some(DebugFieldAttr::Fmt),
        decreases fields.len() - i,
    {
        if fields[i] == Some(DebugFieldAttr::Fmt) {
            return Err(FieldFmtNotAllowed(i));
        }
        i = i + 1;
    }
    Ok(())
}

/// A field that the body formats: by its value, or by its attribute.
#[derive(Debug, Clone, Copy, PartialEq, Eq, Structural)]
pub enum DebugEntry {
    Plain(usize),
    Formatted(usize),
}

/// The body of `fmt` for a struct or an enum variant.
#[derive(Debug)]
pub enum DebugBody {
    /// `write!(f, ..)` of the struct's or variant's own attribute.
    Write,
    /// `f.write_str(name)`, for a unit struct or variant.
    Name,
    /// A `debug_tuple` of the entries, finished as non-exhaustive where a
    /// field was left out.
    Tuple { entries: Vec<DebugEntry>, exhaustive: bool },
    /// A `debug_struct` of the entries, finished as non-exhaustive where a
    /// field was left out.
    Struct { entries: Vec<DebugEntry>, exhaustive: bool },
}

/// The entries of the first `n` fields: those not left out, in order.
pub open spec fn entries(fields: Seq<Option<DebugFieldAttr>>, n: int) -> Seq<DebugEntry>
    decreases n,
{
    if n <= 0 {
        Seq::empty()
    } else {
        let rest = entries(fields, n - 1);
        match fields[n - 1] {
            Some(DebugFieldAttr::Skip) => rest,
            Some(DebugFieldAttr::Fmt) => rest.push(DebugEntry::Formatted((n - 1) as usize)),
            None => rest.push(DebugEntry::Plain((n - 1) as usize)),
        }
    }
}

/// Whether no field is left out.
pub open spec fn exhaustive(fields: Seq<Option<DebugFieldAttr>>) -> bool {
    forall|i: int| 0 <= i < fields.len() ==> fields[i] != Some(DebugFieldAttr::Skip)
}

/// The field that an entry prints.
pub open spec fn entry_field(e: DebugEntry) -> usize {
    match e {
        DebugEntry::Plain(i) => i,
        DebugEntry::Formatted(i) => i,
    }
}

/// The output of a tuple or struct is exhaustive exactly where no field is
/// left out: one field with `#[debug(skip)]` (or `ignore`), wherever it
/// stands, the last one included, makes it end in `..`.
pub proof fn lemma_exhaustive_iff_nothing_skipped(fields: Seq<Option<DebugFieldAttr>>)
    ensures
        (exists|i: int| 0 <= i < fields.len() && fields[i] == Some(DebugFieldAttr::Skip))
            ==> !exhaustive(fields),
        (forall|i: int| 0 <= i < fields.len() ==> fields[i] != Some(DebugFieldAttr::Skip))
            ==> exhaustive(fields),
{
}

/// The entries print the fields that are not left out, each once, in the
/// order of the fields: a field with its own formatting attribute through
/// that attribute, any other plainly.
pub proof fn lemma_entries_are_kept_fields(fields: Seq<Option<DebugFieldAttr>>, n: int)
    requires
        0 <= n <= fields.len() <= usize::MAX,
    ensures
        forall|k: int|
            0 <= k < entries(fields, n).len() ==> {
                let f = entry_field(#[trigger] entries(fields, n)[k]) as int;
                &&& 0 <= f < n
                &&& fields[f] != Some(DebugFieldAttr::Skip)
                &&& (entries(fields, n)[k] is Formatted <==> fields[f] == Some(DebugFieldAttr::Fmt))
            },
        forall|k: int, l: int|
            0 <= k < l < entries(fields, n).len() ==> entry_field(#[trigger] entries(fields, n)[k])
                < entry_field(#[trigger] entries(fields, n)[l]),
        forall|f: int|
            0 <= f < n && fields[f] != Some(DebugFieldAttr::Skip) ==> exists|k: int|
                0 <= k < entries(fields, n).len() && entry_field(#[trigger] entries(fields, n)[k])
                    == f,
    decreases n,
{
    if n > 0 {
        lemma_entries_are_kept_fields(fields, n - 1);
        let prev = entries(fields, n - 1);
        let cur = entries(fields, n);
        if fields[n - 1] != Some(DebugFieldAttr::Skip) {
            assert(cur.len() == prev.len() + 1);
            assert forall|k: int| 0 <= k < prev.len() implies cur[k] == prev[k] by {}
            assert(entry_field(cur[prev.len() as int]) == n - 1);
            assert forall|k: int, l: int| 0 <= k < l < cur.len() implies entry_field(
                #[trigger] cur[k],
            ) < entry_field(#[trigger] cur[l]) by {
                assert(cur[k] == prev[k]);
                if l < prev.len() {
                    assert(cur[l] == prev[l]);
                }
            }
            assert forall|f: int| 0 <= f < n && fields[f] != Some(DebugFieldAttr::Skip) implies exists|
                k: int,
            | 0 <= k < cur.len() && entry_field(#[trigger] cur[k]) == f by {
                if f < n - 1 {
                    let k = choose|k: int| 0 <= k < prev.len() && entry_field(#[trigger] prev[k]) == f;
                    assert(cur[k] == prev[k]);
                } else {
                    assert(entry_field(cur[prev.len() as int]) == f);
                }
            }
        }
    }
}

/// The entries of the fields and whether none is left out.
fn field_entries(fields: &Vec<Option<DebugFieldAttr>>) -> (r: (Vec<DebugEntry>, bool))
    ensures
        r.0@ == entries(fields@, fields@.len() as int),
        r.1 == exhaustive(fields@),
        r.1 <==> forall|i: int| 0 <= i < fields@.len() ==> fields@[i] != Some(DebugFieldAttr::Skip),
{
    let mut out: Vec<DebugEntry> = Vec::new();
    let mut all = true;
    let mut i: usize = 0;
    while i < fields.len()
        invariant
            i <= fields.len(),
            out@ == entries(fields@, i as int),
            all == forall|k: int| 0 <= k < i ==> fields@[k] != Some(DebugFieldAttr::Skip),
        decreases fields.len() - i,
    {
        match fields[i] {
            Some(DebugFieldAttr::Skip) => {
                all = false;
            },
            Some(DebugFieldAttr::Fmt) => {
                out.push(DebugEntry::Formatted(i));
            },
            None => {
                out.push(DebugEntry::Plain(i));
            },
        }
        i = i + 1;
    }
    (out, all)
}

/// Builds the body of `fmt` for a struct or variant: its own attribute
/// where it has one; else its name for a unit, or a tuple or struct builder
/// of the fields that are not left out.
pub fn generate_body(has_fmt: bool, kind: FieldsKind, fields: &Vec<Option<DebugFieldAttr>>) -> (r:
    DebugBody)
    ensures
        has_fmt ==> r is Write,
        !has_fmt && kind is Unit ==> r is Name,
        !has_fmt && kind is Unnamed ==> (r matches DebugBody::Tuple { entries: e, exhaustive: x }
            && e@ == entries(fields@, fields@.len() as int) && x == exhaustive(fields@)),
        !has_fmt && kind is Named ==> (r matches DebugBody::Struct { entries: e, exhaustive: x }
            && e@ == entries(fields@, fields@.len() as int) && x == exhaustive(fields@)),
{
    if has_fmt {
        return DebugBody::Write;
    }
    match kind {
        FieldsKind::Unit => DebugBody::Name,
        FieldsKind::Unnamed => {
            let (entries, exhaustive) = field_entries(fields);
            DebugBody::Tuple { entries, exhaustive }
        },
        FieldsKind::Named => {
            let (entries, exhaustive) = field_entries(fields);
            DebugBody::Struct { entries, exhaustive }
        },
    }
}

/// A trait bound that the derive asks for, beside the explicit bounds of
/// the attribute.
#[derive(Debug, Clone, Copy, PartialEq, Eq, Structural)]
pub enum DebugBound {
    /// The bounds of the struct's or variant's own attribute.
    OwnAttribute,
    /// `Debug` on the type of this field.
    FieldDebug(usize),
    /// The bounds of this field's attribute.
    FieldAttribute(usize),
}

/// The bounds for the first `n` fields.
pub open spec fn field_bounds(fields: Seq<Option<DebugFieldAttr>>, n: int) -> Seq<DebugBound>
    decreases n,
{
    if n <= 0 {
        Seq::empty()
    } else {
        let rest = field_bounds(fields, n - 1);
        match fields[n - 1] {
            Some(DebugFieldAttr::Skip) => rest,
            Some(DebugFieldAttr::Fmt) => rest.push(DebugBound::FieldAttribute((n - 1) as usize)),
            None => rest.push(DebugBound::FieldDebug((n - 1) as usize)),
        }
    }
}

/// The bounds follow the printed fields one for one: `Debug` on the type of
/// each field printed plainly, and the attribute's bounds of each field
/// printed through its attribute, in the same order; a field left out asks
/// for nothing.
pub proof fn lemma_bounds_follow_entries(fields: Seq<Option<DebugFieldAttr>>, n: int)
    requires
        0 <= n <= fields.len(),
    ensures
        field_bounds(fields, n).len() == entries(fields, n).len(),
        forall|k: int|
            0 <= k < entries(fields, n).len() ==> match #[trigger] entries(fields, n)[k] {
                DebugEntry::Plain(f) => field_bounds(fields, n)[k] == DebugBound::FieldDebug(f),
                DebugEntry::Formatted(f) => field_bounds(fields, n)[k] == DebugBound::FieldAttribute(
                    f,
                ),
            },
    decreases n,
{
    if n > 0 {
        lemma_bounds_follow_entries(fields, n - 1);
    }
}

/// Decides the trait bounds of a struct or variant: those of its own
/// attribute where it has one; else, field by field, `Debug` on the type of
/// a plain field and the bounds of a formatted field's attribute.
pub fn generate_bounds(has_fmt: bool, fields: &Vec<Option<DebugFieldAttr>>) -> (r: Vec<DebugBound>)
    ensures
        has_fmt ==> r@ == seq![DebugBound::OwnAttribute],
        !has_fmt ==> r@ == field_bounds(fields@, fields@.len() as int),
{
    let mut out: Vec<DebugBound> = Vec::new();
    if has_fmt {
        out.push(DebugBound::OwnAttribute);
        assert(out@ =~= seq![DebugBound::OwnAttribute]);
        return out;
    }
    let mut i: usize = 0;
    while i < fields.len()
        invariant
            i <= fields.len(),
            out@ == field_bounds(fields@, i as int),
        decreases fields.len() - i,
    {
        match fields[i] {
            Some(DebugFieldAttr::Skip) => {},
            Some(DebugFieldAttr::Fmt) => {
                out.push(DebugBound::FieldAttribute(i));
            },
            None => {
                out.push(DebugBound::FieldDebug(i));
            },
        }
        i = i + 1;
    }
    out
}

/// `#[debug("...", ...)]` is not allowed on an enum.
#[derive(Debug, Clone, Copy, PartialEq, Eq, Structural)]
pub struct EnumFmtNotAllowed;

/// Checks an enum: its variants carry the formatting attributes, the enum
/// itself does not.
pub fn check_enum(has_fmt: bool) -> (r: Result<(), EnumFmtNotAllowed>)
    ensures
        r is Ok <==> !has_fmt,
{
    if has_fmt {
        Err(EnumFmtNotAllowed)
    } else {
        Ok(())
    }
}

} // verus!
