//! The token grammar of the `#[into(...)]` attribute:
//!
//! ```text
//! entries := ( entry [','] ) *
//! entry   := ('owned' | 'ref' | 'ref_mut') [ '(' [ type (',' type) * [','] ] ')' ]
//!          | type
//! ```
//!
//! and of the items that the check for the legacy `types(...)` syntax reads:
//!
//! ```text
//! items := [ item (',' item) * [','] ]
//! item  := string-literal | literal | path [ '(' items ')' ]
//! path  := ident ( '::' ident ) *
//! ```

use vstd::prelude::*;
use vstd::string::*;

use crate::fmt::{ident_at, ident_text, joint_punct_at, literal_value, str_literal_value};
use crate::into::{IntoEntry, MetaItem};
use crate::parsing::{paren_group_at, TokenRange};
use crate::text::text_is;
use crate::fmt::is_joint_punct_at;
use crate::tokens::{is_punct_at, punct_at, push_text, seq_text, Delimiter, TokenTree};

verus! {

/// Where an attribute's type stands: the run `range` of the attribute's
/// tokens, or of the inner tokens of the parenthesized group at position
/// `group` of the attribute's tokens.
#[derive(Debug, Clone, Copy, PartialEq, Eq, Structural)]
pub struct TypeAt {
    pub group: Option<usize>,
    pub range: TokenRange,
}

/// An entry of an `#[into(...)]` attribute, with its types where they stand.
pub enum EntrySpec {
    Owned(Seq<TypeAt>),
    Ref(Seq<TypeAt>),
    RefMut(Seq<TypeAt>),
    Type(TypeAt),
}

/// Whether `text` reads, whole, as one type by `syn`'s type grammar.
pub uninterp spec fn syn_parses_type(text: Seq<char>) -> bool;

/// Reads `text` with `syn::parse_str::<syn::Type>`, which succeeds where the
/// whole text is one type. The contract names the result `syn_parses_type`
/// of the text and says no more: the type grammar is `syn`'s.
#[verifier::external_body]
fn parses_as_type(text: &Vec<char>) -> (r: bool)
    ensures
        r == syn_parses_type(text@),
{
    let text: String = text.iter().collect();
    syn::parse_str::<syn::Type>(&text).is_ok()
}

/// The longest run of tokens `pos..e`, with `e` at most `end`, whose text
/// reads as one type.
pub open spec fn type_end_below(s: Seq<TokenTree>, pos: int, end: int) -> Option<int>
    decreases end - pos,
{
    if end <= pos {
        None
    } else if syn_parses_type(seq_text(s.subrange(pos, end))) {
        Some(end)
    } else {
        type_end_below(s, pos, end - 1)
    }
}

/// Where the type that begins at `pos` ends, as `syn` reads a type in a
/// stream of tokens: it takes the longest run of tokens that is one type.
pub open spec fn type_end(s: Seq<TokenTree>, pos: int) -> Option<int> {
    type_end_below(s, pos, s.len() as int)
}

/// The types of a parenthesized list, from position `cur` of its inner
/// tokens: types separated by `,`, with an optional `,` at the end.
pub open spec fn spec_type_list(inner: Seq<TokenTree>, cur: int, group: usize) -> Option<
    Seq<TypeAt>,
>
    decreases inner.len() - cur,
{
    if !(0 <= cur < inner.len()) {
        Some(Seq::empty())
    } else {
        match type_end(inner, cur) {
            Some(q) => if cur < q <= inner.len() {
                let t = TypeAt {
                    group: Some(group),
                    range: TokenRange { start: cur as usize, end: q as usize },
                };
                if q == inner.len() {
                    Some(seq![t])
                } else if punct_at(inner, q, ',') {
                    match spec_type_list(inner, q + 1, group) {
                        Some(rest) => Some(seq![t] + rest),
                        None => None,
                    }
                } else {
                    None
                }
            } else {
                None
            },
            None => None,
        }
    }
}

/// `tokens[pos]` is the identifier `word`.
pub open spec fn word_at(s: Seq<TokenTree>, pos: int, word: Seq<char>) -> bool {
    ident_at(s, pos) && ident_text(s[pos]) == word
}

/// The entry that a wrapper word at `pos` makes with the types `ts`.
pub open spec fn wrapped_entry(s: Seq<TokenTree>, pos: int, ts: Seq<TypeAt>) -> EntrySpec {
    if word_at(s, pos, "owned"@) {
        EntrySpec::Owned(ts)
    } else if word_at(s, pos, "ref"@) {
        EntrySpec::Ref(ts)
    } else {
        EntrySpec::RefMut(ts)
    }
}

/// `tokens[pos]` is `owned`, `ref` or `ref_mut`.
pub open spec fn wrapper_at(s: Seq<TokenTree>, pos: int) -> bool {
    word_at(s, pos, "owned"@) || word_at(s, pos, "ref"@) || word_at(s, pos, "ref_mut"@)
}

/// `pos`, moved past a `,` where one stands there.
pub open spec fn skip_comma(s: Seq<TokenTree>, pos: int) -> int {
    if punct_at(s, pos, ',') {
        pos + 1
    } else {
        pos
    }
}

/// The entry at `pos` (where `pos` is within the tokens) and the position
/// after it and the `,` that may follow it; `None` where it cannot be read.
pub open spec fn spec_entry_at(s: Seq<TokenTree>, pos: int) -> Option<(EntrySpec, int)> {
    if wrapper_at(s, pos) {
        let (types, p1) = match paren_group_at(s, pos + 1) {
            Some(inner) => (spec_type_list(inner, 0, (pos + 1) as usize), pos + 2),
            None => (Some(Seq::<TypeAt>::empty()), pos + 1),
        };
        match types {
            Some(ts) => Some((wrapped_entry(s, pos, ts), skip_comma(s, p1))),
            None => None,
        }
    } else {
        match type_end(s, pos) {
            Some(q) => if pos < q <= s.len() {
                Some(
                    (
                        EntrySpec::Type(
                            TypeAt {
                                group: None,
                                range: TokenRange { start: pos as usize, end: q as usize },
                            },
                        ),
                        skip_comma(s, q),
                    ),
                )
            } else {
                None
            },
            None => None,
        }
    }
}

/// The entries of an `#[into(...)]` attribute from `pos` on; `None` where
/// they cannot be read.
pub open spec fn spec_entries_from(s: Seq<TokenTree>, pos: int) -> Option<Seq<EntrySpec>>
    decreases s.len() - pos,
{
    if !(0 <= pos < s.len()) {
        Some(Seq::empty())
    } else {
        match spec_entry_at(s, pos) {
            Some((e, next)) => if pos < next {
                match spec_entries_from(s, next) {
                    Some(rest) => Some(seq![e] + rest),
                    None => None,
                }
            } else {
                None
            },
            None => None,
        }
    }
}

/// The entries of an `#[into(...)]` attribute's tokens.
pub open spec fn spec_into_entries(s: Seq<TokenTree>) -> Option<Seq<EntrySpec>> {
    spec_entries_from(s, 0)
}

/// The types that the indices `ix` refer to.
pub open spec fn types_of(ix: Seq<usize>, ts: Seq<TypeAt>) -> Seq<TypeAt> {
    ix.map_values(|i: usize| ts[i as int])
}

/// An entry, with its indices replaced by the types they refer to.
pub open spec fn entry_view(e: IntoEntry, ts: Seq<TypeAt>) -> EntrySpec {
    match e {
        IntoEntry::Owned(v) => EntrySpec::Owned(types_of(v@, ts)),
        IntoEntry::Ref(v) => EntrySpec::Ref(types_of(v@, ts)),
        IntoEntry::RefMut(v) => EntrySpec::RefMut(types_of(v@, ts)),
        IntoEntry::Type(i) => EntrySpec::Type(ts[i as int]),
    }
}

/// Every index of the entry refers to one of `n` types.
pub open spec fn entry_in_range(e: IntoEntry, n: nat) -> bool {
    match e {
        IntoEntry::Owned(v) => forall|k: int| 0 <= k < v@.len() ==> v@[k] < n,
        IntoEntry::Ref(v) => forall|k: int| 0 <= k < v@.len() ==> v@[k] < n,
        IntoEntry::RefMut(v) => forall|k: int| 0 <= k < v@.len() ==> v@[k] < n,
        IntoEntry::Type(i) => i < n,
    }
}

/// The entries that an `Option` of entries and types stands for.
pub open spec fn opt_entries(r: Option<(Vec<IntoEntry>, Vec<TypeAt>)>) -> Option<Seq<EntrySpec>> {
    match r {
        Some((es, ts)) => Some(es@.map_values(|e: IntoEntry| entry_view(e, ts@))),
        None => None,
    }
}

/// Where the type at `pos` ends, read by `parse_type`.
fn type_end_at(tokens: &Vec<TokenTree>, pos: usize) -> (r: Option<usize>)
    requires
        pos < tokens.len(),
    ensures
        match r {
            Some(q) => type_end(tokens@, pos as int) == Some(q as int) && pos < q <= tokens.len(),
            None => type_end(tokens@, pos as int) is None || !(pos < type_end(
                tokens@,
                pos as int,
            ).unwrap() <= tokens.len()),
        },
{
    let mut end: usize = tokens.len();
    while end > pos
        invariant
            pos < tokens.len(),
            pos <= end <= tokens.len(),
            type_end(tokens@, pos as int) == type_end_below(tokens@, pos as int, end as int),
        decreases end - pos,
    {
        let mut text: Vec<char> = Vec::new();
        push_text(tokens, pos, end, &mut text);
        assert(text@ =~= seq_text(tokens@.subrange(pos as int, end as int)));
        if parses_as_type(&text) {
            return Some(end);
        }
        end = end - 1;
    }
    None
}

/// Reads the types of a parenthesized list: `inner` is the group's inner
/// tokens, `group` its position. The types are added to `ts`; their indices
/// are returned.
fn type_list(inner: &Vec<TokenTree>, group: usize, ts: &mut Vec<TypeAt>) -> (r: Option<Vec<usize>>)
    ensures
        final(ts)@.len() >= old(ts)@.len(),
        final(ts)@.subrange(0, old(ts)@.len() as int) == old(ts)@,
        match r {
            Some(ix) => spec_type_list(inner@, 0, group) == Some(types_of(ix@, final(ts)@)) && forall|
                k: int,
            | 0 <= k < ix@.len() ==> ix@[k] < final(ts)@.len(),
            None => spec_type_list(inner@, 0, group) is None,
        },
{
    let ghost start = ts@;
    let mut ix: Vec<usize> = Vec::new();
    let mut cur: usize = 0;
    let ghost mut done: Seq<TypeAt> = Seq::empty();
    loop
        invariant
            start == old(ts)@,
            cur <= inner.len(),
            ts@.len() >= start.len(),
            ts@.subrange(0, start.len() as int) == start,
            forall|k: int| 0 <= k < ix@.len() ==> ix@[k] < ts@.len(),
            types_of(ix@, ts@) == done,
            spec_type_list(inner@, 0, group) == match spec_type_list(inner@, cur as int, group) {
                Some(rest) => Some(done + rest),
                None => None,
            },
        decreases inner.len() - cur,
    {
        if cur >= inner.len() {
            assert(done + Seq::<TypeAt>::empty() =~= done);
            return Some(ix);
        }
        let q = match type_end_at(inner, cur) {
            Some(q) => q,
            None => {
                return None;
            },
        };
        let t = TypeAt { group: Some(group), range: TokenRange { start: cur, end: q } };
        let ghost old_ts = ts@;
        let ghost old_ix = ix@;
        ts.push(t);
        ix.push(ts.len() - 1);
        proof {
            assert(ts@.subrange(0, start.len() as int) =~= old_ts.subrange(0, start.len() as int));
            assert forall|k: int| 0 <= k < old_ix.len() implies ts@[old_ix[k] as int] == old_ts[old_ix[k] as int] by {}
            assert(types_of(ix@, ts@) =~= done.push(t)) by {
                assert forall|k: int| 0 <= k < old_ix.len() implies #[trigger] types_of(ix@, ts@)[k] == done[k] by {
                    assert(types_of(old_ix, old_ts)[k] == done[k]);
                }
            }
        }
        if q == inner.len() {
            proof {
                assert(done + seq![t] =~= done.push(t));
                done = done.push(t);
            }
            cur = q;
        } else if is_punct_at(inner, q, ',') {
            proof {
                match spec_type_list(inner@, q + 1, group) {
                    Some(rest) => {
                        assert(done + (seq![t] + rest) =~= done.push(t) + rest);
                    },
                    None => {},
                }
                done = done.push(t);
            }
            cur = q + 1;
        } else {
            return None;
        }
    }
}

/// Reads a list of types separated by `,`, with an optional `,` at the end:
/// `tokens` are the list's tokens, and each type is marked as standing in the
/// group at position `group`.
pub fn read_type_list(tokens: &Vec<TokenTree>, group: usize) -> (r: Option<Vec<TypeAt>>)
    ensures
        match r {
            Some(v) => spec_type_list(tokens@, 0, group) == Some(v@),
            None => spec_type_list(tokens@, 0, group) is None,
        },
{
    let mut ts: Vec<TypeAt> = Vec::new();
    let ix = match type_list(tokens, group, &mut ts) {
        Some(ix) => ix,
        None => {
            return None;
        },
    };
    let mut out: Vec<TypeAt> = Vec::new();
    let mut i: usize = 0;
    while i < ix.len()
        invariant
            i <= ix.len(),
            forall|k: int| 0 <= k < ix@.len() ==> ix@[k] < ts@.len(),
            out@ == types_of(ix@.subrange(0, i as int), ts@),
        decreases ix.len() - i,
    {
        out.push(ts[ix[i]]);
        proof {
            assert(types_of(ix@.subrange(0, i + 1), ts@) =~= types_of(ix@.subrange(0, i as int), ts@).push(
                ts@[ix@[i as int] as int],
            ));
        }
        i = i + 1;
    }
    proof {
        assert(ix@.subrange(0, ix@.len() as int) =~= ix@);
    }
    Some(out)
}

/// The types of a list cover its tokens from `cur` on, in order: the first
/// begins at `cur`, each next one begins right after the `,` that follows the
/// one before, and the last ends at the end of the tokens or right before a
/// `,` that ends them. So the types, printed and joined by `,`, give back the
/// tokens; no list has a type where the tokens have none.
pub proof fn lemma_type_list_covers(inner: Seq<TokenTree>, cur: int, group: usize)
    requires
        0 <= cur,
        inner.len() <= usize::MAX,
        spec_type_list(inner, cur, group) is Some,
    ensures
        ({
            let ts = spec_type_list(inner, cur, group).unwrap();
            &&& (ts.len() == 0 <==> cur >= inner.len())
            &&& ts.len() > 0 ==> ts[0].range.start == cur
            &&& forall|i: int|
                0 <= i < ts.len() ==> #[trigger] ts[i].group == Some(group) && ts[i].range.start
                    < ts[i].range.end <= inner.len()
            &&& forall|i: int|
                0 <= i < ts.len() - 1 ==> punct_at(inner, #[trigger] ts[i].range.end as int, ',')
                    && ts[i + 1].range.start == ts[i].range.end + 1
            &&& ts.len() > 0 ==> (ts.last().range.end == inner.len() || (ts.last().range.end + 1
                == inner.len() && punct_at(inner, ts.last().range.end as int, ',')))
        }),
    decreases inner.len() - cur,
{
    if cur < inner.len() {
        let q = type_end(inner, cur).unwrap();
        let t = TypeAt {
            group: Some(group),
            range: TokenRange { start: cur as usize, end: q as usize },
        };
        let ts = spec_type_list(inner, cur, group).unwrap();
        assert(cur < q <= inner.len());
        if q < inner.len() {
            lemma_type_list_covers(inner, q + 1, group);
            let rest = spec_type_list(inner, q + 1, group).unwrap();
            assert(punct_at(inner, q, ','));
            assert(ts =~= seq![t] + rest);
            assert forall|i: int| 0 <= i < ts.len() implies #[trigger] ts[i].group == Some(group)
                && ts[i].range.start < ts[i].range.end <= inner.len() by {
                if i > 0 {
                    assert(ts[i] == rest[i - 1]);
                }
            }
            assert forall|i: int| 0 <= i < ts.len() - 1 implies punct_at(
                inner,
                #[trigger] ts[i].range.end as int,
                ',',
            ) && ts[i + 1].range.start == ts[i].range.end + 1 by {
                assert(ts[i + 1] == rest[i]);
                if i > 0 {
                    assert(ts[i] == rest[i - 1]);
                }
            }
            if rest.len() > 0 {
                assert(ts.last() == rest.last());
            }
        } else {
            assert(ts =~= seq![t]);
        }
    }
}

/// `done` followed by the entries of `rest`, where there are any.
pub open spec fn prepend_entries(done: Seq<EntrySpec>, rest: Option<Seq<EntrySpec>>) -> Option<
    Seq<EntrySpec>,
> {
    match rest {
        Some(r) => Some(done + r),
        None => None,
    }
}

/// Types added after those an entry refers to do not change what it stands
/// for.
proof fn lemma_entry_view_stable(e: IntoEntry, a: Seq<TypeAt>, b: Seq<TypeAt>)
    requires
        a.len() <= b.len(),
        b.subrange(0, a.len() as int) == a,
        entry_in_range(e, a.len()),
    ensures
        entry_view(e, b) == entry_view(e, a),
        entry_in_range(e, b.len()),
{
    assert forall|i: int| 0 <= i < a.len() implies b[i] == a[i] by {
        assert(b.subrange(0, a.len() as int)[i] == b[i]);
    }
    match e {
        IntoEntry::Owned(v) => {
            assert(types_of(v@, b) =~= types_of(v@, a));
        },
        IntoEntry::Ref(v) => {
            assert(types_of(v@, b) =~= types_of(v@, a));
        },
        IntoEntry::RefMut(v) => {
            assert(types_of(v@, b) =~= types_of(v@, a));
        },
        IntoEntry::Type(i) => {},
    }
}

/// Which wrapper word stands at `pos`: `0` for `owned`, `1` for `ref`, `2`
/// for `ref_mut`.
fn wrapper_word(tokens: &Vec<TokenTree>, pos: usize) -> (r: Option<u8>)
    ensures
        r is Some <==> wrapper_at(tokens@, pos as int),
        r == Some(0u8) <==> word_at(tokens@, pos as int, "owned"@),
        r == Some(1u8) ==> !word_at(tokens@, pos as int, "owned"@) && word_at(
            tokens@,
            pos as int,
            "ref"@,
        ),
        r == Some(2u8) ==> !word_at(tokens@, pos as int, "owned"@) && !word_at(
            tokens@,
            pos as int,
            "ref"@,
        ),
        r matches Some(w) ==> w < 3,
{
    if pos < tokens.len() {
        if let TokenTree::Ident(i) = &tokens[pos] {
            if text_is(i, "owned") {
                return Some(0);
            } else if text_is(i, "ref") {
                return Some(1);
            } else if text_is(i, "ref_mut") {
                return Some(2);
            }
        }
    }
    None
}

/// Reads the entry at `pos`, adding its types to `ts`.
fn read_entry(tokens: &Vec<TokenTree>, pos: usize, ts: &mut Vec<TypeAt>) -> (r: Option<
    (IntoEntry, usize),
>)
    requires
        pos < tokens.len(),
    ensures
        final(ts)@.len() >= old(ts)@.len(),
        final(ts)@.subrange(0, old(ts)@.len() as int) == old(ts)@,
        match r {
            Some((e, next)) => spec_entry_at(tokens@, pos as int) == Some(
                (entry_view(e, final(ts)@), next as int),
            ) && entry_in_range(e, final(ts)@.len()) && pos < next <= tokens.len(),
            None => spec_entry_at(tokens@, pos as int) is None,
        },
{
    match wrapper_word(tokens, pos) {
        Some(w) => {
            let mut ix: Vec<usize> = Vec::new();
            let mut p1 = pos + 1;
            if pos + 1 < tokens.len() {
                if let TokenTree::Group(Delimiter::Parenthesis, inner) = &tokens[pos + 1] {
                    match type_list(inner, pos + 1, ts) {
                        Some(v) => {
                            ix = v;
                        },
                        None => {
                            return None;
                        },
                    }
                    p1 = pos + 2;
                }
            }
            assert(types_of(ix@, ts@) == spec_entry_at_types(tokens@, pos as int));
            let e = if w == 0 {
                IntoEntry::Owned(ix)
            } else if w == 1 {
                IntoEntry::Ref(ix)
            } else {
                IntoEntry::RefMut(ix)
            };
            let next = if is_punct_at(tokens, p1, ',') {
                p1 + 1
            } else {
                p1
            };
            Some((e, next))
        },
        None => {
            let q = match type_end_at(tokens, pos) {
                Some(q) => q,
                None => {
                    return None;
                },
            };
            let ghost old_ts = ts@;
            ts.push(TypeAt { group: None, range: TokenRange { start: pos, end: q } });
            assert(ts@.subrange(0, old_ts.len() as int) =~= old_ts);
            let next = if is_punct_at(tokens, q, ',') {
                q + 1
            } else {
                q
            };
            Some((IntoEntry::Type(ts.len() - 1), next))
        },
    }
}

/// The types of the wrapper entry at `pos`.
spec fn spec_entry_at_types(s: Seq<TokenTree>, pos: int) -> Seq<TypeAt> {
    match paren_group_at(s, pos + 1) {
        Some(inner) => spec_type_list(inner, 0, (pos + 1) as usize).unwrap(),
        None => Seq::empty(),
    }
}

/// Reads the entries of an `#[into(...)]` attribute from its tokens: the
/// entries, whose types are indices into the list of types returned beside
/// them; `None` where the tokens do not read as entries.
pub fn into_entries(tokens: &Vec<TokenTree>) -> (r: Option<(Vec<IntoEntry>, Vec<TypeAt>)>)
    ensures
        opt_entries(r) == spec_into_entries(tokens@),
        r matches Some((es, ts)) ==> forall|k: int|
            0 <= k < es@.len() ==> entry_in_range(#[trigger] es@[k], ts@.len()),
{
    let mut es: Vec<IntoEntry> = Vec::new();
    let mut ts: Vec<TypeAt> = Vec::new();
    let mut pos: usize = 0;
    let ghost mut done: Seq<EntrySpec> = Seq::empty();
    assert(Seq::<EntrySpec>::empty() + spec_entries_from(tokens@, 0).unwrap() =~= spec_entries_from(tokens@, 0).unwrap());
    loop
        invariant
            pos <= tokens.len(),
            es@.map_values(|e: IntoEntry| entry_view(e, ts@)) == done,
            forall|k: int| 0 <= k < es@.len() ==> entry_in_range(#[trigger] es@[k], ts@.len()),
            spec_entries_from(tokens@, 0) == prepend_entries(done, spec_entries_from(tokens@, pos as int)),
        decreases tokens.len() - pos,
    {
        if pos >= tokens.len() {
            assert(done + Seq::<EntrySpec>::empty() =~= done);
            return Some((es, ts));
        }
        let ghost old_ts = ts@;
        let ghost old_es = es@;
        let (e, next) = match read_entry(tokens, pos, &mut ts) {
            Some(x) => x,
            None => {
                return None;
            },
        };
        let ghost ev = entry_view(e, ts@);
        proof {
            assert(ts@.subrange(0, old_ts.len() as int) == old_ts);
            assert forall|k: int| 0 <= k < old_es.len() implies entry_view(old_es[k], ts@)
                == entry_view(old_es[k], old_ts) && entry_in_range(old_es[k], ts@.len()) by {
                lemma_entry_view_stable(old_es[k], old_ts, ts@);
            }
            match spec_entries_from(tokens@, next as int) {
                Some(rest) => {
                    assert(done + (seq![ev] + rest) =~= done.push(ev) + rest);
                },
                None => {},
            }
        }
        es.push(e);
        proof {
            assert(es@.map_values(|e: IntoEntry| entry_view(e, ts@)) =~= done.push(ev));
            done = done.push(ev);
        }
        pos = next;
    }
}

/// An item of the legacy syntax check, as the grammar reads it.
pub enum MetaSpec {
    Str(Seq<char>),
    Path(Seq<char>),
    List(Seq<char>, Option<Seq<MetaSpec>>),
    Other,
}

/// An item, by what the grammar reads.
pub open spec fn meta_view(m: MetaItem) -> MetaSpec
    decreases m, 0int,
{
    match m {
        MetaItem::Str(v) => MetaSpec::Str(v@),
        MetaItem::Path(p) => MetaSpec::Path(p@),
        MetaItem::List(p, None) => MetaSpec::List(p@, None),
        MetaItem::List(p, Some(args)) => MetaSpec::List(p@, Some(metas_view(args@, args@.len() as int))),
        MetaItem::Other => MetaSpec::Other,
    }
}

/// The first `n` items, by what the grammar reads.
pub open spec fn metas_view(v: Seq<MetaItem>, n: int) -> Seq<MetaSpec>
    decreases v, n,
{
    if n <= 0 || n > v.len() {
        Seq::empty()
    } else {
        metas_view(v, n - 1).push(meta_view(v[n - 1]))
    }
}

/// The items that an `Option` of items stands for.
pub open spec fn opt_meta_specs(r: Option<Vec<MetaItem>>) -> Option<Seq<MetaSpec>> {
    match r {
        Some(v) => Some(metas_view(v@, v@.len() as int)),
        None => None,
    }
}

/// `tokens[pos]` begins a `::` that an identifier follows.
pub open spec fn path_sep_at(s: Seq<TokenTree>, pos: int) -> bool {
    joint_punct_at(s, pos, ':') && punct_at(s, pos + 1, ':') && ident_at(s, pos + 2)
}

/// Where the path whose identifier stands at `pos` ends.
pub open spec fn path_end(s: Seq<TokenTree>, pos: int) -> int
    decreases s.len() - pos,
{
    if 0 <= pos < s.len() && path_sep_at(s, pos + 1) {
        path_end(s, pos + 3)
    } else {
        pos + 1
    }
}

/// The text of the path whose identifier stands at `pos` and that ends at
/// `end`: its identifiers with ` :: ` between them.
pub open spec fn path_text(s: Seq<TokenTree>, pos: int, end: int) -> Seq<char>
    decreases end - pos,
{
    if end >= pos + 3 {
        ident_text(s[pos]) + " :: "@ + path_text(s, pos + 3, end)
    } else {
        ident_text(s[pos])
    }
}

/// The items of a parenthesized list of items, or of the attribute.
pub open spec fn spec_meta_items(s: Seq<TokenTree>) -> Option<Seq<MetaSpec>>
    decreases s, s.len() + 1,
{
    spec_metas_from(s, 0)
}

/// The items from `pos` on: items separated by `,`, with an optional `,` at
/// the end; `None` where they cannot be read.
pub open spec fn spec_metas_from(s: Seq<TokenTree>, pos: int) -> Option<Seq<MetaSpec>>
    decreases s, s.len() - pos,
{
    if !(0 <= pos < s.len()) {
        Some(Seq::empty())
    } else {
        let item: Option<(MetaSpec, int)> = match s[pos] {
            TokenTree::Literal(t, true) => Some(
                (
                    match str_literal_value(t@) {
                        Some(v) => MetaSpec::Str(v),
                        None => MetaSpec::Other,
                    },
                    pos + 1,
                ),
            ),
            TokenTree::Literal(_, false) => Some((MetaSpec::Other, pos + 1)),
            TokenTree::Ident(_) => {
                let pe = path_end(s, pos);
                let text = path_text(s, pos, pe);
                if 0 <= pe < s.len() {
                    match s[pe] {
                        TokenTree::Group(Delimiter::Parenthesis, inner) => {
                            proof {
                                assert(decreases_to!(s => s[pe]));
                            }
                            Some((MetaSpec::List(text, spec_meta_items(inner@)), pe + 1))
                        },
                        _ => Some((MetaSpec::Path(text), pe)),
                    }
                } else {
                    Some((MetaSpec::Path(text), pe))
                }
            },
            _ => None,
        };
        match item {
            Some((m, next)) => if next >= s.len() {
                Some(seq![m])
            } else if pos < next && punct_at(s, next, ',') {
                match spec_metas_from(s, next + 1) {
                    Some(rest) => Some(seq![m] + rest),
                    None => None,
                }
            } else {
                None
            },
            None => None,
        }
    }
}

/// Adding an item at the end does not change the views of the ones before.
proof fn lemma_metas_view_push(v: Seq<MetaItem>, m: MetaItem, n: int)
    requires
        0 <= n <= v.len(),
    ensures
        metas_view(v.push(m), n) == metas_view(v, n),
    decreases n,
{
    if n > 0 {
        lemma_metas_view_push(v, m, n - 1);
        assert(v.push(m)[n - 1] == v[n - 1]);
    }
}

/// `done` followed by the items of `rest`, where there are any.
pub open spec fn prepend_metas(done: Seq<MetaSpec>, rest: Option<Seq<MetaSpec>>) -> Option<
    Seq<MetaSpec>,
> {
    match rest {
        Some(r) => Some(done + r),
        None => None,
    }
}

/// Reads the path whose identifier stands at `pos`: where it ends, and its
/// text.
fn read_path(tokens: &Vec<TokenTree>, pos: usize) -> (r: (usize, String))
    requires
        pos < tokens.len(),
        ident_at(tokens@, pos as int),
    ensures
        r.0 == path_end(tokens@, pos as int),
        r.1@ == path_text(tokens@, pos as int, r.0 as int),
        pos < r.0 <= tokens.len(),
    decreases tokens.len() - pos,
{
    let id = match &tokens[pos] {
        TokenTree::Ident(i) => i.clone(),
        _ => String::new(),
    };
    if tokens.len() - pos > 3 && is_joint_punct_at(tokens, pos + 1, ':') && is_punct_at(
        tokens,
        pos + 2,
        ':',
    ) {
        if let TokenTree::Ident(_) = &tokens[pos + 3] {
            let (end, rest) = read_path(tokens, pos + 3);
            let mut t = id;
            t.append(" :: ");
            t.append(rest.as_str());
            return (end, t);
        }
    }
    (pos + 1, id)
}

/// Reads the items of a list of items (or of the attribute) from its tokens;
/// `None` where the tokens do not read as items. String literals are read by
/// their value.
pub fn meta_items(tokens: &Vec<TokenTree>) -> (r: Option<Vec<MetaItem>>)
    ensures
        opt_meta_specs(r) == spec_meta_items(tokens@),
    decreases tokens@,
{
    let mut out: Vec<MetaItem> = Vec::new();
    let mut pos: usize = 0;
    assert(Seq::<MetaSpec>::empty() + spec_metas_from(tokens@, 0).unwrap() =~= spec_metas_from(tokens@, 0).unwrap());
    loop
        invariant
            pos <= tokens.len(),
            spec_meta_items(tokens@) == prepend_metas(
                metas_view(out@, out@.len() as int),
                spec_metas_from(tokens@, pos as int),
            ),
        decreases tokens.len() - pos,
    {
        if pos >= tokens.len() {
            assert(metas_view(out@, out@.len() as int) + Seq::<MetaSpec>::empty() =~= metas_view(out@, out@.len() as int));
            return Some(out);
        }
        let (m, next): (MetaItem, usize) = match &tokens[pos] {
            TokenTree::Literal(t, true) => (
                match literal_value(t.as_str()) {
                    Some(v) => MetaItem::Str(v),
                    None => MetaItem::Other,
                },
                pos + 1,
            ),
            TokenTree::Literal(_, false) => (MetaItem::Other, pos + 1),
            TokenTree::Ident(_) => {
                let (pe, text) = read_path(tokens, pos);
                let mut item = MetaItem::Path(text);
                let mut next = pe;
                if pe < tokens.len() {
                    if let TokenTree::Group(Delimiter::Parenthesis, inner) = &tokens[pe] {
                        proof {
                            assert(decreases_to!(tokens@ => tokens@[pe as int]));
                        }
                        let args = meta_items(inner);
                        item = match item {
                            MetaItem::Path(p) => MetaItem::List(p, args),
                            other => other,
                        };
                        next = pe + 1;
                    }
                }
                (item, next)
            },
            _ => {
                return None;
            },
        };
        let ghost mv = meta_view(m);
        assert(spec_metas_from(tokens@, pos as int) == if next >= tokens.len() {
            Some(seq![mv])
        } else if punct_at(tokens@, next as int, ',') {
            match spec_metas_from(tokens@, next + 1) {
                Some(rest) => Some(seq![mv] + rest),
                None => None,
            }
        } else {
            None::<Seq<MetaSpec>>
        });
        let ghost before = out@;
        out.push(m);
        proof {
            lemma_metas_view_push(before, m, before.len() as int);
            assert(metas_view(out@, out@.len() as int) == metas_view(before, before.len() as int).push(mv));
        }
        if next >= tokens.len() {
            proof {
                assert(metas_view(before, before.len() as int) + seq![mv] =~= metas_view(out@, out@.len() as int));
            }
            return Some(out);
        }
        if !is_punct_at(tokens, next, ',') {
            return None;
        }
        proof {
            match spec_metas_from(tokens@, next + 1) {
                Some(rest) => {
                    assert(metas_view(before, before.len() as int) + (seq![mv] + rest) =~= metas_view(out@, out@.len() as int) + rest);
                },
                None => {},
            }
        }
        pos = next + 1;
    }
}

} // verus!
