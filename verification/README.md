# derive_more_impl

The decisions behind the `derive_more` derive macros, written in Verus and
proved against their contracts: which inputs a derive accepts and with which
error, which implementations and match arms it writes, which trait bounds it
asks for, and how it reads types and formatting arguments from tokens.

## Layout

- `src/` — the verified library. Derive inputs are modelled as plain values
  (token trees, types as syntax trees, fields by their attributes), and each
  module holds the decisions of one derive or one shared concern:
  - `tokens`, `parsing`, `fmt`: token trees, the parser combinators that read
    types, and the formatting attribute with its arguments;
  - `attr`, `into_grammar`: the grammars of the other attributes (single
    words, word lists, `#[into(...)]` type lists and the legacy meta items);
  - `fmt_string`: the placeholders of a formatting string, read by the
    grammar of `std::fmt`;
  - `ty`: types as syntax trees, their structural equality and search;
  - `text`, `decimal`, `bindings`: comparing, joining and numbering text,
    and the names that generated code binds fields to;
  - `into`, `from`, `from_str`, `try_from`, `as_expand`, `borrow`,
    `add_like`, `partial_eq`, `eq`, `hash`, `debug`, `display`,
    `fmt_traits`, `defaults`, `constructor`, `deref_mut`, `naming`: the
    derives.
- `tests/` — tests run on the compiled library, with inputs built by `syn`.
- `app/` — the expansions that read a `syn::DeriveInput` into the library's
  models and write the implementations with `quote`.

Four functions are trusted rather than proved: the call to `convert_case`
that converts a name to a case, the call to `str::to_lowercase`, the calls
to `syn` that read the value of a string literal, and the call to `syn` that
tells whether a text is one type (by which the `#[into(...)]` attribute's
types are read).
