# typespace

A semantic model of Rust types for code generation, written in Verus.

Consumers model types (structs, enums, newtypes, containers, built-in and
native types) as a graph keyed by `u64` IDs, insert them into a
`TypespaceBuilder`, and call `finalize()`. Finalization validates the graph,
checks every default value against its type, breaks containment cycles with
`Box` types, rejects cycles through anonymous types, and propagates trait
requirements (a map key must be `Ord`, and so must everything it contains),
reporting every requirement that cannot be met. Traits that settings merely
desire are granted wherever they can be realized and silently dropped
elsewhere. A finalized `Typespace` answers questions through `view::Type`.

## Layout

- `src/` is the library; every function in it is verified.
  - `build/`: the type shapes, their builders and the checks `build()`
    applies, and the children of each shape.
  - `settings.rs`: presets, containers and their trait tables, crate paths.
  - `traits.rs`: the tracked traits and sets of them.
  - `graph.rs`, `cycles.rs`: the type graph, cycle breaking and the
    anonymous-cycle check.
  - `trait_resolution.rs`, `desired.rs`, `resolve.rs`: required and desired
    trait resolution.
  - `defaults.rs`: whether a JSON value can construct a value of a type.
  - `finalize.rs`: the builder, finalization, and the finalized typespace.
  - `view.rs`: query-side views of a finalized typespace.
  - `json.rs`, `error.rs`, `syntax.rs`: JSON values, errors, and the
    questions asked of `syn`.
  - `render.rs`: Rust text for what generated code names: a type's
    identifier where it is used, a derive attribute, a type alias item.
  - `params.rs`: a type's text as a function parameter type.
  - `items.rs`: the items of unit structs, tuple structs and newtype
    structs, with their hand-written impls.
  - `variants.rs`: an enum's `From` impls for its variants, and the
    `Display` and `FromStr` impls written by hand for enums of unit
    variants or of untagged item variants.
  - `json_text.rs`: JSON values as compact JSON text and as Rust
    expressions that build them.
  - `message.rs`: the text of errors and of trait conflicts.
  - `laws.rs`: properties that relate several functions, stated and proved.
- `tests/`: tests run against the compiled library.
- `app/`: a displayable error type, conversion between JSON values and
  `serde_json`, and settings read from configuration data.

## What is not here

The declarations of structs and enums, of newtypes under constraints
other than a string's, and the placement of all items into modules of a
generated crate are not produced: that code is laid out through the
`codespace` crate, which is not available to this project, and those
items reach into the modules it places (the builder module, helper
functions for default values). Nor does the library write the Rust
expression for a default value of a type; it only decides whether the
value fits the type.
