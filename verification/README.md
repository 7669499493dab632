# match_transform

The transform of `@match` and `@module` in a GraphQL compiler, with proofs.

A fragment spread with `@module(name: "...")` names the component that renders its data. The
transform replaces such a spread by an inline fragment on the fragment's type, which holds the
spread and the `js` fields that load the component and its normalization file. A field with
`@match` gets a `supported` argument that lists the types of the modules under it. Documents that
break the rules of the two directives are reported.

- `src/model.rs` says what becomes of documents.
- `src/transform.rs` and the files below `src/transform/` compute it.
- `src/laws.rs` and the files below `src/laws/` hold what is true of every run: that a key stands
  for a single path, that the modules for one type at one path agree, that nothing is left to do
  where nothing is reported, and others.
- `src/tables.rs` keeps the tables of a run in the hash maps of `fnv` and the ordered set of
  `indexmap`. What is taken on trust of these is stated there, and of `Arc::clone` in `src/ir.rs`.
- `src/ir.rs`, `src/schema.rs`, `src/config.rs`, `src/diagnostic.rs` and `src/location.rs` hold the
  documents, the schema, the settings and the reports.

`transform_match` takes two functions that deal with the fragments to keep apart from the documents
that use them: one that may object, and one that marks the fragments. `try_transform_match` also
takes documents of which nothing can be made, and gives `None` for them.
