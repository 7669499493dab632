//! The transform of `@match` and `@module` in a GraphQL compiler.
//!
//! A field with `@match` is answered by the server for the types that the document can render. A
//! fragment spread with `@module` names the component that renders its data, so that it is loaded
//! only where it is needed. [`transform::transform_match`] checks the rules of both directives and
//! rewrites the documents: a `@module` spread becomes an inline fragment that holds the spread and
//! the fields that load its module, and a field with `@match` lists the supported types.
//!
//! [`model`] says what becomes of documents, [`transform`] computes it, and [`laws`] holds what is
//! true of every run.

pub mod config;
pub mod constants;
pub mod diagnostic;
pub mod ir;
pub mod laws;
pub mod location;
pub mod model;
pub mod named;
pub mod schema;
pub mod tables;
pub mod text;
pub mod transform;
