//! A metadata-driven dynamic query engine for relational tables.
//!
//! The crate models a database catalog (schemas, entities, columns, keys,
//! indexes), infers semantic column types from native descriptors, validates
//! untrusted request input against the catalog, and emits SQL text together
//! with an ordered list of typed bound parameters.  Fetched rows are rendered
//! to JSON text from the same catalog metadata.
//!
//! - [`catalog`] — the immutable schema / entity / column / index model.
//! - [`loader`] — the four ordered passes that build the catalog from
//!   system-view rows, including the type-inference rules.
//! - [`codec`] — raw request strings to typed bound parameters.
//! - [`query`] — request validation and SQL text emission, with the
//!   injection-safety and pagination laws.
//! - [`projector`] — fetched rows to JSON text.
//! - [`requests`] — the two supported request shapes end to end.
//! - [`meta`] — catalog projections for the metadata endpoints.
//! - [`numtext`] — decimal text rendering and parsing.
//! - [`security`] — the request authorization decision.
//!
//! Executing the emitted SQL against a backing store, and fetching the rows
//! the projector renders, belong to an execution layer outside this crate.

pub mod catalog;
pub mod codec;
pub mod loader;
pub mod meta;
pub mod numtext;
pub mod projector;
pub mod query;
pub mod requests;
pub mod security;
