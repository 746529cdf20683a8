//! Read-side record assembly for nested columnar storage.
//!
//! The library binds an in-memory record type's field list against a
//! self-describing physical schema tree and composes a hierarchy of
//! per-column readers into a single reader that yields fully assembled
//! records.
//!
//! The pieces, in dependency order:
//! - [`schema`]: the physical schema tree (group and leaf nodes, repetition).
//! - [`declare`]: record type declarations and per-field rename resolution.
//! - [`errors`]: binding and read-time error types.
//! - [`descriptor`]: the typed schema descriptor that binding produces.
//! - [`bind`]: the schema binder, matching declared fields against the tree.
//! - [`column`]: in-memory column cursors and the column reader registry.
//! - [`reader`]: the composite record reader and its runtime operations.
//! - [`compose`]: the reader composer, wiring sub-readers along column paths.
//! - [`laws`]: proofs of the structural guarantees the binder and composer
//!   give together.

pub mod bind;
pub mod column;
pub mod compose;
pub mod declare;
pub mod descriptor;
pub mod errors;
pub mod laws;
pub mod reader;
pub mod schema;
