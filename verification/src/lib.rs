//! Feature-scope resolution: decide, for a package inside a multi-package
//! workspace, which named capabilities ("scope features") are active, and
//! emit the activated symbols together with the full legal symbol vocabulary.
//!
//! A producer package declares a table of capabilities, each implying further
//! capabilities; consumer packages reference a producer and request a subset.
//! Resolution reconciles the requests of all references with the producer's
//! defaults, expands implications transitively (cycle-safe), and yields the
//! activated set plus the full legal symbol vocabulary, so that downstream
//! validation can tell an inactive-but-known symbol from a typo.

pub mod emit;
pub mod manifest;
pub mod names;
pub mod resolver;
pub mod toml_data;
pub mod workspace;
