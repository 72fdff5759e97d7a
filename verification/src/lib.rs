//! Core of a static music-catalog site generator: slug normalization,
//! duration parsing, waveform decoding, color derivation, a loader that
//! resolves raw per-file records into entities, and an in-memory catalog of
//! artists, albums and tracks with derived queries.
//!
//! File-system walking, YAML deserialization and page rendering live in the
//! surrounding application; this crate holds the data model and the logic.

pub mod catalog;
pub mod color;
pub mod duration;
pub mod load;
pub mod music;
pub mod slug;
pub mod text;
pub mod wave;
