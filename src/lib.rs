//! Saving a building floor plan: re-keying of each level's vertices into a
//! dense, zero-based sequence, rewriting of every vertex reference, and
//! assembly of the persisted document.
//!
//! - `rekey`: live level children, the dense relabelling of vertex identifiers.
//! - `level`: assembly of one persisted level, and what it preserves.
//! - `document`: the live map root, the error taxonomy, assembly of the document.
//! - `request`: the pending save request and one save pass.
//! - `spawn`: the live scene that loading a document gives, and the round trip.
pub mod document;
pub mod level;
pub mod order;
pub mod rekey;
pub mod request;
pub mod spawn;
