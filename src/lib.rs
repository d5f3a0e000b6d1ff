//! Typed, cached access to a word-addressed persistent store.
pub mod bytes;
pub mod cache;
pub mod slots;
pub mod accessors;
pub mod guard;
pub mod tx;
pub mod vec;
pub mod laws;
