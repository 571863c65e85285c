//! The evaluation and streaming core of a structured shell: typed values,
//! scopes, typed row channels, compilation of definitions into values, and
//! graph-preserving serialization of scopes.

pub mod errors;
pub mod text;
pub mod value;
pub mod command;
pub mod definition;
pub mod stream;
pub mod scope;
pub mod serialization;
pub mod deserialization;
pub mod roundtrip;
pub mod file;
pub mod control;
