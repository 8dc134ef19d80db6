//! A self-describing, schema-less binary container format.
//!
//! A [`BinnObject`] is an ordered collection of key-tagged typed values. It is
//! built incrementally with typed `set` calls, serialized on demand to a byte
//! buffer with `as_bytes`, and reconstructed from such a buffer with `open`
//! without any external schema. Containers nest: a container stored as a value
//! is serialized into the enclosing buffer and transparently re-opened on
//! lookup.
//!
//! A container is intended for exclusive use by one owner at a time; sharing
//! one across threads requires external synchronization by the caller.

pub mod wire;
pub mod object;
pub mod laws;

pub use object::{BinnObject, BinnValue, WrongBinnValue, BinnOpenError};
pub use object::{IntoBinnValue, FromBinnValue};
pub use wire::{ValModel, ValView, EntriesModel};
