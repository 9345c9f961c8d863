//! Schema-driven binary record codec.
//!
//! A record's wire layout is described by a [`model::RecordSpec`]: an ordered
//! list of fields, each with an element type, a byte order, a scalar or
//! fixed-array shape, and an optional padding directive. From one such
//! description the library derives the two symmetric procedures: reading a
//! byte buffer into a record value and writing a record value out as bytes.

pub mod attrs;
pub mod builder;
pub mod bytes;
pub mod codec;
pub mod laws;
pub mod model;
