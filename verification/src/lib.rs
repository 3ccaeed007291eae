//! A writer for the Arrow IPC file format.
//!
//! A file is a schema message, a stream of framed dictionary and record-batch
//! messages, and a footer whose two block tables give random access to every
//! message by its offset. [`writer::FileWriter`] takes a file through its
//! life: `start` writes the header, `write` and `write_encoded` append
//! messages, `finish` writes the footer. The bytes are appended to a buffer
//! in memory; sending them on is left to the caller.
//!
//! Every operation is proved to follow the state machine of [`model`], whose
//! bytes are laid out as [`layout`] and [`framing`] say; [`laws`] proves what
//! holds of every file. The schema and the footer are encoded by
//! `arrow_format`'s flatbuffer builder, behind the contracts in [`schema`].

pub mod batch;
pub mod bytes;
pub mod error;
pub mod footer;
pub mod framing;
pub mod laws;
pub mod layout;
pub mod model;
pub mod schema;
pub mod tracker;
pub mod writer;
