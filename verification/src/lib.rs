//! Verified persistent-storage stack for a satellite payload subsystem:
//! wire-level command encoding for a byte-addressable non-volatile memory
//! chip, a command driver enforcing the chip's sequencing rules, a seekable
//! byte-range cursor, a pluggable byte-storage backend abstraction, and a
//! small flat-namespace file store with per-file metadata, together with
//! the smaller verified pieces of the surrounding services: response
//! parsing for the power system, the process-record and timer-field
//! grammars, and the service-layer helpers.

// The storage stack, lowest layer first.
pub mod protocol;
pub mod error;
pub mod driver;
pub mod compat;
pub mod io;
pub mod backend;

// The file store and its building blocks.
pub mod codec;
pub mod text;
pub mod order;
pub mod meta;
pub mod image;
pub mod table;
pub mod fs;
pub mod schema;

// Guarantees spanning several layers.
pub mod guarantees;

// Verified pieces of the surrounding services.
pub mod eps;
pub mod last_error;
pub mod procstat;
pub mod sched;
pub mod service;
