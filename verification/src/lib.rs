//! Decoding and applying IPS binary patches.
//!
//! An IPS patch is a small container: a five-byte magic tag, a run of
//! records, and a three-byte terminator. Each record names a position in a
//! target image and the bytes to write there, either spelled out or as a
//! run of one repeated byte. This crate decodes such containers and applies
//! them to byte buffers; every function carries a contract that Verus
//! proves.
//!
//! - [`format`] gives the container format as a grammar over byte
//!   sequences, and [`model`] the meaning of records as functions on byte
//!   sequences. Both are ghost code, erased from the compiled library.
//! - [`decoder`], [`record`], [`ips`] and [`rom`] hold the executable code,
//!   with contracts over that model; [`bytes`] holds the byte-level helpers
//!   they share.
//! - [`theorems`] states what holds of the format and of application for
//!   all inputs.

pub mod bytes;
pub mod decoder;
pub mod error;
pub mod format;
pub mod ips;
pub mod model;
pub mod record;
pub mod rom;
pub mod theorems;

pub use crate::decoder::{decode_next, ByteCursor, Outcome};
pub use crate::error::{PatchError, RecordField};
pub use crate::format::{MAGIC, TERMINATOR};
pub use crate::ips::Ips;
pub use crate::record::{Payload, Record};
pub use crate::rom::Rom;
