//! Twelve-byte identifiers that sort by time.
//!
//! An [`ObjectId`] is a timestamp of four bytes, a machine id of five and a
//! counter of three, each written most significant byte first. A
//! [`Generator`] holds the machine id and the counter of one process and
//! mints identifiers from them; identifiers are also read from their bytes
//! or from their hexadecimal text, and compare as their bytes do.
//!
//! The contracts speak of an identifier through its view, the sequence of
//! its twelve bytes, and of the fields through the functions of
//! [`big_endian`].

pub mod big_endian;
pub mod error;
pub mod generator;
pub mod id;
pub mod laws;
pub mod order;
pub mod text;

pub use error::{Error, HexError};
pub use generator::Generator;
pub use id::{ObjectId, COUNTER_MAX};
