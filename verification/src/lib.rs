//! Packs source files into one flat, line-oriented text archive and unpacks
//! such an archive again, with an optional Ed25519 signature for every file.
//!
//! - [`classify`] tells binary data from text.
//! - [`signature`] makes key pairs, signs content and verifies signatures.
//! - [`format`] writes and reads the lines that mark the parts of an
//!   archive.
//! - [`writer`] turns files into the bytes of an archive.
//! - [`reader`] reads an archive line by line, and [`extract`] turns what
//!   was read into the files to write.
//! - [`paths`] computes where a file is written, and keeps it inside the
//!   destination directory.
//! - [`normalize`] collapses runs of blank lines in a finished archive.
//! - [`roundtrip`] proves that what is packed is unpacked as it was.
//! - [`select`] holds the rules by which files are chosen.
//! - [`bytes`] and [`lines`] hold what the others need of byte strings.
//!
//! Nothing here touches the file system: callers read the files that go
//! in, and write the bytes that come out.

pub mod bytes;
pub mod classify;
pub mod extract;
pub mod format;
pub mod lines;
pub mod normalize;
pub mod paths;
pub mod reader;
pub mod roundtrip;
pub mod select;
pub mod signature;
pub mod writer;
