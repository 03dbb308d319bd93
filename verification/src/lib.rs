//! A binary container format for RDF quints: triples tagged with a
//! provenance id and a graph name. Quints are grouped by (id, graph name)
//! into graphs, each stored as one section; an index section and a table of
//! contents make enumeration and per-graph lookup cheap. Sections may be
//! compressed and checksummed, both file-wide toggles recorded in the header.

use vstd::prelude::*;

pub mod args;
pub mod codec;
pub mod foreign;
pub mod format;
pub mod laws;
pub mod model;
pub mod reader;
pub mod wire;
pub mod writer;

pub use model::{GraphRef, Quint, Term};
pub use reader::R5tuFile;
pub use writer::{StreamingWriter, WriterOptions};

verus! {

/// The errors a reader or writer can return.
///
/// `Io` is a failure of the surrounding machinery (compression, output);
/// `BadMagic` and `UnsupportedVersion` mean the bytes are not a file of this
/// format, or of a newer one; `Malformed` a structurally invalid header, TOC
/// or index; `Corrupt` a checksum mismatch on one section.
#[derive(Clone, Copy, Debug, PartialEq, Eq, Structural)]
pub enum R5Error {
    Io,
    BadMagic,
    UnsupportedVersion,
    Malformed,
    Corrupt,
}

pub type R5Result<T> = Result<T, R5Error>;

} // verus!
