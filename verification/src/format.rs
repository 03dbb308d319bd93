//! The file layout: magic and header fields, the table of contents, and
//! the per-section compression/checksum pipeline, all specified as pure
//! functions over the file's bytes.

use vstd::prelude::*;
use crate::codec::{spec_parse_graph_payload, spec_parse_index_payload, TripleV};
use crate::foreign::{crc32, crc32_of, unzstd_of, zstd_compress};
use crate::model::GraphRefV;
use crate::wire::{spec_le16_at, spec_le32_at, spec_le64_at};
use crate::R5Error;
use vstd::slice::slice_to_vec;

verus! {

/// The newest format version this crate understands.
pub const FORMAT_VERSION: u16 = 1;

/// Header flag: sections carry CRC-32 checksums.
pub const FLAG_CRC: u16 = 1;

/// Header flag: section payloads are zstd-compressed.
pub const FLAG_ZSTD: u16 = 2;

/// The fixed size of the header: magic, version, flags, creation time,
/// TOC offset and TOC length.
pub const HEADER_LEN: usize = 28;

/// The fixed size of one TOC entry: kind, offset, length, checksum.
pub const TOC_ENTRY_LEN: usize = 21;

/// The magic bytes that open every file of this format.
pub open spec fn spec_magic() -> Seq<u8> {
    seq![0x52u8, 0x35u8, 0x54u8, 0x55u8]
}

/// Append the magic bytes.
pub fn push_magic(out: &mut Vec<u8>)
    ensures
        final(out)@ == old(out)@ + spec_magic(),
{
    out.push(0x52u8);
    out.push(0x35u8);
    out.push(0x54u8);
    out.push(0x55u8);
    proof {
        assert(out@ =~= old(out)@ + spec_magic());
    }
}

/// What a TOC entry can point at.
#[derive(Clone, Copy, Debug, PartialEq, Eq, Structural)]
pub enum SectionKind {
    GraphData,
    Index,
}

/// A byte range within the file.
#[derive(Clone, Copy, Debug, PartialEq, Eq, Structural)]
pub struct Span {
    pub off: u64,
    pub len: u64,
}

/// One table-of-contents entry.
#[derive(Clone, Copy, Debug, PartialEq, Eq, Structural)]
pub struct TocEntry {
    pub kind: SectionKind,
    pub section: Span,
    pub crc32_u32: u32,
}

/// The parsed header, kept by the reader for diagnostics.
#[derive(Clone, Debug)]
pub struct Header {
    pub magic: Vec<u8>,
    pub version_u16: u16,
    pub flags_u16: u16,
    pub created_unix64: u64,
    pub toc_off_u64: u64,
    pub toc_len_u32: u32,
}

/// The mathematical view of a `Header`.
pub struct HeaderV {
    pub magic: Seq<u8>,
    pub version: u16,
    pub flags: u16,
    pub created: u64,
    pub toc_off: u64,
    pub toc_len: u32,
}

impl View for Header {
    type V = HeaderV;

    open spec fn view(&self) -> HeaderV {
        HeaderV {
            magic: self.magic@,
            version: self.version_u16,
            flags: self.flags_u16,
            created: self.created_unix64,
            toc_off: self.toc_off_u64,
            toc_len: self.toc_len_u32,
        }
    }
}

/// The file opens with the magic bytes.
pub open spec fn spec_magic_ok(b: Seq<u8>) -> bool {
    b.len() >= 4 && b.subrange(0, 4) == spec_magic()
}

/// The header's version field.
pub open spec fn spec_version_of(b: Seq<u8>) -> u16 {
    spec_le16_at(b, 4)
}

/// The header's flags field.
pub open spec fn spec_flags_of(b: Seq<u8>) -> u16 {
    spec_le16_at(b, 6)
}

/// The header's creation-time field.
pub open spec fn spec_created_of(b: Seq<u8>) -> u64 {
    spec_le64_at(b, 8)
}

/// The header's TOC offset field.
pub open spec fn spec_toc_off_of(b: Seq<u8>) -> u64 {
    spec_le64_at(b, 16)
}

/// The header's TOC length field.
pub open spec fn spec_toc_len_of(b: Seq<u8>) -> u32 {
    spec_le32_at(b, 24)
}

/// Bit 0: sections carry checksums.
pub open spec fn spec_flag_crc(flags: u16) -> bool {
    flags & FLAG_CRC != 0
}

/// Bit 1: section payloads are compressed.
pub open spec fn spec_flag_zstd(flags: u16) -> bool {
    flags & FLAG_ZSTD != 0
}

/// A complete header with the right magic and a version this crate
/// understands. Unknown flag bits are ignored, never rejected.
pub open spec fn spec_header_ok(b: Seq<u8>) -> bool {
    b.len() >= HEADER_LEN && spec_magic_ok(b) && spec_version_of(b) <= FORMAT_VERSION
}

/// How many entries the TOC holds.
pub open spec fn spec_toc_count(b: Seq<u8>) -> int {
    spec_toc_len_of(b) as int / TOC_ENTRY_LEN as int
}

/// The TOC entry whose first byte sits at offset `i`.
pub open spec fn spec_toc_entry_at(b: Seq<u8>, i: int) -> TocEntry {
    TocEntry {
        kind: if b[i] == 0 {
            SectionKind::GraphData
        } else {
            SectionKind::Index
        },
        section: Span { off: spec_le64_at(b, i + 1), len: spec_le64_at(b, i + 9) },
        crc32_u32: spec_le32_at(b, i + 17),
    }
}

/// The entry has a known kind and points inside the data region, before
/// the TOC itself.
pub open spec fn spec_toc_entry_ok(b: Seq<u8>, i: int) -> bool {
    let e = spec_toc_entry_at(b, i);
    &&& (b[i] == 0 || b[i] == 1)
    &&& e.section.off >= HEADER_LEN as u64
    &&& e.section.off as int + e.section.len as int <= spec_toc_off_of(b) as int
}

/// A structurally valid file: good header, TOC within bounds, a whole
/// number of entries, every entry within the data region.
pub open spec fn spec_toc_ok(b: Seq<u8>) -> bool {
    &&& spec_header_ok(b)
    &&& spec_toc_off_of(b) >= HEADER_LEN as u64
    &&& spec_toc_off_of(b) as int + spec_toc_len_of(b) as int <= b.len()
    &&& spec_toc_len_of(b) as int % TOC_ENTRY_LEN as int == 0
    &&& forall|j: int|
        0 <= j < spec_toc_count(b) ==> #[trigger] spec_toc_entry_ok(
            b,
            spec_toc_off_of(b) as int + TOC_ENTRY_LEN as int * j,
        )
}

/// The parsed table of contents.
pub open spec fn spec_toc(b: Seq<u8>) -> Seq<TocEntry> {
    Seq::new(
        spec_toc_count(b) as nat,
        |j: int| spec_toc_entry_at(b, spec_toc_off_of(b) as int + TOC_ENTRY_LEN as int * j),
    )
}

/// The stored (possibly compressed) bytes of one section.
pub open spec fn spec_stored(b: Seq<u8>, e: TocEntry) -> Seq<u8> {
    b.subrange(e.section.off as int, e.section.off as int + e.section.len as int)
}

/// The section fails its checksum.
pub open spec fn spec_section_corrupt(b: Seq<u8>, e: TocEntry, flags: u16) -> bool {
    spec_flag_crc(flags) && crc32_of(spec_stored(b, e)) != e.crc32_u32
}

/// The decoded payload of one section: `None` on a checksum mismatch or
/// an undecodable frame.
pub open spec fn spec_payload(b: Seq<u8>, e: TocEntry, flags: u16) -> Option<Seq<u8>> {
    if spec_section_corrupt(b, e, flags) {
        None
    } else if spec_flag_zstd(flags) {
        unzstd_of(spec_stored(b, e))
    } else {
        Some(spec_stored(b, e))
    }
}

/// The TOC entry of the index section: the last entry, which must name it.
pub open spec fn spec_index_toc_entry(b: Seq<u8>) -> Option<TocEntry> {
    let toc = spec_toc(b);
    if toc.len() >= 1 && toc.last().kind == SectionKind::Index {
        Some(toc.last())
    } else {
        None
    }
}

/// Every graph the file records, decoded from the index section.
pub open spec fn spec_file_refs(b: Seq<u8>) -> Option<Seq<GraphRefV>> {
    if !spec_toc_ok(b) {
        None
    } else {
        match spec_index_toc_entry(b) {
            Some(e) => match spec_payload(b, e, spec_flags_of(b)) {
                Some(p) => spec_parse_index_payload(p),
                None => None,
            },
            None => None,
        }
    }
}

/// The triples of graph `gid`, decoded from its own section; the triple
/// count comes from the index.
pub open spec fn spec_file_graph(b: Seq<u8>, gid: int) -> Option<Seq<TripleV>> {
    match spec_file_refs(b) {
        Some(refs) => if 0 <= gid < refs.len() && gid < spec_toc(b).len() - 1 && spec_toc(
            b,
        )[gid].kind == SectionKind::GraphData {
            match spec_payload(b, spec_toc(b)[gid], spec_flags_of(b)) {
                Some(p) => spec_parse_graph_payload(p, refs[gid].n_triples),
                None => None,
            }
        } else {
            None
        },
        None => None,
    }
}

/// The stored bytes decode back to the payload under the file's
/// compression setting.
pub open spec fn spec_stores_payload(stored: Seq<u8>, payload: Seq<u8>, zstd: bool) -> bool {
    if zstd {
        unzstd_of(stored) == Some(payload)
    } else {
        stored == payload
    }
}

/// Apply the file-wide pipeline to one payload: compress where enabled,
/// then checksum the stored bytes. Fails only if compression does.
pub(crate) fn seal_section(payload: &Vec<u8>, zstd: bool, with_crc: bool) -> (r: Result<
    (Vec<u8>, u32),
    R5Error,
>)
    ensures
        r matches Ok(sc) ==> spec_stores_payload(sc.0@, payload@, zstd) && sc.1 == (
        if with_crc {
            crc32_of(sc.0@)
        } else {
            0u32
        }),
        !zstd ==> r is Ok,
        r matches Err(e) ==> e == R5Error::Io,
{
    let stored: Vec<u8> = if zstd {
        match zstd_compress(payload.as_slice()) {
            Some(c) => c,
            None => {
                return Err(R5Error::Io);
            },
        }
    } else {
        slice_to_vec(payload.as_slice())
    };
    let c = if with_crc {
        crc32(stored.as_slice())
    } else {
        0u32
    };
    Ok((stored, c))
}

} // verus!
