//! The lazy reader: opening parses and validates only the header and the
//! table of contents; the index section is decoded on each enumeration,
//! and a graph's section only when that graph is opened. Nothing is
//! cached, so memory stays bounded by what is being read.

use vstd::prelude::*;
use vstd::slice::{slice_subrange, slice_to_vec};
use crate::codec::{parse_graph_payload, parse_index_payload, str_eq};
use crate::foreign::{crc32, zstd_decompress};
use crate::format::{
    spec_created_of, spec_file_graph, spec_file_refs, spec_flag_crc, spec_flag_zstd,
    spec_flags_of, spec_header_ok, spec_index_toc_entry, spec_magic, spec_magic_ok, spec_payload,
    spec_section_corrupt, spec_stored, spec_toc, spec_toc_count, spec_toc_entry_at,
    spec_toc_entry_ok, spec_toc_len_of, spec_toc_off_of, spec_toc_ok, spec_version_of, Header,
    SectionKind, Span, TocEntry, FLAG_CRC, FLAG_ZSTD, FORMAT_VERSION, HEADER_LEN, TOC_ENTRY_LEN,
};
use crate::model::{GraphRef, GraphRefV, Term};
use crate::wire::{read_u16_at, read_u32_at, read_u64_at};
use crate::R5Error;

verus! {

/// A finalized file opened for reading: its bytes, parsed header and
/// parsed table of contents.
pub struct R5tuFile {
    bytes: Vec<u8>,
    header: Header,
    toc: Vec<TocEntry>,
}

impl R5tuFile {
    /// The raw bytes of the file.
    pub closed spec fn bytes(self) -> Seq<u8> {
        self.bytes@
    }

    /// The handle agrees with the specification parse of its bytes.
    pub closed spec fn wf(self) -> bool {
        &&& spec_toc_ok(self.bytes@)
        &&& self.header@.magic == spec_magic()
        &&& self.header@.version == spec_version_of(self.bytes@)
        &&& self.header@.flags == spec_flags_of(self.bytes@)
        &&& self.header@.created == spec_created_of(self.bytes@)
        &&& self.header@.toc_off == spec_toc_off_of(self.bytes@)
        &&& self.header@.toc_len == spec_toc_len_of(self.bytes@)
        &&& self.toc@ == spec_toc(self.bytes@)
    }

    /// Parse and validate the header and the table of contents, decoding
    /// no section payload. Fails with `BadMagic` exactly when the magic
    /// bytes are absent or wrong, with `UnsupportedVersion` exactly on a
    /// version newer than this crate understands, and with `Malformed` on
    /// any other structural fault; succeeds exactly on a structurally
    /// valid file.
    pub fn open(bytes: Vec<u8>) -> (r: Result<R5tuFile, R5Error>)
        ensures
            r matches Ok(f) ==> f.wf() && f.bytes() == bytes@,
            r is Ok <==> spec_toc_ok(bytes@),
            r == Err::<R5tuFile, R5Error>(R5Error::BadMagic) <==> !spec_magic_ok(bytes@),
            r == Err::<R5tuFile, R5Error>(R5Error::UnsupportedVersion) <==> (spec_magic_ok(bytes@)
                && bytes@.len() >= HEADER_LEN && spec_version_of(bytes@) > FORMAT_VERSION),
            r matches Err(e) ==> (e == R5Error::BadMagic || e == R5Error::UnsupportedVersion || e
                == R5Error::Malformed),
    {
        let n = bytes.len();
        if n < 4 {
            return Err(R5Error::BadMagic);
        }
        let m0 = bytes[0];
        let m1 = bytes[1];
        let m2 = bytes[2];
        let m3 = bytes[3];
        if !(m0 == 0x52 && m1 == 0x35 && m2 == 0x54 && m3 == 0x55) {
            proof {
                if spec_magic_ok(bytes@) {
                    assert(bytes@.subrange(0, 4)[0] == bytes@[0]);
                    assert(bytes@.subrange(0, 4)[1] == bytes@[1]);
                    assert(bytes@.subrange(0, 4)[2] == bytes@[2]);
                    assert(bytes@.subrange(0, 4)[3] == bytes@[3]);
                }
            }
            return Err(R5Error::BadMagic);
        }
        proof {
            assert(bytes@.subrange(0, 4) =~= spec_magic());
        }
        if n < HEADER_LEN {
            return Err(R5Error::Malformed);
        }
        let version = read_u16_at(bytes.as_slice(), 4);
        if version > FORMAT_VERSION {
            return Err(R5Error::UnsupportedVersion);
        }
        let flags = read_u16_at(bytes.as_slice(), 6);
        let created = read_u64_at(bytes.as_slice(), 8);
        let toc_off = read_u64_at(bytes.as_slice(), 16);
        let toc_len = read_u32_at(bytes.as_slice(), 24);
        if toc_off < HEADER_LEN as u64 {
            return Err(R5Error::Malformed);
        }
        if toc_off > n as u64 || (toc_len as u64) > n as u64 - toc_off {
            return Err(R5Error::Malformed);
        }
        if toc_len % (TOC_ENTRY_LEN as u32) != 0 {
            return Err(R5Error::Malformed);
        }
        let count: usize = (toc_len / (TOC_ENTRY_LEN as u32)) as usize;
        proof {
            assert(count == spec_toc_count(bytes@));
            assert(TOC_ENTRY_LEN as int * count as int == toc_len as int) by (nonlinear_arith)
                requires
                    toc_len as int % 21 == 0,
                    count as int == toc_len as int / 21,
                    TOC_ENTRY_LEN as int == 21,
            ;
        }
        let mut toc: Vec<TocEntry> = Vec::new();
        let mut j: usize = 0;
        while j < count
            invariant
                0 <= j <= count,
                n == bytes@.len(),
                n >= HEADER_LEN,
                spec_magic_ok(bytes@),
                spec_header_ok(bytes@),
                spec_version_of(bytes@) <= FORMAT_VERSION,
                toc_off == spec_toc_off_of(bytes@),
                toc_len == spec_toc_len_of(bytes@),
                count == spec_toc_count(bytes@),
                TOC_ENTRY_LEN as int * count as int == toc_len as int,
                toc_off as int + toc_len as int <= n as int,
                HEADER_LEN as u64 <= toc_off,
                toc@.len() == j,
                forall|x: int|
                    0 <= x < j ==> #[trigger] toc@[x] == spec_toc_entry_at(
                        bytes@,
                        toc_off as int + TOC_ENTRY_LEN as int * x,
                    ),
                forall|x: int|
                    0 <= x < j ==> #[trigger] spec_toc_entry_ok(
                        bytes@,
                        toc_off as int + TOC_ENTRY_LEN as int * x,
                    ),
            decreases count - j,
        {
            proof {
                assert(TOC_ENTRY_LEN as int * j as int + TOC_ENTRY_LEN as int <= toc_len as int)
                    by (nonlinear_arith)
                    requires
                        j < count,
                        TOC_ENTRY_LEN as int * count as int == toc_len as int,
                        TOC_ENTRY_LEN as int == 21,
                ;
                assert(TOC_ENTRY_LEN as int * j as int >= 0) by (nonlinear_arith)
                    requires
                        j >= 0,
                        TOC_ENTRY_LEN as int == 21,
                ;
            }
            let pos: usize = toc_off as usize + TOC_ENTRY_LEN * j;
            let kb = bytes[pos];
            let off = read_u64_at(bytes.as_slice(), pos + 1);
            let len = read_u64_at(bytes.as_slice(), pos + 9);
            let crc = read_u32_at(bytes.as_slice(), pos + 17);
            if kb > 1 {
                proof {
                    assert(!spec_toc_entry_ok(
                        bytes@,
                        toc_off as int + TOC_ENTRY_LEN as int * j as int,
                    ));
                }
                return Err(R5Error::Malformed);
            }
            if off < HEADER_LEN as u64 || off > toc_off || len > toc_off - off {
                proof {
                    assert(!spec_toc_entry_ok(
                        bytes@,
                        toc_off as int + TOC_ENTRY_LEN as int * j as int,
                    ));
                }
                return Err(R5Error::Malformed);
            }
            let kind = if kb == 0 {
                SectionKind::GraphData
            } else {
                SectionKind::Index
            };
            toc.push(TocEntry { kind, section: Span { off, len }, crc32_u32: crc });
            j = j + 1;
        }
        proof {
            assert(spec_toc_ok(bytes@));
            assert(toc@ =~= spec_toc(bytes@));
        }
        let mut magic: Vec<u8> = Vec::new();
        magic.push(0x52u8);
        magic.push(0x35u8);
        magic.push(0x54u8);
        magic.push(0x55u8);
        proof {
            assert(magic@ =~= spec_magic());
        }
        Ok(
            R5tuFile {
                bytes,
                header: Header {
                    magic,
                    version_u16: version,
                    flags_u16: flags,
                    created_unix64: created,
                    toc_off_u64: toc_off,
                    toc_len_u32: toc_len,
                },
                toc,
            },
        )
    }

    /// The parsed header, read-only, for diagnostics.
    pub fn header(&self) -> (h: &Header)
        requires
            self.wf(),
        ensures
            h@.magic == spec_magic(),
            h@.version == spec_version_of(self.bytes()),
            h@.flags == spec_flags_of(self.bytes()),
            h@.created == spec_created_of(self.bytes()),
            h@.toc_off == spec_toc_off_of(self.bytes()),
            h@.toc_len == spec_toc_len_of(self.bytes()),
    {
        &self.header
    }

    /// The parsed table of contents, read-only, for diagnostics.
    pub fn toc(&self) -> (t: &Vec<TocEntry>)
        requires
            self.wf(),
        ensures
            t@ == spec_toc(self.bytes()),
    {
        &self.toc
    }

    /// Read one section's stored bytes, verify its checksum where the file
    /// carries them, and decompress where the file is compressed.
    fn read_section(&self, e: TocEntry) -> (r: Result<Vec<u8>, R5Error>)
        requires
            self.wf(),
            HEADER_LEN as int <= e.section.off as int,
            e.section.off as int + e.section.len as int <= self.bytes().len(),
        ensures
            r matches Ok(p) ==> spec_payload(self.bytes(), e, spec_flags_of(self.bytes()))
                == Some(p@),
            r == Err::<Vec<u8>, R5Error>(R5Error::Corrupt) <==> spec_section_corrupt(
                self.bytes(),
                e,
                spec_flags_of(self.bytes()),
            ),
            r matches Err(er) ==> er == R5Error::Corrupt || er == R5Error::Malformed,
            !spec_flag_zstd(spec_flags_of(self.bytes())) ==> (r is Ok <==> !spec_section_corrupt(
                self.bytes(),
                e,
                spec_flags_of(self.bytes()),
            )),
    {
        let blen = self.bytes.len();
        let off: usize = e.section.off as usize;
        let end: usize = off + e.section.len as usize;
        let stored = slice_subrange(self.bytes.as_slice(), off, end);
        proof {
            assert(stored@ == spec_stored(self.bytes@, e));
        }
        let flags = self.header.flags_u16;
        if flags & FLAG_CRC != 0 {
            let c = crc32(stored);
            if c != e.crc32_u32 {
                return Err(R5Error::Corrupt);
            }
        }
        if flags & FLAG_ZSTD != 0 {
            match zstd_decompress(stored) {
                Some(p) => Ok(p),
                None => Err(R5Error::Malformed),
            }
        } else {
            Ok(slice_to_vec(stored))
        }
    }

    /// The table-of-contents entry of the index section, with its bounds.
    fn index_entry(&self) -> (r: Result<TocEntry, R5Error>)
        requires
            self.wf(),
        ensures
            r matches Ok(e) ==> spec_index_toc_entry(self.bytes()) == Some(e)
                && HEADER_LEN as int <= e.section.off as int && e.section.off as int
                + e.section.len as int <= self.bytes().len(),
            r is Err <==> spec_index_toc_entry(self.bytes()) is None,
            r matches Err(er) ==> er == R5Error::Malformed,
    {
        let nt = self.toc.len();
        if nt == 0 {
            return Err(R5Error::Malformed);
        }
        let e = self.toc[nt - 1];
        match e.kind {
            SectionKind::Index => {
                proof {
                    let b = self.bytes@;
                    assert(spec_toc_entry_ok(
                        b,
                        spec_toc_off_of(b) as int + TOC_ENTRY_LEN as int * (nt - 1) as int,
                    ));
                    assert(spec_toc(b)[nt - 1] == e);
                }
                Ok(e)
            },
            SectionKind::GraphData => Err(R5Error::Malformed),
        }
    }

    /// Decode the index section once and return every graph the file
    /// records, in stored gid-ascending order. Cost scales with the number
    /// of graphs, not triples.
    pub fn enumerate_all(&self) -> (r: Result<Vec<GraphRef>, R5Error>)
        requires
            self.wf(),
        ensures
            r matches Ok(v) ==> spec_file_refs(self.bytes()) == Some(
                v@.map_values(|g: GraphRef| g@),
            ),
            r == Err::<Vec<GraphRef>, R5Error>(R5Error::Corrupt) <==> (spec_index_toc_entry(
                self.bytes(),
            ) matches Some(e) && spec_section_corrupt(
                self.bytes(),
                e,
                spec_flags_of(self.bytes()),
            )),
            r matches Err(e) ==> e == R5Error::Corrupt || e == R5Error::Malformed,
            !spec_flag_zstd(spec_flags_of(self.bytes())) ==> (r is Ok <==> spec_file_refs(
                self.bytes(),
            ) is Some),
    {
        let e = match self.index_entry() {
            Ok(e) => e,
            Err(er) => {
                return Err(er);
            },
        };
        match self.read_section(e) {
            Ok(p) => match parse_index_payload(p.as_slice()) {
                Some(v) => Ok(v),
                None => Err(R5Error::Malformed),
            },
            Err(er) => Err(er),
        }
    }

    /// The subset of `enumerate_all` whose graph name equals `name`
    /// exactly (case-sensitive), in the same relative order; empty, not an
    /// error, when nothing matches.
    pub fn enumerate_by_graphname(&self, name: &str) -> (r: Result<Vec<GraphRef>, R5Error>)
        requires
            self.wf(),
        ensures
            r matches Ok(v) ==> (spec_file_refs(self.bytes()) matches Some(refs)
                && v@.map_values(|g: GraphRef| g@) == refs.filter(
                |g: GraphRefV| g.graphname == name@,
            )),
            r == Err::<Vec<GraphRef>, R5Error>(R5Error::Corrupt) <==> (spec_index_toc_entry(
                self.bytes(),
            ) matches Some(e) && spec_section_corrupt(
                self.bytes(),
                e,
                spec_flags_of(self.bytes()),
            )),
            r matches Err(e) ==> e == R5Error::Corrupt || e == R5Error::Malformed,
            !spec_flag_zstd(spec_flags_of(self.bytes())) ==> (r is Ok <==> spec_file_refs(
                self.bytes(),
            ) is Some),
    {
        let ghost gv = |g: GraphRef| g@;
        let ghost pred = |g: GraphRefV| g.graphname == name@;
        let all = match self.enumerate_all() {
            Ok(v) => v,
            Err(er) => {
                return Err(er);
            },
        };
        let ghost vseq = all@.map_values(gv);
        let mut picked: Vec<GraphRef> = Vec::new();
        let mut i: usize = 0;
        proof {
            reveal(Seq::filter);
            assert(vseq.take(0) =~= Seq::<GraphRefV>::empty());
            assert(Seq::<GraphRefV>::empty().filter(pred) =~= Seq::<GraphRefV>::empty());
            assert(picked@.map_values(gv) =~= Seq::<GraphRefV>::empty());
        }
        while i < all.len()
            invariant
                0 <= i <= all@.len(),
                vseq == all@.map_values(gv),
                gv == (|g: GraphRef| g@),
                pred == (|g: GraphRefV| g.graphname == name@),
                picked@.map_values(gv) == vseq.take(i as int).filter(pred),
            decreases all@.len() - i,
        {
            let ghost pre = vseq.take(i as int);
            let g = &all[i];
            let hit = str_eq(g.graphname.as_str(), name);
            proof {
                assert(vseq.take(i as int + 1).drop_last() =~= pre);
                assert(vseq.take(i as int + 1).last() == vseq[i as int]);
            }
            proof {
                assert(vseq[i as int] == all@[i as int]@);
            }
            if hit {
                let copied = GraphRef {
                    gid: g.gid,
                    id: g.id.clone(),
                    graphname: g.graphname.clone(),
                    n_triples: g.n_triples,
                };
                proof {
                    assert(copied@ == vseq[i as int]);
                }
                picked.push(copied);
                proof {
                    reveal(Seq::filter);
                    assert(pred(vseq[i as int]));
                    assert(picked@.map_values(gv) =~= pre.filter(pred).push(vseq[i as int]));
                    assert(vseq.take(i as int + 1).filter(pred) == pre.filter(pred).push(
                        vseq[i as int],
                    ));
                }
            } else {
                proof {
                    reveal(Seq::filter);
                    assert(!pred(vseq[i as int]));
                    assert(vseq.take(i as int + 1).filter(pred) == pre.filter(pred));
                }
            }
            i = i + 1;
        }
        proof {
            assert(vseq.take(all@.len() as int) =~= vseq);
        }
        Ok(picked)
    }

    /// Decode graph `gid`'s section on demand: its triples, in insertion
    /// order. Nothing is cached; a later call decodes the section again.
    pub fn open_graph(&self, gid: u64) -> (r: Result<Vec<(Term, Term, Term)>, R5Error>)
        requires
            self.wf(),
        ensures
            r matches Ok(v) ==> spec_file_graph(self.bytes(), gid as int) == Some(
                v@.map_values(|t: (Term, Term, Term)| (t.0@, t.1@, t.2@)),
            ),
            r matches Err(e) ==> e == R5Error::Corrupt || e == R5Error::Malformed,
            !spec_flag_zstd(spec_flags_of(self.bytes())) ==> (r is Ok <==> spec_file_graph(
                self.bytes(),
                gid as int,
            ) is Some),
    {
        let refs = match self.enumerate_all() {
            Ok(v) => v,
            Err(er) => {
                proof {
                    if !spec_flag_zstd(spec_flags_of(self.bytes())) {
                        assert(spec_file_refs(self.bytes()) is None);
                    }
                }
                return Err(er);
            },
        };
        let nrefs = refs.len();
        if gid >= nrefs as u64 {
            return Err(R5Error::Malformed);
        }
        let gi = gid as usize;
        let nt = self.toc.len();
        if nt == 0 || gi >= nt - 1 {
            return Err(R5Error::Malformed);
        }
        let e = self.toc[gi];
        proof {
            let b = self.bytes@;
            assert(spec_toc_entry_ok(
                b,
                spec_toc_off_of(b) as int + TOC_ENTRY_LEN as int * gi as int,
            ));
            assert(spec_toc(b)[gi as int] == e);
        }
        match e.kind {
            SectionKind::GraphData => {},
            SectionKind::Index => {
                return Err(R5Error::Malformed);
            },
        }
        let p = match self.read_section(e) {
            Ok(p) => p,
            Err(er) => {
                return Err(er);
            },
        };
        let n = refs[gi].n_triples;
        match parse_graph_payload(p.as_slice(), n) {
            Some(v) => Ok(v),
            None => Err(R5Error::Malformed),
        }
    }
}

} // verus!
