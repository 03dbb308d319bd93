//! Failure isolation: checksum detection per section, the documented
//! silence without checksums, magic and version validation, and
//! structurally broken files.

use rdf5d::writer::WriterOptions;
use rdf5d::{Quint, R5Error, R5tuFile, StreamingWriter, Term};

fn build_one(zstd: bool, with_crc: bool) -> Vec<u8> {
    let mut w = StreamingWriter::new(WriterOptions { zstd, with_crc });
    w.add(Quint {
        id: "src".to_string(),
        s: Term::Iri("http://s".to_string()),
        p: Term::Iri("http://p".to_string()),
        o: Term::Iri("http://oxxxxxxx".to_string()),
        gname: "g".to_string(),
    })
    .unwrap();
    w.finalize().unwrap()
}

fn find(hay: &[u8], needle: &[u8]) -> usize {
    hay.windows(needle.len())
        .position(|w| w == needle)
        .expect("pattern present in file")
}

#[test]
fn single_byte_flip_in_graph_section_is_corrupt_with_checksums() {
    let mut bytes = build_one(false, true);
    // flip one content byte inside the graph section's payload
    let pos = find(&bytes, b"oxxxxxxx") + 3;
    bytes[pos] = b'y';
    let f = R5tuFile::open(bytes).expect("header and TOC are untouched");
    assert_eq!(f.open_graph(0), Err(R5Error::Corrupt));
    // the index section is its own failure domain and still decodes
    let refs = f.enumerate_all().expect("index section is unaffected");
    assert_eq!(refs[0].n_triples, 1);
}

#[test]
fn single_byte_flip_in_index_section_is_corrupt_with_checksums() {
    let mut bytes = build_one(false, true);
    // the provenance id is stored once, in the index section
    let pos = find(&bytes, b"src");
    bytes[pos] = b'S';
    let f = R5tuFile::open(bytes).expect("header and TOC are untouched");
    assert_eq!(f.enumerate_all().err(), Some(R5Error::Corrupt));
    assert_eq!(f.enumerate_by_graphname("g").err(), Some(R5Error::Corrupt));
    // the graph section still decodes: corruption is per-section
    assert!(f.open_graph(0).is_err());
}

#[test]
fn corruption_is_silently_undetected_without_checksums() {
    let mut bytes = build_one(false, false);
    let pos = find(&bytes, b"oxxxxxxx") + 3;
    bytes[pos] = b'y';
    let f = R5tuFile::open(bytes).expect("header and TOC are untouched");
    // the flip goes unnoticed: decode succeeds and hands back altered data
    let triples = f.open_graph(0).expect("no checksum, no detection");
    assert_eq!(triples[0].2, Term::Iri("http://oxxyxxxx".to_string()));
}

#[test]
fn every_corrupting_flip_inside_sections_is_detected() {
    let clean = build_one(false, true);
    let f = R5tuFile::open(clean.clone()).unwrap();
    let graph_span = f.toc()[0].section;
    let index_span = f.toc()[1].section;
    // the data region: everything between the header and the TOC
    let data_start = 28usize;
    let data_end = f.header().toc_off_u64 as usize;
    for pos in data_start..data_end {
        for shift in [1u8, 0x80] {
            let mut bytes = clean.clone();
            bytes[pos] ^= shift;
            let g = R5tuFile::open(bytes).expect("header and TOC are untouched");
            let in_graph =
                (pos as u64) >= graph_span.off && (pos as u64) < graph_span.off + graph_span.len;
            if in_graph {
                // exactly the touched section fails, with Corrupt
                assert_eq!(g.open_graph(0), Err(R5Error::Corrupt), "flip at {pos}");
                assert!(g.enumerate_all().is_ok(), "index unaffected by flip at {pos}");
            } else {
                assert!(
                    (pos as u64) >= index_span.off && (pos as u64) < index_span.off + index_span.len,
                    "data region is packed"
                );
                assert_eq!(g.enumerate_all().err(), Some(R5Error::Corrupt), "flip at {pos}");
            }
        }
    }
}

#[test]
fn wrong_magic_is_bad_magic() {
    let mut bytes = build_one(false, true);
    bytes[0] = b'X';
    assert!(matches!(R5tuFile::open(bytes), Err(R5Error::BadMagic)));
}

#[test]
fn truncated_magic_is_bad_magic() {
    let bytes = build_one(false, true);
    assert!(matches!(R5tuFile::open(bytes[..2].to_vec()), Err(R5Error::BadMagic)));
    assert!(matches!(R5tuFile::open(Vec::new()), Err(R5Error::BadMagic)));
}

#[test]
fn newer_version_is_unsupported() {
    let mut bytes = build_one(false, true);
    // the version field sits right after the four magic bytes
    bytes[4] = 2;
    assert!(matches!(R5tuFile::open(bytes), Err(R5Error::UnsupportedVersion)));
}

#[test]
fn truncated_file_is_malformed() {
    let bytes = build_one(false, true);
    // magic intact, header incomplete
    assert!(matches!(R5tuFile::open(bytes[..10].to_vec()), Err(R5Error::Malformed)));
    // TOC cut short
    let mut cut = bytes.clone();
    cut.pop();
    assert!(matches!(R5tuFile::open(cut), Err(R5Error::Malformed)));
}

#[test]
fn compressed_sections_checksum_the_stored_bytes() {
    // checksums cover post-compression bytes: flipping any stored byte in
    // the data region must surface as an error on some section
    let clean = build_one(true, true);
    let f = R5tuFile::open(clean.clone()).unwrap();
    let data_start = 28usize;
    let data_end = f.header().toc_off_u64 as usize;
    for pos in data_start..data_end {
        let mut bytes = clean.clone();
        bytes[pos] ^= 1;
        let g = R5tuFile::open(bytes).expect("header and TOC are untouched");
        assert!(
            g.enumerate_all().is_err() || g.open_graph(0).is_err(),
            "flip at {pos} escaped both sections"
        );
    }
}
