//! Write-then-read behavior: grouping, gids, counts, triple content, the
//! empty file, and the independence of decoded content from the writer's
//! compression and checksum toggles.

use rdf5d::writer::WriterOptions;
use rdf5d::{Quint, R5tuFile, StreamingWriter, Term};

fn iri(s: &str) -> Term {
    Term::Iri(s.to_string())
}

fn quint(id: &str, gname: &str, s: &str, p: &str, o: &str) -> Quint {
    Quint {
        id: id.to_string(),
        s: iri(s),
        p: iri(p),
        o: iri(o),
        gname: gname.to_string(),
    }
}

fn build(quints: &[Quint], zstd: bool, with_crc: bool) -> Vec<u8> {
    let mut w = StreamingWriter::new(WriterOptions { zstd, with_crc });
    for q in quints {
        w.add(q.clone()).expect("add never fails on content");
    }
    w.finalize().expect("finalize succeeds on small inputs")
}

fn sample() -> Vec<Quint> {
    vec![
        quint("a", "g1", "http://s/1", "http://p/1", "http://o/1"),
        quint("a", "g1", "http://s/2", "http://p/2", "http://o/2"),
        quint("b", "g2", "http://s/3", "http://p/3", "http://o/3"),
    ]
}

#[test]
fn scenario_two_graphs_first_seen_order() {
    let bytes = build(&sample(), false, true);
    let f = R5tuFile::open(bytes).expect("valid file");
    let refs = f.enumerate_all().expect("index decodes");
    assert_eq!(refs.len(), 2);
    assert_eq!(refs[0].gid, 0);
    assert_eq!(refs[0].id, "a");
    assert_eq!(refs[0].graphname, "g1");
    assert_eq!(refs[0].n_triples, 2);
    assert_eq!(refs[1].gid, 1);
    assert_eq!(refs[1].id, "b");
    assert_eq!(refs[1].graphname, "g2");
    assert_eq!(refs[1].n_triples, 1);
}

#[test]
fn empty_finalize_is_openable_and_empty() {
    let w = StreamingWriter::new(WriterOptions { zstd: false, with_crc: true });
    let bytes = w.finalize().expect("empty finalize succeeds");
    let f = R5tuFile::open(bytes).expect("empty file is valid");
    let refs = f.enumerate_all().expect("index decodes");
    assert!(refs.is_empty());
    // the only section is the index: zero graph sections
    assert_eq!(f.toc().len(), 1);
    assert_eq!(f.toc()[0].kind, rdf5d::format::SectionKind::Index);
}

#[test]
fn triples_come_back_in_insertion_order() {
    let quints = vec![
        quint("a", "g", "http://s/1", "http://p/1", "http://o/1"),
        Quint {
            id: "a".to_string(),
            s: Term::BNode("_:b0".to_string()),
            p: iri("http://p/2"),
            o: Term::Literal {
                lex: "hello".to_string(),
                dt: Some("http://www.w3.org/2001/XMLSchema#string".to_string()),
                lang: None,
            },
            gname: "g".to_string(),
        },
        Quint {
            id: "a".to_string(),
            s: iri("http://s/3"),
            p: iri("http://p/3"),
            o: Term::Literal { lex: "bonjour".to_string(), dt: None, lang: Some("fr".to_string()) },
            gname: "g".to_string(),
        },
    ];
    let bytes = build(&quints, false, true);
    let f = R5tuFile::open(bytes).expect("valid file");
    let triples = f.open_graph(0).expect("graph decodes");
    assert_eq!(triples.len(), 3);
    assert_eq!(triples[0].0, iri("http://s/1"));
    assert_eq!(triples[1].0, Term::BNode("_:b0".to_string()));
    assert_eq!(
        triples[1].2,
        Term::Literal {
            lex: "hello".to_string(),
            dt: Some("http://www.w3.org/2001/XMLSchema#string".to_string()),
            lang: None,
        }
    );
    assert_eq!(
        triples[2].2,
        Term::Literal { lex: "bonjour".to_string(), dt: None, lang: Some("fr".to_string()) }
    );
}

#[test]
fn options_do_not_change_decoded_content() {
    let quints = sample();
    let plain = build(&quints, false, false);
    let mut decoded: Vec<(Vec<rdf5d::GraphRef>, Vec<(Term, Term, Term)>)> = Vec::new();
    for (zstd, with_crc) in [(false, false), (false, true), (true, false), (true, true)] {
        let bytes = build(&quints, zstd, with_crc);
        if zstd {
            assert_ne!(bytes, plain, "compressed bytes differ from plain bytes");
        }
        let f = R5tuFile::open(bytes).expect("valid file");
        let refs = f.enumerate_all().expect("index decodes");
        let triples = f.open_graph(0).expect("graph decodes");
        decoded.push((refs, triples));
    }
    for other in &decoded[1..] {
        assert_eq!(other.0, decoded[0].0);
        assert_eq!(other.1, decoded[0].1);
    }
}

#[test]
fn enumerate_by_graphname_filters_exactly() {
    let bytes = build(&sample(), false, true);
    let f = R5tuFile::open(bytes).expect("valid file");
    let g1 = f.enumerate_by_graphname("g1").expect("index decodes");
    assert_eq!(g1.len(), 1);
    assert_eq!(g1[0].id, "a");
    assert_eq!(g1[0].graphname, "g1");
    // case-sensitive, exact: no match is empty, not an error
    let none = f.enumerate_by_graphname("G1").expect("no match is not an error");
    assert!(none.is_empty());
    let all = f.enumerate_all().expect("index decodes");
    let manual: Vec<_> = all.into_iter().filter(|g| g.graphname == "g1").collect();
    assert_eq!(manual, g1);
}

#[test]
fn reopening_redecodes_without_caching() {
    let bytes = build(&sample(), true, true);
    let f = R5tuFile::open(bytes).expect("valid file");
    let a = f.open_graph(0).expect("graph decodes");
    let b = f.open_graph(0).expect("graph decodes again");
    assert_eq!(a, b);
    assert_eq!(f.enumerate_all().unwrap(), f.enumerate_all().unwrap());
}

#[test]
fn open_graph_out_of_range_is_malformed() {
    let bytes = build(&sample(), false, true);
    let f = R5tuFile::open(bytes).expect("valid file");
    assert_eq!(f.open_graph(2), Err(rdf5d::R5Error::Malformed));
}

#[test]
fn interleaved_keys_group_in_first_seen_order() {
    let quints = vec![
        quint("a", "g1", "http://s/1", "http://p", "http://o/1"),
        quint("b", "g1", "http://s/2", "http://p", "http://o/2"),
        quint("a", "g1", "http://s/3", "http://p", "http://o/3"),
        quint("c", "g2", "http://s/4", "http://p", "http://o/4"),
        quint("b", "g1", "http://s/5", "http://p", "http://o/5"),
    ];
    let bytes = build(&quints, false, true);
    let f = R5tuFile::open(bytes).expect("valid file");
    let refs = f.enumerate_all().expect("index decodes");
    let summary: Vec<(u64, &str, &str, u64)> = refs
        .iter()
        .map(|g| (g.gid, g.id.as_str(), g.graphname.as_str(), g.n_triples))
        .collect();
    assert_eq!(summary, vec![(0, "a", "g1", 2), (1, "b", "g1", 2), (2, "c", "g2", 1)]);
    // triple order within each graph is insertion order, no reordering
    let ga = f.open_graph(0).unwrap();
    assert_eq!(ga[0].0, iri("http://s/1"));
    assert_eq!(ga[1].0, iri("http://s/3"));
    let gb = f.open_graph(1).unwrap();
    assert_eq!(gb[0].0, iri("http://s/2"));
    assert_eq!(gb[1].0, iri("http://s/5"));
}

#[test]
fn non_ascii_strings_round_trip() {
    let q1 = Quint {
        id: "qu\u{e9}bec".to_string(),
        s: iri("http://s/\u{e9}t\u{e9}"),
        p: iri("http://p"),
        o: Term::Literal { lex: "\u{3053}\u{3093}\u{306b}\u{3061}\u{306f}".to_string(), dt: None, lang: Some("ja".to_string()) },
        gname: "graphe-\u{e9}".to_string(),
    };
    let bytes = build(&[q1.clone()], true, true);
    let f = R5tuFile::open(bytes).expect("valid file");
    let refs = f.enumerate_all().unwrap();
    assert_eq!(refs[0].id, "qu\u{e9}bec");
    assert_eq!(refs[0].graphname, "graphe-\u{e9}");
    let by = f.enumerate_by_graphname("graphe-\u{e9}").unwrap();
    assert_eq!(by.len(), 1);
    let triples = f.open_graph(0).unwrap();
    assert_eq!(triples[0].0, q1.s);
    assert_eq!(triples[0].2, q1.o);
}
