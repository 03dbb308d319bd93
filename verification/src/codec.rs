//! The record codecs: length-prefixed strings, terms, triples and index
//! entries, each with a specification-level parser, a verified encoder
//! whose output parses back, and a verified decoder that agrees with the
//! specification parser.

use vstd::prelude::*;
use vstd::slice::{slice_index_get, slice_subrange};
use vstd::utf8::{decode_utf8, encode_utf8, valid_utf8};
use crate::foreign::bytes_to_string;
use crate::model::{spec_key_size, spec_str_size, spec_term_size, GraphRefV, Term, TermV};
use crate::wire::{
    lemma_le64_at_stable, lemma_subrange_prefix, lemma_subrange_suffix, push_u64, read_u64_at,
    spec_le64_at,
};

verus! {

/// A decoded triple.
pub type TripleV = (TermV, TermV, TermV);

/// A prefix of `b2` is all of `b1`: then `b2` is `b1` plus a suffix.
pub proof fn lemma_split_prefix(b1: Seq<u8>, b2: Seq<u8>)
    requires
        b1.len() <= b2.len(),
        b2.subrange(0, b1.len() as int) == b1,
    ensures
        b2 == b1 + b2.subrange(b1.len() as int, b2.len() as int),
{
    assert(b2 =~= b1 + b2.subrange(b1.len() as int, b2.len() as int));
}

/// Bytes before a preserved prefix's end are unchanged.
pub proof fn lemma_prefix_index(b1: Seq<u8>, b2: Seq<u8>, i: int)
    requires
        b1.len() <= b2.len(),
        b2.subrange(0, b1.len() as int) == b1,
        0 <= i < b1.len(),
    ensures
        b2[i] == b1[i],
{
    assert(b2.subrange(0, b1.len() as int)[i] == b2[i]);
}

// ---------------------------------------------------------------------
// Strings: a 64-bit byte length, then that many bytes of UTF-8.
// ---------------------------------------------------------------------

/// Parse a length-prefixed UTF-8 string at offset `i`; `None` where the
/// bytes end too soon or are not UTF-8.
pub open spec fn spec_parse_string(b: Seq<u8>, i: int) -> Option<(Seq<char>, int)> {
    if i < 0 || i + 8 > b.len() {
        None
    } else {
        let n = spec_le64_at(b, i) as int;
        if i + 8 + n > b.len() {
            None
        } else {
            let sb = b.subrange(i + 8, i + 8 + n);
            if valid_utf8(sb) {
                Some((decode_utf8(sb), i + 8 + n))
            } else {
                None
            }
        }
    }
}

/// A successful string parse moves forward and stays in bounds.
pub proof fn lemma_parse_string_bounds(b: Seq<u8>, i: int)
    requires
        spec_parse_string(b, i) is Some,
    ensures
        ({
            let (s, j) = spec_parse_string(b, i).unwrap();
            i + 8 <= j <= b.len()
        }),
{
}

/// Appending bytes does not disturb a successful string parse.
pub proof fn lemma_parse_string_stable(b: Seq<u8>, t: Seq<u8>, i: int)
    requires
        spec_parse_string(b, i) is Some,
    ensures
        spec_parse_string(b + t, i) == spec_parse_string(b, i),
{
    let n = spec_le64_at(b, i) as int;
    lemma_le64_at_stable(b, t, i);
    lemma_subrange_prefix(b, t, i + 8, i + 8 + n);
}

/// Append the string's byte length and UTF-8 bytes; the result parses back
/// to exactly the string, ending at the new end.
pub fn encode_string(out: &mut Vec<u8>, s: &str)
    ensures
        old(out)@.len() <= final(out)@.len(),
        final(out)@.len() == old(out)@.len() + spec_str_size(s@),
        final(out)@.subrange(0, old(out)@.len() as int) == old(out)@,
        spec_parse_string(final(out)@, old(out)@.len() as int) == Some(
            (s@, final(out)@.len() as int),
        ),
{
    let ghost b0 = out@;
    let bs = s.as_bytes();
    let blen = bs.len();
    push_u64(out, blen as u64);
    let ghost b1 = out@;
    out.extend_from_slice(bs);
    proof {
        broadcast use vstd::utf8::encode_utf8_valid_utf8, vstd::utf8::encode_utf8_decode_utf8;

        let i = b0.len() as int;
        let b2 = out@;
        assert(b2 == b1 + encode_utf8(s@));
        lemma_le64_at_stable(b1, encode_utf8(s@), i);
        assert(spec_le64_at(b2, i) == blen as u64);
        lemma_subrange_suffix(b1, encode_utf8(s@), i + 8, i + 8 + blen);
        assert(b2.subrange(i + 8, i + 8 + blen) == encode_utf8(s@));
        assert(decode_utf8(encode_utf8(s@)) == s@);
        assert(b2.subrange(0, i) =~= b0);
    }
}

/// Decode a length-prefixed UTF-8 string at offset `i`, exactly as the
/// specification parser does.
pub fn parse_string(b: &[u8], i: usize) -> (r: Option<(String, usize)>)
    ensures
        r matches Some((s, j)) ==> spec_parse_string(b@, i as int) == Some((s@, j as int)) && i
            < j <= b@.len(),
        r is None ==> spec_parse_string(b@, i as int) is None,
{
    let blen = b.len();
    if blen < 8 || i > blen - 8 {
        return None;
    }
    let n64 = read_u64_at(b, i);
    let rem = (blen - i - 8) as u64;
    if n64 > rem {
        return None;
    }
    let n = n64 as usize;
    let sb = slice_subrange(b, i + 8, i + 8 + n);
    match bytes_to_string(sb) {
        Some(s) => {
            proof {
                broadcast use vstd::utf8::encode_utf8_decode_utf8;

                assert(decode_utf8(sb@) == s@);
            }
            Some((s, i + 8 + n))
        },
        None => None,
    }
}

// ---------------------------------------------------------------------
// Terms: a tag byte, then the variant's strings. A literal carries one
// discriminator byte: no annotation, a datatype, or a language tag.
// ---------------------------------------------------------------------

/// Parse one term at offset `i`.
pub open spec fn spec_parse_term(b: Seq<u8>, i: int) -> Option<(TermV, int)> {
    if i < 0 || i + 1 > b.len() {
        None
    } else {
        let tag = b[i];
        if tag == 0 {
            match spec_parse_string(b, i + 1) {
                Some((s, j)) => Some((TermV::Iri(s), j)),
                None => None,
            }
        } else if tag == 1 {
            match spec_parse_string(b, i + 1) {
                Some((s, j)) => Some((TermV::BNode(s), j)),
                None => None,
            }
        } else if tag == 2 {
            match spec_parse_string(b, i + 1) {
                Some((lex, j)) => {
                    if j + 1 > b.len() {
                        None
                    } else {
                        let d = b[j];
                        if d == 0 {
                            Some((TermV::Literal { lex, dt: None, lang: None }, j + 1))
                        } else if d == 1 {
                            match spec_parse_string(b, j + 1) {
                                Some((dt, k)) => Some(
                                    (TermV::Literal { lex, dt: Some(dt), lang: None }, k),
                                ),
                                None => None,
                            }
                        } else if d == 2 {
                            match spec_parse_string(b, j + 1) {
                                Some((lang, k)) => Some(
                                    (TermV::Literal { lex, dt: None, lang: Some(lang) }, k),
                                ),
                                None => None,
                            }
                        } else {
                            None
                        }
                    }
                },
                None => None,
            }
        } else {
            None
        }
    }
}

/// A successful term parse moves forward and stays in bounds.
pub proof fn lemma_parse_term_bounds(b: Seq<u8>, i: int)
    requires
        spec_parse_term(b, i) is Some,
    ensures
        ({
            let (t, j) = spec_parse_term(b, i).unwrap();
            i < j <= b.len()
        }),
{
    let tag = b[i];
    if tag == 0 || tag == 1 {
        lemma_parse_string_bounds(b, i + 1);
    } else {
        lemma_parse_string_bounds(b, i + 1);
        match spec_parse_string(b, i + 1) {
            Some((lex, j)) => {
                if j + 1 <= b.len() && (b[j] == 1 || b[j] == 2) {
                    lemma_parse_string_bounds(b, j + 1);
                }
            },
            None => {},
        }
    }
}

/// Appending bytes does not disturb a successful term parse.
pub proof fn lemma_parse_term_stable(b: Seq<u8>, t: Seq<u8>, i: int)
    requires
        spec_parse_term(b, i) is Some,
    ensures
        spec_parse_term(b + t, i) == spec_parse_term(b, i),
{
    assert((b + t)[i] == b[i]);
    let tag = b[i];
    if tag == 0 || tag == 1 {
        lemma_parse_string_stable(b, t, i + 1);
    } else {
        lemma_parse_string_stable(b, t, i + 1);
        match spec_parse_string(b, i + 1) {
            Some((lex, j)) => {
                lemma_parse_string_bounds(b, i + 1);
                assert((b + t)[j] == b[j]);
                if b[j] == 1 || b[j] == 2 {
                    lemma_parse_string_stable(b, t, j + 1);
                }
            },
            None => {},
        }
    }
}

/// Append one well-formed term; the result parses back to exactly the
/// term, ending at the new end.
pub fn encode_term(out: &mut Vec<u8>, t: &Term)
    requires
        t@.wf(),
    ensures
        old(out)@.len() <= final(out)@.len(),
        final(out)@.len() == old(out)@.len() + spec_term_size(t@),
        final(out)@.subrange(0, old(out)@.len() as int) == old(out)@,
        spec_parse_term(final(out)@, old(out)@.len() as int) == Some(
            (t@, final(out)@.len() as int),
        ),
{
    let ghost b0 = out@;
    let ghost i = out@.len() as int;
    match t {
        Term::Iri(s) => {
            out.push(0u8);
            let ghost b1 = out@;
            encode_string(out, s.as_str());
            proof {
                assert(b1 == b0 + seq![0u8]);
                lemma_prefix_index(b1, out@, i);
                assert(out@[i] == 0u8);
                assert(out@.subrange(0, i) =~= b0);
            }
        },
        Term::BNode(s) => {
            out.push(1u8);
            let ghost b1 = out@;
            encode_string(out, s.as_str());
            proof {
                assert(b1 == b0 + seq![1u8]);
                lemma_prefix_index(b1, out@, i);
                assert(out@[i] == 1u8);
                assert(out@.subrange(0, i) =~= b0);
            }
        },
        Term::Literal { lex, dt, lang } => {
            out.push(2u8);
            let ghost b1 = out@;
            encode_string(out, lex.as_str());
            let ghost b2 = out@;
            let ghost j = out@.len() as int;
            match dt {
                Some(d) => {
                    out.push(1u8);
                    let ghost b3 = out@;
                    encode_string(out, d.as_str());
                    proof {
                        lemma_split_prefix(b3, out@);
                        assert(out@.subrange(0, b2.len() as int) =~= b2) by {
                            assert forall|k: int| 0 <= k < b2.len() implies out@.subrange(
                                0,
                                b2.len() as int,
                            )[k] == b2[k] by {
                                lemma_prefix_index(b3, out@, k);
                            }
                        }
                        lemma_split_prefix(b2, out@);
                        lemma_parse_string_stable(
                            b2,
                            out@.subrange(b2.len() as int, out@.len() as int),
                            i + 1,
                        );
                        lemma_prefix_index(b3, out@, i);
                        lemma_prefix_index(b3, out@, j);
                        lemma_prefix_index(b1, b2, i);
                        assert(out@[i] == 2u8);
                        assert(out@[j] == 1u8);
                        assert(t@ == (TermV::Literal { lex: lex@, dt: Some(d@), lang: None }));
                        assert(out@.subrange(0, i) =~= b0) by {
                            assert forall|k: int| 0 <= k < i implies out@[k] == b0[k] by {
                                lemma_prefix_index(b3, out@, k);
                                lemma_prefix_index(b1, b2, k);
                            }
                        }
                    }
                },
                None => {
                    match lang {
                        Some(l) => {
                            out.push(2u8);
                            let ghost b3 = out@;
                            encode_string(out, l.as_str());
                            proof {
                                lemma_split_prefix(b3, out@);
                                assert(out@.subrange(0, b2.len() as int) =~= b2) by {
                                    assert forall|k: int| 0 <= k < b2.len() implies out@.subrange(
                                        0,
                                        b2.len() as int,
                                    )[k] == b2[k] by {
                                        lemma_prefix_index(b3, out@, k);
                                    }
                                }
                                lemma_split_prefix(b2, out@);
                                lemma_parse_string_stable(
                                    b2,
                                    out@.subrange(b2.len() as int, out@.len() as int),
                                    i + 1,
                                );
                                lemma_prefix_index(b3, out@, i);
                                lemma_prefix_index(b3, out@, j);
                                lemma_prefix_index(b1, b2, i);
                                assert(out@[i] == 2u8);
                                assert(out@[j] == 2u8);
                                assert(t@ == (TermV::Literal { lex: lex@, dt: None, lang: Some(l@) }));
                                assert(out@.subrange(0, i) =~= b0) by {
                                    assert forall|k: int| 0 <= k < i implies out@[k] == b0[k] by {
                                        lemma_prefix_index(b3, out@, k);
                                        lemma_prefix_index(b1, b2, k);
                                    }
                                }
                            }
                        },
                        None => {
                            out.push(0u8);
                            proof {
                                assert(out@ == b2 + seq![0u8]);
                                lemma_parse_string_stable(b2, seq![0u8], i + 1);
                                lemma_prefix_index(b1, b2, i);
                                assert(out@[i] == 2u8);
                                assert(out@[j] == 0u8);
                                assert(t@ == (TermV::Literal { lex: lex@, dt: None, lang: None }));
                                assert(out@.subrange(0, i) =~= b0) by {
                                    assert forall|k: int| 0 <= k < i implies out@[k] == b0[k] by {
                                        lemma_prefix_index(b1, b2, k);
                                    }
                                }
                            }
                        },
                    }
                },
            }
        },
    }
}

/// Decode one term at offset `i`, exactly as the specification parser
/// does.
pub fn parse_term(b: &[u8], i: usize) -> (r: Option<(Term, usize)>)
    ensures
        r matches Some((t, j)) ==> spec_parse_term(b@, i as int) == Some((t@, j as int)) && i
            < j <= b@.len(),
        r is None ==> spec_parse_term(b@, i as int) is None,
{
    let blen = b.len();
    if i >= blen {
        return None;
    }
    let tag = *slice_index_get(b, i);
    if tag == 0 {
        match parse_string(b, i + 1) {
            Some((s, j)) => Some((Term::Iri(s), j)),
            None => None,
        }
    } else if tag == 1 {
        match parse_string(b, i + 1) {
            Some((s, j)) => Some((Term::BNode(s), j)),
            None => None,
        }
    } else if tag == 2 {
        match parse_string(b, i + 1) {
            Some((lex, j)) => {
                if j >= blen {
                    return None;
                }
                let d = *slice_index_get(b, j);
                if d == 0 {
                    Some((Term::Literal { lex, dt: None, lang: None }, j + 1))
                } else if d == 1 {
                    match parse_string(b, j + 1) {
                        Some((dt, k)) => Some((Term::Literal { lex, dt: Some(dt), lang: None }, k)),
                        None => None,
                    }
                } else if d == 2 {
                    match parse_string(b, j + 1) {
                        Some((lang, k)) => Some(
                            (Term::Literal { lex, dt: None, lang: Some(lang) }, k),
                        ),
                        None => None,
                    }
                } else {
                    None
                }
            },
            None => None,
        }
    } else {
        None
    }
}

// ---------------------------------------------------------------------
// Triples: three terms, back to back.
// ---------------------------------------------------------------------

/// Parse one triple at offset `i`.
pub open spec fn spec_parse_triple(b: Seq<u8>, i: int) -> Option<(TripleV, int)> {
    match spec_parse_term(b, i) {
        Some((s, j)) => match spec_parse_term(b, j) {
            Some((p, k)) => match spec_parse_term(b, k) {
                Some((o, l)) => Some(((s, p, o), l)),
                None => None,
            },
            None => None,
        },
        None => None,
    }
}

/// A successful triple parse moves forward and stays in bounds.
pub proof fn lemma_parse_triple_bounds(b: Seq<u8>, i: int)
    requires
        spec_parse_triple(b, i) is Some,
    ensures
        ({
            let (t, j) = spec_parse_triple(b, i).unwrap();
            i < j <= b.len()
        }),
{
    lemma_parse_term_bounds(b, i);
    match spec_parse_term(b, i) {
        Some((s, j)) => {
            lemma_parse_term_bounds(b, j);
            match spec_parse_term(b, j) {
                Some((p, k)) => {
                    lemma_parse_term_bounds(b, k);
                },
                None => {},
            }
        },
        None => {},
    }
}

/// Appending bytes does not disturb a successful triple parse.
pub proof fn lemma_parse_triple_stable(b: Seq<u8>, t: Seq<u8>, i: int)
    requires
        spec_parse_triple(b, i) is Some,
    ensures
        spec_parse_triple(b + t, i) == spec_parse_triple(b, i),
{
    lemma_parse_term_stable(b, t, i);
    match spec_parse_term(b, i) {
        Some((s, j)) => {
            lemma_parse_term_stable(b, t, j);
            match spec_parse_term(b, j) {
                Some((p, k)) => {
                    lemma_parse_term_stable(b, t, k);
                },
                None => {},
            }
        },
        None => {},
    }
}

/// Append one triple of well-formed terms; the result parses back to
/// exactly the triple, ending at the new end.
pub fn encode_triple(out: &mut Vec<u8>, s: &Term, p: &Term, o: &Term)
    requires
        s@.wf(),
        p@.wf(),
        o@.wf(),
    ensures
        old(out)@.len() <= final(out)@.len(),
        final(out)@.len() == old(out)@.len() + spec_term_size(s@) + spec_term_size(p@)
            + spec_term_size(o@),
        final(out)@.subrange(0, old(out)@.len() as int) == old(out)@,
        spec_parse_triple(final(out)@, old(out)@.len() as int) == Some(
            ((s@, p@, o@), final(out)@.len() as int),
        ),
{
    let ghost b0 = out@;
    encode_term(out, s);
    let ghost b1 = out@;
    encode_term(out, p);
    let ghost b2 = out@;
    encode_term(out, o);
    proof {
        assert(out@.subrange(0, b1.len() as int) =~= b1) by {
            assert forall|k: int| 0 <= k < b1.len() implies out@.subrange(0, b1.len() as int)[k]
                == b1[k] by {
                lemma_prefix_index(b2, out@, k);
                lemma_prefix_index(b1, b2, k);
            }
        }
        lemma_split_prefix(b1, out@);
        lemma_parse_term_stable(
            b1,
            out@.subrange(b1.len() as int, out@.len() as int),
            b0.len() as int,
        );
        lemma_split_prefix(b2, out@);
        lemma_parse_term_stable(
            b2,
            out@.subrange(b2.len() as int, out@.len() as int),
            b1.len() as int,
        );
        assert(out@.subrange(0, b0.len() as int) =~= b0) by {
            assert forall|k: int| 0 <= k < b0.len() implies out@.subrange(0, b0.len() as int)[k]
                == b0[k] by {
                lemma_prefix_index(b2, out@, k);
                lemma_prefix_index(b1, b2, k);
                lemma_prefix_index(b0, b1, k);
            }
        }
    }
}

/// Decode one triple at offset `i`, exactly as the specification parser
/// does.
pub fn parse_triple(b: &[u8], i: usize) -> (r: Option<((Term, Term, Term), usize)>)
    ensures
        r matches Some((t, j)) ==> spec_parse_triple(b@, i as int) == Some(
            ((t.0@, t.1@, t.2@), j as int),
        ) && i < j <= b@.len(),
        r is None ==> spec_parse_triple(b@, i as int) is None,
{
    match parse_term(b, i) {
        Some((s, j)) => match parse_term(b, j) {
            Some((p, k)) => match parse_term(b, k) {
                Some((o, l)) => Some(((s, p, o), l)),
                None => None,
            },
            None => None,
        },
        None => None,
    }
}

/// Parse `n` triples starting at offset `i`.
pub open spec fn spec_parse_triples(b: Seq<u8>, i: int, n: int) -> Option<(Seq<TripleV>, int)>
    decreases n,
{
    if n <= 0 {
        Some((Seq::empty(), i))
    } else {
        match spec_parse_triple(b, i) {
            Some((t, j)) => match spec_parse_triples(b, j, n - 1) {
                Some((ts, k)) => Some((seq![t] + ts, k)),
                None => None,
            },
            None => None,
        }
    }
}

/// Appending bytes does not disturb a successful triple-list parse.
pub proof fn lemma_parse_triples_stable(b: Seq<u8>, t: Seq<u8>, i: int, n: int)
    requires
        spec_parse_triples(b, i, n) is Some,
    ensures
        spec_parse_triples(b + t, i, n) == spec_parse_triples(b, i, n),
    decreases n,
{
    if n > 0 {
        lemma_parse_triple_stable(b, t, i);
        match spec_parse_triple(b, i) {
            Some((t0, j)) => {
                lemma_parse_triples_stable(b, t, j, n - 1);
            },
            None => {},
        }
    }
}

/// One more triple at the end extends a parsed triple list by one.
pub proof fn lemma_parse_triples_snoc(
    b: Seq<u8>,
    i: int,
    n: int,
    ts: Seq<TripleV>,
    j: int,
    t: TripleV,
    k: int,
)
    requires
        n >= 0,
        spec_parse_triples(b, i, n) == Some((ts, j)),
        spec_parse_triple(b, j) == Some((t, k)),
    ensures
        spec_parse_triples(b, i, n + 1) == Some((ts.push(t), k)),
    decreases n,
{
    if n == 0 {
        assert(spec_parse_triples(b, k, 0) == Some((Seq::<TripleV>::empty(), k)));
        assert(seq![t] + Seq::<TripleV>::empty() =~= ts.push(t));
    } else {
        match spec_parse_triple(b, i) {
            Some((t0, j0)) => {
                match spec_parse_triples(b, j0, n - 1) {
                    Some((rest, jj)) => {
                        lemma_parse_triples_snoc(b, j0, n - 1, rest, j, t, k);
                        assert(seq![t0] + rest.push(t) =~= (seq![t0] + rest).push(t));
                    },
                    None => {
                        assert(false);
                    },
                }
            },
            None => {
                assert(false);
            },
        }
    }
}

/// Decode `n` triples at offset `i`, exactly as the specification parser
/// does.
pub fn parse_triples(b: &[u8], i: usize, n: u64) -> (r: Option<(Vec<(Term, Term, Term)>, usize)>)
    requires
        i <= b@.len(),
    ensures
        r matches Some((ts, j)) ==> spec_parse_triples(b@, i as int, n as int) == Some(
            (ts@.map_values(|t: (Term, Term, Term)| (t.0@, t.1@, t.2@)), j as int),
        ) && j <= b@.len(),
        r is None ==> spec_parse_triples(b@, i as int, n as int) is None,
{
    let ghost tv = |t: (Term, Term, Term)| (t.0@, t.1@, t.2@);
    let mut acc: Vec<(Term, Term, Term)> = Vec::new();
    let mut pos: usize = i;
    let mut k: u64 = 0;
    proof {
        match spec_parse_triples(b@, pos as int, n as int) {
            Some((ts, j)) => {
                assert(acc@.map_values(tv) + ts =~= ts);
            },
            None => {},
        }
    }
    while k < n
        invariant
            i <= pos <= b@.len(),
            k <= n,
            spec_parse_triples(b@, i as int, n as int) == (match spec_parse_triples(
                b@,
                pos as int,
                n as int - k as int,
            ) {
                Some((ts, j)) => Some((acc@.map_values(tv) + ts, j)),
                None => None,
            }),
            tv == (|t: (Term, Term, Term)| (t.0@, t.1@, t.2@)),
        decreases n - k,
    {
        match parse_triple(b, pos) {
            Some((t, j)) => {
                proof {
                    let m = n as int - k as int;
                    let tvv = (t.0@, t.1@, t.2@);
                    match spec_parse_triples(b@, j as int, m - 1) {
                        Some((ts, jj)) => {
                            assert(acc@.map_values(tv) + (seq![tvv] + ts) =~= acc@.map_values(
                                tv,
                            ).push(tvv) + ts);
                            assert(acc@.push(t).map_values(tv) =~= acc@.map_values(tv).push(tvv));
                        },
                        None => {},
                    }
                }
                acc.push(t);
                pos = j;
                k = k + 1;
            },
            None => {
                return None;
            },
        }
    }
    proof {
        assert(spec_parse_triples(b@, pos as int, 0) == Some((Seq::<TripleV>::empty(), pos as int)));
        assert(acc@.map_values(tv) + Seq::<TripleV>::empty() =~= acc@.map_values(tv));
    }
    Some((acc, pos))
}

/// A graph section's payload: exactly `n` triples filling the payload.
pub open spec fn spec_parse_graph_payload(p: Seq<u8>, n: int) -> Option<Seq<TripleV>> {
    match spec_parse_triples(p, 0, n) {
        Some((ts, j)) => if j == p.len() {
            Some(ts)
        } else {
            None
        },
        None => None,
    }
}

/// Decode a graph section's payload, exactly as the specification parser
/// does.
pub fn parse_graph_payload(p: &[u8], n: u64) -> (r: Option<Vec<(Term, Term, Term)>>)
    ensures
        r matches Some(ts) ==> spec_parse_graph_payload(p@, n as int) == Some(
            ts@.map_values(|t: (Term, Term, Term)| (t.0@, t.1@, t.2@)),
        ),
        r is None ==> spec_parse_graph_payload(p@, n as int) is None,
{
    match parse_triples(p, 0, n) {
        Some((ts, j)) => {
            if j == p.len() {
                Some(ts)
            } else {
                None
            }
        },
        None => None,
    }
}

// ---------------------------------------------------------------------
// Index entries: gid, provenance id, graph name, triple count.
// ---------------------------------------------------------------------

/// Parse one index entry at offset `i`.
pub open spec fn spec_parse_index_entry(p: Seq<u8>, i: int) -> Option<(GraphRefV, int)> {
    if i < 0 || i + 8 > p.len() {
        None
    } else {
        let gid = spec_le64_at(p, i);
        match spec_parse_string(p, i + 8) {
            Some((id, j)) => match spec_parse_string(p, j) {
                Some((gname, k)) => if k + 8 <= p.len() {
                    Some(
                        (
                            GraphRefV {
                                gid: gid as int,
                                id: id,
                                graphname: gname,
                                n_triples: spec_le64_at(p, k) as int,
                            },
                            k + 8,
                        ),
                    )
                } else {
                    None
                },
                None => None,
            },
            None => None,
        }
    }
}

/// Appending bytes does not disturb a successful index-entry parse.
pub proof fn lemma_parse_index_entry_stable(p: Seq<u8>, t: Seq<u8>, i: int)
    requires
        spec_parse_index_entry(p, i) is Some,
    ensures
        spec_parse_index_entry(p + t, i) == spec_parse_index_entry(p, i),
{
    lemma_le64_at_stable(p, t, i);
    lemma_parse_string_stable(p, t, i + 8);
    match spec_parse_string(p, i + 8) {
        Some((id, j)) => {
            lemma_parse_string_stable(p, t, j);
            match spec_parse_string(p, j) {
                Some((gname, k)) => {
                    lemma_parse_string_bounds(p, j);
                    lemma_le64_at_stable(p, t, k);
                },
                None => {},
            }
        },
        None => {},
    }
}

/// Append one index entry; the result parses back to exactly the entry,
/// ending at the new end.
pub fn encode_index_entry(out: &mut Vec<u8>, gid: u64, id: &str, gname: &str, n: u64)
    ensures
        old(out)@.len() <= final(out)@.len(),
        final(out)@.len() == old(out)@.len() + spec_key_size((id@, gname@)),
        final(out)@.subrange(0, old(out)@.len() as int) == old(out)@,
        spec_parse_index_entry(final(out)@, old(out)@.len() as int) == Some(
            (
                GraphRefV {
                    gid: gid as int,
                    id: id@,
                    graphname: gname@,
                    n_triples: n as int,
                },
                final(out)@.len() as int,
            ),
        ),
{
    let ghost b0 = out@;
    push_u64(out, gid);
    let ghost b1 = out@;
    encode_string(out, id);
    let ghost b2 = out@;
    encode_string(out, gname);
    let ghost b3 = out@;
    push_u64(out, n);
    proof {
        let i = b0.len() as int;
        assert(out@ == b3 + vstd::bytes::spec_u64_to_le_bytes(n));
        assert(out@.subrange(0, b3.len() as int) =~= b3);
        assert(b1.subrange(0, b0.len() as int) =~= b0);
        assert(out@.subrange(0, b2.len() as int) =~= b2) by {
            assert forall|k: int| 0 <= k < b2.len() implies out@.subrange(0, b2.len() as int)[k]
                == b2[k] by {
                lemma_prefix_index(b3, out@, k);
                lemma_prefix_index(b2, b3, k);
            }
        }
        assert(out@.subrange(0, b1.len() as int) =~= b1) by {
            assert forall|k: int| 0 <= k < b1.len() implies out@.subrange(0, b1.len() as int)[k]
                == b1[k] by {
                lemma_prefix_index(b3, out@, k);
                lemma_prefix_index(b2, b3, k);
                lemma_prefix_index(b1, b2, k);
            }
        }
        assert(out@.subrange(0, b0.len() as int) =~= b0) by {
            assert forall|k: int| 0 <= k < b0.len() implies out@.subrange(0, b0.len() as int)[k]
                == b0[k] by {
                lemma_prefix_index(b3, out@, k);
                lemma_prefix_index(b2, b3, k);
                lemma_prefix_index(b1, b2, k);
                lemma_prefix_index(b0, b1, k);
            }
        }
        lemma_split_prefix(b1, out@);
        lemma_parse_string_stable(b2, out@.subrange(b2.len() as int, out@.len() as int), i + 8)
        ;
        lemma_split_prefix(b2, out@);
        lemma_parse_string_stable(b3, out@.subrange(b3.len() as int, out@.len() as int), b2.len() as int);
        lemma_split_prefix(b3, out@);
        lemma_le64_at_stable(b1, out@.subrange(b1.len() as int, out@.len() as int), i);
        // the final count field reads back
        vstd::bytes::lemma_auto_spec_u64_to_from_le_bytes();
        lemma_subrange_suffix(b3, vstd::bytes::spec_u64_to_le_bytes(n), b3.len() as int, b3.len() as int + 8);
    }
}

/// Decode one index entry at offset `i`, exactly as the specification
/// parser does.
pub fn parse_index_entry(p: &[u8], i: usize) -> (r: Option<(crate::model::GraphRef, usize)>)
    ensures
        r matches Some((g, j)) ==> spec_parse_index_entry(p@, i as int) == Some((g@, j as int))
            && i < j <= p@.len(),
        r is None ==> spec_parse_index_entry(p@, i as int) is None,
{
    let plen = p.len();
    if plen < 8 || i > plen - 8 {
        return None;
    }
    let gid = read_u64_at(p, i);
    match parse_string(p, i + 8) {
        Some((id, j)) => match parse_string(p, j) {
            Some((gname, k)) => {
                if plen < 8 || k > plen - 8 {
                    return None;
                }
                let n = read_u64_at(p, k);
                Some((crate::model::GraphRef { gid, id, graphname: gname, n_triples: n }, k + 8))
            },
            None => None,
        },
        None => None,
    }
}

/// Parse `n` index entries starting at offset `i`.
pub open spec fn spec_parse_index_entries(p: Seq<u8>, i: int, n: int) -> Option<
    (Seq<GraphRefV>, int),
>
    decreases n,
{
    if n <= 0 {
        Some((Seq::empty(), i))
    } else {
        match spec_parse_index_entry(p, i) {
            Some((g, j)) => match spec_parse_index_entries(p, j, n - 1) {
                Some((gs, k)) => Some((seq![g] + gs, k)),
                None => None,
            },
            None => None,
        }
    }
}

/// Appending bytes does not disturb a successful index-entry-list parse.
pub proof fn lemma_parse_index_entries_stable(p: Seq<u8>, t: Seq<u8>, i: int, n: int)
    requires
        spec_parse_index_entries(p, i, n) is Some,
    ensures
        spec_parse_index_entries(p + t, i, n) == spec_parse_index_entries(p, i, n),
    decreases n,
{
    if n > 0 {
        lemma_parse_index_entry_stable(p, t, i);
        match spec_parse_index_entry(p, i) {
            Some((g, j)) => {
                lemma_parse_index_entries_stable(p, t, j, n - 1);
            },
            None => {},
        }
    }
}

/// One more entry at the end extends a parsed index-entry list by one.
pub proof fn lemma_parse_index_entries_snoc(
    p: Seq<u8>,
    i: int,
    n: int,
    gs: Seq<GraphRefV>,
    j: int,
    g: GraphRefV,
    k: int,
)
    requires
        n >= 0,
        spec_parse_index_entries(p, i, n) == Some((gs, j)),
        spec_parse_index_entry(p, j) == Some((g, k)),
    ensures
        spec_parse_index_entries(p, i, n + 1) == Some((gs.push(g), k)),
    decreases n,
{
    if n == 0 {
        assert(spec_parse_index_entries(p, k, 0) == Some((Seq::<GraphRefV>::empty(), k)));
        assert(seq![g] + Seq::<GraphRefV>::empty() =~= gs.push(g));
    } else {
        match spec_parse_index_entry(p, i) {
            Some((g0, j0)) => {
                match spec_parse_index_entries(p, j0, n - 1) {
                    Some((rest, jj)) => {
                        lemma_parse_index_entries_snoc(p, j0, n - 1, rest, j, g, k);
                        assert(seq![g0] + rest.push(g) =~= (seq![g0] + rest).push(g));
                    },
                    None => {
                        assert(false);
                    },
                }
            },
            None => {
                assert(false);
            },
        }
    }
}

/// The index section's payload: an entry count, then exactly that many
/// entries filling the payload.
pub open spec fn spec_parse_index_payload(p: Seq<u8>) -> Option<Seq<GraphRefV>> {
    if p.len() < 8 {
        None
    } else {
        let n = spec_le64_at(p, 0) as int;
        match spec_parse_index_entries(p, 8, n) {
            Some((gs, j)) => if j == p.len() {
                Some(gs)
            } else {
                None
            },
            None => None,
        }
    }
}

/// Decode the index section's payload, exactly as the specification parser
/// does.
pub fn parse_index_payload(p: &[u8]) -> (r: Option<Vec<crate::model::GraphRef>>)
    ensures
        r matches Some(gs) ==> spec_parse_index_payload(p@) == Some(
            gs@.map_values(|g: crate::model::GraphRef| g@),
        ),
        r is None ==> spec_parse_index_payload(p@) is None,
{
    let ghost gv = |g: crate::model::GraphRef| g@;
    let plen = p.len();
    if plen < 8 {
        return None;
    }
    let n = read_u64_at(p, 0);
    let mut acc: Vec<crate::model::GraphRef> = Vec::new();
    let mut pos: usize = 8;
    let mut k: u64 = 0;
    proof {
        match spec_parse_index_entries(p@, pos as int, n as int) {
            Some((gs, j)) => {
                assert(acc@.map_values(gv) + gs =~= gs);
            },
            None => {},
        }
    }
    while k < n
        invariant
            8 <= pos <= p@.len(),
            k <= n,
            n == spec_le64_at(p@, 0),
            spec_parse_index_entries(p@, 8, n as int) == (match spec_parse_index_entries(
                p@,
                pos as int,
                n as int - k as int,
            ) {
                Some((gs, j)) => Some((acc@.map_values(gv) + gs, j)),
                None => None,
            }),
            gv == (|g: crate::model::GraphRef| g@),
        decreases n - k,
    {
        match parse_index_entry(p, pos) {
            Some((g, j)) => {
                proof {
                    let m = n as int - k as int;
                    let gvv = g@;
                    match spec_parse_index_entries(p@, j as int, m - 1) {
                        Some((gs, jj)) => {
                            assert(acc@.map_values(gv) + (seq![gvv] + gs) =~= acc@.map_values(
                                gv,
                            ).push(gvv) + gs);
                            assert(acc@.push(g).map_values(gv) =~= acc@.map_values(gv).push(gvv));
                        },
                        None => {},
                    }
                }
                acc.push(g);
                pos = j;
                k = k + 1;
            },
            None => {
                proof {
                    assert(n as int - k as int > 0);
                    assert(spec_parse_index_entries(p@, pos as int, n as int - k as int)
                        is None);
                }
                return None;
            },
        }
    }
    proof {
        assert(spec_parse_index_entries(p@, pos as int, 0) == Some(
            (Seq::<GraphRefV>::empty(), pos as int),
        ));
        assert(acc@.map_values(gv) + Seq::<GraphRefV>::empty() =~= acc@.map_values(gv));
    }
    if pos == plen {
        Some(acc)
    } else {
        None
    }
}

/// Byte-wise string equality: two strings are equal exactly when their
/// character sequences are.
pub fn str_eq(a: &str, b: &str) -> (r: bool)
    ensures
        r == (a@ == b@),
{
    proof {
        broadcast use vstd::utf8::encode_utf8_decode_utf8;

        assert(decode_utf8(encode_utf8(a@)) == a@);
        assert(decode_utf8(encode_utf8(b@)) == b@);
    }
    let ab = a.as_bytes();
    let bb = b.as_bytes();
    if ab.len() != bb.len() {
        return false;
    }
    let mut i: usize = 0;
    while i < ab.len()
        invariant
            0 <= i <= ab@.len(),
            ab@.len() == bb@.len(),
            ab@ == encode_utf8(a@),
            bb@ == encode_utf8(b@),
            forall|j: int| 0 <= j < i ==> ab@[j] == bb@[j],
        decreases ab@.len() - i,
    {
        if *slice_index_get(ab, i) != *slice_index_get(bb, i) {
            proof {
                broadcast use vstd::utf8::encode_utf8_decode_utf8;

                if a@ == b@ {
                    assert(ab@[i as int] == bb@[i as int]);
                }
            }
            return false;
        }
        i = i + 1;
    }
    proof {
        broadcast use vstd::utf8::encode_utf8_decode_utf8;

        assert(ab@ =~= bb@);
        assert(decode_utf8(encode_utf8(a@)) == a@);
        assert(decode_utf8(encode_utf8(b@)) == b@);
    }
    true
}

} // verus!
