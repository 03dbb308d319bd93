//! The value types the container stores and returns, their mathematical
//! views, and the grouping model: quints are grouped by (provenance id,
//! graph name) into graphs, in first-seen order, with dense zero-based gids.

use vstd::prelude::*;
use vstd::utf8::encode_utf8;

verus! {

/// One RDF term: an IRI, a blank node, or a literal. A well-formed literal
/// has a datatype or a language tag, never both.
#[derive(Clone, Debug, PartialEq, Eq)]
pub enum Term {
    Iri(String),
    BNode(String),
    Literal { lex: String, dt: Option<String>, lang: Option<String> },
}

/// The mathematical view of a `Term`.
pub enum TermV {
    Iri(Seq<char>),
    BNode(Seq<char>),
    Literal { lex: Seq<char>, dt: Option<Seq<char>>, lang: Option<Seq<char>> },
}

impl View for Term {
    type V = TermV;

    open spec fn view(&self) -> TermV {
        match self {
            Term::Iri(s) => TermV::Iri(s@),
            Term::BNode(s) => TermV::BNode(s@),
            Term::Literal { lex, dt, lang } => TermV::Literal {
                lex: lex@,
                dt: match dt {
                    Some(d) => Some(d@),
                    None => None,
                },
                lang: match lang {
                    Some(l) => Some(l@),
                    None => None,
                },
            },
        }
    }
}

impl TermV {
    /// A literal carries a datatype or a language tag, not both.
    pub open spec fn wf(self) -> bool {
        match self {
            TermV::Literal { lex, dt, lang } => !(dt is Some && lang is Some),
            _ => true,
        }
    }
}

/// One record: a triple tagged with a provenance id and a graph name.
#[derive(Clone, Debug, PartialEq, Eq)]
pub struct Quint {
    pub id: String,
    pub s: Term,
    pub p: Term,
    pub o: Term,
    pub gname: String,
}

/// The mathematical view of a `Quint`.
pub struct QuintV {
    pub id: Seq<char>,
    pub s: TermV,
    pub p: TermV,
    pub o: TermV,
    pub gname: Seq<char>,
}

impl View for Quint {
    type V = QuintV;

    open spec fn view(&self) -> QuintV {
        QuintV { id: self.id@, s: self.s@, p: self.p@, o: self.o@, gname: self.gname@ }
    }
}

impl QuintV {
    /// Well-formedness is the producer's responsibility: the subject is an
    /// IRI or a blank node, the predicate an IRI, every term well formed,
    /// and the graph name non-empty.
    pub open spec fn wf(self) -> bool {
        &&& (self.s is Iri || self.s is BNode)
        &&& self.p is Iri
        &&& self.s.wf()
        &&& self.p.wf()
        &&& self.o.wf()
        &&& self.gname.len() > 0
    }
}

/// One decoded index record: a graph's dense id, provenance id, graph name
/// and triple count.
#[derive(Clone, Debug, PartialEq, Eq)]
pub struct GraphRef {
    pub gid: u64,
    pub id: String,
    pub graphname: String,
    pub n_triples: u64,
}

/// The mathematical view of a `GraphRef`.
pub struct GraphRefV {
    pub gid: int,
    pub id: Seq<char>,
    pub graphname: Seq<char>,
    pub n_triples: int,
}

impl View for GraphRef {
    type V = GraphRefV;

    open spec fn view(&self) -> GraphRefV {
        GraphRefV {
            gid: self.gid as int,
            id: self.id@,
            graphname: self.graphname@,
            n_triples: self.n_triples as int,
        }
    }
}

/// The grouping key of a quint.
pub open spec fn qkey(q: QuintV) -> (Seq<char>, Seq<char>) {
    (q.id, q.gname)
}

/// The triple a quint contributes to its graph.
pub open spec fn triple_of(q: QuintV) -> (TermV, TermV, TermV) {
    (q.s, q.p, q.o)
}

/// The distinct (id, graph name) keys of a quint sequence, in first-seen
/// order.
pub open spec fn spec_keys(qs: Seq<QuintV>) -> Seq<(Seq<char>, Seq<char>)>
    decreases qs.len(),
{
    if qs.len() == 0 {
        Seq::empty()
    } else {
        let pre = spec_keys(qs.drop_last());
        if pre.contains(qkey(qs.last())) {
            pre
        } else {
            pre.push(qkey(qs.last()))
        }
    }
}

/// The triples of the quints with key `k`, in insertion order.
pub open spec fn spec_group_triples(qs: Seq<QuintV>, k: (Seq<char>, Seq<char>)) -> Seq<
    (TermV, TermV, TermV),
>
    decreases qs.len(),
{
    if qs.len() == 0 {
        Seq::empty()
    } else {
        let pre = spec_group_triples(qs.drop_last(), k);
        if qkey(qs.last()) == k {
            pre.push(triple_of(qs.last()))
        } else {
            pre
        }
    }
}

/// How many quints carry key `k`.
pub open spec fn spec_count(qs: Seq<QuintV>, k: (Seq<char>, Seq<char>)) -> int {
    spec_group_triples(qs, k).len() as int
}

/// The graph directory a finalized file records: one entry per distinct
/// key, dense zero-based gids in first-seen order, with per-group counts.
pub open spec fn spec_groups(qs: Seq<QuintV>) -> Seq<GraphRefV> {
    Seq::new(
        spec_keys(qs).len(),
        |i: int|
            GraphRefV {
                gid: i,
                id: spec_keys(qs)[i].0,
                graphname: spec_keys(qs)[i].1,
                n_triples: spec_count(qs, spec_keys(qs)[i]),
            },
    )
}

/// Appending a quint keeps the key list, or extends it by the new key.
pub proof fn lemma_keys_push(qs: Seq<QuintV>, q: QuintV)
    ensures
        spec_keys(qs.push(q)) == if spec_keys(qs).contains(qkey(q)) {
            spec_keys(qs)
        } else {
            spec_keys(qs).push(qkey(q))
        },
{
    assert(qs.push(q).drop_last() =~= qs);
    assert(qs.push(q).last() == q);
}

/// Appending a quint extends exactly its own group's triples.
pub proof fn lemma_group_triples_push(qs: Seq<QuintV>, q: QuintV, k: (Seq<char>, Seq<char>))
    ensures
        spec_group_triples(qs.push(q), k) == if qkey(q) == k {
            spec_group_triples(qs, k).push(triple_of(q))
        } else {
            spec_group_triples(qs, k)
        },
{
    assert(qs.push(q).drop_last() =~= qs);
    assert(qs.push(q).last() == q);
}

/// A key outside the key list has no triples.
pub proof fn lemma_group_triples_absent(qs: Seq<QuintV>, k: (Seq<char>, Seq<char>))
    requires
        !spec_keys(qs).contains(k),
    ensures
        spec_group_triples(qs, k) == Seq::<(TermV, TermV, TermV)>::empty(),
    decreases qs.len(),
{
    if qs.len() > 0 {
        let pre = spec_keys(qs.drop_last());
        assert(!pre.contains(k)) by {
            if pre.contains(k) {
                let i = choose|i: int| 0 <= i < pre.len() && pre[i] == k;
                assert(spec_keys(qs)[i] == k);
                assert(spec_keys(qs).contains(k));
            }
        }
        assert(qkey(qs.last()) != k) by {
            if qkey(qs.last()) == k {
                if pre.contains(qkey(qs.last())) {
                } else {
                    assert(spec_keys(qs)[pre.len() as int] == qkey(qs.last()));
                    assert(spec_keys(qs).contains(k));
                }
            }
        }
        lemma_group_triples_absent(qs.drop_last(), k);
    }
}

/// The encoded size of one length-prefixed string.
pub open spec fn spec_str_size(s: Seq<char>) -> int {
    8 + encode_utf8(s).len() as int
}

/// The encoded size of one term.
pub open spec fn spec_term_size(t: TermV) -> int {
    match t {
        TermV::Iri(s) => 1 + spec_str_size(s),
        TermV::BNode(s) => 1 + spec_str_size(s),
        TermV::Literal { lex, dt, lang } => 2 + spec_str_size(lex) + (match dt {
            Some(d) => spec_str_size(d),
            None => 0,
        }) + (match lang {
            Some(l) => spec_str_size(l),
            None => 0,
        }),
    }
}

/// The encoded size of one quint's triple.
pub open spec fn spec_quint_size(q: QuintV) -> int {
    spec_term_size(q.s) + spec_term_size(q.p) + spec_term_size(q.o)
}

/// The bytes all graph sections take together, uncompressed.
pub open spec fn spec_data_size(qs: Seq<QuintV>) -> int
    decreases qs.len(),
{
    if qs.len() == 0 {
        0
    } else {
        spec_data_size(qs.drop_last()) + spec_quint_size(qs.last())
    }
}

/// The encoded size of one index entry.
pub open spec fn spec_key_size(k: (Seq<char>, Seq<char>)) -> int {
    16 + spec_str_size(k.0) + spec_str_size(k.1)
}

/// The bytes the index entries take together.
pub open spec fn spec_keys_size(ks: Seq<(Seq<char>, Seq<char>)>) -> int
    decreases ks.len(),
{
    if ks.len() == 0 {
        0
    } else {
        spec_keys_size(ks.drop_last()) + spec_key_size(ks.last())
    }
}

/// The whole data region of an uncompressed file: every graph section,
/// then the index section with its entry count.
pub open spec fn spec_plain_size(qs: Seq<QuintV>) -> int {
    spec_data_size(qs) + 8 + spec_keys_size(spec_keys(qs))
}

/// Sizes are never negative.
pub proof fn lemma_sizes_nonneg(qs: Seq<QuintV>, ks: Seq<(Seq<char>, Seq<char>)>)
    ensures
        spec_data_size(qs) >= 0,
        spec_keys_size(ks) >= 0,
    decreases qs.len() + ks.len(),
{
    if qs.len() > 0 {
        lemma_sizes_nonneg(qs.drop_last(), ks);
    } else if ks.len() > 0 {
        lemma_sizes_nonneg(qs, ks.drop_last());
    }
}

/// Appending a quint grows the data region by that quint's size.
pub proof fn lemma_data_size_push(qs: Seq<QuintV>, q: QuintV)
    ensures
        spec_data_size(qs.push(q)) == spec_data_size(qs) + spec_quint_size(q),
{
    assert(qs.push(q).drop_last() =~= qs);
    assert(qs.push(q).last() == q);
}

/// Appending a key grows the index by that key's entry size.
pub proof fn lemma_keys_size_push(ks: Seq<(Seq<char>, Seq<char>)>, k: (Seq<char>, Seq<char>))
    ensures
        spec_keys_size(ks.push(k)) == spec_keys_size(ks) + spec_key_size(k),
{
    assert(ks.push(k).drop_last() =~= ks);
    assert(ks.push(k).last() == k);
}

/// No key appears twice in the key list.
pub proof fn lemma_keys_distinct(qs: Seq<QuintV>)
    ensures
        forall|i: int, j: int|
            #![trigger spec_keys(qs)[i], spec_keys(qs)[j]]
            0 <= i < j < spec_keys(qs).len() ==> spec_keys(qs)[i] != spec_keys(qs)[j],
    decreases qs.len(),
{
    if qs.len() > 0 {
        lemma_keys_distinct(qs.drop_last());
        let pre = spec_keys(qs.drop_last());
        if !pre.contains(qkey(qs.last())) {
            assert forall|i: int| 0 <= i < pre.len() implies pre[i] != qkey(qs.last()) by {
                if pre[i] == qkey(qs.last()) {
                    assert(pre.contains(qkey(qs.last())));
                }
            }
        }
    }
}

/// The directory of no quints is empty.
pub proof fn lemma_groups_empty()
    ensures
        spec_groups(Seq::<QuintV>::empty()) == Seq::<GraphRefV>::empty(),
{
    assert(spec_groups(Seq::<QuintV>::empty()) =~= Seq::<GraphRefV>::empty());
}

} // verus!
