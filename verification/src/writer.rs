//! The streaming encoder: it groups quints by (provenance id, graph name)
//! into per-graph buffers, and on finalize emits the whole file — graph
//! sections in gid order, one index section, the table of contents, and
//! the header — whose decoded content is exactly the grouping model of
//! what was added.

use vstd::prelude::*;
use crate::codec::{
    encode_index_entry, encode_triple, lemma_parse_index_entries_snoc,
    lemma_parse_index_entries_stable, lemma_parse_triple_bounds, lemma_parse_triples_snoc,
    lemma_parse_triples_stable, lemma_split_prefix, spec_parse_index_entries, spec_parse_triples,
    str_eq, TripleV,
};
use crate::foreign::unix_now;
use crate::format::{
    push_magic, seal_section, spec_file_graph, spec_file_refs, spec_flag_crc, spec_flag_zstd,
    spec_flags_of, spec_header_ok, spec_stores_payload, spec_toc_entry_ok, SectionKind, Span,
    TocEntry, FLAG_CRC, FLAG_ZSTD, FORMAT_VERSION, HEADER_LEN, TOC_ENTRY_LEN,
};
use crate::model::{
    lemma_data_size_push, lemma_group_triples_absent, lemma_group_triples_push,
    lemma_keys_distinct, lemma_keys_push, lemma_sizes_nonneg, qkey, spec_count, spec_data_size,
    spec_group_triples, spec_groups, spec_key_size, spec_keys, spec_keys_size, spec_plain_size,
    spec_quint_size, GraphRefV, Quint, QuintV,
};
use crate::wire::{
    lemma_le16_at_stable, lemma_le32_at_stable, lemma_le64_at_stable, lemma_subrange_prefix,
    lemma_subrange_suffix, push_u16, push_u32, push_u64, spec_le64_at,
};
use crate::R5Error;

verus! {

/// The biggest data region the writer will emit before refusing with an
/// error, so that every offset fits comfortably in its field.
pub const MAX_BODY: u64 = 0x4000000000000000u64;

/// The two file-wide toggles, fixed at writer construction.
#[derive(Clone, Copy, Debug, PartialEq, Eq, Structural)]
pub struct WriterOptions {
    pub zstd: bool,
    pub with_crc: bool,
}

/// One graph still open for appends: its key, its encoded triples, and
/// its triple count.
struct GraphBuf {
    id: String,
    gname: String,
    buf: Vec<u8>,
    n: u64,
}

/// The bytes the first `n` graph buffers hold together.
spec fn spec_bufs_size(gs: Seq<GraphBuf>, n: int) -> int
    decreases n,
{
    if n <= 0 {
        0
    } else {
        spec_bufs_size(gs, n - 1) + gs[n - 1].buf@.len()
    }
}

/// Replacing one buffer moves the total by that buffer's growth.
proof fn lemma_bufs_size_update(gs: Seq<GraphBuf>, i: int, g: GraphBuf, n: int)
    requires
        0 <= i < gs.len(),
        0 <= n <= gs.len(),
    ensures
        spec_bufs_size(gs.update(i, g), n) == spec_bufs_size(gs, n) + (if i < n {
            g.buf@.len() - gs[i].buf@.len()
        } else {
            0
        }),
    decreases n,
{
    if n > 0 {
        lemma_bufs_size_update(gs, i, g, n - 1);
    }
}

/// A buffer appended past `n` leaves the first `n`'s total alone.
proof fn lemma_bufs_size_push(gs: Seq<GraphBuf>, g: GraphBuf, n: int)
    requires
        0 <= n <= gs.len(),
    ensures
        spec_bufs_size(gs.push(g), n) == spec_bufs_size(gs, n),
    decreases n,
{
    if n > 0 {
        lemma_bufs_size_push(gs, g, n - 1);
    }
}

/// Buffer totals grow with the prefix.
proof fn lemma_bufs_size_mono(gs: Seq<GraphBuf>, i: int, j: int)
    requires
        0 <= i <= j <= gs.len(),
    ensures
        spec_bufs_size(gs, i) <= spec_bufs_size(gs, j),
    decreases j,
{
    if i < j {
        lemma_bufs_size_mono(gs, i, j - 1);
    }
}

/// The streaming encoder. Finalize consumes it: a finalized writer takes
/// no further appends.
pub struct StreamingWriter {
    opts: WriterOptions,
    created: u64,
    groups: Vec<GraphBuf>,
    log: Ghost<Seq<QuintV>>,
}

impl StreamingWriter {
    /// Every quint this writer has accepted, in order.
    pub closed spec fn added(self) -> Seq<QuintV> {
        self.log@
    }

    /// The options the writer was created with.
    pub closed spec fn options(self) -> WriterOptions {
        self.opts
    }

    /// Group `i`'s buffer agrees with the grouping model of `added()`.
    spec fn group_ok(self, i: int) -> bool {
        let g = self.groups@[i];
        let k = spec_keys(self.log@)[i];
        &&& (g.id@, g.gname@) == k
        &&& g.n as int == spec_count(self.log@, k)
        &&& g.n as int <= g.buf@.len()
        &&& spec_parse_triples(g.buf@, 0, g.n as int) == Some(
            (spec_group_triples(self.log@, k), g.buf@.len() as int),
        )
    }

    /// The writer's buffers agree, group by group, with the grouping model.
    pub closed spec fn wf(self) -> bool {
        &&& self.groups@.len() == spec_keys(self.log@).len()
        &&& spec_bufs_size(self.groups@, self.groups@.len() as int) == spec_data_size(self.log@)
        &&& forall|i: int| 0 <= i < self.groups@.len() ==> #[trigger] self.group_ok(i)
    }

    /// A fresh writer with the given toggles and nothing added.
    pub fn new(opts: WriterOptions) -> (w: StreamingWriter)
        ensures
            w.wf(),
            w.added() == Seq::<QuintV>::empty(),
            w.options() == opts,
    {
        let w = StreamingWriter {
            opts,
            created: unix_now(),
            groups: Vec::new(),
            log: Ghost(Seq::empty()),
        };
        proof {
            assert(spec_keys(w.log@) =~= Seq::<(Seq<char>, Seq<char>)>::empty());
        }
        w
    }

    /// Append one record. An unseen (id, graph name) key opens the next
    /// graph; the triple joins its graph's buffer. Never fails on content.
    pub fn add(&mut self, q: Quint) -> (r: Result<(), R5Error>)
        requires
            old(self).wf(),
            q@.wf(),
        ensures
            final(self).wf(),
            final(self).added() == old(self).added().push(q@),
            final(self).options() == old(self).options(),
            r is Ok,
    {
        let ghost q0 = self.log@;
        let ghost k = qkey(q@);
        let ng = self.groups.len();
        let mut fi: usize = 0;
        let mut found: bool = false;
        while !found && fi < ng
            invariant
                0 <= fi <= ng,
                ng == self.groups@.len(),
                self.wf(),
                q0 == self.log@,
                k == qkey(q@),
                forall|j: int| 0 <= j < fi ==> spec_keys(q0)[j] != k,
                found ==> fi < ng && spec_keys(q0)[fi as int] == k,
            decreases ng - fi, (if found { 0int } else { 1int }),
        {
            proof {
                assert(self.group_ok(fi as int));
            }
            let hit_id = str_eq(self.groups[fi].id.as_str(), q.id.as_str());
            let hit_g = str_eq(self.groups[fi].gname.as_str(), q.gname.as_str());
            if hit_id && hit_g {
                found = true;
            } else {
                fi = fi + 1;
            }
        }
        if found {
            // existing graph: append the triple to its buffer
            proof {
                assert(self.group_ok(fi as int));
                assert(spec_keys(q0)[fi as int] == k);
                assert(spec_keys(q0).contains(k));
                lemma_keys_push(q0, q@);
                lemma_keys_distinct(q0);
            }
            let ghost oldbuf = self.groups@[fi as int].buf@;
            let ghost oldn = self.groups@[fi as int].n;
            let g = &mut self.groups[fi];
            encode_triple(&mut g.buf, &q.s, &q.p, &q.o);
            let newlen: usize = g.buf.len();
            proof {
                lemma_parse_triple_bounds(g.buf@, oldbuf.len() as int);
                assert((oldn as int) < (newlen as int));
                assert(newlen as u64 <= u64::MAX);
            }
            g.n = g.n + 1;
            proof {
                self.log@ = q0.push(q@);
            }
            proof {
                let q1 = self.log@;
                assert(spec_keys(q1) == spec_keys(q0));
                let suffix = self.groups@[fi as int].buf@.subrange(
                    oldbuf.len() as int,
                    self.groups@[fi as int].buf@.len() as int,
                );
                lemma_split_prefix(oldbuf, self.groups@[fi as int].buf@);
                lemma_parse_triples_stable(oldbuf, suffix, 0, oldn as int);
                lemma_parse_triples_snoc(
                    self.groups@[fi as int].buf@,
                    0,
                    oldn as int,
                    spec_group_triples(q0, k),
                    oldbuf.len() as int,
                    (q@.s, q@.p, q@.o),
                    self.groups@[fi as int].buf@.len() as int,
                );
                lemma_bufs_size_update(
                    old(self).groups@,
                    fi as int,
                    self.groups@[fi as int],
                    old(self).groups@.len() as int,
                );
                lemma_data_size_push(q0, q@);
                assert(self.groups@ == old(self).groups@.update(fi as int, self.groups@[fi as int]));
                assert forall|j: int| 0 <= j < self.groups@.len() implies #[trigger] self.group_ok(
                    j,
                ) by {
                    assert(old(self).group_ok(j));
                    lemma_group_triples_push(q0, q@, spec_keys(q0)[j]);
                    if j != fi as int {
                        assert(spec_keys(q0)[j] != spec_keys(q0)[fi as int]);
                        assert(self.groups@[j] == old(self).groups@[j]);
                        assert(spec_keys(q0)[j] == (self.groups@[j].id@, self.groups@[j].gname@));
                    } else {
                        assert(spec_group_triples(q1, k) == spec_group_triples(q0, k).push(
                            (q@.s, q@.p, q@.o),
                        ));
                    }
                }
            }
            Ok(())
        } else {
            // unseen key: open the next graph
            proof {
                assert(!spec_keys(q0).contains(k)) by {
                    if spec_keys(q0).contains(k) {
                        let j = choose|j: int|
                            0 <= j < spec_keys(q0).len() && spec_keys(q0)[j] == k;
                        assert(spec_keys(q0)[j] != k);
                    }
                }
                lemma_keys_push(q0, q@);
                lemma_group_triples_absent(q0, k);
            }
            let mut buf: Vec<u8> = Vec::new();
            encode_triple(&mut buf, &q.s, &q.p, &q.o);
            let ghost newbuf = buf@;
            self.groups.push(GraphBuf { id: q.id, gname: q.gname, buf, n: 1u64 });
            proof {
                self.log@ = q0.push(q@);
            }
            proof {
                let q1 = self.log@;
                assert(spec_keys(q1) == spec_keys(q0).push(k));
                lemma_bufs_size_push(
                    old(self).groups@,
                    self.groups@.last(),
                    old(self).groups@.len() as int,
                );
                lemma_data_size_push(q0, q@);
                assert(self.groups@ == old(self).groups@.push(self.groups@.last()));
                assert(spec_bufs_size(self.groups@, self.groups@.len() as int)
                    == spec_bufs_size(self.groups@, self.groups@.len() as int - 1)
                    + self.groups@.last().buf@.len());
                lemma_parse_triples_snoc(
                    newbuf,
                    0,
                    0,
                    Seq::<TripleV>::empty(),
                    0,
                    (q@.s, q@.p, q@.o),
                    newbuf.len() as int,
                );
                lemma_parse_triple_bounds(newbuf, 0);
                assert forall|j: int| 0 <= j < self.groups@.len() implies #[trigger] self.group_ok(
                    j,
                ) by {
                    lemma_group_triples_push(q0, q@, spec_keys(q1)[j]);
                    if j < self.groups@.len() - 1 {
                        assert(old(self).group_ok(j));
                        assert(spec_keys(q0)[j] != k) by {
                            if spec_keys(q0)[j] == k {
                                assert(spec_keys(q0).contains(k));
                            }
                        }
                    } else {
                        assert(spec_keys(q1)[j] == k);
                        assert(spec_group_triples(q1, k) == Seq::<TripleV>::empty().push(
                            (q@.s, q@.p, q@.o),
                        ));
                    }
                }
            }
            Ok(())
        }
    }

    /// Seal every graph section in gid order, emit the index section, the
    /// table of contents and the header, and hand back the file's bytes.
    /// The result decodes to exactly the grouping model of `added()`:
    /// `spec_file_refs` yields the graph directory, and each graph section
    /// yields its group's triples in insertion order. Fails only where
    /// compression fails or the data region outgrows `MAX_BODY`.
    #[verifier::rlimit(100)]
    pub fn finalize(self) -> (r: Result<Vec<u8>, R5Error>)
        requires
            self.wf(),
            TOC_ENTRY_LEN as int * (spec_keys(self.added()).len() + 1) <= u32::MAX as int,
        ensures
            r matches Ok(out) ==> spec_file_refs(out@) == Some(spec_groups(self.added())),
            r matches Ok(out) ==> forall|gid: int|
                0 <= gid < spec_keys(self.added()).len() ==> #[trigger] spec_file_graph(out@, gid)
                    == Some(spec_group_triples(self.added(), spec_keys(self.added())[gid])),
            r matches Ok(out) ==> spec_header_ok(out@) && spec_flag_zstd(spec_flags_of(out@))
                == self.options().zstd && spec_flag_crc(spec_flags_of(out@))
                == self.options().with_crc,
            r matches Err(e) ==> e == R5Error::Io,
            !self.options().zstd && spec_plain_size(self.added()) < MAX_BODY as int ==> r is Ok,
            !self.options().zstd && self.added().len() == 0 ==> r is Ok,
    {
        let ghost qs = self.log@;
        let ghost refs = spec_groups(qs);
        let zopt = self.opts.zstd;
        let copt = self.opts.with_crc;
        let ng = self.groups.len();
        let mut body: Vec<u8> = Vec::new();
        let mut toc: Vec<TocEntry> = Vec::new();
        let ghost mut storeds: Seq<Seq<u8>> = Seq::empty();
        let mut ipay: Vec<u8> = Vec::new();
        push_u64(&mut ipay, ng as u64);
        proof {
            assert(spec_parse_index_entries(ipay@, 8, 0) == Some(
                (Seq::<GraphRefV>::empty(), 8int),
            ));
            assert(refs.take(0) =~= Seq::<GraphRefV>::empty());
            assert(ipay@.len() == 8);
            assert(spec_keys(qs).take(0) =~= Seq::<(Seq<char>, Seq<char>)>::empty());
        }
        let mut i: usize = 0;
        while i < ng
            invariant
                0 <= i <= ng,
                ng == self.groups@.len(),
                ng == spec_keys(qs).len(),
                qs == self.log@,
                self.wf(),
                zopt == self.opts.zstd,
                copt == self.opts.with_crc,
                refs == spec_groups(qs),
                toc@.len() == i,
                storeds.len() == i,
                forall|j: int| 0 <= j < i ==> (#[trigger] toc@[j]).kind == SectionKind::GraphData,
                forall|j: int|
                    0 <= j < i ==> HEADER_LEN as int <= (#[trigger] toc@[j]).section.off as int
                        && toc@[j].section.off as int + toc@[j].section.len as int
                        <= HEADER_LEN as int + body@.len(),
                forall|j: int|
                    0 <= j < i ==> (#[trigger] toc@[j]).section.len as int == storeds[j].len(),
                forall|j: int|
                    0 <= j < i ==> body@.subrange(
                        (#[trigger] toc@[j]).section.off as int - HEADER_LEN as int,
                        toc@[j].section.off as int - HEADER_LEN as int
                            + toc@[j].section.len as int,
                    ) == storeds[j],
                forall|j: int|
                    0 <= j < i ==> spec_stores_payload(
                        #[trigger] storeds[j],
                        self.groups@[j].buf@,
                        zopt,
                    ),
                forall|j: int|
                    0 <= j < i ==> (copt ==> (#[trigger] toc@[j]).crc32_u32 == crate::foreign::crc32_of(
                        storeds[j],
                    )),
                ipay@.len() >= 8,
                spec_le64_at(ipay@, 0) == ng as u64,
                spec_parse_index_entries(ipay@, 8, i as int) == Some(
                    (refs.take(i as int), ipay@.len() as int),
                ),
                ng == 0 ==> body@.len() == 0 && ipay@.len() == 8,
                !zopt ==> body@.len() == spec_bufs_size(self.groups@, i as int),
                !zopt ==> ipay@.len() == 8 + spec_keys_size(spec_keys(qs).take(i as int)),
            decreases ng - i,
        {
            proof {
                assert(self.group_ok(i as int));
            }
            let blen: usize = body.len();
            if blen as u64 >= MAX_BODY {
                proof {
                    if !zopt && spec_plain_size(qs) < MAX_BODY as int {
                        lemma_bufs_size_mono(self.groups@, i as int, ng as int);
                        lemma_sizes_nonneg(qs, spec_keys(qs));
                    }
                }
                return Err(R5Error::Io);
            }
            let sealed = seal_section(&self.groups[i].buf, zopt, copt);
            match sealed {
                Err(e) => {
                    return Err(e);
                },
                Ok((stored, c)) => {
                    let slen: usize = stored.len();
                    let off: u64 = HEADER_LEN as u64 + blen as u64;
                    let ghost body0 = body@;
                    body.extend_from_slice(stored.as_slice());
                    toc.push(
                        TocEntry {
                            kind: SectionKind::GraphData,
                            section: Span { off, len: slen as u64 },
                            crc32_u32: c,
                        },
                    );
                    proof {
                        storeds = storeds.push(stored@);
                    }
                    let ghost ip0 = ipay@;
                    encode_index_entry(
                        &mut ipay,
                        i as u64,
                        self.groups[i].id.as_str(),
                        self.groups[i].gname.as_str(),
                        self.groups[i].n,
                    );
                    proof {
                        // old sections keep their bytes
                        assert forall|j: int| 0 <= j < i implies body@.subrange(
                            (#[trigger] toc@[j]).section.off as int - HEADER_LEN as int,
                            toc@[j].section.off as int - HEADER_LEN as int
                                + toc@[j].section.len as int,
                        ) == storeds[j] by {
                            lemma_subrange_prefix(
                                body0,
                                stored@,
                                toc@[j].section.off as int - HEADER_LEN as int,
                                toc@[j].section.off as int - HEADER_LEN as int
                                    + toc@[j].section.len as int,
                            );
                        }
                        // the new section sits at its recorded offset
                        lemma_subrange_suffix(
                            body0,
                            stored@,
                            body0.len() as int,
                            body0.len() as int + stored@.len() as int,
                        );
                        assert(body@.subrange(
                            off as int - HEADER_LEN as int,
                            off as int - HEADER_LEN as int + slen as int,
                        ) == stored@);
                        // the index gains this group's entry
                        lemma_split_prefix(ip0, ipay@);
                        lemma_parse_index_entries_stable(
                            ip0,
                            ipay@.subrange(ip0.len() as int, ipay@.len() as int),
                            8,
                            i as int,
                        );
                        lemma_le64_at_stable(
                            ip0,
                            ipay@.subrange(ip0.len() as int, ipay@.len() as int),
                            0,
                        );
                        let gv = GraphRefV {
                            gid: i as int,
                            id: self.groups@[i as int].id@,
                            graphname: self.groups@[i as int].gname@,
                            n_triples: self.groups@[i as int].n as int,
                        };
                        assert(gv == refs[i as int]);
                        lemma_parse_index_entries_snoc(
                            ipay@,
                            8,
                            i as int,
                            refs.take(i as int),
                            ip0.len() as int,
                            gv,
                            ipay@.len() as int,
                        );
                        assert(refs.take(i as int).push(refs[i as int]) =~= refs.take(
                            i as int + 1,
                        ));
                        if !zopt {
                            assert(stored@ == self.groups@[i as int].buf@);
                            assert(spec_keys(qs).take(i as int + 1).drop_last() =~= spec_keys(
                                qs,
                            ).take(i as int));
                            assert(spec_keys(qs).take(i as int + 1).last() == spec_keys(
                                qs,
                            )[i as int]);
                            assert(spec_key_size(
                                (self.groups@[i as int].id@, self.groups@[i as int].gname@),
                            ) == spec_key_size(spec_keys(qs)[i as int]));
                        }
                    }
                    i = i + 1;
                },
            }
        }
        // the index section
        let blen: usize = body.len();
        if blen as u64 >= MAX_BODY {
            proof {
                if !zopt && spec_plain_size(qs) < MAX_BODY as int {
                    lemma_sizes_nonneg(qs, spec_keys(qs));
                }
            }
            return Err(R5Error::Io);
        }
        proof {
            assert(refs.take(ng as int) =~= refs);
            assert(spec_keys(qs).take(ng as int) =~= spec_keys(qs));
        }
        let sealed = seal_section(&ipay, zopt, copt);
        let (istored, icrc) = match sealed {
            Err(e) => {
                return Err(e);
            },
            Ok(x) => x,
        };
        let islen: usize = istored.len();
        let ioff: u64 = HEADER_LEN as u64 + blen as u64;
        let ghost body1 = body@;
        body.extend_from_slice(istored.as_slice());
        toc.push(
            TocEntry {
                kind: SectionKind::Index,
                section: Span { off: ioff, len: islen as u64 },
                crc32_u32: icrc,
            },
        );
        proof {
            storeds = storeds.push(istored@);
            assert forall|j: int| 0 <= j < ng implies body@.subrange(
                (#[trigger] toc@[j]).section.off as int - HEADER_LEN as int,
                toc@[j].section.off as int - HEADER_LEN as int + toc@[j].section.len as int,
            ) == storeds[j] by {
                lemma_subrange_prefix(
                    body1,
                    istored@,
                    toc@[j].section.off as int - HEADER_LEN as int,
                    toc@[j].section.off as int - HEADER_LEN as int + toc@[j].section.len as int,
                );
            }
            lemma_subrange_suffix(
                body1,
                istored@,
                body1.len() as int,
                body1.len() as int + istored@.len() as int,
            );
        }
        let blen2: usize = body.len();
        if blen2 as u64 >= MAX_BODY {
            proof {
                if !zopt && spec_plain_size(qs) < MAX_BODY as int {
                    assert(istored@ == ipay@);
                    assert(blen2 as int == spec_plain_size(qs));
                }
            }
            return Err(R5Error::Io);
        }
        let toc_off: u64 = HEADER_LEN as u64 + blen2 as u64;
        let n_entries: usize = toc.len();
        let toc_len_u64: u64 = (n_entries as u64) * (TOC_ENTRY_LEN as u64);
        let toc_len: u32 = toc_len_u64 as u32;
        let flags: u16 = if copt && zopt {
            3
        } else if copt {
            1
        } else if zopt {
            2
        } else {
            0
        };
        proof {
            assert((3u16 & 1u16 != 0) && (3u16 & 2u16 != 0)) by (bit_vector);
            assert((1u16 & 1u16 != 0) && (1u16 & 2u16 == 0)) by (bit_vector);
            assert((2u16 & 1u16 == 0) && (2u16 & 2u16 != 0)) by (bit_vector);
            assert((0u16 & 1u16 == 0) && (0u16 & 2u16 == 0)) by (bit_vector);
        }
        let mut out: Vec<u8> = Vec::new();
        push_magic(&mut out);
        let ghost h0 = out@;
        push_u16(&mut out, FORMAT_VERSION);
        let ghost h1 = out@;
        push_u16(&mut out, flags);
        let ghost h2 = out@;
        push_u64(&mut out, self.created);
        let ghost h3 = out@;
        push_u64(&mut out, toc_off);
        let ghost h4 = out@;
        push_u32(&mut out, toc_len);
        let ghost hdr = out@;
        proof {
            assert(hdr.len() == HEADER_LEN as int);
            assert(hdr.subrange(0, 4) =~= crate::format::spec_magic());
            lemma_le16_at_stable(h1, hdr.subrange(6, hdr.len() as int), 4);
            assert(crate::wire::spec_le16_at(hdr, 4) == FORMAT_VERSION) by {
                assert(hdr.subrange(4, 6) =~= h1.subrange(4, 6));
            }
            assert(crate::wire::spec_le16_at(hdr, 6) == flags) by {
                assert(hdr.subrange(6, 8) =~= h2.subrange(6, 8));
            }
            assert(spec_le64_at(hdr, 16) == toc_off) by {
                assert(hdr.subrange(16, 24) =~= h4.subrange(16, 24));
            }
            assert(crate::wire::spec_le32_at(hdr, 24) == toc_len) by {
                assert(hdr.subrange(24, 28) =~= hdr.subrange(24, 28));
            }
        }
        out.extend_from_slice(body.as_slice());
        let ghost hb = out@;
        // the table of contents, one fixed-size record per entry
        let mut ti: usize = 0;
        while ti < n_entries
            invariant
                0 <= ti <= n_entries,
                n_entries == toc@.len(),
                hb.len() == HEADER_LEN as int + body@.len(),
                out@.len() == hb.len() + TOC_ENTRY_LEN as int * ti,
                out@.subrange(0, hb.len() as int) == hb,
                forall|j: int|
                    #![trigger toc@[j]]
                    0 <= j < ti ==> {
                        let pos = hb.len() as int + TOC_ENTRY_LEN as int * j;
                        crate::format::spec_toc_entry_at(out@, pos) == toc@[j] && (out@[pos] == 0
                            || out@[pos] == 1) && (toc@[j].kind == SectionKind::GraphData <==> out@[pos]
                            == 0)
                    },
            decreases n_entries - ti,
        {
            let ghost o0 = out@;
            let e = toc[ti];
            let kb: u8 = match e.kind {
                SectionKind::GraphData => 0,
                SectionKind::Index => 1,
            };
            out.push(kb);
            push_u64(&mut out, e.section.off);
            push_u64(&mut out, e.section.len);
            push_u32(&mut out, e.crc32_u32);
            proof {
                let p = o0.len() as int;
                assert(out@.subrange(0, p) =~= o0) by {
                    assert forall|x: int| 0 <= x < p implies out@.subrange(0, p)[x] == o0[x] by {
                    }
                }
                lemma_split_prefix(o0, out@);
                assert(out@.len() == p + 21);
                assert(out@[p] == kb);
                assert(spec_le64_at(out@, p + 1) == e.section.off) by {
                    assert(out@.subrange(p + 1, p + 9) =~= vstd::bytes::spec_u64_to_le_bytes(
                        e.section.off,
                    ));
                    vstd::bytes::lemma_auto_spec_u64_to_from_le_bytes();
                }
                assert(spec_le64_at(out@, p + 9) == e.section.len) by {
                    assert(out@.subrange(p + 9, p + 17) =~= vstd::bytes::spec_u64_to_le_bytes(
                        e.section.len,
                    ));
                    vstd::bytes::lemma_auto_spec_u64_to_from_le_bytes();
                }
                assert(crate::wire::spec_le32_at(out@, p + 17) == e.crc32_u32) by {
                    assert(out@.subrange(p + 17, p + 21) =~= vstd::bytes::spec_u32_to_le_bytes(
                        e.crc32_u32,
                    ));
                    vstd::bytes::lemma_auto_spec_u32_to_from_le_bytes();
                }
                assert(out@.subrange(0, hb.len() as int) =~= hb);
                assert forall|j: int| #![trigger toc@[j]] 0 <= j < ti + 1 implies {
                    let pos = hb.len() as int + TOC_ENTRY_LEN as int * j;
                    crate::format::spec_toc_entry_at(out@, pos) == toc@[j] && (out@[pos] == 0
                        || out@[pos] == 1) && (toc@[j].kind == SectionKind::GraphData <==> out@[pos]
                        == 0)
                } by {
                    let pos = hb.len() as int + TOC_ENTRY_LEN as int * j;
                    if j < ti as int {
                        assert(pos + 21 <= p);
                        lemma_le64_at_stable(o0, out@.subrange(p, p + 21), pos + 1);
                        lemma_le64_at_stable(o0, out@.subrange(p, p + 21), pos + 9);
                        lemma_le32_at_stable(o0, out@.subrange(p, p + 21), pos + 17);
                        assert(out@[pos] == o0[pos]);
                    } else {
                        assert(pos == p);
                    }
                }
            }
            ti = ti + 1;
        }
        let ghost f = out@;
        proof {
            // the header reads back through both concatenations
            lemma_split_prefix(hb, f);
            let tb = f.subrange(hb.len() as int, f.len() as int);
            assert(hb == hdr + body@) by {
                assert(hb =~= hdr + body@);
            }
            assert(f.subrange(0, 4) =~= hdr.subrange(0, 4));
            lemma_le16_at_stable(hdr, body@, 4);
            lemma_le16_at_stable(hdr + body@, tb, 4);
            lemma_le16_at_stable(hdr, body@, 6);
            lemma_le16_at_stable(hdr + body@, tb, 6);
            lemma_le64_at_stable(hdr, body@, 16);
            lemma_le64_at_stable(hdr + body@, tb, 16);
            lemma_le32_at_stable(hdr, body@, 24);
            lemma_le32_at_stable(hdr + body@, tb, 24);
            assert(crate::format::spec_magic_ok(f));
            assert(crate::format::spec_version_of(f) == FORMAT_VERSION);
            assert(crate::format::spec_flags_of(f) == flags);
            assert(crate::format::spec_toc_off_of(f) == toc_off);
            assert(crate::format::spec_toc_len_of(f) == toc_len);
            assert(spec_header_ok(f));
            // the TOC is where the header says, one record per entry
            assert(toc_len as int == 21 * (ng as int + 1));
            assert(toc_len as int % TOC_ENTRY_LEN as int == 0) by (nonlinear_arith)
                requires toc_len as int == 21 * (ng as int + 1);
            assert(crate::format::spec_toc_count(f) == ng + 1) by (nonlinear_arith)
                requires crate::format::spec_toc_count(f) == toc_len as int / 21 && toc_len as int == 21 * (ng as int + 1);
            assert(toc_off as int == hb.len());
            assert(f.len() == toc_off as int + toc_len as int);
            assert forall|j: int| 0 <= j < ng + 1 implies crate::format::spec_toc_entry_at(
                f,
                toc_off as int + TOC_ENTRY_LEN as int * j,
            ) == toc@[j] && crate::format::spec_toc_entry_ok(
                f,
                toc_off as int + TOC_ENTRY_LEN as int * j,
            ) by {
                assert(crate::format::spec_toc_entry_at(f, hb.len() as int + TOC_ENTRY_LEN as int * j)
                    == toc@[j]);
            }
            assert(crate::format::spec_toc(f) =~= toc@);
            assert(crate::format::spec_toc_off_of(f) >= HEADER_LEN as u64);
            assert(crate::format::spec_toc_off_of(f) as int + crate::format::spec_toc_len_of(f) as int <= f.len());
            assert(crate::format::spec_toc_len_of(f) as int % TOC_ENTRY_LEN as int == 0);
            assert forall|j: int|
                0 <= j < crate::format::spec_toc_count(f) implies #[trigger] spec_toc_entry_ok(
                f,
                crate::format::spec_toc_off_of(f) as int + TOC_ENTRY_LEN as int * j,
            ) by {
                assert(crate::format::spec_toc_entry_at(f, toc_off as int + TOC_ENTRY_LEN as int * j) == toc@[j]);
                assert(toc@[j].section.off as int + toc@[j].section.len as int <= toc_off as int);
                assert(toc@[j].section.off >= HEADER_LEN as u64);
            }
            assert(crate::format::spec_toc_ok(f));
            // the index section decodes to the graph directory
            let ie = toc@[ng as int];
            assert(crate::format::spec_index_toc_entry(f) == Some(ie));
            assert(crate::format::spec_stored(f, ie) == istored@) by {
                lemma_subrange_prefix(hb, tb, ie.section.off as int, ie.section.off as int + ie.section.len as int);
                lemma_subrange_suffix(hdr, body@, ie.section.off as int, ie.section.off as int + ie.section.len as int);
                assert(body@.subrange(ie.section.off as int - HEADER_LEN as int,
                    ie.section.off as int - HEADER_LEN as int + ie.section.len as int) == storeds[ng as int]);
            }
            assert(!crate::format::spec_section_corrupt(f, ie, flags));
            assert(crate::format::spec_payload(f, ie, flags) == Some(ipay@));
            assert(crate::codec::spec_parse_index_payload(ipay@) == Some(refs));
            assert(spec_file_refs(f) == Some(refs));
            // each graph section decodes to its group's triples
            assert forall|gid: int| 0 <= gid < ng implies #[trigger] spec_file_graph(f, gid)
                == Some(spec_group_triples(qs, spec_keys(qs)[gid])) by {
                let ge = toc@[gid];
                assert(self.group_ok(gid));
                assert(crate::format::spec_stored(f, ge) == storeds[gid]) by {
                    lemma_subrange_prefix(hb, tb, ge.section.off as int, ge.section.off as int + ge.section.len as int);
                    lemma_subrange_suffix(hdr, body@, ge.section.off as int, ge.section.off as int + ge.section.len as int);
                }
                assert(!crate::format::spec_section_corrupt(f, ge, flags));
                assert(crate::format::spec_payload(f, ge, flags) == Some(self.groups@[gid].buf@));
                assert(refs[gid].n_triples == self.groups@[gid].n as int);
                assert(crate::codec::spec_parse_graph_payload(
                    self.groups@[gid].buf@,
                    refs[gid].n_triples,
                ) == Some(spec_group_triples(qs, spec_keys(qs)[gid])));
            }
        }
        Ok(out)
    }
}

} // verus!
