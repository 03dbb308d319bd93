//! The laws that tie the writer to the reader, stated over the same
//! specification functions that both contracts use.

use vstd::prelude::*;
use crate::format::{spec_file_graph, spec_file_refs};
use crate::model::{
    lemma_groups_empty, spec_count, spec_group_triples, spec_groups, spec_keys, GraphRefV, QuintV,
};

verus! {

/// Law: writing a sequence of quints, finalizing, reopening and
/// enumerating yields entries whose (id, graph name, triple count) match
/// the distinct (id, graph name) groups and per-group counts of the
/// input, in first-seen order, with dense zero-based gids. The first
/// premise is `StreamingWriter::finalize`'s contract on its output; the
/// second is `R5tuFile::enumerate_all`'s on its result.
pub proof fn lemma_write_then_enumerate(qs: Seq<QuintV>, file: Seq<u8>, refs: Seq<GraphRefV>)
    requires
        spec_file_refs(file) == Some(spec_groups(qs)),
        Some(refs) == spec_file_refs(file),
    ensures
        refs == spec_groups(qs),
        refs.len() == spec_keys(qs).len(),
        forall|i: int| 0 <= i < refs.len() ==> (#[trigger] refs[i]).gid == i,
        forall|i: int|
            0 <= i < refs.len() ==> (#[trigger] refs[i]).id == spec_keys(qs)[i].0
                && refs[i].graphname == spec_keys(qs)[i].1 && refs[i].n_triples == spec_count(
                qs,
                spec_keys(qs)[i],
            ),
{
}

/// Law: compression and checksum settings never change decoded content.
/// Two files written from the same quints — whatever options each writer
/// had — decode to the same directory and the same per-graph triples;
/// only their bytes differ. The premises are `finalize`'s contract on
/// each file.
pub proof fn lemma_options_do_not_change_content(qs: Seq<QuintV>, f1: Seq<u8>, f2: Seq<u8>)
    requires
        spec_file_refs(f1) == Some(spec_groups(qs)),
        spec_file_refs(f2) == Some(spec_groups(qs)),
        forall|gid: int|
            0 <= gid < spec_keys(qs).len() ==> #[trigger] spec_file_graph(f1, gid) == Some(
                spec_group_triples(qs, spec_keys(qs)[gid]),
            ),
        forall|gid: int|
            0 <= gid < spec_keys(qs).len() ==> #[trigger] spec_file_graph(f2, gid) == Some(
                spec_group_triples(qs, spec_keys(qs)[gid]),
            ),
    ensures
        spec_file_refs(f1) == spec_file_refs(f2),
        forall|gid: int|
            0 <= gid < spec_keys(qs).len() ==> #[trigger] spec_file_graph(f1, gid)
                == spec_file_graph(f2, gid),
{
}

/// Law: a file finalized with no quints decodes to an empty directory,
/// and names no graph section.
pub proof fn lemma_empty_finalize(file: Seq<u8>)
    requires
        spec_file_refs(file) == Some(spec_groups(Seq::<QuintV>::empty())),
    ensures
        spec_file_refs(file) == Some(Seq::<GraphRefV>::empty()),
        forall|gid: int| spec_file_graph(file, gid) is None,
{
    lemma_groups_empty();
    assert forall|gid: int| spec_file_graph(file, gid) is None by {
        assert(spec_groups(Seq::<QuintV>::empty()).len() == 0);
    }
}

} // verus!
