//! Little-endian field access on byte sequences, append helpers for the
//! encoders, and the concatenation lemmas the codec proofs lean on.

use vstd::prelude::*;
use vstd::bytes::{
    spec_u16_from_le_bytes, spec_u16_to_le_bytes, spec_u32_from_le_bytes, spec_u32_to_le_bytes,
    spec_u64_from_le_bytes, spec_u64_to_le_bytes, lemma_auto_spec_u16_to_from_le_bytes,
    lemma_auto_spec_u32_to_from_le_bytes, lemma_auto_spec_u64_to_from_le_bytes, u16_from_le_bytes,
    u16_to_le_bytes, u32_from_le_bytes, u32_to_le_bytes, u64_from_le_bytes, u64_to_le_bytes,
};
use vstd::slice::slice_subrange;

verus! {

/// The little-endian 16-bit field at byte offset `i`.
pub open spec fn spec_le16_at(b: Seq<u8>, i: int) -> u16 {
    spec_u16_from_le_bytes(b.subrange(i, i + 2))
}

/// The little-endian 32-bit field at byte offset `i`.
pub open spec fn spec_le32_at(b: Seq<u8>, i: int) -> u32 {
    spec_u32_from_le_bytes(b.subrange(i, i + 4))
}

/// The little-endian 64-bit field at byte offset `i`.
pub open spec fn spec_le64_at(b: Seq<u8>, i: int) -> u64 {
    spec_u64_from_le_bytes(b.subrange(i, i + 8))
}

/// Append `v` in little-endian order; the field then reads back as `v`.
pub fn push_u16(out: &mut Vec<u8>, v: u16)
    ensures
        final(out)@ == old(out)@ + spec_u16_to_le_bytes(v),
        final(out)@.len() == old(out)@.len() + 2,
        spec_le16_at(final(out)@, old(out)@.len() as int) == v,
{
    let b = u16_to_le_bytes(v);
    out.extend_from_slice(b.as_slice());
    proof {
        lemma_auto_spec_u16_to_from_le_bytes();
        assert(out@.subrange(out@.len() - 2, out@.len() as int) =~= spec_u16_to_le_bytes(v));
    }
}

/// Append `v` in little-endian order; the field then reads back as `v`.
pub fn push_u32(out: &mut Vec<u8>, v: u32)
    ensures
        final(out)@ == old(out)@ + spec_u32_to_le_bytes(v),
        final(out)@.len() == old(out)@.len() + 4,
        spec_le32_at(final(out)@, old(out)@.len() as int) == v,
{
    let b = u32_to_le_bytes(v);
    out.extend_from_slice(b.as_slice());
    proof {
        lemma_auto_spec_u32_to_from_le_bytes();
        assert(out@.subrange(out@.len() - 4, out@.len() as int) =~= spec_u32_to_le_bytes(v));
    }
}

/// Append `v` in little-endian order; the field then reads back as `v`.
pub fn push_u64(out: &mut Vec<u8>, v: u64)
    ensures
        final(out)@ == old(out)@ + spec_u64_to_le_bytes(v),
        final(out)@.len() == old(out)@.len() + 8,
        spec_le64_at(final(out)@, old(out)@.len() as int) == v,
{
    let b = u64_to_le_bytes(v);
    out.extend_from_slice(b.as_slice());
    proof {
        lemma_auto_spec_u64_to_from_le_bytes();
        assert(out@.subrange(out@.len() - 8, out@.len() as int) =~= spec_u64_to_le_bytes(v));
    }
}

/// Read the little-endian 16-bit field at offset `i`.
pub fn read_u16_at(b: &[u8], i: usize) -> (r: u16)
    requires
        i + 2 <= b@.len(),
    ensures
        r == spec_le16_at(b@, i as int),
{
    let n = b.len();
    let s = slice_subrange(b, i, i + 2);
    u16_from_le_bytes(s)
}

/// Read the little-endian 32-bit field at offset `i`.
pub fn read_u32_at(b: &[u8], i: usize) -> (r: u32)
    requires
        i + 4 <= b@.len(),
    ensures
        r == spec_le32_at(b@, i as int),
{
    let n = b.len();
    let s = slice_subrange(b, i, i + 4);
    u32_from_le_bytes(s)
}

/// Read the little-endian 64-bit field at offset `i`.
pub fn read_u64_at(b: &[u8], i: usize) -> (r: u64)
    requires
        i + 8 <= b@.len(),
    ensures
        r == spec_le64_at(b@, i as int),
{
    let n = b.len();
    let s = slice_subrange(b, i, i + 8);
    u64_from_le_bytes(s)
}

/// A subrange that lies within the first operand of a concatenation reads
/// from that operand.
pub proof fn lemma_subrange_prefix(s: Seq<u8>, t: Seq<u8>, a: int, b: int)
    requires
        0 <= a <= b <= s.len(),
    ensures
        (s + t).subrange(a, b) == s.subrange(a, b),
{
    assert((s + t).subrange(a, b) =~= s.subrange(a, b));
}

/// A subrange that lies within the second operand of a concatenation reads
/// from that operand.
pub proof fn lemma_subrange_suffix(s: Seq<u8>, t: Seq<u8>, a: int, b: int)
    requires
        s.len() <= a <= b <= s.len() + t.len(),
    ensures
        (s + t).subrange(a, b) == t.subrange(a - s.len(), b - s.len()),
{
    assert((s + t).subrange(a, b) =~= t.subrange(a - s.len(), b - s.len()));
}

/// Appending bytes does not change an in-bounds 16-bit field.
pub proof fn lemma_le16_at_stable(b: Seq<u8>, t: Seq<u8>, i: int)
    requires
        0 <= i && i + 2 <= b.len(),
    ensures
        spec_le16_at(b + t, i) == spec_le16_at(b, i),
{
    lemma_subrange_prefix(b, t, i, i + 2);
}

/// Appending bytes does not change an in-bounds 32-bit field.
pub proof fn lemma_le32_at_stable(b: Seq<u8>, t: Seq<u8>, i: int)
    requires
        0 <= i && i + 4 <= b.len(),
    ensures
        spec_le32_at(b + t, i) == spec_le32_at(b, i),
{
    lemma_subrange_prefix(b, t, i, i + 4);
}

/// Appending bytes does not change an in-bounds 64-bit field.
pub proof fn lemma_le64_at_stable(b: Seq<u8>, t: Seq<u8>, i: int)
    requires
        0 <= i && i + 8 <= b.len(),
    ensures
        spec_le64_at(b + t, i) == spec_le64_at(b, i),
{
    lemma_subrange_prefix(b, t, i, i + 8);
}

} // verus!
