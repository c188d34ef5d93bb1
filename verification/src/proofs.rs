//! The public-input layout of chunk proofs and the outer proof.
//!
//! A chunk proof discloses four contiguous spans of sponge states, in this
//! order: original initial state, original final state, edited initial
//! state, edited final state, each one sponge width long. The layout is
//! load-bearing: the aggregation circuit chains chunk proofs together by
//! these fixed offsets, so it is defined once here and read through
//! accessors everywhere.
//!
//! The outer proof discloses eight elements: the capacity-sized digest of
//! the original dataset followed by the capacity-sized digest of the
//! edited dataset.

use vstd::prelude::*;

use crate::sponge::elems_le_bytes;
use crate::sponge::elems_to_digest_bytes;

verus! {

/// Where the original dataset's initial state starts and ends in a chunk
/// proof's public inputs.
pub open spec fn spec_original_init_span() -> (int, int) {
    (0, 12)
}

/// Where the original dataset's final state starts and ends.
pub open spec fn spec_original_final_span() -> (int, int) {
    (12, 24)
}

/// Where the edited dataset's initial state starts and ends.
pub open spec fn spec_edited_init_span() -> (int, int) {
    (24, 36)
}

/// Where the edited dataset's final state starts and ends.
pub open spec fn spec_edited_final_span() -> (int, int) {
    (36, 48)
}

/// The original dataset's initial-state span, as offsets for circuit glue.
pub fn original_init_span() -> (r: (usize, usize))
    ensures
        r.0 == spec_original_init_span().0 && r.1 == spec_original_init_span().1,
{
    (0, 12)
}

/// The original dataset's final-state span, as offsets for circuit glue.
pub fn original_final_span() -> (r: (usize, usize))
    ensures
        r.0 == spec_original_final_span().0 && r.1 == spec_original_final_span().1,
{
    (12, 24)
}

/// The edited dataset's initial-state span, as offsets for circuit glue.
pub fn edited_init_span() -> (r: (usize, usize))
    ensures
        r.0 == spec_edited_init_span().0 && r.1 == spec_edited_init_span().1,
{
    (24, 36)
}

/// The edited dataset's final-state span, as offsets for circuit glue.
pub fn edited_final_span() -> (r: (usize, usize))
    ensures
        r.0 == spec_edited_final_span().0 && r.1 == spec_edited_final_span().1,
{
    (36, 48)
}

/// Public inputs of one chunk proof: the four state spans at their fixed
/// offsets.
pub open spec fn spec_chunk_public_inputs(
    init_o: Seq<u64>,
    fin_o: Seq<u64>,
    init_e: Seq<u64>,
    fin_e: Seq<u64>,
) -> Seq<u64> {
    init_o + fin_o + init_e + fin_e
}

/// The disclosed values of one chunk proof: its public-input vector.
pub struct ChunkProof {
    /// The chunk circuit's public inputs, laid out as the four spans.
    pub public_inputs: Vec<u64>,
}

impl ChunkProof {
    /// A well-formed chunk proof carries exactly the four spans.
    pub open spec fn wf(&self) -> bool {
        self.public_inputs@.len() == 48
    }

    /// Assembles the public-input vector of one chunk proof from its four
    /// states, in the documented span order.
    pub fn new(init_o: &[u64], fin_o: &[u64], init_e: &[u64], fin_e: &[u64]) -> (r: Self)
        requires
            init_o@.len() == 12,
            fin_o@.len() == 12,
            init_e@.len() == 12,
            fin_e@.len() == 12,
        ensures
            r.wf(),
            r.public_inputs@ == spec_chunk_public_inputs(init_o@, fin_o@, init_e@, fin_e@),
    {
        let mut pis: Vec<u64> = Vec::new();
        append_slice(&mut pis, init_o);
        append_slice(&mut pis, fin_o);
        append_slice(&mut pis, init_e);
        append_slice(&mut pis, fin_e);
        proof {
            assert(pis@ =~= spec_chunk_public_inputs(init_o@, fin_o@, init_e@, fin_e@));
        }
        ChunkProof { public_inputs: pis }
    }

    /// The original dataset's initial-state span.
    pub fn init_state_public_inputs(&self) -> (r: Vec<u64>)
        requires
            self.wf(),
        ensures
            r@ == self.public_inputs@.subrange(
                spec_original_init_span().0,
                spec_original_init_span().1,
            ),
    {
        copy_range(&self.public_inputs, 0, 12)
    }

    /// The original dataset's final-state span.
    pub fn final_state_public_inputs(&self) -> (r: Vec<u64>)
        requires
            self.wf(),
        ensures
            r@ == self.public_inputs@.subrange(
                spec_original_final_span().0,
                spec_original_final_span().1,
            ),
    {
        copy_range(&self.public_inputs, 12, 24)
    }

    /// The edited dataset's initial-state span.
    pub fn edited_init_state_public_inputs(&self) -> (r: Vec<u64>)
        requires
            self.wf(),
        ensures
            r@ == self.public_inputs@.subrange(
                spec_edited_init_span().0,
                spec_edited_init_span().1,
            ),
    {
        copy_range(&self.public_inputs, 24, 36)
    }

    /// The edited dataset's final-state span.
    pub fn edited_final_state_public_inputs(&self) -> (r: Vec<u64>)
        requires
            self.wf(),
        ensures
            r@ == self.public_inputs@.subrange(
                spec_edited_final_span().0,
                spec_edited_final_span().1,
            ),
    {
        copy_range(&self.public_inputs, 36, 48)
    }
}

/// The disclosed values of the aggregated outer proof: its eight public
/// inputs — the two capacity-sized digests. The backend proof bytes
/// themselves are boundary data and live outside the library.
pub struct TransformationProof {
    /// The outer circuit's public inputs: the original digest's four
    /// elements, then the edited digest's four elements.
    pub public_inputs: Vec<u64>,
}

/// The outer proof's public inputs for given final states: the
/// capacity-sized front of each.
pub open spec fn spec_aggregate_public_inputs(fin_o: Seq<u64>, fin_e: Seq<u64>) -> Seq<u64> {
    fin_o.take(4) + fin_e.take(4)
}

impl TransformationProof {
    /// A well-formed outer proof disclosure: two capacity-sized digests.
    pub open spec fn wf(&self) -> bool {
        self.public_inputs@.len() == 8
    }

    /// Assembles the outer proof's public inputs from the last chunk's
    /// two final states.
    pub fn new(fin_o: &[u64], fin_e: &[u64]) -> (r: Self)
        requires
            fin_o@.len() == 12,
            fin_e@.len() == 12,
        ensures
            r.wf(),
            r.public_inputs@ == spec_aggregate_public_inputs(fin_o@, fin_e@),
    {
        let mut pis: Vec<u64> = Vec::new();
        let mut i: usize = 0;
        while i < 4
            invariant
                i <= 4,
                fin_o@.len() == 12,
                pis@ =~= fin_o@.take(i as int),
            decreases 4 - i,
        {
            pis.push(fin_o[i]);
            i = i + 1;
        }
        let mut j: usize = 0;
        while j < 4
            invariant
                j <= 4,
                fin_o@.len() == 12,
                fin_e@.len() == 12,
                pis@ =~= fin_o@.take(4) + fin_e@.take(j as int),
            decreases 4 - j,
        {
            pis.push(fin_e[j]);
            j = j + 1;
        }
        proof {
            assert(pis@ =~= spec_aggregate_public_inputs(fin_o@, fin_e@));
        }
        TransformationProof { public_inputs: pis }
    }

    /// The original dataset's digest, serialized as raw field-element
    /// bytes.
    pub fn original_hash(&self) -> (r: Vec<u8>)
        requires
            self.wf(),
        ensures
            r@ == elems_le_bytes(self.public_inputs@.take(4)),
    {
        let head = copy_range(&self.public_inputs, 0, 4);
        elems_to_digest_bytes(head.as_slice())
    }

    /// The edited dataset's digest, serialized as raw field-element bytes.
    pub fn edited_hash(&self) -> (r: Vec<u8>)
        requires
            self.wf(),
        ensures
            r@ == elems_le_bytes(self.public_inputs@.subrange(4, 8)),
    {
        let tail = copy_range(&self.public_inputs, 4, 8);
        elems_to_digest_bytes(tail.as_slice())
    }
}

/// Digest binding: an outer proof assembled from the two final chain
/// states discloses exactly the two dataset digests — the same values a
/// verifier recomputes independently from the plaintext buffers with one
/// unchunked pass each.
pub proof fn lemma_digest_binding(
    p: spec_fn(Seq<u64>) -> Seq<u64>,
    orig: Seq<u64>,
    edit: Seq<u64>,
    l: nat,
)
    requires
        l > 0,
        l % 24 == 0,
    ensures
        spec_aggregate_public_inputs(
            crate::hash::boundary_state(p, orig, l, crate::hash::spec_total_chunks(orig.len(), l)),
            crate::hash::boundary_state(p, edit, l, crate::hash::spec_total_chunks(edit.len(), l)),
        ) == crate::sponge::sponge_fold(
            p,
            crate::sponge::zero_state(),
            crate::hash::padded_stream(orig, l),
        ).take(4) + crate::sponge::sponge_fold(
            p,
            crate::sponge::zero_state(),
            crate::hash::padded_stream(edit, l),
        ).take(4),
{
    crate::hash::lemma_chunk_chain(p, orig, l);
    crate::hash::lemma_chunk_chain(p, edit, l);
}

/// Appends a slice to a vector.
fn append_slice(out: &mut Vec<u64>, s: &[u64])
    ensures
        final(out)@ == old(out)@ + s@,
{
    let ghost base = out@;
    let n = s.len();
    let mut i: usize = 0;
    while i < n
        invariant
            i <= n,
            n == s@.len(),
            out@ =~= base + s@.take(i as int),
        decreases n - i,
    {
        out.push(s[i]);
        i = i + 1;
    }
    proof {
        assert(out@ =~= base + s@);
    }
}

/// Copies the elements of a half-open index range into a new vector.
fn copy_range(v: &Vec<u64>, start: usize, end: usize) -> (r: Vec<u64>)
    requires
        start <= end <= v@.len(),
    ensures
        r@ == v@.subrange(start as int, end as int),
{
    let mut out: Vec<u64> = Vec::new();
    let mut i: usize = start;
    while i < end
        invariant
            start <= i <= end,
            end <= v@.len(),
            out@ =~= v@.subrange(start as int, i as int),
        decreases end - i,
    {
        out.push(v[i]);
        i = i + 1;
    }
    proof {
        assert(out@ =~= v@.subrange(start as int, end as int));
    }
    out
}

} // verus!
