//! Planning the per-chunk circuits and the aggregation circuit.
//!
//! Building a backend circuit is opaque work; every decision that goes
//! into it is made here, verified: how long each chunk is, how many input
//! slots it declares and how many of them are padding, and which
//! constraint each real element position gets. The plans are pure values
//! of the chunk index and the public parameters, so rebuilding a circuit
//! for the same parameters plans exactly the same circuit.

use vstd::prelude::*;

use crate::hash::chunk_stream;
use crate::hash::spec_total_chunks;
use crate::sponge::get_padding_length;
use crate::sponge::spec_padding_len;
use crate::transformations::ElemConstraint;
use crate::transformations::Transformation;

verus! {

/// The real element count of chunk `k` of a dataset of `n` elements at
/// `l` elements per chunk: `l` for every chunk, except a final chunk that
/// holds only what remains.
pub open spec fn spec_chunk_len(n: nat, l: nat, k: nat) -> nat
    recommends
        l > 0,
        k < spec_total_chunks(n, l),
{
    if (k + 1) * l <= n {
        l
    } else {
        (n - k * l) as nat
    }
}

/// The padding slot count of a chunk plan: the padding rule's length for
/// a short final chunk, zero for a full chunk.
pub open spec fn spec_chunk_padding(n: nat, l: nat, k: nat) -> nat
    recommends
        l > 0,
        k < spec_total_chunks(n, l),
{
    if spec_chunk_len(n, l, k) < l {
        spec_padding_len(spec_chunk_len(n, l, k))
    } else {
        0
    }
}

/// One chunk circuit's plan: every decision its construction makes.
pub struct ChunkCircuitPlan {
    /// Which chunk this circuit proves.
    pub chunk_index: usize,
    /// How many real elements the chunk holds.
    pub chunk_len: usize,
    /// How many of the declared input slots carry padding.
    pub padding_len: usize,
    /// The constraint at each real element position, in order.
    pub constraints: Vec<ElemConstraint>,
}

/// A plan is exactly what the parameters dictate: the chunk's real
/// length, its padding, and the per-position constraints.
pub open spec fn plan_matches(
    plan: ChunkCircuitPlan,
    t: Transformation,
    n: nat,
    l: nat,
    k: nat,
) -> bool {
    &&& plan.chunk_index == k
    &&& plan.chunk_len == spec_chunk_len(n, l, k)
    &&& plan.padding_len == spec_chunk_padding(n, l, k)
    &&& plan.constraints@.len() == spec_chunk_len(n, l, k)
    &&& forall|i: int|
        0 <= i < plan.constraints@.len() ==> #[trigger] plan.constraints@[i] == t.constraint_at(
            (k * l + i) as nat,
        )
}

/// Idempotent rebuild: two plans for the same transformation, dataset
/// length, chunk size and chunk index are the same plan, so the circuits
/// built from them enforce the same constraints and accept the same
/// witnesses.
pub proof fn lemma_idempotent_rebuild(
    a: ChunkCircuitPlan,
    b: ChunkCircuitPlan,
    t: Transformation,
    n: nat,
    l: nat,
    k: nat,
)
    requires
        plan_matches(a, t, n, l, k),
        plan_matches(b, t, n, l, k),
    ensures
        a.chunk_index == b.chunk_index,
        a.chunk_len == b.chunk_len,
        a.padding_len == b.padding_len,
        a.constraints@ == b.constraints@,
{
    assert(a.constraints@ =~= b.constraints@);
}

/// A chunk plan declares exactly as many input slots as the witness
/// stream the chunk hasher produces for that chunk: real elements plus
/// padding on the circuit side, elements plus the padding rule on the
/// witness side.
pub proof fn lemma_plan_matches_stream(d: Seq<u64>, l: nat, k: nat)
    requires
        l > 0,
        k < spec_total_chunks(d.len(), l),
    ensures
        chunk_stream(d, l, k).len() == spec_chunk_len(d.len(), l, k) + spec_chunk_padding(
            d.len(),
            l,
            k,
        ),
{
    let n = d.len();
    let t = spec_total_chunks(n, l);
    if n == 0 {
        vstd::arithmetic::div_mod::lemma_basic_div(l as int - 1, l as int);
        assert(t == 0);
    }
    crate::hash::lemma_chunk_elems_len(d, l, k);
    crate::hash::lemma_total_chunks_bounds(n, l);
    let c = crate::hash::chunk_elems(d, l, k);
    if k + 1 < t {
        assert((k + 1) * l <= n) by {
            vstd::arithmetic::mul::lemma_mul_inequality(k as int + 1, t as int - 1, l as int);
        }
        assert(c.len() == l);
    }
    if k + 1 == t && c.len() < l {
        crate::sponge::lemma_padding_len(c.len());
        assert(crate::sponge::pad_of(c).len() == c.len() + spec_padding_len(c.len()));
    }
}

/// A configuration the pipeline cannot be planned for, rejected at
/// circuit-build time.
#[derive(Clone, Copy, PartialEq, Eq, Structural, Debug)]
pub enum ConfigError {
    /// The dataset packs into zero elements, so it would produce a zero
    /// chunk count and no chunk circuit could be planned.
    ZeroChunks,
}

/// Plans the chunk circuits and the aggregation circuit for one
/// transformation over one original dataset size.
pub struct TransformationCircuitBuilder {
    transformation: Transformation,
    original_len: usize,
    total_chunks: usize,
    chunk_size: usize,
}

impl TransformationCircuitBuilder {
    pub closed spec fn spec_transformation(&self) -> Transformation {
        self.transformation
    }

    /// The dataset length in elements: one element per four bytes.
    pub closed spec fn spec_original_len(&self) -> nat {
        self.original_len as nat
    }

    pub closed spec fn spec_chunk_size(&self) -> nat {
        self.chunk_size as nat
    }

    pub closed spec fn wf(&self) -> bool {
        &&& self.chunk_size > 0
        &&& self.transformation.valid()
        &&& self.total_chunks == spec_total_chunks(
            self.original_len as nat,
            self.chunk_size as nat,
        )
        &&& 0 < self.original_len <= u32::MAX
    }

    /// Plans circuits for a dataset of `original_len` bytes, four bytes
    /// per element, split into chunks of `chunk_size` elements. A dataset
    /// that packs into zero elements would produce a zero chunk count:
    /// that configuration is fatal and is refused here, at build time.
    pub fn new(original_len: usize, transformation: Transformation, chunk_size: usize) -> (r:
        Result<Self, ConfigError>)
        requires
            chunk_size > 0,
            transformation.valid(),
            original_len / 4 <= u32::MAX,
        ensures
            r is Err <==> original_len < 4,
            r is Err ==> r == Err::<Self, ConfigError>(ConfigError::ZeroChunks),
            r is Ok ==> {
                let b = r->Ok_0;
                &&& b.wf()
                &&& b.spec_transformation() == transformation
                &&& b.spec_original_len() == original_len as nat / 4
                &&& b.spec_chunk_size() == chunk_size as nat
            },
    {
        let elems = original_len / 4;
        if elems == 0 {
            return Err(ConfigError::ZeroChunks);
        }
        proof {
            assert((elems - 1) as int / chunk_size as int + 1 == spec_total_chunks(
                elems as nat,
                chunk_size as nat,
            )) by (nonlinear_arith)
                requires
                    elems >= 1,
                    chunk_size >= 1,
            ;
        }
        let total = (elems - 1) / chunk_size + 1;
        Ok(TransformationCircuitBuilder {
            transformation,
            original_len: elems,
            total_chunks: total,
            chunk_size,
        })
    }

    /// How many chunk circuits the plan holds.
    pub fn total_chunks(&self) -> (r: usize)
        requires
            self.wf(),
        ensures
            r == spec_total_chunks(self.spec_original_len(), self.spec_chunk_size()),
    {
        self.total_chunks
    }

    /// Plans the circuit of chunk `chunk`: its real length per the rule —
    /// a full chunk everywhere, the remainder in the final chunk when the
    /// dataset does not divide evenly — its padding slots, and one
    /// constraint per real element.
    pub fn build_chunk_circuit(&self, chunk: usize) -> (r: ChunkCircuitPlan)
        requires
            self.wf(),
            chunk < spec_total_chunks(self.spec_original_len(), self.spec_chunk_size()),
        ensures
            plan_matches(
                r,
                self.spec_transformation(),
                self.spec_original_len(),
                self.spec_chunk_size(),
                chunk as nat,
            ),
    {
        let n = self.original_len;
        let l = self.chunk_size;
        proof {
            if n == 0 {
                vstd::arithmetic::div_mod::lemma_basic_div(l as int - 1, l as int);
            }
            crate::hash::lemma_total_chunks_bounds(n as nat, l as nat);
            vstd::arithmetic::mul::lemma_mul_inequality(
                chunk as int,
                self.total_chunks - 1,
                l as int,
            );
            assert((chunk + 1) * l == chunk * l + l) by (nonlinear_arith);
        }
        let start = chunk * l;
        let chunk_len = if n - start >= l {
            l
        } else {
            n - start
        };
        let padding_len = if chunk_len < l {
            get_padding_length(chunk_len)
        } else {
            0
        };
        let constraints = self.transformation.build_chunk_constraints(chunk, chunk_len, l);
        ChunkCircuitPlan { chunk_index: chunk, chunk_len, padding_len, constraints }
    }

    /// Plans the whole pipeline: one circuit plan per chunk, in chunk
    /// order. The aggregation circuit chains them by the fixed spans of
    /// the chunk-proof layout — each chunk's declared initial states are
    /// constrained equal to its predecessor's final states, the first
    /// chunk's to the zero state — and exposes only the last chunk's two
    /// final states, capacity-sized, as its own public inputs.
    pub fn build_curcuit(&self) -> (r: TransformationCircuit)
        requires
            self.wf(),
        ensures
            r.wf(),
            r.spec_transformation() == self.spec_transformation(),
            r.spec_original_len() == self.spec_original_len(),
            r.spec_chunk_size() == self.spec_chunk_size(),
            r.spec_plans().len() == spec_total_chunks(
                self.spec_original_len(),
                self.spec_chunk_size(),
            ),
            r.spec_plans().len() >= 1,
            forall|k: int|
                0 <= k < r.spec_plans().len() ==> plan_matches(
                    #[trigger] r.spec_plans()[k],
                    self.spec_transformation(),
                    self.spec_original_len(),
                    self.spec_chunk_size(),
                    k as nat,
                ),
    {
        proof {
            crate::hash::lemma_total_chunks_bounds(
                self.spec_original_len(),
                self.spec_chunk_size(),
            );
        }
        let mut plans: Vec<ChunkCircuitPlan> = Vec::new();
        let mut k: usize = 0;
        let total = self.total_chunks;
        while k < total
            invariant
                k <= total,
                self.wf(),
                total == spec_total_chunks(self.spec_original_len(), self.spec_chunk_size()),
                plans@.len() == k,
                forall|j: int|
                    0 <= j < k ==> plan_matches(
                        #[trigger] plans@[j],
                        self.spec_transformation(),
                        self.spec_original_len(),
                        self.spec_chunk_size(),
                        j as nat,
                    ),
            decreases total - k,
        {
            let plan = self.build_chunk_circuit(k);
            plans.push(plan);
            k = k + 1;
        }
        TransformationCircuit {
            transformation: self.transformation,
            original_len: self.original_len,
            chunk_size: self.chunk_size,
            chunk_plans: plans,
        }
    }
}

/// The planned pipeline: the chunk circuit plans in chunk order, with the
/// parameters they were planned from.
pub struct TransformationCircuit {
    transformation: Transformation,
    original_len: usize,
    chunk_size: usize,
    /// One plan per chunk, in chunk order.
    pub chunk_plans: Vec<ChunkCircuitPlan>,
}

impl TransformationCircuit {
    pub closed spec fn spec_transformation(&self) -> Transformation {
        self.transformation
    }

    pub closed spec fn spec_original_len(&self) -> nat {
        self.original_len as nat
    }

    pub closed spec fn spec_chunk_size(&self) -> nat {
        self.chunk_size as nat
    }

    pub closed spec fn spec_plans(&self) -> Seq<ChunkCircuitPlan> {
        self.chunk_plans@
    }

    pub closed spec fn wf(&self) -> bool {
        &&& self.chunk_size > 0
        &&& self.transformation.valid()
        &&& self.original_len <= u32::MAX
        &&& self.chunk_plans@.len() == spec_total_chunks(
            self.original_len as nat,
            self.chunk_size as nat,
        )
    }
}

} // verus!
