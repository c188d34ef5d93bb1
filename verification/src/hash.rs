//! Chunked sponge hashing: the witness engine for per-chunk circuits.
//!
//! A dataset is split into chunks of a fixed element count; each chunk is
//! absorbed from the state the previous chunk ended in, and the final chunk
//! is padded if and only if it is shorter than a full chunk. A dataset
//! whose length is an exact multiple of the chunk size is therefore
//! absorbed without padding, and chunking never changes the digest as long
//! as the chunk size is a multiple of both the sponge rate and width.

use vstd::prelude::*;
use vstd::arithmetic::div_mod::lemma_fundamental_div_mod;
use vstd::arithmetic::mul::lemma_mul_inequality;

use crate::field::all_fe_valid;
use crate::sponge::obeys_permutation;
use crate::sponge::pad_chunk;
use crate::sponge::pad_of;
use crate::sponge::perm_spec;
use crate::sponge::sponge_absorb;
use crate::sponge::sponge_fold;
use crate::sponge::spec_padding_len;
use crate::sponge::zero_state;

verus! {

/// Chunks needed for `n` elements at `l` elements per chunk.
pub open spec fn spec_total_chunks(n: nat, l: nat) -> nat
    recommends
        l > 0,
{
    ((n + l - 1) / l as int) as nat
}

/// The elements of chunk `k`: a full chunk for every chunk but possibly
/// the last, which holds whatever remains.
pub open spec fn chunk_elems(d: Seq<u64>, l: nat, k: nat) -> Seq<u64>
    recommends
        l > 0,
        k < spec_total_chunks(d.len(), l),
{
    d.subrange(
        (k * l) as int,
        if (k + 1) * l <= d.len() {
            ((k + 1) * l) as int
        } else {
            d.len() as int
        },
    )
}

/// What chunk `k` feeds the sponge: its elements, padded if and only if
/// it is the final chunk and shorter than a full one.
pub open spec fn chunk_stream(d: Seq<u64>, l: nat, k: nat) -> Seq<u64>
    recommends
        l > 0,
        k < spec_total_chunks(d.len(), l),
{
    let c = chunk_elems(d, l, k);
    if k + 1 == spec_total_chunks(d.len(), l) && c.len() < l {
        pad_of(c)
    } else {
        c
    }
}

/// The sponge state at the chunk boundary before chunk `k` (for
/// `k == total_chunks`, the state after the final chunk).
pub open spec fn boundary_state(
    p: spec_fn(Seq<u64>) -> Seq<u64>,
    d: Seq<u64>,
    l: nat,
    k: nat,
) -> Seq<u64>
    recommends
        l > 0,
        k <= spec_total_chunks(d.len(), l),
    decreases k,
{
    if k == 0 {
        zero_state()
    } else {
        sponge_fold(p, boundary_state(p, d, l, (k - 1) as nat), chunk_stream(d, l, (k - 1) as nat))
    }
}

/// The stream a single unchunked pass absorbs: the dataset, padded under
/// the same rule — if and only if it does not fill its final chunk.
pub open spec fn padded_stream(d: Seq<u64>, l: nat) -> Seq<u64>
    recommends
        l > 0,
{
    if d.len() % l == 0 {
        d
    } else {
        pad_of(d)
    }
}

pub proof fn lemma_total_chunks_bounds(n: nat, l: nat)
    requires
        l > 0,
        n > 0,
    ensures
        spec_total_chunks(n, l) >= 1,
        (spec_total_chunks(n, l) - 1) * l < n,
        n <= spec_total_chunks(n, l) * l,
{
    let t = spec_total_chunks(n, l) as int;
    lemma_fundamental_div_mod((n + l - 1) as int, l as int);
    let r = (n + l - 1) as int % l as int;
    assert(n + l - 1 == l * t + r);
    assert(0 <= r < l);
    assert(t >= 1) by (nonlinear_arith)
        requires
            l * t + r == n + l - 1,
            0 <= r < l,
            n >= 1,
            l >= 1,
    ;
    assert((t - 1) * l == l * t - l) by (nonlinear_arith);
    assert(t * l == l * t) by (nonlinear_arith);
}

/// The length of the final chunk: between 1 and `l`, and `l` exactly when
/// the dataset length is a multiple of the chunk size.
proof fn lemma_last_chunk_len(n: nat, l: nat)
    requires
        l > 0,
        n > 0,
    ensures
        1 <= n - (spec_total_chunks(n, l) - 1) * l <= l,
        (n - (spec_total_chunks(n, l) - 1) * l == l) <==> (n % l == 0),
{
    let t = spec_total_chunks(n, l) as int;
    lemma_total_chunks_bounds(n, l);
    let c = n - (t - 1) * l;
    assert((t - 1) * l == t * l - l) by (nonlinear_arith);
    assert(1 <= c <= l);
    lemma_fundamental_div_mod(n as int, l as int);
    let q = n as int / l as int;
    let s = n as int % l as int;
    assert(n == l * q + s);
    if s == 0 {
        assert(c == l) by (nonlinear_arith)
            requires
                n == l * q,
                (t - 1) * l < n <= t * l,
                c == n - (t - 1) * l,
                l > 0,
        ;
    } else {
        assert(c < l) by (nonlinear_arith)
            requires
                n == l * q + s,
                0 < s < l,
                (t - 1) * l < n <= t * l,
                c == n - (t - 1) * l,
                l > 0,
        ;
    }
}

/// The final chunk may be shorter than a full chunk; every other chunk is
/// full.
pub proof fn lemma_chunk_elems_len(d: Seq<u64>, l: nat, k: nat)
    requires
        l > 0,
        k < spec_total_chunks(d.len(), l),
    ensures
        k * l < d.len(),
        chunk_elems(d, l, k).len() == if (k + 1) * l <= d.len() {
            l as int
        } else {
            d.len() - k * l
        },
{
    let n = d.len();
    if n == 0 {
        vstd::arithmetic::div_mod::lemma_basic_div(l as int - 1, l as int);
        assert(spec_total_chunks(0, l) == 0);
    }
    lemma_total_chunks_bounds(n, l);
    let t = spec_total_chunks(n, l);
    assert(k * l < n) by {
        lemma_mul_inequality(k as int, t as int - 1, l as int);
        assert((t - 1) * l < n);
    }
    assert((k + 1) * l == k * l + l) by (nonlinear_arith);
}

/// A stateful sequential hasher over one dataset: it owns the full vector
/// of per-chunk boundary states, computed in one linear pass up front, so
/// each chunk's witness depends only on its index.
pub struct ChunkHasher {
    data: Vec<u64>,
    chunk_size: usize,
    states: Vec<Vec<u64>>,
    current_chunk: usize,
    total_chunks: usize,
    perm: Ghost<spec_fn(Seq<u64>) -> Seq<u64>>,
}

impl ChunkHasher {
    /// The permutation model this hasher was built with.
    pub closed spec fn perm(&self) -> spec_fn(Seq<u64>) -> Seq<u64> {
        self.perm@
    }

    pub closed spec fn spec_data(&self) -> Seq<u64> {
        self.data@
    }

    pub closed spec fn spec_chunk_size(&self) -> nat {
        self.chunk_size as nat
    }

    pub closed spec fn spec_current_chunk(&self) -> nat {
        self.current_chunk as nat
    }

    /// Well-formed: every boundary state is already computed and matches
    /// the model, and the cursor has not run past the final chunk.
    pub closed spec fn wf(&self) -> bool {
        &&& self.chunk_size > 0
        &&& self.data@.len() > 0
        &&& all_fe_valid(self.data@)
        &&& self.total_chunks == spec_total_chunks(self.data@.len(), self.chunk_size as nat)
        &&& self.current_chunk <= self.total_chunks
        &&& self.states@.len() == self.total_chunks + 1
        &&& forall|k: int| 0 <= k <= self.total_chunks
            ==> (#[trigger] self.states@[k])@
                == boundary_state(self.perm@, self.data@, self.chunk_size as nat, k as nat)
        &&& forall|k: int| 0 <= k <= self.total_chunks
            ==> (#[trigger] self.states@[k])@.len() == 12
                && all_fe_valid(self.states@[k]@)
    }

    /// Builds the hasher: copies the dataset and computes every chunk
    /// boundary state in one linear pass with the supplied permutation.
    /// An empty dataset would produce a zero chunk count, a fatal
    /// configuration, and is excluded up front.
    pub fn new<F: Fn(Vec<u64>) -> Vec<u64>>(data: &[u64], chunk_size: usize, f: &F) -> (r: Self)
        requires
            obeys_permutation(f),
            all_fe_valid(data@),
            chunk_size > 0,
            data@.len() > 0,
        ensures
            r.wf(),
            r.perm() == perm_spec(f),
            r.spec_data() == data@,
            r.spec_chunk_size() == chunk_size as nat,
            r.spec_current_chunk() == 0,
    {
        let ghost p = perm_spec(f);
        let n = data.len();
        proof {
            lemma_total_chunks_bounds(n as nat, chunk_size as nat);
            assert((n - 1) as int / chunk_size as int + 1 == spec_total_chunks(
                n as nat,
                chunk_size as nat,
            )) by (nonlinear_arith)
                requires
                    n >= 1,
                    chunk_size >= 1,
            ;
        }
        let total = (n - 1) / chunk_size + 1;
        let mut zero: Vec<u64> = Vec::new();
        let mut z: usize = 0;
        while z < crate::sponge::SPONGE_WIDTH
            invariant
                z <= 12,
                zero@ =~= Seq::new(z as nat, |i: int| 0u64),
            decreases 12 - z,
        {
            zero.push(0);
            z = z + 1;
        }
        proof {
            assert(zero@ =~= zero_state());
        }
        let mut states: Vec<Vec<u64>> = Vec::new();
        states.push(zero);
        let mut k: usize = 0;
        while k < total
            invariant
                obeys_permutation(f),
                p == perm_spec(f),
                chunk_size > 0,
                all_fe_valid(data@),
                n == data@.len(),
                total == spec_total_chunks(n as nat, chunk_size as nat),
                n > 0,
                k <= total,
                states@.len() == k + 1,
                forall|j: int| 0 <= j <= k
                    ==> (#[trigger] states@[j])@
                        == boundary_state(p, data@, chunk_size as nat, j as nat),
                forall|j: int| 0 <= j <= k
                    ==> (#[trigger] states@[j])@.len() == 12 && all_fe_valid(states@[j]@),
            decreases total - k,
        {
            proof {
                lemma_total_chunks_bounds(n as nat, chunk_size as nat);
                assert(k * chunk_size < n) by {
                    lemma_mul_inequality(k as int, total - 1, chunk_size as int);
                    assert((total - 1) * chunk_size < n);
                }
            }
            let start = k * chunk_size;
            proof {
                assert((k + 1) * chunk_size == k * chunk_size + chunk_size) by (nonlinear_arith);
            }
            let end = if n - start >= chunk_size {
                start + chunk_size
            } else {
                n
            };
            let mut chunk: Vec<u64> = Vec::new();
            let mut j: usize = start;
            while j < end
                invariant
                    start <= j <= end,
                    end <= n,
                    n == data@.len(),
                    all_fe_valid(data@),
                    chunk@ =~= data@.subrange(start as int, j as int),
                decreases end - j,
            {
                chunk.push(data[j]);
                j = j + 1;
            }
            proof {
                assert(chunk@ =~= chunk_elems(data@, chunk_size as nat, k as nat));
                assert(all_fe_valid(chunk@));
            }
            if k == total - 1 && end - start < chunk_size {
                pad_chunk(&mut chunk);
                proof {
                    assert(all_fe_valid(chunk@)) by {
                        assert(forall|q: int| 0 <= q < chunk@.len()
                            ==> #[trigger] chunk@[q] == pad_of(
                                chunk_elems(data@, chunk_size as nat, k as nat))[q]);
                    }
                }
            }
            proof {
                assert(chunk@ == chunk_stream(data@, chunk_size as nat, k as nat));
            }
            let prev = &states[k];
            let init = prev.clone();
            let next = sponge_absorb(f, init, chunk.as_slice());
            states.push(next);
            k = k + 1;
        }
        let mut copy: Vec<u64> = Vec::new();
        let mut ci: usize = 0;
        while ci < n
            invariant
                ci <= n,
                n == data@.len(),
                copy@ =~= data@.take(ci as int),
            decreases n - ci,
        {
            copy.push(data[ci]);
            ci = ci + 1;
        }
        proof {
            assert(copy@ =~= data@);
        }
        let r = ChunkHasher {
            data: copy,
            chunk_size,
            states,
            current_chunk: 0,
            total_chunks: total,
            perm: Ghost(p),
        };
        r
    }

    /// How many chunks the dataset splits into.
    pub fn total_chunks(&self) -> (r: usize)
        requires
            self.wf(),
        ensures
            r == spec_total_chunks(self.spec_data().len(), self.spec_chunk_size()),
    {
        self.total_chunks
    }

    /// If the chunk the cursor stands on is the final one, the number of
    /// its real elements (what the padding rule will be applied to when it
    /// is short of a full chunk); `None` for any earlier chunk.
    pub fn will_pad(&self) -> (r: Option<usize>)
        requires
            self.wf(),
        ensures
            self.spec_current_chunk() + 1 == spec_total_chunks(
                self.spec_data().len(),
                self.spec_chunk_size(),
            ) ==> r == Some(
                chunk_elems(
                    self.spec_data(),
                    self.spec_chunk_size(),
                    self.spec_current_chunk(),
                ).len() as usize,
            ),
            self.spec_current_chunk() + 1 != spec_total_chunks(
                self.spec_data().len(),
                self.spec_chunk_size(),
            ) ==> r is None,
    {
        proof {
            lemma_total_chunks_bounds(self.data@.len(), self.chunk_size as nat);
        }
        if self.current_chunk == self.total_chunks - 1 {
            let n = self.data.len();
            proof {
                assert((self.total_chunks - 1) * self.chunk_size < self.data@.len());
            }
            let start = self.current_chunk * self.chunk_size;
            let len = if n - start >= self.chunk_size {
                self.chunk_size
            } else {
                n - start
            };
            proof {
                assert((self.current_chunk + 1) * self.chunk_size == self.current_chunk
                    * self.chunk_size + self.chunk_size) by (nonlinear_arith);
                assert(len == chunk_elems(
                    self.spec_data(),
                    self.spec_chunk_size(),
                    self.spec_current_chunk(),
                ).len());
            }
            Some(len)
        } else {
            None
        }
    }

    /// The witness data for the chunk the cursor stands on: the state it
    /// starts from, the stream it absorbs (padded when it is a short final
    /// chunk), and the state it ends in.
    pub fn prepare_chunk_prove_data(&self) -> (r: (Vec<u64>, Vec<u64>, Vec<u64>))
        requires
            self.wf(),
            self.spec_current_chunk() < spec_total_chunks(
                self.spec_data().len(),
                self.spec_chunk_size(),
            ),
        ensures
            r.0@ == boundary_state(
                self.perm(),
                self.spec_data(),
                self.spec_chunk_size(),
                self.spec_current_chunk(),
            ),
            r.1@ == chunk_stream(
                self.spec_data(),
                self.spec_chunk_size(),
                self.spec_current_chunk(),
            ),
            r.2@ == boundary_state(
                self.perm(),
                self.spec_data(),
                self.spec_chunk_size(),
                self.spec_current_chunk() + 1,
            ),
            r.0@.len() == 12 && all_fe_valid(r.0@),
            r.2@.len() == 12 && all_fe_valid(r.2@),
            all_fe_valid(r.1@),
    {
        let k = self.current_chunk;
        let n = self.data.len();
        proof {
            lemma_total_chunks_bounds(n as nat, self.chunk_size as nat);
            assert(k * self.chunk_size < n) by {
                lemma_mul_inequality(k as int, self.total_chunks - 1, self.chunk_size as int);
            }
            assert((k + 1) * self.chunk_size == k * self.chunk_size + self.chunk_size)
                by (nonlinear_arith);
        }
        let start = k * self.chunk_size;
        let end = if n - start >= self.chunk_size {
            start + self.chunk_size
        } else {
            n
        };
        let mut chunk: Vec<u64> = Vec::new();
        let mut j: usize = start;
        while j < end
            invariant
                start <= j <= end,
                end <= n,
                n == self.data@.len(),
                all_fe_valid(self.data@),
                chunk@ =~= self.data@.subrange(start as int, j as int),
            decreases end - j,
        {
            chunk.push(self.data[j]);
            j = j + 1;
        }
        proof {
            assert(chunk@ =~= chunk_elems(self.spec_data(), self.spec_chunk_size(), k as nat));
            assert(all_fe_valid(chunk@));
        }
        if k == self.total_chunks - 1 && end - start < self.chunk_size {
            pad_chunk(&mut chunk);
            proof {
                let c = chunk_elems(self.spec_data(), self.spec_chunk_size(), k as nat);
                assert(all_fe_valid(chunk@)) by {
                    assert(forall|q: int| 0 <= q < chunk@.len()
                        ==> #[trigger] chunk@[q] == pad_of(c)[q]);
                }
            }
        }
        proof {
            assert(chunk@ == chunk_stream(self.spec_data(), self.spec_chunk_size(), k as nat));
        }
        let init = self.states[k].clone();
        let fin = self.states[k + 1].clone();
        (init, chunk, fin)
    }

    /// Moves the cursor to the next chunk after its witness was consumed.
    pub fn advance_chunk(&mut self)
        requires
            old(self).wf(),
            old(self).spec_current_chunk() < spec_total_chunks(
                old(self).spec_data().len(),
                old(self).spec_chunk_size(),
            ),
        ensures
            final(self).wf(),
            final(self).spec_current_chunk() == old(self).spec_current_chunk() + 1,
            final(self).spec_data() == old(self).spec_data(),
            final(self).spec_chunk_size() == old(self).spec_chunk_size(),
            final(self).perm() == old(self).perm(),
    {
        self.current_chunk = self.current_chunk + 1;
    }
}

/// The digest a verifier recomputes for the cheap pre-check: the dataset
/// is packed into elements, padded under the engine's rule — if and only
/// if it does not fill its final chunk — absorbed in one pass, and the
/// capacity-sized front of the final state is serialized. For a chunk
/// size that is a multiple of both the sponge rate and width this equals
/// the digest the chunked engine discloses, by the chunk-chain law.
pub fn chunked_digest_bytes<F: Fn(Vec<u64>) -> Vec<u64>>(
    data: &[u8],
    chunk_size: usize,
    f: &F,
) -> (r: Vec<u8>)
    requires
        obeys_permutation(f),
        chunk_size > 0,
    ensures
        r@ == crate::sponge::elems_le_bytes(
            sponge_fold(
                perm_spec(f),
                zero_state(),
                padded_stream(crate::field::elems_of_bytes(data@), chunk_size as nat),
            ).take(4),
        ),
{
    let mut elems = crate::field::bytes_to_field64(data);
    if elems.len() % chunk_size != 0 {
        pad_chunk(&mut elems);
        proof {
            let d = crate::field::elems_of_bytes(data@);
            assert(all_fe_valid(pad_of(d))) by {
                assert(forall|q: int| 0 <= q < pad_of(d).len() ==> pad_of(d)[q] == 0 || pad_of(
                    d,
                )[q] == 1 || (0 <= q < d.len() && pad_of(d)[q] == d[q]));
            }
        }
    }
    let mut zero: Vec<u64> = Vec::new();
    let mut z: usize = 0;
    while z < crate::sponge::SPONGE_WIDTH
        invariant
            z <= 12,
            zero@ =~= Seq::new(z as nat, |i: int| 0u64),
        decreases 12 - z,
    {
        zero.push(0);
        z = z + 1;
    }
    proof {
        assert(zero@ =~= zero_state());
    }
    let state = sponge_absorb(f, zero, elems.as_slice());
    let mut digest: Vec<u64> = Vec::new();
    digest.push(state[0]);
    digest.push(state[1]);
    digest.push(state[2]);
    digest.push(state[3]);
    proof {
        let d = crate::field::elems_of_bytes(data@);
        assert(digest@ =~= sponge_fold(perm_spec(f), zero_state(), padded_stream(
            d,
            chunk_size as nat,
        )).take(4));
    }
    crate::sponge::elems_to_digest_bytes(digest.as_slice())
}

/// Chunk boundaries are prefixes of the one-pass fold: the state before
/// chunk `k` equals the state after absorbing the first `k` full chunks
/// in a single pass.
pub proof fn lemma_boundary_prefix(p: spec_fn(Seq<u64>) -> Seq<u64>, d: Seq<u64>, l: nat, k: nat)
    requires
        l > 0,
        l % 24 == 0,
        k < spec_total_chunks(d.len(), l),
    ensures
        boundary_state(p, d, l, k) == sponge_fold(p, zero_state(), d.take((k * l) as int)),
    decreases k,
{
    let n = d.len();
    if n == 0 {
        vstd::arithmetic::div_mod::lemma_basic_div(l as int - 1, l as int);
        assert(spec_total_chunks(0, l) == 0);
    }
    lemma_total_chunks_bounds(n, l);
    let t = spec_total_chunks(n, l);
    if k == 0 {
        assert(k * l == 0) by (nonlinear_arith)
            requires
                k == 0,
        ;
        assert(d.take(0) =~= Seq::<u64>::empty());
    } else {
        lemma_boundary_prefix(p, d, l, (k - 1) as nat);
        assert(k * l <= n) by {
            lemma_mul_inequality(k as int, t as int - 1, l as int);
        }
        assert((k - 1) * l + l == k * l) by (nonlinear_arith);
        let a = d.take(((k - 1) * l) as int);
        let c = chunk_elems(d, l, (k - 1) as nat);
        assert(chunk_stream(d, l, (k - 1) as nat) == c);
        assert(d.take((k * l) as int) =~= a + c);
        lemma_rate_aligned(l, (k - 1) as nat);
        crate::sponge::lemma_sponge_fold_append(p, zero_state(), a, c);
        assert(boundary_state(p, d, l, k) == sponge_fold(p, zero_state(), d.take((k * l) as int)));
    }
}

/// Recursive aggregation equivalence: for two or more chunks, the final
/// state reached by the chained per-chunk folds — whose capacity-sized
/// front the aggregation circuit exposes as its public inputs — equals the
/// state of one direct pass over the whole dataset, whether the final
/// chunk is full (no padding) or a single element (maximal padding).
pub proof fn lemma_aggregation_equivalence(p: spec_fn(Seq<u64>) -> Seq<u64>, d: Seq<u64>, l: nat)
    requires
        l > 0,
        l % 24 == 0,
        spec_total_chunks(d.len(), l) >= 2,
    ensures
        boundary_state(p, d, l, spec_total_chunks(d.len(), l)).take(4) == sponge_fold(
            p,
            zero_state(),
            padded_stream(d, l),
        ).take(4),
{
    lemma_chunk_chain(p, d, l);
}

/// A multiple of the chunk size is a multiple of the sponge rate and of
/// the sponge width.
proof fn lemma_rate_aligned(l: nat, k: nat)
    requires
        l % 24 == 0,
    ensures
        (k * l) % 8 == 0,
        (k * l) % 12 == 0,
{
    lemma_fundamental_div_mod(l as int, 24);
    let m = l as int / 24;
    assert(l == 24 * m);
    assert(k * l == 8 * (3 * m * k)) by (nonlinear_arith)
        requires
            l == 24 * m,
    ;
    assert(k * l == 12 * (2 * m * k)) by (nonlinear_arith)
        requires
            l == 24 * m,
    ;
    vstd::arithmetic::div_mod::lemma_mod_multiples_basic(3 * m * k, 8);
    vstd::arithmetic::div_mod::lemma_mod_multiples_basic(2 * m * k, 12);
}

/// Chunk-chain correctness: folding the sponge chunk by chunk, padding
/// applied to a short final chunk, ends in exactly the state of a single
/// unchunked pass over the dataset with the same padding rule applied once
/// at the end — chunking never changes the digest.
pub proof fn lemma_chunk_chain(p: spec_fn(Seq<u64>) -> Seq<u64>, d: Seq<u64>, l: nat)
    requires
        l > 0,
        l % 24 == 0,
    ensures
        boundary_state(p, d, l, spec_total_chunks(d.len(), l)) == sponge_fold(
            p,
            zero_state(),
            padded_stream(d, l),
        ),
{
    let n = d.len();
    let t = spec_total_chunks(n, l);
    if n == 0 {
        vstd::arithmetic::div_mod::lemma_basic_div(l as int - 1, l as int);
        assert(t == 0);
        vstd::arithmetic::div_mod::lemma_small_mod(0, l);
        assert(d.len() % l == 0);
        assert(padded_stream(d, l) == d);
        assert(d =~= Seq::<u64>::empty());
    } else {
        lemma_total_chunks_bounds(n, l);
        lemma_last_chunk_len(n, l);
        lemma_boundary_prefix(p, d, l, (t - 1) as nat);
        let a = d.take((((t - 1) as nat) * l) as int);
        let c = chunk_elems(d, l, (t - 1) as nat);
        assert(((t - 1) as nat + 1) * l == ((t - 1) as nat) * l + l) by (nonlinear_arith);
        assert(c =~= d.skip((((t - 1) as nat) * l) as int));
        assert(c.len() == n - ((t - 1) as nat) * l);
        lemma_rate_aligned(l, (t - 1) as nat);
        if n % l == 0 {
            assert(c.len() == l);
            assert(chunk_stream(d, l, (t - 1) as nat) == c);
            assert(padded_stream(d, l) == d);
            assert(d =~= a + c);
            crate::sponge::lemma_sponge_fold_append(p, zero_state(), a, c);
        } else {
            assert(c.len() < l);
            assert(chunk_stream(d, l, (t - 1) as nat) == pad_of(c));
            assert(padded_stream(d, l) == pad_of(d));
            assert(spec_padding_len(c.len()) == spec_padding_len(n)) by {
                assert(a.len() % 12 == 0);
                lemma_fundamental_div_mod(a.len() as int, 12);
                assert(n == 12 * (a.len() as int / 12) + c.len());
                vstd::arithmetic::div_mod::lemma_mod_multiples_vanish(
                    a.len() as int / 12,
                    c.len() as int,
                    12,
                );
            }
            assert(pad_of(d) =~= a + pad_of(c));
            crate::sponge::lemma_sponge_fold_append(p, zero_state(), a, pad_of(c));
        }
    }
}

} // verus!
