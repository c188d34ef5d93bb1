//! The sponge hash over a caller-supplied permutation.
//!
//! The hash absorbs field elements in rate-sized blocks in overwrite mode:
//! each block replaces the first elements of the state and the permutation
//! is applied once per block, a shorter final block overwriting only its
//! own length. The permutation itself (the backend's Poseidon over the
//! Goldilocks field) is passed in as a closure; every function here is
//! specified against the mathematical function that closure implements,
//! so the results hold for any permutation the caller supplies.

use vstd::prelude::*;

verus! {

/// Elements absorbed per permutation call.
pub const SPONGE_RATE: usize = 8;

/// Elements of a sponge state.
pub const SPONGE_WIDTH: usize = 12;

/// Elements of the externally visible digest.
pub const SPONGE_CAPACITY: usize = 4;

use crate::field::all_fe_valid;

/// A well-behaved permutation closure: callable on every canonical
/// twelve-element state, returning a canonical twelve-element state that
/// depends on the input values alone.
pub open spec fn obeys_permutation<F: Fn(Vec<u64>) -> Vec<u64>>(f: &F) -> bool {
    &&& forall|x: Vec<u64>|
        x@.len() == 12 && all_fe_valid(x@) ==> #[trigger] call_requires(*f, (x,))
    &&& forall|x: Vec<u64>, y: Vec<u64>|
        #[trigger] call_ensures(*f, (x,), y) && x@.len() == 12 && all_fe_valid(x@)
            ==> y@.len() == 12 && all_fe_valid(y@)
    &&& forall|x1: Vec<u64>, y1: Vec<u64>, x2: Vec<u64>, y2: Vec<u64>|
        #[trigger] call_ensures(*f, (x1,), y1) && #[trigger] call_ensures(*f, (x2,), y2)
            && x1@ == x2@ ==> y1@ == y2@
}

/// The state-to-state function a permutation closure implements.
pub open spec fn perm_model<F: Fn(Vec<u64>) -> Vec<u64>>(f: &F, s: Seq<u64>) -> Seq<u64> {
    (choose|x: Vec<u64>, y: Vec<u64>| x@ == s && #[trigger] call_ensures(*f, (x,), y)).1@
}

/// `perm_model` as a value, for the fold specifications below.
pub open spec fn perm_spec<F: Fn(Vec<u64>) -> Vec<u64>>(f: &F) -> spec_fn(Seq<u64>) -> Seq<u64> {
    |s: Seq<u64>| perm_model(f, s)
}

/// A call of a well-behaved permutation closure returns exactly its model.
pub proof fn lemma_perm_model_agrees<F: Fn(Vec<u64>) -> Vec<u64>>(f: &F, x: Vec<u64>, y: Vec<u64>)
    requires
        obeys_permutation(f),
        call_ensures(*f, (x,), y),
        x@.len() == 12,
        all_fe_valid(x@),
    ensures
        y@ == perm_model(f, x@),
        y@.len() == 12,
        all_fe_valid(y@),
{
    assert(exists|a: Vec<u64>, b: Vec<u64>| a@ == x@ && #[trigger] call_ensures(*f, (a,), b));
    let (a, b) = choose|a: Vec<u64>, b: Vec<u64>| a@ == x@ && #[trigger] call_ensures(*f, (a,), b);
    assert(b@ == y@);
}

/// One absorption: the block overwrites the front of the state, then the
/// permutation is applied.
pub open spec fn absorb_block(
    p: spec_fn(Seq<u64>) -> Seq<u64>,
    state: Seq<u64>,
    block: Seq<u64>,
) -> Seq<u64> {
    p(block + state.skip(block.len() as int))
}

/// Absorbing a whole input, one rate-sized block per permutation call,
/// the final block possibly shorter.
pub open spec fn sponge_fold(
    p: spec_fn(Seq<u64>) -> Seq<u64>,
    state: Seq<u64>,
    input: Seq<u64>,
) -> Seq<u64>
    decreases input.len(),
{
    if input.len() == 0 {
        state
    } else {
        let bl = if input.len() < 8 { input.len() as int } else { 8 };
        sponge_fold(p, absorb_block(p, state, input.take(bl)), input.skip(bl))
    }
}

/// Absorbs `input` into `state` with the supplied permutation.
pub fn sponge_absorb<F: Fn(Vec<u64>) -> Vec<u64>>(f: &F, state: Vec<u64>, input: &[u64]) -> (r:
    Vec<u64>)
    requires
        obeys_permutation(f),
        state@.len() == 12,
        all_fe_valid(state@),
        all_fe_valid(input@),
    ensures
        r@ == sponge_fold(perm_spec(f), state@, input@),
        r@.len() == 12,
        all_fe_valid(r@),
{
    let ghost p = perm_spec(f);
    let ghost state0 = state@;
    let mut cur = state;
    let mut i: usize = 0;
    let input_len = input.len();
    proof {
        assert(input@.skip(0) =~= input@);
        assert(input@.len() <= usize::MAX);
    }
    while i < input_len
        invariant
            obeys_permutation(f),
            p == perm_spec(f),
            i <= input@.len(),
            input_len == input@.len(),
            cur@.len() == 12,
            all_fe_valid(cur@),
            all_fe_valid(input@),
            sponge_fold(p, state0, input@) == sponge_fold(p, cur@, input@.skip(i as int)),
        decreases input@.len() - i,
    {
        let bl = if input.len() - i < SPONGE_RATE { input.len() - i } else { SPONGE_RATE };
        let mut buf: Vec<u64> = Vec::new();
        let mut j: usize = 0;
        while j < bl
            invariant
                i + bl <= input@.len(),
                input@.len() <= usize::MAX,
                bl <= 8,
                j <= bl,
                all_fe_valid(input@),
                buf@ =~= input@.subrange(i as int, i + j),
            decreases bl - j,
        {
            buf.push(input[i + j]);
            j = j + 1;
        }
        let mut k: usize = bl;
        while k < SPONGE_WIDTH
            invariant
                bl <= k <= 12,
                cur@.len() == 12,
                all_fe_valid(cur@),
                i + bl <= input@.len(),
                all_fe_valid(input@),
                buf@ =~= input@.subrange(i as int, i + bl) + cur@.subrange(bl as int, k as int),
            decreases 12 - k,
        {
            buf.push(cur[k]);
            k = k + 1;
        }
        proof {
            let rest = input@.skip(i as int);
            assert(buf@ =~= rest.take(bl as int) + cur@.skip(bl as int));
            assert(buf@.len() == 12);
            assert(all_fe_valid(buf@)) by {
                assert(forall|q: int| 0 <= q < buf@.len() ==> #[trigger] buf@[q]
                    == (rest.take(bl as int) + cur@.skip(bl as int))[q]);
            }
        }
        let next = f(buf);
        proof {
            let rest = input@.skip(i as int);
            lemma_perm_model_agrees(f, buf, next);
            assert(absorb_block(p, cur@, rest.take(bl as int)) == next@);
            assert(rest.skip(bl as int) =~= input@.skip(i + bl));
        }
        cur = next;
        i = i + bl;
    }
    proof {
        assert(input@.skip(i as int) =~= Seq::<u64>::empty());
        assert(sponge_fold(p, cur@, Seq::<u64>::empty()) == cur@);
    }
    cur
}

/// How many elements the padding rule appends to a stream of length `n`:
/// one unit element, zeroes, and one more unit element, the least count
/// that makes the padded length a multiple of the sponge width.
pub open spec fn spec_padding_len(n: nat) -> nat {
    if n % 12 <= 10 {
        (12 - n % 12) as nat
    } else {
        (24 - n % 12) as nat
    }
}

/// A hashed stream with the padding rule applied: append a unit
/// domain-separator element, then zeroes, then one more unit element,
/// reaching the next multiple of the sponge width after at least two
/// appended elements.
pub open spec fn pad_of(d: Seq<u64>) -> Seq<u64> {
    d + seq![1u64] + Seq::new((spec_padding_len(d.len()) - 2) as nat, |i: int| 0u64) + seq![1u64]
}

pub proof fn lemma_padding_len(n: nat)
    ensures
        2 <= spec_padding_len(n) <= 13,
        (n + spec_padding_len(n)) % 12 == 0,
{
    let r = n % 12;
    vstd::arithmetic::div_mod::lemma_fundamental_div_mod(n as int, 12);
    let q = n as int / 12;
    if r <= 10 {
        assert((n + spec_padding_len(n)) == 12 * (q + 1));
        vstd::arithmetic::div_mod::lemma_mod_multiples_basic(q + 1, 12);
    } else {
        assert((n + spec_padding_len(n)) == 12 * (q + 2));
        vstd::arithmetic::div_mod::lemma_mod_multiples_basic(q + 2, 12);
    }
}

/// The number of padding elements for a final chunk of length `len`.
pub fn get_padding_length(len: usize) -> (r: usize)
    ensures
        r == spec_padding_len(len as nat),
{
    let rem = len % SPONGE_WIDTH;
    if rem <= 10 {
        SPONGE_WIDTH - rem
    } else {
        2 * SPONGE_WIDTH - rem
    }
}

/// Applies the padding rule to `chunk` in place.
pub fn pad_chunk(chunk: &mut Vec<u64>)
    ensures
        final(chunk)@ == pad_of(old(chunk)@),
        final(chunk)@.len() == old(chunk)@.len() + spec_padding_len(old(chunk)@.len()),
{
    let ghost d = chunk@;
    let pad = get_padding_length(chunk.len());
    proof {
        lemma_padding_len(d.len());
    }
    chunk.push(1);
    let zeroes = pad - 2;
    let mut j: usize = 0;
    while j < zeroes
        invariant
            j <= zeroes,
            zeroes == spec_padding_len(d.len()) - 2,
            chunk@ =~= d + seq![1u64] + Seq::new(j as nat, |i: int| 0u64),
        decreases zeroes - j,
    {
        chunk.push(0);
        j = j + 1;
        proof {
            assert(chunk@ =~= d + seq![1u64] + Seq::new(j as nat, |i: int| 0u64));
        }
    }
    chunk.push(1);
    proof {
        assert(chunk@ =~= pad_of(d));
        lemma_padding_len(d.len());
    }
}

/// The all-zero initial sponge state.
pub open spec fn zero_state() -> Seq<u64> {
    Seq::new(12, |i: int| 0u64)
}

/// The sponge state after absorbing the padded stream `d` from the zero state.
pub open spec fn state_of(p: spec_fn(Seq<u64>) -> Seq<u64>, d: Seq<u64>) -> Seq<u64> {
    sponge_fold(p, zero_state(), pad_of(d))
}

/// The digest: the first capacity-many elements of the final state.
pub open spec fn digest_elems_of(p: spec_fn(Seq<u64>) -> Seq<u64>, d: Seq<u64>) -> Seq<u64> {
    state_of(p, d).take(4)
}

/// 256 to the `j`-th power.
pub open spec fn pow256(j: nat) -> nat
    decreases j,
{
    if j == 0 {
        1
    } else {
        256 * pow256((j - 1) as nat)
    }
}

/// Byte `j` (0-based, little-endian) of the full 64-bit value `v`.
pub open spec fn u64_le_byte(v: u64, j: int) -> u8 {
    (((v as nat) / pow256(j as nat)) % 256) as u8
}

/// Field elements serialized as raw bytes: eight little-endian bytes each.
pub open spec fn elems_le_bytes(es: Seq<u64>) -> Seq<u8> {
    Seq::new((8 * es.len()) as nat, |i: int| u64_le_byte(es[i / 8], i % 8))
}

/// The digest of a padded stream, serialized as raw field-element bytes.
pub open spec fn digest_bytes_of(p: spec_fn(Seq<u64>) -> Seq<u64>, d: Seq<u64>) -> Seq<u8> {
    elems_le_bytes(digest_elems_of(p, d))
}

/// Serializes field elements as raw bytes, eight little-endian bytes each.
pub fn elems_to_digest_bytes(elems: &[u64]) -> (r: Vec<u8>)
    requires
        elems@.len() * 8 <= usize::MAX,
    ensures
        r@ == elems_le_bytes(elems@),
{
    let mut out: Vec<u8> = Vec::new();
    let mut k: usize = 0;
    while k < elems.len()
        invariant
            k <= elems@.len(),
            elems@.len() * 8 <= usize::MAX,
            out@ =~= elems_le_bytes(elems@).take(8 * k as int),
        decreases elems@.len() - k,
    {
        let v = elems[k];
        let mut x: u64 = v;
        let mut j: usize = 0;
        proof {
            assert(pow256(0) == 1);
            assert(v as nat / 1 == v as nat);
        }
        while j < 8
            invariant
                j <= 8,
                x == v as nat / pow256(j as nat),
                out@ =~= elems_le_bytes(elems@).take(8 * k + j),
                k < elems@.len(),
                elems@.len() * 8 <= usize::MAX,
                v == elems@[k as int],
            decreases 8 - j,
        {
            out.push((x % 256) as u8);
            proof {
                assert(x % 256 == (x as nat) % 256);
                assert(u64_le_byte(v, j as int) == (x % 256) as u8);
                lemma_pow256_pos(j as nat);
                vstd::arithmetic::div_mod::lemma_div_denominator(
                    v as int,
                    pow256(j as nat) as int,
                    256,
                );
                assert(pow256((j + 1) as nat) == pow256(j as nat) * 256) by (nonlinear_arith)
                    requires
                        pow256((j + 1) as nat) == 256 * pow256(j as nat),
                ;
            }
            x = x / 256;
            j = j + 1;
            proof {
                assert(out@ =~= elems_le_bytes(elems@).take(8 * k + j));
            }
        }
        k = k + 1;
        proof {
            assert(out@ =~= elems_le_bytes(elems@).take(8 * k as int));
        }
    }
    proof {
        assert(out@ =~= elems_le_bytes(elems@));
    }
    out
}

proof fn lemma_pow256_pos(j: nat)
    ensures
        pow256(j) >= 1,
    decreases j,
{
    if j > 0 {
        lemma_pow256_pos((j - 1) as nat);
    }
}

/// The sponge digest of raw bytes: the bytes are packed into field
/// elements, the padding rule is applied, the elements are absorbed from
/// the zero state with the supplied permutation, and the capacity-sized
/// front of the final state is serialized as raw field-element bytes.
pub fn calculate_poseidon<F: Fn(Vec<u64>) -> Vec<u64>>(data: &[u8], f: &F) -> (r: Vec<u8>)
    requires
        obeys_permutation(f),
    ensures
        r@ == digest_bytes_of(perm_spec(f), crate::field::elems_of_bytes(data@)),
{
    let mut elems = crate::field::bytes_to_field64(data);
    pad_chunk(&mut elems);
    let mut zero: Vec<u64> = Vec::new();
    let mut z: usize = 0;
    while z < SPONGE_WIDTH
        invariant
            z <= 12,
            zero@ =~= Seq::new(z as nat, |i: int| 0u64),
        decreases 12 - z,
    {
        zero.push(0);
        z = z + 1;
    }
    proof {
        assert(zero@ =~= zero_state());
        let d = crate::field::elems_of_bytes(data@);
        assert(all_fe_valid(pad_of(d))) by {
            assert(forall|q: int| 0 <= q < pad_of(d).len() ==> pad_of(d)[q] == 0 || pad_of(d)[q]
                == 1 || (0 <= q < d.len() && pad_of(d)[q] == d[q]));
        }
    }
    let state = sponge_absorb(f, zero, elems.as_slice());
    let mut digest: Vec<u64> = Vec::new();
    digest.push(state[0]);
    digest.push(state[1]);
    digest.push(state[2]);
    digest.push(state[3]);
    proof {
        assert(digest@ =~= digest_elems_of(perm_spec(f), crate::field::elems_of_bytes(data@)));
    }
    let r = elems_to_digest_bytes(digest.as_slice());
    proof {
        assert(r@ == digest_bytes_of(perm_spec(f), crate::field::elems_of_bytes(data@)));
    }
    r
}

/// Absorbing a rate-aligned prefix first and the rest afterwards reaches
/// the same state as absorbing everything in one pass: chunking at block
/// boundaries never changes the result.
pub proof fn lemma_sponge_fold_append(
    p: spec_fn(Seq<u64>) -> Seq<u64>,
    s: Seq<u64>,
    a: Seq<u64>,
    b: Seq<u64>,
)
    requires
        a.len() % 8 == 0,
    ensures
        sponge_fold(p, s, a + b) == sponge_fold(p, sponge_fold(p, s, a), b),
    decreases a.len(),
{
    if a.len() == 0 {
        assert(a + b =~= b);
    } else {
        assert(a.len() >= 8) by {
            vstd::arithmetic::div_mod::lemma_fundamental_div_mod(a.len() as int, 8);
        }
        let ab = a + b;
        assert(ab.len() >= 8);
        assert(ab.take(8) =~= a.take(8));
        assert(ab.skip(8) =~= a.skip(8) + b);
        assert(a.skip(8).len() % 8 == 0) by {
            vstd::arithmetic::div_mod::lemma_mod_sub_multiples_vanish(a.len() as int, 8);
        }
        let s1 = absorb_block(p, s, a.take(8));
        lemma_sponge_fold_append(p, s1, a.skip(8), b);
    }
}

} // verus!
