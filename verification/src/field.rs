//! Packing raw bytes into Goldilocks field elements and back.
//!
//! Bytes are packed four at a time, little-endian, zero-extended to the
//! element's native width; a trailing group shorter than four bytes is
//! zero-extended the same way. The convention is fixed and round-trips
//! exactly for byte strings whose length is a multiple of four.

use vstd::prelude::*;
use vstd::arithmetic::div_mod::lemma_fundamental_div_mod;
use vstd::arithmetic::div_mod::lemma_fundamental_div_mod_converse;

verus! {

/// Order of the Goldilocks prime field used by the proving backend.
pub const GOLDILOCKS_ORDER: u64 = 0xFFFF_FFFF_0000_0001;

/// A canonical field element: a value below the field order.
pub open spec fn fe_valid(x: u64) -> bool {
    x < GOLDILOCKS_ORDER
}

pub open spec fn all_fe_valid(s: Seq<u64>) -> bool {
    forall|i: int| 0 <= i < s.len() ==> fe_valid(#[trigger] s[i])
}

/// How many field elements a byte string of length `n` packs into:
/// one element per group of four bytes, the last group possibly shorter.
pub open spec fn elem_count(n: nat) -> nat {
    (n + 3) / 4
}

/// The `i`-th group of up to four bytes of `b`.
pub open spec fn byte_group(b: Seq<u8>, i: int) -> Seq<u8> {
    b.subrange(4 * i, if 4 * i + 4 <= b.len() { 4 * i + 4 } else { b.len() as int })
}

/// Little-endian value of a group of at most four bytes.
pub open spec fn le_group_value(b: Seq<u8>) -> nat {
    (if b.len() > 0 { b[0] as nat } else { 0 })
        + 0x100 * (if b.len() > 1 { b[1] as nat } else { 0 })
        + 0x1_0000 * (if b.len() > 2 { b[2] as nat } else { 0 })
        + 0x100_0000 * (if b.len() > 3 { b[3] as nat } else { 0 })
}

/// The field elements packed from a byte string.
pub open spec fn elems_of_bytes(b: Seq<u8>) -> Seq<u64> {
    Seq::new(elem_count(b.len()) as nat, |i: int| le_group_value(byte_group(b, i)) as u64)
}

/// Byte `j` (0-based, little-endian) of the low 32 bits of `v`.
pub open spec fn le_byte_of(v: u64, j: int) -> u8 {
    if j == 0 {
        ((v as nat) % 0x100) as u8
    } else if j == 1 {
        (((v as nat) / 0x100) % 0x100) as u8
    } else if j == 2 {
        (((v as nat) / 0x1_0000) % 0x100) as u8
    } else {
        (((v as nat) / 0x100_0000) % 0x100) as u8
    }
}

/// The bytes serialized from field elements: the low 32 bits of each
/// element, little-endian, four bytes per element.
pub open spec fn bytes_of_elems(es: Seq<u64>) -> Seq<u8> {
    Seq::new((4 * es.len()) as nat, |i: int| le_byte_of(es[i / 4], i % 4))
}

proof fn lemma_elem_count_split(n: nat)
    ensures
        n % 4 == 0 ==> elem_count(n) == n / 4,
        n % 4 != 0 ==> elem_count(n) == n / 4 + 1,
{
    lemma_fundamental_div_mod(n as int, 4);
    let q = n as int / 4;
    let r = n as int % 4;
    assert(n == 4 * q + r);
    if r == 0 {
        lemma_fundamental_div_mod_converse(n as int + 3, 4, q, 3);
    } else {
        lemma_fundamental_div_mod_converse(n as int + 3, 4, q + 1, r - 1);
    }
}

/// Packs bytes into field elements, four little-endian bytes per element.
pub fn bytes_to_field64(bytes: &[u8]) -> (r: Vec<u64>)
    ensures
        r@ == elems_of_bytes(bytes@),
        all_fe_valid(r@),
{
    let len = bytes.len();
    let n_elems = len / 4 + if len % 4 == 0 { 0 } else { 1 };
    proof {
        lemma_elem_count_split(len as nat);
    }
    let mut out: Vec<u64> = Vec::new();
    let mut k: usize = 0;
    while k < n_elems
        invariant
            k <= n_elems,
            n_elems == elem_count(bytes@.len()),
            len == bytes@.len(),
            out@ =~= elems_of_bytes(bytes@).take(k as int),
        decreases n_elems - k,
    {
        let start = 4 * k;
        proof {
            lemma_elem_count_split(len as nat);
            assert(start < len) by {
                assert(4 * k < 4 * n_elems - 3);
            }
        }
        let end = if len - start >= 4 { start + 4 } else { len };
        let mut v: u64 = bytes[start] as u64;
        if start + 1 < end {
            v = v + (bytes[start + 1] as u64) * 0x100;
        }
        if start + 2 < end {
            v = v + (bytes[start + 2] as u64) * 0x1_0000;
        }
        if start + 3 < end {
            v = v + (bytes[start + 3] as u64) * 0x100_0000;
        }
        proof {
            let g = byte_group(bytes@, k as int);
            assert(v == le_group_value(g));
        }
        out.push(v);
        k = k + 1;
        proof {
            assert(out@ =~= elems_of_bytes(bytes@).take(k as int));
        }
    }
    proof {
        assert(out@ =~= elems_of_bytes(bytes@));
    }
    out
}

/// Serializes field elements back to bytes: the low 32 bits of each
/// element, little-endian.
pub fn field64_to_bytes(elems: &[u64]) -> (r: Vec<u8>)
    requires
        elems@.len() * 4 <= usize::MAX,
    ensures
        r@ == bytes_of_elems(elems@),
{
    let mut out: Vec<u8> = Vec::new();
    let mut k: usize = 0;
    while k < elems.len()
        invariant
            k <= elems@.len(),
            elems@.len() * 4 <= usize::MAX,
            out@ =~= bytes_of_elems(elems@).take(4 * k as int),
        decreases elems@.len() - k,
    {
        let v = elems[k];
        out.push((v % 0x100) as u8);
        out.push((v / 0x100 % 0x100) as u8);
        out.push((v / 0x1_0000 % 0x100) as u8);
        out.push((v / 0x100_0000 % 0x100) as u8);
        proof {
            assert(v as nat / 0x100 == (v / 0x100) as nat) by (nonlinear_arith);
            assert(v as nat / 0x1_0000 == (v / 0x1_0000) as nat) by (nonlinear_arith);
            assert(v as nat / 0x100_0000 == (v / 0x100_0000) as nat) by (nonlinear_arith);
        }
        k = k + 1;
        proof {
            assert(out@ =~= bytes_of_elems(elems@).take(4 * k as int));
        }
    }
    proof {
        assert(out@ =~= bytes_of_elems(elems@));
    }
    out
}

/// Round trip: packing a byte string whose length is a multiple of four
/// into field elements and serializing them again restores it exactly.
pub proof fn lemma_bytes_elems_round_trip(b: Seq<u8>)
    requires
        b.len() % 4 == 0,
    ensures
        bytes_of_elems(elems_of_bytes(b)) == b,
{
    lemma_elem_count_split(b.len());
    let es = elems_of_bytes(b);
    assert(4 * es.len() == b.len());
    assert forall|i: int| 0 <= i < b.len() implies bytes_of_elems(es)[i] == b[i] by {
        let k = i / 4;
        let j = i % 4;
        lemma_fundamental_div_mod(i, 4);
        assert(0 <= k < es.len()) by {
            assert(i == 4 * k + j);
        }
        assert(4 * k + 4 <= b.len()) by {
            assert(4 * k + j < 4 * es.len());
        }
        let g = byte_group(b, k);
        assert(g.len() == 4);
        lemma_le_group_extract(g);
        assert(b[i] == g[j]);
    }
    assert(bytes_of_elems(es) =~= b);
}

/// Round trip the other way: elements whose values fit 32 bits survive
/// serialization to bytes and re-packing unchanged.
pub proof fn lemma_elems_bytes_round_trip(es: Seq<u64>)
    requires
        forall|i: int| 0 <= i < es.len() ==> (#[trigger] es[i]) < 0x1_0000_0000,
    ensures
        elems_of_bytes(bytes_of_elems(es)) == es,
{
    let b = bytes_of_elems(es);
    assert(b.len() == 4 * es.len());
    lemma_elem_count_split(b.len());
    vstd::arithmetic::div_mod::lemma_mod_multiples_basic(es.len() as int, 4);
    assert(b.len() % 4 == 0) by {
        assert(4 * es.len() == es.len() * 4) by (nonlinear_arith);
    }
    assert(elem_count(b.len()) == es.len()) by {
        assert(b.len() as int / 4 == es.len()) by {
            vstd::arithmetic::div_mod::lemma_fundamental_div_mod_converse(
                b.len() as int,
                4,
                es.len() as int,
                0,
            );
        }
    }
    assert forall|k: int| 0 <= k < es.len() implies elems_of_bytes(b)[k] == es[k] by {
        let g = byte_group(b, k);
        assert(g.len() == 4);
        assert forall|j: int| 0 <= j < 4 implies #[trigger] g[j] == le_byte_of(es[k], j) by {
            let i = 4 * k + j;
            assert(b[i] == le_byte_of(es[i / 4], i % 4));
            vstd::arithmetic::div_mod::lemma_fundamental_div_mod_converse(i, 4, k, j);
        }
        lemma_le_byte_recombine(es[k]);
        assert(le_group_value(g) == es[k] as nat);
    }
    assert(elems_of_bytes(b) =~= es);
}

/// A value below 2^32 is the little-endian combination of its four bytes.
proof fn lemma_le_byte_recombine(v: u64)
    requires
        v < 0x1_0000_0000,
    ensures
        (le_byte_of(v, 0) as nat) + 0x100 * (le_byte_of(v, 1) as nat) + 0x1_0000 * (le_byte_of(
            v,
            2,
        ) as nat) + 0x100_0000 * (le_byte_of(v, 3) as nat) == v as nat,
{
    let n = v as int;
    vstd::arithmetic::div_mod::lemma_fundamental_div_mod(n, 0x100);
    vstd::arithmetic::div_mod::lemma_fundamental_div_mod(n / 0x100, 0x100);
    vstd::arithmetic::div_mod::lemma_fundamental_div_mod(n / 0x100 / 0x100, 0x100);
    vstd::arithmetic::div_mod::lemma_div_denominator(n, 0x100, 0x100);
    vstd::arithmetic::div_mod::lemma_div_denominator(n, 0x1_0000, 0x100);
    assert(n / 0x100 / 0x100 == n / 0x1_0000);
    assert(n / 0x1_0000 / 0x100 == n / 0x100_0000);
    assert(n / 0x100_0000 < 0x100) by {
        vstd::arithmetic::div_mod::lemma_div_is_ordered(n, 0xFFFF_FFFF, 0x100_0000);
    }
    vstd::arithmetic::div_mod::lemma_small_mod((n / 0x100_0000) as nat, 0x100);
    vstd::arithmetic::div_mod::lemma_mod_bound(n, 0x100);
    vstd::arithmetic::div_mod::lemma_mod_bound(n / 0x100, 0x100);
    vstd::arithmetic::div_mod::lemma_mod_bound(n / 0x1_0000, 0x100);
}

/// Each byte of a full four-byte group is recovered from its packed value.
proof fn lemma_le_group_extract(g: Seq<u8>)
    requires
        g.len() == 4,
    ensures
        forall|j: int| 0 <= j < 4 ==> #[trigger] le_byte_of(le_group_value(g) as u64, j) == g[j],
{
    let b0 = g[0] as int;
    let b1 = g[1] as int;
    let b2 = g[2] as int;
    let b3 = g[3] as int;
    let v = le_group_value(g) as int;
    assert(v == b0 + 0x100 * b1 + 0x1_0000 * b2 + 0x100_0000 * b3);
    lemma_fundamental_div_mod_converse(v, 0x100, b1 + 0x100 * b2 + 0x1_0000 * b3, b0);
    lemma_fundamental_div_mod_converse(v, 0x1_0000, b2 + 0x100 * b3, b0 + 0x100 * b1);
    lemma_fundamental_div_mod_converse(v, 0x100_0000, b3, b0 + 0x100 * b1 + 0x1_0000 * b2);
    lemma_fundamental_div_mod_converse(v / 0x100, 0x100, b2 + 0x100 * b3, b1);
    lemma_fundamental_div_mod_converse(v / 0x1_0000, 0x100, b3, b2);
    assert(le_byte_of(v as u64, 0) == g[0]);
    assert(le_byte_of(v as u64, 1) == g[1]);
    assert(le_byte_of(v as u64, 2) == g[2]);
    assert(le_byte_of(v as u64, 3) == g[3]);
}

} // verus!
