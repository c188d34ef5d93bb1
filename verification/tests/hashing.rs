use zkedit::hash::ChunkHasher;
use zkedit::sponge::{calculate_poseidon, get_padding_length, pad_chunk, sponge_absorb};

const ORDER: u64 = 0xFFFF_FFFF_0000_0001;

/// A stand-in permutation for tests: a fixed function of the state values
/// alone, mapping canonical states to canonical states.
fn mix(state: Vec<u64>) -> Vec<u64> {
    let mut total: u64 = 0;
    for v in &state {
        total = total.wrapping_mul(0x9E37_79B9_7F4A_7C15).wrapping_add(v % ORDER);
    }
    let mut out = Vec::with_capacity(12);
    for i in 0..12 {
        let a = state[i] % ORDER;
        out.push(
            (a.wrapping_mul(6364136223846793005)
                .wrapping_add(total)
                .wrapping_add(i as u64)) % ORDER,
        );
    }
    out
}

/// The identity function as a permutation: handy for exact expectations.
fn ident(state: Vec<u64>) -> Vec<u64> {
    state
}

fn zero_state() -> Vec<u64> {
    vec![0u64; 12]
}

fn direct_state(data: &[u64], chunk_size: usize) -> Vec<u64> {
    let mut stream: Vec<u64> = data.to_vec();
    if data.len() % chunk_size != 0 {
        pad_chunk(&mut stream);
    }
    sponge_absorb(&mix, zero_state(), &stream)
}

fn chained_state(data: &[u64], chunk_size: usize) -> Vec<u64> {
    let mut hasher = ChunkHasher::new(data, chunk_size, &mix);
    let total = hasher.total_chunks();
    let mut last = zero_state();
    for _ in 0..total {
        let (init, _stream, fin) = hasher.prepare_chunk_prove_data();
        assert_eq!(init, last);
        last = fin;
        hasher.advance_chunk();
    }
    last
}

#[test]
fn chunk_chain_matches_single_pass_with_short_final_chunk() {
    let data: Vec<u64> = (0..50u64).collect();
    assert_eq!(chained_state(&data, 24), direct_state(&data, 24));
}

#[test]
fn chunk_chain_matches_single_pass_with_full_final_chunk() {
    let data: Vec<u64> = (0..48u64).collect();
    assert_eq!(chained_state(&data, 24), direct_state(&data, 24));
}

#[test]
fn chunk_chain_matches_single_pass_with_one_element_final_chunk() {
    let data: Vec<u64> = (0..25u64).collect();
    assert_eq!(chained_state(&data, 24), direct_state(&data, 24));
}

#[test]
fn will_pad_reports_final_chunk_length() {
    let data: Vec<u64> = (0..50u64).collect();
    let mut hasher = ChunkHasher::new(&data, 24, &mix);
    assert_eq!(hasher.will_pad(), None);
    hasher.advance_chunk();
    hasher.advance_chunk();
    assert_eq!(hasher.will_pad(), Some(2));
}

#[test]
fn padding_length_follows_the_rule() {
    assert_eq!(get_padding_length(0), 12);
    assert_eq!(get_padding_length(1), 11);
    assert_eq!(get_padding_length(10), 2);
    assert_eq!(get_padding_length(11), 13);
    assert_eq!(get_padding_length(12), 12);
    assert_eq!(get_padding_length(22), 2);
    assert_eq!(get_padding_length(23), 13);
}

#[test]
fn pad_chunk_appends_unit_zeroes_unit() {
    let mut chunk: Vec<u64> = vec![7, 8, 9];
    pad_chunk(&mut chunk);
    assert_eq!(chunk, vec![7, 8, 9, 1, 0, 0, 0, 0, 0, 0, 0, 1]);
    assert_eq!(chunk.len() % 12, 0);
}

#[test]
fn digest_of_empty_input_under_identity_permutation() {
    // The empty input pads to [1, ten zeroes, 1]; absorbed in overwrite
    // mode under the identity permutation, the final state starts with
    // the last partial block [0, 0, 0, 1], so the digest serializes as
    // three zero elements and then a one.
    let digest = calculate_poseidon(&[], &ident);
    let mut expected = vec![0u8; 32];
    expected[24] = 1;
    assert_eq!(digest, expected);
}

#[test]
fn digest_changes_when_one_byte_changes() {
    let data = vec![1u8; 64];
    let mut tampered = data.clone();
    tampered[17] ^= 1;
    assert_ne!(calculate_poseidon(&data, &mix), calculate_poseidon(&tampered, &mix));
}
