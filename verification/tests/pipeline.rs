use zkedit::builder::{ConfigError, TransformationCircuitBuilder};
use zkedit::field::bytes_to_field64;
use zkedit::hash::{chunked_digest_bytes, ChunkHasher};
use zkedit::proofs::{ChunkProof, TransformationProof};
use zkedit::sponge::calculate_poseidon;
use zkedit::transformations::{align_crop_edit, Transformation};

const ORDER: u64 = 0xFFFF_FFFF_0000_0001;

/// A stand-in permutation for tests: a fixed function of the state values
/// alone, mapping canonical states to canonical states.
fn mix(state: Vec<u64>) -> Vec<u64> {
    let mut total: u64 = 0;
    for v in &state {
        total = total.wrapping_mul(0x9E37_79B9_7F4A_7C15).wrapping_add(v % ORDER);
    }
    let mut out = Vec::with_capacity(12);
    for i in 0..12 {
        let a = state[i] % ORDER;
        out.push(
            (a.wrapping_mul(6364136223846793005)
                .wrapping_add(total)
                .wrapping_add(i as u64)) % ORDER,
        );
    }
    out
}

/// Runs the witness side of the pipeline: hashes both datasets chunk by
/// chunk, checks every chunk against the transformation's constraints as
/// an honest prover would, and returns the outer proof's disclosed values.
fn run_pipeline(
    t: &Transformation,
    original: &[u8],
    edited: &[u8],
    chunk_size: usize,
) -> Option<TransformationProof> {
    let orig_elems = bytes_to_field64(original);
    let edit_elems = bytes_to_field64(edited);
    if !t.check_chunk(0, &orig_elems, &edit_elems) {
        return None;
    }
    let mut orig_hasher = ChunkHasher::new(&orig_elems, chunk_size, &mix);
    let mut edit_hasher = ChunkHasher::new(&edit_elems, chunk_size, &mix);
    let total = orig_hasher.total_chunks();
    assert_eq!(total, edit_hasher.total_chunks());
    let mut last: Option<ChunkProof> = None;
    for _ in 0..total {
        let (o_init, _o_stream, o_fin) = orig_hasher.prepare_chunk_prove_data();
        let (e_init, _e_stream, e_fin) = edit_hasher.prepare_chunk_prove_data();
        orig_hasher.advance_chunk();
        edit_hasher.advance_chunk();
        let cp = ChunkProof::new(&o_init, &o_fin, &e_init, &e_fin);
        if let Some(prev) = &last {
            assert_eq!(cp.init_state_public_inputs(), prev.final_state_public_inputs());
            assert_eq!(
                cp.edited_init_state_public_inputs(),
                prev.edited_final_state_public_inputs()
            );
        }
        last = Some(cp);
    }
    let last = last?;
    Some(TransformationProof::new(
        &last.final_state_public_inputs(),
        &last.edited_final_state_public_inputs(),
    ))
}

fn all_ones_image(w: u32, h: u32) -> Vec<u8> {
    vec![0x01u8; (w * h * 4) as usize]
}

#[test]
fn digest_binding_on_a_concrete_crop() {
    // A 16x16 all-0x01 image cropped to a 4x4 region at (2, 2): the
    // edited digest disclosed by the pipeline equals the independently
    // computed sponge digest of the zero-filled-except-crop buffer.
    let t = Transformation::Crop { orig_w: 16, orig_h: 16, x: 2, y: 2, w: 4, h: 4 };
    let original = all_ones_image(16, 16);
    let orig_elems = bytes_to_field64(&original);
    let crop_elems: Vec<u64> = vec![0x0101_0101u64; 16];
    let edited_elems = align_crop_edit(&crop_elems, 16, 16, 2, 2, 4, 4);
    let edited_bytes = zkedit::field::field64_to_bytes(&edited_elems);

    let tp = run_pipeline(&t, &original, &edited_bytes, 24).expect("an aligned crop proves");
    assert_eq!(tp.edited_hash(), calculate_poseidon(&edited_bytes, &mix));
    assert_eq!(tp.original_hash(), calculate_poseidon(&original, &mix));
    assert_eq!(tp.edited_hash(), chunked_digest_bytes(&edited_bytes, 24, &mix));
    assert_eq!(orig_elems.len(), edited_elems.len());
}

#[test]
fn tamper_detection_end_to_end() {
    let t = Transformation::Crop { orig_w: 16, orig_h: 16, x: 2, y: 2, w: 4, h: 4 };
    let original = all_ones_image(16, 16);
    let crop_elems: Vec<u64> = vec![0x0101_0101u64; 16];
    let edited_elems = align_crop_edit(&crop_elems, 16, 16, 2, 2, 4, 4);
    let edited_bytes = zkedit::field::field64_to_bytes(&edited_elems);
    let tp = run_pipeline(&t, &original, &edited_bytes, 24).expect("an aligned crop proves");

    // Replace one pixel outside the declared rectangle: the cheap
    // pre-check hash comparison fails ...
    let mut tampered = edited_bytes.clone();
    tampered[0] = 0xFF;
    assert_ne!(tp.edited_hash(), calculate_poseidon(&tampered, &mix));
    assert_ne!(tp.edited_hash(), chunked_digest_bytes(&tampered, 24, &mix));

    // ... and were it bypassed, the constraints themselves reject the
    // tampered buffer, so no proof of it exists.
    assert!(run_pipeline(&t, &original, &tampered, 24).is_none());
}

#[test]
fn aggregation_exposes_chain_end_digests() {
    // Two full chunks and a short third one: the disclosed digests equal
    // a single unchunked pass over each dataset.
    let t = Transformation::Crop { orig_w: 10, orig_h: 6, x: 1, y: 1, w: 2, h: 2 };
    let original: Vec<u8> = (0..240u32).map(|i| (i % 251) as u8).collect();
    let orig_elems = bytes_to_field64(&original);
    let mut crop_elems = Vec::new();
    for j in 0..2u32 {
        for i in 0..2u32 {
            crop_elems.push(orig_elems[((1 + j) * 10 + 1 + i) as usize]);
        }
    }
    let edited_elems = align_crop_edit(&crop_elems, 10, 6, 1, 1, 2, 2);
    let edited_bytes = zkedit::field::field64_to_bytes(&edited_elems);
    let tp = run_pipeline(&t, &original, &edited_bytes, 24).expect("an aligned crop proves");
    assert_eq!(tp.original_hash(), calculate_poseidon(&original, &mix));
    assert_eq!(tp.edited_hash(), calculate_poseidon(&edited_bytes, &mix));
}

#[test]
fn exact_multiple_datasets_are_absorbed_unpadded() {
    // 96 bytes = 24 elements = exactly one chunk: the engine absorbs them
    // without padding, unlike the standalone always-padded digest.
    let data: Vec<u8> = (0..96u32).map(|i| i as u8).collect();
    let t = Transformation::Crop { orig_w: 6, orig_h: 4, x: 1, y: 1, w: 2, h: 2 };
    let orig_elems = bytes_to_field64(&data);
    let mut crop_elems = Vec::new();
    for j in 0..2u32 {
        for i in 0..2u32 {
            crop_elems.push(orig_elems[((1 + j) * 6 + 1 + i) as usize]);
        }
    }
    let edited_elems = align_crop_edit(&crop_elems, 6, 4, 1, 1, 2, 2);
    let edited_bytes = zkedit::field::field64_to_bytes(&edited_elems);
    let tp = run_pipeline(&t, &data, &edited_bytes, 24).expect("an aligned crop proves");
    assert_eq!(tp.edited_hash(), chunked_digest_bytes(&edited_bytes, 24, &mix));
    assert_ne!(tp.edited_hash(), calculate_poseidon(&edited_bytes, &mix));
}

#[test]
fn chunk_proof_spans_stand_at_fixed_offsets() {
    let a: Vec<u64> = (0..12u64).collect();
    let b: Vec<u64> = (12..24u64).collect();
    let c: Vec<u64> = (24..36u64).collect();
    let d: Vec<u64> = (36..48u64).collect();
    let cp = ChunkProof::new(&a, &b, &c, &d);
    assert_eq!(cp.public_inputs, (0..48u64).collect::<Vec<u64>>());
    assert_eq!(cp.init_state_public_inputs(), a);
    assert_eq!(cp.final_state_public_inputs(), b);
    assert_eq!(cp.edited_init_state_public_inputs(), c);
    assert_eq!(cp.edited_final_state_public_inputs(), d);
}

#[test]
fn outer_proof_discloses_capacity_sized_digests() {
    let fin_o: Vec<u64> = (100..112u64).collect();
    let fin_e: Vec<u64> = (200..212u64).collect();
    let tp = TransformationProof::new(&fin_o, &fin_e);
    assert_eq!(tp.public_inputs, vec![100, 101, 102, 103, 200, 201, 202, 203]);
    let oh = tp.original_hash();
    assert_eq!(oh.len(), 32);
    assert_eq!(&oh[0..8], &[100, 0, 0, 0, 0, 0, 0, 0]);
    let eh = tp.edited_hash();
    assert_eq!(&eh[24..32], &[203, 0, 0, 0, 0, 0, 0, 0]);
}

#[test]
fn builder_plans_one_circuit_per_chunk() {
    let t = Transformation::Crop { orig_w: 16, orig_h: 16, x: 2, y: 2, w: 4, h: 4 };
    // 256 pixels = 1024 bytes = 256 elements at 24 elements per chunk.
    let builder = TransformationCircuitBuilder::new(1024, t, 24).expect("a nonempty dataset plans");
    assert_eq!(builder.total_chunks(), 11);
    let circuit = builder.build_curcuit();
    assert_eq!(circuit.chunk_plans.len(), 11);
    for (k, plan) in circuit.chunk_plans.iter().enumerate() {
        assert_eq!(plan.chunk_index, k);
        if k < 10 {
            assert_eq!(plan.chunk_len, 24);
            assert_eq!(plan.padding_len, 0);
        } else {
            assert_eq!(plan.chunk_len, 16);
            assert_eq!(plan.padding_len, 8);
        }
        assert_eq!(plan.constraints.len(), plan.chunk_len);
    }
}

#[test]
fn zero_chunk_configurations_are_refused_at_build_time() {
    // A dataset that packs into zero elements would plan zero chunk
    // circuits: a fatal configuration, refused by the constructor.
    let t = Transformation::Crop { orig_w: 4, orig_h: 4, x: 0, y: 0, w: 1, h: 1 };
    assert_eq!(
        TransformationCircuitBuilder::new(0, t, 24).err(),
        Some(ConfigError::ZeroChunks)
    );
    assert_eq!(
        TransformationCircuitBuilder::new(3, t, 24).err(),
        Some(ConfigError::ZeroChunks)
    );
    assert!(TransformationCircuitBuilder::new(4, t, 24).is_ok());
}

#[test]
fn builder_keeps_an_exact_multiple_unpadded() {
    let t = Transformation::Crop { orig_w: 12, orig_h: 4, x: 0, y: 0, w: 2, h: 2 };
    // 48 elements at 24 per chunk: the final chunk is full length and
    // gets no padding slots.
    let builder = TransformationCircuitBuilder::new(192, t, 24).expect("a nonempty dataset plans");
    assert_eq!(builder.total_chunks(), 2);
    let circuit = builder.build_curcuit();
    assert_eq!(circuit.chunk_plans[1].chunk_len, 24);
    assert_eq!(circuit.chunk_plans[1].padding_len, 0);
}
