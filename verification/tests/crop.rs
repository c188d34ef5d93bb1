use zkedit::transformations::{align_crop_edit, pixel_number_to_coords, ElemConstraint, Transformation};

fn canvas(w: u32, h: u32) -> Vec<u64> {
    (0..(w as u64) * (h as u64)).map(|i| i + 100).collect()
}

fn crop_of(orig: &[u64], orig_w: u32, x: u32, y: u32, w: u32, h: u32) -> Vec<u64> {
    let mut out = Vec::new();
    for j in 0..h {
        for i in 0..w {
            out.push(orig[((y + j) * orig_w + (x + i)) as usize]);
        }
    }
    out
}

#[test]
fn coords_from_linear_index() {
    assert_eq!(pixel_number_to_coords(0, 16), (0, 0));
    assert_eq!(pixel_number_to_coords(35, 16), (3, 2));
    assert_eq!(pixel_number_to_coords(255, 16), (15, 15));
}

#[test]
fn aligned_crop_satisfies_the_constraints() {
    let t = Transformation::Crop { orig_w: 16, orig_h: 16, x: 2, y: 2, w: 4, h: 4 };
    let orig = canvas(16, 16);
    let crop = crop_of(&orig, 16, 2, 2, 4, 4);
    let aligned = align_crop_edit(&crop, 16, 16, 2, 2, 4, 4);
    assert_eq!(aligned.len(), orig.len());
    assert!(t.check_chunk(0, &orig, &aligned));
}

#[test]
fn one_changed_element_outside_the_rectangle_is_rejected() {
    let t = Transformation::Crop { orig_w: 16, orig_h: 16, x: 2, y: 2, w: 4, h: 4 };
    let orig = canvas(16, 16);
    let crop = crop_of(&orig, 16, 2, 2, 4, 4);
    let mut edited = align_crop_edit(&crop, 16, 16, 2, 2, 4, 4);
    edited[0] = 1;  // pixel (0, 0) lies outside the rectangle
    assert!(!t.check_chunk(0, &orig, &edited));
}

#[test]
fn one_changed_element_inside_the_rectangle_is_rejected() {
    let t = Transformation::Crop { orig_w: 16, orig_h: 16, x: 2, y: 2, w: 4, h: 4 };
    let orig = canvas(16, 16);
    let crop = crop_of(&orig, 16, 2, 2, 4, 4);
    let mut edited = align_crop_edit(&crop, 16, 16, 2, 2, 4, 4);
    let inside = (3 * 16 + 3) as usize;  // pixel (3, 3) lies inside
    edited[inside] ^= 1;
    assert!(!t.check_chunk(0, &orig, &edited));
}

#[test]
fn length_mismatch_is_rejected() {
    let t = Transformation::Crop { orig_w: 16, orig_h: 16, x: 2, y: 2, w: 4, h: 4 };
    let orig = canvas(16, 16);
    let mut edited = orig.clone();
    edited.pop();
    assert!(!t.check_chunk(0, &orig, &edited));
}

#[test]
fn constraints_follow_the_rectangle() {
    let t = Transformation::Crop { orig_w: 4, orig_h: 4, x: 1, y: 1, w: 2, h: 2 };
    // One chunk of the whole 4x4 canvas: rows 1..3, columns 1..3 are
    // copied, everything else blanked.
    let plan = t.build_chunk_constraints(0, 16, 16);
    let copied: Vec<usize> = plan
        .iter()
        .enumerate()
        .filter(|(_, c)| **c == ElemConstraint::CopyOriginal)
        .map(|(i, _)| i)
        .collect();
    assert_eq!(copied, vec![5, 6, 9, 10]);
}

#[test]
fn chunk_offsets_shift_the_rectangle_test() {
    let t = Transformation::Crop { orig_w: 4, orig_h: 4, x: 1, y: 1, w: 2, h: 2 };
    // The second chunk of 8 elements covers pixels 8..16: only pixels 9
    // and 10 lie inside the rectangle.
    let plan = t.build_chunk_constraints(1, 8, 8);
    assert_eq!(plan[0], ElemConstraint::Zero);
    assert_eq!(plan[1], ElemConstraint::CopyOriginal);
    assert_eq!(plan[2], ElemConstraint::CopyOriginal);
    assert_eq!(plan[3], ElemConstraint::Zero);
}

#[test]
fn aligned_crop_blanks_outside_and_copies_inside() {
    let orig = canvas(4, 4);
    let crop = crop_of(&orig, 4, 1, 1, 2, 2);
    let aligned = align_crop_edit(&crop, 4, 4, 1, 1, 2, 2);
    assert_eq!(aligned.len(), 16);
    for pix in 0..16usize {
        let (px, py) = (pix % 4, pix / 4);
        if (1..3).contains(&px) && (1..3).contains(&py) {
            assert_eq!(aligned[pix], orig[pix]);
        } else {
            assert_eq!(aligned[pix], 0);
        }
    }
}
