//! Transformations and their per-element constraints.
//!
//! A transformation is a closed tagged type: each variant carries the
//! public parameters of one supported transformation, and one dispatch
//! method maps a variant to the constraint it imposes on every element
//! position. One element holds one pixel (four bytes), so an element's
//! linear index determines its two-dimensional coordinates on the canvas.
//!
//! The crop relation: the edited dataset is a same-size canvas on which
//! the crop rectangle is copied from the original verbatim and every
//! element outside the rectangle is blanked to zero.

use vstd::prelude::*;

verus! {

/// The geometric parameters of the applied transformation, carried with a
/// proof as public metadata; prover and verifier must rebuild their
/// circuits from equal descriptors for a proof to be meaningful.
#[derive(Clone, Copy, PartialEq, Eq, Structural, Debug)]
pub enum Transformation {
    Crop { orig_w: u32, orig_h: u32, x: u32, y: u32, w: u32, h: u32 },
}

/// The coordinates of the element with linear index `num` on a canvas
/// `width` elements wide.
pub fn pixel_number_to_coords(num: usize, width: u32) -> (r: (u32, u32))
    requires
        width > 0,
        num <= u32::MAX,
    ensures
        r.0 as nat == (num as nat) % (width as nat),
        r.1 as nat == (num as nat) / (width as nat),
{
    (num as u32 % width, num as u32 / width)
}

/// Whether the element with linear index `idx` lies inside the crop
/// rectangle on a canvas `orig_w` elements wide.
pub open spec fn in_crop_region(orig_w: nat, x: nat, y: nat, w: nat, h: nat, idx: nat) -> bool
    recommends
        orig_w > 0,
{
    let px = idx % orig_w;
    let py = idx / orig_w;
    &&& x <= px < x + w
    &&& y <= py < y + h
}

impl Transformation {
    /// A meaningful descriptor: a nonempty canvas and a rectangle that
    /// lies on it.
    pub open spec fn valid(&self) -> bool {
        match *self {
            Transformation::Crop { orig_w, orig_h, x, y, w, h } => {
                &&& orig_w > 0
                &&& x + w <= orig_w
                &&& y + h <= orig_h
            },
        }
    }

    /// The constraint at one element position: inside the rectangle the
    /// edited element copies the original, outside it is zero.
    pub open spec fn elem_ok(&self, idx: nat, orig: u64, edit: u64) -> bool {
        match *self {
            Transformation::Crop { orig_w, orig_h, x, y, w, h } => {
                if in_crop_region(orig_w as nat, x as nat, y as nat, w as nat, h as nat, idx) {
                    edit == orig
                } else {
                    edit == 0
                }
            },
        }
    }

    /// The constraints over one chunk whose first element has absolute
    /// index `offset`.
    pub open spec fn chunk_ok(&self, offset: nat, orig: Seq<u64>, edit: Seq<u64>) -> bool {
        &&& edit.len() == orig.len()
        &&& forall|i: int|
            0 <= i < orig.len() ==> self.elem_ok(
                (offset + i) as nat,
                #[trigger] orig[i],
                #[trigger] edit[i],
            )
    }

    /// The constraints over a whole dataset.
    pub open spec fn dataset_ok(&self, orig: Seq<u64>, edit: Seq<u64>) -> bool {
        self.chunk_ok(0, orig, edit)
    }

    /// The one edited dataset the constraints accept for a given original:
    /// the rectangle copied verbatim, everything else blanked.
    pub open spec fn aligned_edit(&self, orig: Seq<u64>) -> Seq<u64> {
        match *self {
            Transformation::Crop { orig_w, orig_h, x, y, w, h } => Seq::new(
                orig.len(),
                |i: int|
                    if in_crop_region(
                        orig_w as nat,
                        x as nat,
                        y as nat,
                        w as nat,
                        h as nat,
                        i as nat,
                    ) {
                        orig[i]
                    } else {
                        0u64
                    },
            ),
        }
    }
}

/// The constraint the circuit enforces at one element position.
#[derive(Clone, Copy, PartialEq, Eq, Structural, Debug)]
pub enum ElemConstraint {
    /// The edited element must equal the original element.
    CopyOriginal,
    /// The edited element must be zero.
    Zero,
}

impl Transformation {
    /// The constraint kind at one absolute element index.
    pub open spec fn constraint_at(&self, idx: nat) -> ElemConstraint {
        match *self {
            Transformation::Crop { orig_w, orig_h, x, y, w, h } => {
                if in_crop_region(orig_w as nat, x as nat, y as nat, w as nat, h as nat, idx) {
                    ElemConstraint::CopyOriginal
                } else {
                    ElemConstraint::Zero
                }
            },
        }
    }

    /// One constraint per real (unpadded) element of a chunk, computed
    /// from the chunk's absolute offset; padding positions get none. The
    /// circuit glue enforces each entry on the corresponding pair of
    /// element wires, so this plan is the whole decision the constraint
    /// gadget makes.
    pub fn build_chunk_constraints(
        &self,
        chunk_number: usize,
        chunk_len: usize,
        chunk_size: usize,
    ) -> (r: Vec<ElemConstraint>)
        requires
            self.valid(),
            chunk_number * chunk_size + chunk_len <= u32::MAX,
        ensures
            r@.len() == chunk_len,
            forall|i: int|
                0 <= i < chunk_len ==> #[trigger] r@[i] == self.constraint_at(
                    (chunk_number * chunk_size + i) as nat,
                ),
    {
        let offset = chunk_number * chunk_size;
        let mut out: Vec<ElemConstraint> = Vec::new();
        let mut i: usize = 0;
        match *self {
            Transformation::Crop { orig_w, orig_h, x, y, w, h } => {
                while i < chunk_len
                    invariant
                        i <= chunk_len,
                        offset == chunk_number * chunk_size,
                        offset + chunk_len <= u32::MAX,
                        orig_w > 0,
                        x + w <= orig_w,
                        y + h <= orig_h,
                        *self == (Transformation::Crop { orig_w, orig_h, x, y, w, h }),
                        out@.len() == i,
                        forall|j: int|
                            0 <= j < i ==> #[trigger] out@[j] == self.constraint_at(
                                (offset + j) as nat,
                            ),
                    decreases chunk_len - i,
                {
                    let (px, py) = pixel_number_to_coords(offset + i, orig_w);
                    if x <= px && px < x + w && y <= py && py < y + h {
                        out.push(ElemConstraint::CopyOriginal);
                    } else {
                        out.push(ElemConstraint::Zero);
                    }
                    i = i + 1;
                }
            },
        }
        out
    }

    /// The per-element constraints say exactly what `elem_ok` says.
    pub proof fn lemma_constraint_at_meaning(&self, idx: nat, orig: u64, edit: u64)
        ensures
            self.elem_ok(idx, orig, edit) <==> if self.constraint_at(idx)
                == ElemConstraint::CopyOriginal {
                edit == orig
            } else {
                edit == 0
            },
    {
    }

    /// Checks one chunk of witness values against the constraints: what
    /// an honest prover establishes before proving, and exactly what the
    /// circuit rejects a dishonest witness for.
    pub fn check_chunk(&self, offset: usize, orig: &[u64], edit: &[u64]) -> (r: bool)
        requires
            self.valid(),
            offset + orig@.len() <= u32::MAX,
        ensures
            r == self.chunk_ok(offset as nat, orig@, edit@),
    {
        if edit.len() != orig.len() {
            return false;
        }
        let n = orig.len();
        let mut i: usize = 0;
        match *self {
            Transformation::Crop { orig_w, orig_h, x, y, w, h } => {
                while i < n
                    invariant
                        i <= n,
                        n == orig@.len(),
                        edit@.len() == orig@.len(),
                        offset + n <= u32::MAX,
                        orig_w > 0,
                        x + w <= orig_w,
                        y + h <= orig_h,
                        *self == (Transformation::Crop { orig_w, orig_h, x, y, w, h }),
                        forall|j: int|
                            0 <= j < i ==> self.elem_ok(
                                (offset + j) as nat,
                                #[trigger] orig@[j],
                                #[trigger] edit@[j],
                            ),
                    decreases n - i,
                {
                    let (px, py) = pixel_number_to_coords(offset + i, orig_w);
                    let inside = x <= px && px < x + w && y <= py && py < y + h;
                    let ok = if inside {
                        edit[i] == orig[i]
                    } else {
                        edit[i] == 0
                    };
                    if !ok {
                        proof {
                            let gi = i as int;
                            assert(!self.elem_ok((offset + gi) as nat, orig@[gi], edit@[gi]));
                        }
                        return false;
                    }
                    i = i + 1;
                }
            },
        }
        true
    }
}

/// One element of an aligned canvas: the crop's element at the position's
/// coordinates when it lies inside the rectangle, zero outside.
pub open spec fn spec_aligned_elem(
    crop: Seq<u64>,
    orig_w: nat,
    x: nat,
    y: nat,
    w: nat,
    h: nat,
    i: int,
) -> u64
    recommends
        orig_w > 0,
{
    let px = (i as nat) % orig_w;
    let py = (i as nat) / orig_w;
    if x <= px < x + w && y <= py < y + h {
        crop[((py - y) * w + (px - x)) as int]
    } else {
        0u64
    }
}

/// A cropped rectangle re-expanded to a canvas of the original size.
pub open spec fn spec_align_crop(
    crop: Seq<u64>,
    orig_w: nat,
    orig_h: nat,
    x: nat,
    y: nat,
    w: nat,
    h: nat,
) -> Seq<u64>
    recommends
        orig_w > 0,
{
    Seq::new(orig_w * orig_h, |i: int| spec_aligned_elem(crop, orig_w, x, y, w, h, i))
}

/// The rectangle of a canvas, read out row by row.
pub open spec fn spec_crop_region(
    orig: Seq<u64>,
    orig_w: nat,
    x: nat,
    y: nat,
    w: nat,
    h: nat,
) -> Seq<u64>
    recommends
        w > 0,
{
    Seq::new(w * h, |q: int| orig[((y + q / w as int) * orig_w + x + (q % w as int)) as int])
}

/// Re-expands a cropped rectangle to a canvas of the original size: the
/// rectangle's elements are placed at their original coordinates and every
/// element outside it is zero — the alignment convention the crop
/// constraints expect of the edited dataset.
pub fn align_crop_edit(
    crop_elems: &[u64],
    orig_w: u32,
    orig_h: u32,
    crop_x: u32,
    crop_y: u32,
    crop_w: u32,
    crop_h: u32,
) -> (r: Vec<u64>)
    requires
        orig_w > 0,
        crop_x + crop_w <= orig_w,
        crop_y + crop_h <= orig_h,
        crop_elems@.len() == crop_w * crop_h,
        orig_w * orig_h <= u32::MAX,
    ensures
        r@ == spec_align_crop(
            crop_elems@,
            orig_w as nat,
            orig_h as nat,
            crop_x as nat,
            crop_y as nat,
            crop_w as nat,
            crop_h as nat,
        ),
        r@.len() == orig_w * orig_h,
{
    let total = (orig_w as usize) * (orig_h as usize);
    let mut out: Vec<u64> = Vec::new();
    let mut pix: usize = 0;
    while pix < total
        invariant
            pix <= total,
            total == orig_w * orig_h,
            total <= u32::MAX,
            orig_w > 0,
            crop_x + crop_w <= orig_w,
            crop_y + crop_h <= orig_h,
            crop_elems@.len() == crop_w * crop_h,
            out@.len() == pix,
            forall|i: int|
                0 <= i < pix ==> #[trigger] out@[i] == spec_aligned_elem(
                    crop_elems@,
                    orig_w as nat,
                    crop_x as nat,
                    crop_y as nat,
                    crop_w as nat,
                    crop_h as nat,
                    i,
                ),
        decreases total - pix,
    {
        let (px, py) = pixel_number_to_coords(pix, orig_w);
        if crop_x <= px && px < crop_x + crop_w && crop_y <= py && py < crop_y + crop_h {
            let row = (py - crop_y) as usize;
            let col = (px - crop_x) as usize;
            proof {
                assert(row * crop_w + col < crop_w * crop_h) by (nonlinear_arith)
                    requires
                        row < crop_h,
                        col < crop_w,
                        crop_w > 0,
                ;
                assert(crop_w * crop_h <= orig_w * orig_h) by (nonlinear_arith)
                    requires
                        crop_w <= orig_w,
                        crop_h <= orig_h,
                ;
            }
            let idx = row * (crop_w as usize) + col;
            out.push(crop_elems[idx]);
        } else {
            out.push(0);
        }
        pix = pix + 1;
    }
    proof {
        assert(out@ =~= spec_align_crop(
            crop_elems@,
            orig_w as nat,
            orig_h as nat,
            crop_x as nat,
            crop_y as nat,
            crop_w as nat,
            crop_h as nat,
        ));
    }
    out
}

/// Re-expanding the true crop of the original — its rectangle read out row
/// by row — yields exactly the one edited dataset the crop constraints
/// accept: what an honest prover builds from the cropped image always
/// proves.
pub proof fn lemma_align_from_true_crop(
    orig: Seq<u64>,
    orig_w: u32,
    orig_h: u32,
    x: u32,
    y: u32,
    w: u32,
    h: u32,
)
    requires
        orig_w > 0,
        x + w <= orig_w,
        y + h <= orig_h,
        orig.len() == orig_w * orig_h,
    ensures
        spec_align_crop(
            spec_crop_region(orig, orig_w as nat, x as nat, y as nat, w as nat, h as nat),
            orig_w as nat,
            orig_h as nat,
            x as nat,
            y as nat,
            w as nat,
            h as nat,
        ) == (Transformation::Crop { orig_w, orig_h, x, y, w, h }).aligned_edit(orig),
{
    let ow = orig_w as int;
    let crop = spec_crop_region(orig, orig_w as nat, x as nat, y as nat, w as nat, h as nat);
    let lhs = spec_align_crop(
        crop,
        orig_w as nat,
        orig_h as nat,
        x as nat,
        y as nat,
        w as nat,
        h as nat,
    );
    let t = Transformation::Crop { orig_w, orig_h, x, y, w, h };
    let rhs = t.aligned_edit(orig);
    assert forall|p: int| 0 <= p < lhs.len() implies lhs[p] == rhs[p] by {
        let px = p % ow;
        let py = p / ow;
        vstd::arithmetic::div_mod::lemma_fundamental_div_mod(p, ow);
        assert(0 <= px < ow);
        if x <= px < x + w && y <= py < y + h {
            let q = (py - y) * w + (px - x);
            assert(0 <= q < w * h) by (nonlinear_arith)
                requires
                    q == (py - y) * w + (px - x),
                    0 <= py - y < h,
                    0 <= px - x < w,
            ;
            assert(q / w as int == py - y && q % w as int == px - x) by {
                vstd::arithmetic::div_mod::lemma_fundamental_div_mod_converse(
                    q,
                    w as int,
                    py - y,
                    px - x,
                );
            }
            assert(crop[q] == orig[((y + (py - y)) * ow + x + (px - x)) as int]);
            assert((y + (py - y)) * ow + x + (px - x) == p) by (nonlinear_arith)
                requires
                    p == ow * (p / ow) + p % ow,
                    px == p % ow,
                    py == p / ow,
            ;
            assert(lhs[p] == orig[p]);
            assert(in_crop_region(
                orig_w as nat,
                x as nat,
                y as nat,
                w as nat,
                h as nat,
                p as nat,
            ));
        } else {
            assert(lhs[p] == 0);
            assert(!in_crop_region(
                orig_w as nat,
                x as nat,
                y as nat,
                w as nat,
                h as nat,
                p as nat,
            ));
        }
    }
    assert(lhs =~= rhs);
}

/// Crop completeness: a correctly aligned crop — the rectangle copied
/// verbatim, everything else zero — satisfies every per-element
/// constraint, so proving always succeeds on it.
pub proof fn lemma_crop_completeness(t: Transformation, orig: Seq<u64>)
    ensures
        t.dataset_ok(orig, t.aligned_edit(orig)),
{
    let edit = t.aligned_edit(orig);
    assert forall|i: int| 0 <= i < orig.len() implies t.elem_ok(
        (0 + i) as nat,
        orig[i],
        edit[i],
    ) by {
        match t {
            Transformation::Crop { orig_w, orig_h, x, y, w, h } => {
                assert(edit[i] == if in_crop_region(
                    orig_w as nat,
                    x as nat,
                    y as nat,
                    w as nat,
                    h as nat,
                    i as nat,
                ) {
                    orig[i]
                } else {
                    0u64
                });
            },
        }
    }
}

/// Crop soundness: an edited dataset that differs from the aligned crop
/// anywhere — by one element inside or outside the rectangle — violates a
/// constraint, so the circuit is unsatisfiable and proving fails.
pub proof fn lemma_crop_soundness(t: Transformation, orig: Seq<u64>, edit: Seq<u64>, i: int)
    requires
        edit.len() == orig.len(),
        0 <= i < orig.len(),
        edit[i] != t.aligned_edit(orig)[i],
    ensures
        !t.dataset_ok(orig, edit),
{
    match t {
        Transformation::Crop { orig_w, orig_h, x, y, w, h } => {
            assert(!t.elem_ok((0 + i) as nat, orig[i], edit[i]));
        },
    }
}

/// The constraints pin the edited dataset exactly: they hold if and only
/// if it is the aligned crop of the original.
pub proof fn lemma_crop_exact(t: Transformation, orig: Seq<u64>, edit: Seq<u64>)
    requires
        edit.len() == orig.len(),
    ensures
        t.dataset_ok(orig, edit) <==> edit == t.aligned_edit(orig),
{
    if t.dataset_ok(orig, edit) {
        let al = t.aligned_edit(orig);
        assert forall|i: int| 0 <= i < edit.len() implies edit[i] == al[i] by {
            assert(t.elem_ok((0 + i) as nat, orig[i], edit[i]));
            match t {
                Transformation::Crop { orig_w, orig_h, x, y, w, h } => {},
            }
        }
        assert(edit =~= al);
    } else {
        if edit == t.aligned_edit(orig) {
            lemma_crop_completeness(t, orig);
        }
    }
}

} // verus!
