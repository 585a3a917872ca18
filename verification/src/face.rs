//! The region filter and compositor: applies the chosen degradation to every
//! detected face region of an image and recomposes the result.
//!
//! Each box is processed independently, in detection order: the region is
//! clamped to the image, cropped out of the original pixel snapshot, degraded,
//! and written back over a working copy of the image. Later boxes overwrite
//! earlier ones where they overlap.

use vstd::prelude::*;

use crate::raster::{
    chan_at, clamp_box, clamp_spec, crop_bytes, degrade_bytes, in_box, lemma_chan_at_bound,
    lemma_flat_index, overlay_bytes, BoundingBox, Image,
};
use crate::{KuraError, KuraFilter};

verus! {

/// The image bytes after one box is applied on top of an accumulated result:
/// the box is clamped to the image; if nothing of it lies inside, the result
/// is unchanged, otherwise the clamped region is cropped out of the original
/// snapshot `orig`, degraded, and overlaid on `acc`.
pub open spec fn apply_box_spec(
    orig: Seq<u8>,
    acc: Seq<u8>,
    w: int,
    h: int,
    b: BoundingBox,
    filter: KuraFilter,
    intensity: int,
) -> Seq<u8> {
    match clamp_spec(b, w, h) {
        None => acc,
        Some(cb) => overlay_bytes(
            acc,
            w,
            degrade_bytes(
                crop_bytes(orig, w, cb),
                cb.width as int,
                cb.height as int,
                filter,
                intensity,
            ),
            cb,
        ),
    }
}

/// The image bytes after every box is applied in order: each box reads the
/// original snapshot and writes into the accumulated image, so later boxes
/// win where boxes overlap.
pub open spec fn render_bytes(
    orig: Seq<u8>,
    w: int,
    h: int,
    boxes: Seq<BoundingBox>,
    filter: KuraFilter,
    intensity: int,
) -> Seq<u8>
    decreases boxes.len(),
{
    if boxes.len() == 0 {
        orig
    } else {
        apply_box_spec(
            orig,
            render_bytes(orig, w, h, boxes.drop_last(), filter, intensity),
            w,
            h,
            boxes.last(),
            filter,
            intensity,
        )
    }
}

/// Rendering never changes the buffer size.
pub proof fn lemma_render_len(
    orig: Seq<u8>,
    w: int,
    h: int,
    boxes: Seq<BoundingBox>,
    filter: KuraFilter,
    intensity: int,
)
    ensures
        render_bytes(orig, w, h, boxes, filter, intensity).len() == orig.len(),
    decreases boxes.len(),
{
    if boxes.len() > 0 {
        lemma_render_len(orig, w, h, boxes.drop_last(), filter, intensity);
    }
}

/// Whether the clamped part of the box covers the pixel at `px`, `py`.
pub open spec fn covered(b: BoundingBox, w: int, h: int, px: int, py: int) -> bool {
    &&& clamp_spec(b, w, h) is Some
    &&& in_box(clamp_spec(b, w, h)->Some_0, px, py)
}

/// Identity outside the regions: a pixel that no box covers keeps its exact
/// input value, in every channel, through rendering.
pub proof fn lemma_identity_outside_boxes(
    orig: Seq<u8>,
    w: int,
    h: int,
    boxes: Seq<BoundingBox>,
    filter: KuraFilter,
    intensity: int,
    px: int,
    py: int,
    c: int,
)
    requires
        orig.len() == 4 * w * h,
        1 <= w,
        0 <= px < w,
        0 <= py < h,
        0 <= c < 4,
        forall|k: int| 0 <= k < boxes.len() ==> !covered(boxes[k], w, h, px, py),
    ensures
        render_bytes(orig, w, h, boxes, filter, intensity)[chan_at(w, px, py, c)]
            == orig[chan_at(w, px, py, c)],
    decreases boxes.len(),
{
    if boxes.len() > 0 {
        let prev = boxes.drop_last();
        assert(forall|k: int| 0 <= k < prev.len() ==> !covered(prev[k], w, h, px, py));
        lemma_identity_outside_boxes(orig, w, h, prev, filter, intensity, px, py, c);
        lemma_render_len(orig, w, h, prev, filter, intensity);
        lemma_flat_index(w, px, py, c);
        lemma_chan_at_bound(w, h, px, py, c);
        assert(!covered(boxes.last(), w, h, px, py));
    }
}

/// Later boxes win: for a pixel that the clamped last box covers, the rendered
/// value is the corresponding byte of that box's degraded patch, whatever the
/// earlier boxes were.
pub proof fn lemma_last_box_wins(
    orig: Seq<u8>,
    w: int,
    h: int,
    boxes: Seq<BoundingBox>,
    filter: KuraFilter,
    intensity: int,
    px: int,
    py: int,
    c: int,
)
    requires
        orig.len() == 4 * w * h,
        1 <= w,
        0 <= px < w,
        0 <= py < h,
        0 <= c < 4,
        boxes.len() >= 1,
        covered(boxes.last(), w, h, px, py),
    ensures
        ({
            let cb = clamp_spec(boxes.last(), w, h)->Some_0;
            let patch = degrade_bytes(
                crop_bytes(orig, w, cb),
                cb.width as int,
                cb.height as int,
                filter,
                intensity,
            );
            render_bytes(orig, w, h, boxes, filter, intensity)[chan_at(w, px, py, c)]
                == patch[chan_at(cb.width as int, px - cb.x, py - cb.y, c)]
        }),
{
    let prev = boxes.drop_last();
    lemma_render_len(orig, w, h, prev, filter, intensity);
    lemma_flat_index(w, px, py, c);
    lemma_chan_at_bound(w, h, px, py, c);
}

/// With no boxes at all, rendering returns the input bytes unchanged.
pub proof fn lemma_render_no_faces(
    orig: Seq<u8>,
    w: int,
    h: int,
    boxes: Seq<BoundingBox>,
    filter: KuraFilter,
    intensity: int,
)
    requires
        boxes.len() == 0,
    ensures
        render_bytes(orig, w, h, boxes, filter, intensity) == orig,
{
}

/// The detector's output bound to the image it was detected on: an ordered
/// sequence of face boxes and the decoded color image.
#[derive(Debug)]
pub struct KuraFace {
    /// The detected face regions, in detector emission order.
    pub faces: Vec<BoundingBox>,
    /// The decoded full-resolution image.
    pub image_data: Image,
}

impl KuraFace {
    /// Binds a list of detected face boxes to the image they belong to.
    pub fn new(face_info: Vec<BoundingBox>, image_data: Image) -> (r: KuraFace)
        ensures
            r.faces == face_info,
            r.image_data == image_data,
    {
        KuraFace { faces: face_info, image_data }
    }

    /// Degrades every detected face region of the image at the given filter
    /// and intensity and returns the recomposed image. The image keeps its
    /// dimensions; pixels outside every region keep their values; an
    /// intensity of zero is rejected; unit intensity changes nothing.
    pub fn render(&self, intensity: u32, filter: &KuraFilter) -> (r: Result<Image, KuraError>)
        requires
            self.image_data.wf(),
        ensures
            r is Err <==> intensity == 0,
            r is Err ==> r->Err_0 == KuraError::InvalidIntensity,
            r is Ok ==> ({
                let out = r->Ok_0;
                &&& out.wf()
                &&& out.width == self.image_data.width
                &&& out.height == self.image_data.height
                &&& out@ == render_bytes(
                    self.image_data@,
                    self.image_data.width as int,
                    self.image_data.height as int,
                    self.faces@,
                    *filter,
                    intensity as int,
                )
                &&& intensity == 1 ==> out@ == self.image_data@
            }),
    {
        if intensity == 0 {
            return Err(KuraError::InvalidIntensity);
        }
        let orig = &self.image_data;
        let w = orig.width;
        let h = orig.height;
        let mut out = orig.clone();
        let n = self.faces.len();
        let mut i: usize = 0;
        while i < n
            invariant
                self.image_data.wf(),
                orig == &self.image_data,
                w == orig.width,
                h == orig.height,
                1 <= intensity,
                n == self.faces@.len(),
                i <= n,
                out.wf(),
                out.width == w,
                out.height == h,
                out@ == render_bytes(orig@, w as int, h as int, self.faces@.take(i as int),
                    *filter, intensity as int),
                intensity == 1 ==> out@ == orig@,
            decreases n - i,
        {
            let b = self.faces[i];
            let taken = Ghost(self.faces@.take(i as int));
            match clamp_box(&b, w, h) {
                None => {},
                Some(cb) => {
                    let region = orig.crop(&cb);
                    let patch = region.degrade(*filter, intensity);
                    out.overlay(&patch, &cb);
                    proof {
                        if intensity == 1 {
                            lemma_overlay_own_crop(orig@, w as int, h as int, cb);
                        }
                    }
                },
            }
            proof {
                let next = self.faces@.take(i as int + 1);
                assert(next.drop_last() =~= taken@);
                assert(next.last() == self.faces@[i as int]);
            }
            i += 1;
        }
        proof {
            assert(self.faces@.take(n as int) =~= self.faces@);
        }
        Ok(out)
    }
}

/// Writing a region's own crop back over the region it came from changes
/// nothing: the overlay reproduces the bytes that are already there.
proof fn lemma_overlay_own_crop(data: Seq<u8>, w: int, h: int, cb: BoundingBox)
    requires
        data.len() == 4 * w * h,
        1 <= w,
        1 <= cb.width,
        1 <= cb.height,
        cb.x + cb.width <= w,
        cb.y + cb.height <= h,
    ensures
        overlay_bytes(data, w, crop_bytes(data, w, cb), cb) == data,
{
    let patch = crop_bytes(data, w, cb);
    let res = overlay_bytes(data, w, patch, cb);
    assert forall|i: int| 0 <= i < data.len() implies res[i] == data[i] by {
        let c = i % 4;
        let px = (i / 4) % w;
        let py = (i / 4) / w;
        if in_box(cb, px, py) {
            let j = chan_at(cb.width as int, px - cb.x, py - cb.y, c);
            lemma_flat_index(cb.width as int, px - cb.x, py - cb.y, c);
            lemma_chan_at_bound(cb.width as int, cb.height as int, px - cb.x, py - cb.y, c);
            assert(patch[j] == data[chan_at(w, px, py, c)]);
            vstd::arithmetic::div_mod::lemma_fundamental_div_mod(i, 4);
            vstd::arithmetic::div_mod::lemma_fundamental_div_mod(i / 4, w);
            assert(w * py == py * w) by (nonlinear_arith);
            assert(i == chan_at(w, px, py, c));
        }
    }
    assert(res =~= data);
}

} // verus!
