//! Owned RGBA raster images and the resampling steps of the degradation
//! algorithms.
//!
//! An [`Image`] is a rectangular grid of pixels in row-major order, four bytes
//! per pixel (red, green, blue, alpha). Its view is the flat byte buffer; the
//! spec functions here fix how pixel coordinates map into that buffer.

use vstd::arithmetic::div_mod::lemma_fundamental_div_mod;
use vstd::arithmetic::div_mod::lemma_fundamental_div_mod_converse;
use vstd::pervasive::VecAdditionalExecFns;
use vstd::prelude::*;

use crate::KuraFilter;

verus! {

/// An axis-aligned rectangle in image pixel coordinates: the pixels at
/// columns `[x, x + width)` and rows `[y, y + height)`.
#[derive(Clone, Copy, Debug, PartialEq, Eq, Structural)]
pub struct BoundingBox {
    /// Column of the left edge.
    pub x: u32,
    /// Row of the top edge.
    pub y: u32,
    /// Width in pixels; a usable box has `width >= 1`.
    pub width: u32,
    /// Height in pixels; a usable box has `height >= 1`.
    pub height: u32,
}

/// Whether the pixel at column `px`, row `py` lies inside the box.
pub open spec fn in_box(b: BoundingBox, px: int, py: int) -> bool {
    &&& b.x <= px < b.x + b.width
    &&& b.y <= py < b.y + b.height
}

/// An owned RGBA image: `width * height` pixels, four bytes each, rows stored
/// top to bottom and pixels left to right within a row.
#[derive(Debug)]
pub struct Image {
    /// Width in pixels.
    pub width: u32,
    /// Height in pixels.
    pub height: u32,
    /// Flat channel data: `4 * width * height` bytes in a well-formed image.
    pub data: Vec<u8>,
}

impl View for Image {
    type V = Seq<u8>;

    open spec fn view(&self) -> Seq<u8> {
        self.data@
    }
}

/// The flat buffer index of channel `c` of the pixel at column `x`, row `y`,
/// in an image `w` pixels wide.
pub open spec fn chan_at(w: int, x: int, y: int, c: int) -> int {
    4 * (y * w + x) + c
}

impl Image {
    /// A well-formed image holds exactly four bytes per pixel.
    pub open spec fn wf(self) -> bool {
        self@.len() == 4 * (self.width as int) * (self.height as int)
    }

    /// Wraps a flat RGBA buffer as an image, if its length matches the
    /// dimensions; returns `None` on any mismatch.
    pub fn from_bytes(width: u32, height: u32, data: Vec<u8>) -> (r: Option<Image>)
        ensures
            r is Some <==> data@.len() == 4 * (width as int) * (height as int),
            r is Some ==> r->Some_0.wf() && r->Some_0.width == width && r->Some_0.height == height
                && r->Some_0@ == data@,
    {
        proof {
            assert(4 * (width as int) * (height as int) < u128::MAX) by (nonlinear_arith)
                requires width <= u32::MAX, height <= u32::MAX;
        }
        let need: u128 = 4u128 * (width as u128) * (height as u128);
        if (data.len() as u128) == need {
            Some(Image { width, height, data })
        } else {
            None
        }
    }

    /// The flat RGBA byte buffer of this image.
    pub fn bytes(&self) -> (r: &Vec<u8>)
        ensures
            r@ == self@,
    {
        &self.data
    }
}

impl Clone for Image {
    fn clone(&self) -> (r: Self)
        ensures
            r.width == self.width,
            r.height == self.height,
            r@ == self@,
    {
        let data = self.data.clone();
        proof {
            assert(data@ =~= self.data@);
        }
        Image { width: self.width, height: self.height, data }
    }
}

/// The side of a degraded region along one dimension: the original side
/// divided by the intensity, floored at one pixel so that no intermediate
/// image ever has zero area.
pub open spec fn scaled_dim_spec(d: int, intensity: int) -> int {
    if d / intensity < 1 {
        1
    } else {
        d / intensity
    }
}

/// Computes the downscaled side of a region for a given intensity.
pub fn scaled_dim(d: u32, intensity: u32) -> (r: u32)
    requires
        1 <= d,
        1 <= intensity,
    ensures
        r == scaled_dim_spec(d as int, intensity as int),
        1 <= r <= d,
{
    let q = d / intensity;
    proof {
        assert(d as int / intensity as int <= d as int) by (nonlinear_arith)
            requires 1 <= d, 1 <= intensity;
    }
    if q < 1 {
        1
    } else {
        q
    }
}

/// Stronger degradation never enlarges the downscaled region: for intensities
/// `i1 <= i2`, the scaled side at `i2` is at most the scaled side at `i1`.
pub proof fn lemma_scaled_dim_monotone(d: int, i1: int, i2: int)
    requires
        1 <= d,
        1 <= i1 <= i2,
    ensures
        scaled_dim_spec(d, i2) <= scaled_dim_spec(d, i1),
{
    assert(d / i2 <= d / i1) by (nonlinear_arith)
        requires 1 <= d, 1 <= i1 <= i2;
}

/// At unit intensity the downscale is a no-op: the scaled side equals the
/// original side.
pub proof fn lemma_scaled_dim_unit(d: int)
    requires
        1 <= d,
    ensures
        scaled_dim_spec(d, 1) == d,
{
}

impl BoundingBox {
    /// Builds a box from raw detector output, whose `x` and `y` may be
    /// negative: a negative coordinate is coerced to its absolute value.
    pub fn from_detection(x: i32, y: i32, width: u32, height: u32) -> (r: BoundingBox)
        ensures
            r.x == (if x >= 0 { x as int } else { -(x as int) }),
            r.y == (if y >= 0 { y as int } else { -(y as int) }),
            r.width == width,
            r.height == height,
    {
        let wx: i64 = x as i64;
        let wy: i64 = y as i64;
        let ux: u32 = if wx >= 0 { wx as u32 } else { (-wx) as u32 };
        let uy: u32 = if wy >= 0 { wy as u32 } else { (-wy) as u32 };
        BoundingBox { x: ux, y: uy, width, height }
    }
}

/// The box clamped to an image `w` pixels wide and `h` pixels high: `None`
/// when the box is empty or starts outside the image, otherwise the part of
/// the box that lies inside the image.
pub open spec fn clamp_spec(b: BoundingBox, w: int, h: int) -> Option<BoundingBox> {
    if b.x < w && b.y < h && 1 <= b.width && 1 <= b.height {
        Some(BoundingBox {
            x: b.x,
            y: b.y,
            width: if b.x + b.width <= w { b.width } else { (w - b.x) as u32 },
            height: if b.y + b.height <= h { b.height } else { (h - b.y) as u32 },
        })
    } else {
        None
    }
}

/// Clamps a box to the bounds of an image `w` pixels wide and `h` high.
pub fn clamp_box(b: &BoundingBox, w: u32, h: u32) -> (r: Option<BoundingBox>)
    ensures
        r == clamp_spec(*b, w as int, h as int),
        r is Some ==> ({
            let cb = r->Some_0;
            &&& 1 <= cb.width
            &&& 1 <= cb.height
            &&& cb.x + cb.width <= w
            &&& cb.y + cb.height <= h
        }),
{
    if b.x < w && b.y < h && b.width >= 1 && b.height >= 1 {
        let max_w = w - b.x;
        let max_h = h - b.y;
        let width = if b.width <= max_w { b.width } else { max_w };
        let height = if b.height <= max_h { b.height } else { max_h };
        Some(BoundingBox { x: b.x, y: b.y, width, height })
    } else {
        None
    }
}

/// Recovers the coordinates packed into a flat buffer index: for the pixel at
/// column `x`, row `y`, channel `c` of an image `w` wide, division and
/// remainder on `chan_at(w, x, y, c)` give back `c`, `x` and `y`.
pub proof fn lemma_flat_index(w: int, x: int, y: int, c: int)
    requires
        1 <= w,
        0 <= x < w,
        0 <= y,
        0 <= c < 4,
    ensures
        (4 * (y * w + x) + c) % 4 == c,
        (4 * (y * w + x) + c) / 4 == y * w + x,
        (y * w + x) % w == x,
        (y * w + x) / w == y,
        chan_at(w, x, y, c) == 4 * (y * w + x) + c,
{
    let p = y * w + x;
    assert(4 * p + c == p * 4 + c) by (nonlinear_arith);
    lemma_fundamental_div_mod_converse(4 * p + c, 4, p, c);
    lemma_fundamental_div_mod_converse(p, w, y, x);
}

/// A flat index stays inside a `w` by `h` image's buffer.
pub proof fn lemma_chan_at_bound(w: int, h: int, x: int, y: int, c: int)
    requires
        1 <= w,
        0 <= x < w,
        0 <= y < h,
        0 <= c < 4,
    ensures
        0 <= chan_at(w, x, y, c) < 4 * w * h,
{
    assert(0 <= 4 * (y * w + x) + c < 4 * w * h) by (nonlinear_arith)
        requires 1 <= w, 0 <= x < w, 0 <= y < h, 0 <= c < 4;
}

/// The flat RGBA buffer of the sub-image of `data` (an image `w` wide) at the
/// box `b`: `4 * b.width * b.height` bytes in row-major order.
pub open spec fn crop_bytes(data: Seq<u8>, w: int, b: BoundingBox) -> Seq<u8> {
    Seq::new((4 * b.width * b.height) as nat, |j: int| {
        let c = j % 4;
        let x = (j / 4) % (b.width as int);
        let y = (j / 4) / (b.width as int);
        data[chan_at(w, b.x + x, b.y + y, c)]
    })
}

/// The buffer of an image `w` wide with `patch` (a `b.width` by `b.height`
/// RGBA buffer) written over the box region: inside the box the bytes come
/// from the patch, outside it they keep the values of `base`.
pub open spec fn overlay_bytes(base: Seq<u8>, w: int, patch: Seq<u8>, b: BoundingBox) -> Seq<u8> {
    Seq::new(base.len(), |i: int| {
        let c = i % 4;
        let px = (i / 4) % w;
        let py = (i / 4) / w;
        if in_box(b, px, py) {
            patch[chan_at(b.width as int, px - b.x, py - b.y, c)]
        } else {
            base[i]
        }
    })
}

/// The overlay after only the first `n` patch bytes have been written; patch
/// bytes are written in row-major order.
spec fn overlay_upto(base: Seq<u8>, w: int, patch: Seq<u8>, b: BoundingBox, n: int) -> Seq<u8> {
    Seq::new(base.len(), |i: int| {
        let c = i % 4;
        let px = (i / 4) % w;
        let py = (i / 4) / w;
        if in_box(b, px, py) && chan_at(b.width as int, px - b.x, py - b.y, c) < n {
            patch[chan_at(b.width as int, px - b.x, py - b.y, c)]
        } else {
            base[i]
        }
    })
}

proof fn lemma_overlay_upto_zero(base: Seq<u8>, w: int, patch: Seq<u8>, b: BoundingBox)
    requires
        1 <= w,
    ensures
        overlay_upto(base, w, patch, b, 0) == base,
{
    assert forall|i: int| 0 <= i < base.len() implies overlay_upto(base, w, patch, b, 0)[i]
        == base[i] by {
        let c = i % 4;
        let px = (i / 4) % w;
        let py = (i / 4) / w;
        if in_box(b, px, py) {
            lemma_chan_at_bound(b.width as int, b.height as int, px - b.x, py - b.y, c);
        }
    }
    assert(overlay_upto(base, w, patch, b, 0) =~= base);
}

proof fn lemma_overlay_upto_full(base: Seq<u8>, w: int, patch: Seq<u8>, b: BoundingBox)
    requires
        1 <= w,
        b.x + b.width <= w,
    ensures
        overlay_upto(base, w, patch, b, 4 * (b.width as int) * (b.height as int))
            == overlay_bytes(base, w, patch, b),
{
    let full = 4 * (b.width as int) * (b.height as int);
    assert forall|i: int| 0 <= i < base.len() implies overlay_upto(base, w, patch, b, full)[i]
        == overlay_bytes(base, w, patch, b)[i] by {
        let c = i % 4;
        let px = (i / 4) % w;
        let py = (i / 4) / w;
        if in_box(b, px, py) {
            lemma_chan_at_bound(b.width as int, b.height as int, px - b.x, py - b.y, c);
        }
    }
    assert(overlay_upto(base, w, patch, b, full) =~= overlay_bytes(base, w, patch, b));
}

/// Writing the next patch byte (channel `c` of the patch pixel at `x`, `y`)
/// into the base buffer advances the row-major overlay by one byte.
proof fn lemma_overlay_step(
    base0: Seq<u8>,
    cur: Seq<u8>,
    w: int,
    h: int,
    patch: Seq<u8>,
    b: BoundingBox,
    x: int,
    y: int,
    c: int,
)
    requires
        base0.len() == 4 * w * h,
        1 <= w,
        1 <= b.width,
        1 <= b.height,
        b.x + b.width <= w,
        b.y + b.height <= h,
        0 <= x < b.width,
        0 <= y < b.height,
        0 <= c < 4,
        cur == overlay_upto(base0, w, patch, b, chan_at(b.width as int, x, y, c)),
    ensures
        cur.update(
            chan_at(w, b.x + x, b.y + y, c),
            patch[chan_at(b.width as int, x, y, c)],
        ) == overlay_upto(base0, w, patch, b, chan_at(b.width as int, x, y, c) + 1),
{
    let bw = b.width as int;
    let n = chan_at(bw, x, y, c);
    let px0 = b.x + x;
    let py0 = b.y + y;
    let i0 = chan_at(w, px0, py0, c);
    lemma_flat_index(bw, x, y, c);
    lemma_flat_index(w, px0, py0, c);
    lemma_chan_at_bound(w, h, px0, py0, c);
    let upd = cur.update(i0, patch[n]);
    let next = overlay_upto(base0, w, patch, b, n + 1);
    assert forall|i: int| 0 <= i < base0.len() implies upd[i] == next[i] by {
        let ci = i % 4;
        let pxi = (i / 4) % w;
        let pyi = (i / 4) / w;
        if i == i0 {
            assert(ci == c && pxi == px0 && pyi == py0);
            assert(in_box(b, pxi, pyi));
        } else {
            if in_box(b, pxi, pyi) && chan_at(bw, pxi - b.x, pyi - b.y, ci) == n {
                // the patch byte written in this step belongs to exactly one
                // base index; recover it and contradict i != i0
                lemma_flat_index(bw, pxi - b.x, pyi - b.y, ci);
                assert(ci == c && pxi - b.x == x && pyi - b.y == y);
                lemma_fundamental_div_mod(i, 4);
                lemma_fundamental_div_mod(i / 4, w);
                assert(w * pyi == pyi * w) by (nonlinear_arith);
                assert(i == 4 * (pyi * w + pxi) + ci);
                assert(i == i0);
            }
        }
    }
    assert(upd =~= next);
}

impl Image {
    /// Extracts the sub-image at the box, which must lie inside the image.
    pub fn crop(&self, b: &BoundingBox) -> (r: Image)
        requires
            self.wf(),
            1 <= b.width,
            1 <= b.height,
            b.x + b.width <= self.width,
            b.y + b.height <= self.height,
        ensures
            r.wf(),
            r.width == b.width,
            r.height == b.height,
            r@ == crop_bytes(self@, self.width as int, *b),
    {
        let src_len = self.data.len();
        let target = Ghost(crop_bytes(self@, self.width as int, *b));
        let mut out: Vec<u8> = Vec::new();
        let mut y: u32 = 0;
        while y < b.height
            invariant
                self.wf(),
                1 <= b.width,
                1 <= b.height,
                b.x + b.width <= self.width,
                b.y + b.height <= self.height,
                src_len == self@.len(),
                target@ == crop_bytes(self@, self.width as int, *b),
                y <= b.height,
                out@.len() == 4 * ((y as int) * (b.width as int)),
                forall|j: int| 0 <= j < out@.len() ==> out@[j] == target@[j],
            decreases b.height - y,
        {
            let mut x: u32 = 0;
            while x < b.width
                invariant
                    self.wf(),
                    1 <= b.width,
                    1 <= b.height,
                    b.x + b.width <= self.width,
                    b.y + b.height <= self.height,
                    src_len == self@.len(),
                    target@ == crop_bytes(self@, self.width as int, *b),
                    y < b.height,
                    x <= b.width,
                    out@.len() == 4 * ((y as int) * (b.width as int) + x as int),
                    forall|j: int| 0 <= j < out@.len() ==> out@[j] == target@[j],
                decreases b.width - x,
            {
                let mut c: u32 = 0;
                while c < 4
                    invariant
                        self.wf(),
                        1 <= b.width,
                        1 <= b.height,
                        b.x + b.width <= self.width,
                        b.y + b.height <= self.height,
                        src_len == self@.len(),
                        target@ == crop_bytes(self@, self.width as int, *b),
                        y < b.height,
                        x < b.width,
                        c <= 4,
                        out@.len() == 4 * ((y as int) * (b.width as int) + x as int) + c as int,
                        forall|j: int| 0 <= j < out@.len() ==> out@[j] == target@[j],
                    decreases 4 - c,
                {
                    let px: u32 = b.x + x;
                    let py: u32 = b.y + y;
                    proof {
                        let wi = self.width as int;
                        lemma_chan_at_bound(wi, self.height as int, px as int, py as int, c as int);
                        assert((py as int) * wi + (px as int) < wi * (self.height as int))
                            by (nonlinear_arith)
                            requires 0 <= px < wi, 0 <= py < self.height as int, 1 <= wi;
                    }
                    let idx: usize = 4 * ((py as usize) * (self.width as usize) + px as usize)
                        + c as usize;
                    let v: u8 = self.data[idx];
                    proof {
                        let bw = b.width as int;
                        let j0 = out@.len() as int;
                        lemma_flat_index(bw, x as int, y as int, c as int);
                        lemma_chan_at_bound(bw, b.height as int, x as int, y as int, c as int);
                        assert(target@[j0] == v);
                    }
                    out.push(v);
                    c += 1;
                }
                proof {
                    assert(4 * ((y as int) * (b.width as int) + x as int) + 4
                        == 4 * ((y as int) * (b.width as int) + (x as int + 1)));
                }
                x += 1;
            }
            proof {
                assert(4 * ((y as int) * (b.width as int) + b.width as int)
                    == 4 * ((y as int + 1) * (b.width as int))) by (nonlinear_arith);
            }
            y += 1;
        }
        proof {
            assert(4 * ((b.height as int) * (b.width as int))
                == 4 * (b.width as int) * (b.height as int)) by (nonlinear_arith);
            assert(out@ =~= target@);
        }
        Image { width: b.width, height: b.height, data: out }
    }

    /// Writes the patch over the box region of this image, which the box must
    /// fit inside; every byte outside the region keeps its value.
    pub fn overlay(&mut self, patch: &Image, b: &BoundingBox)
        requires
            old(self).wf(),
            patch.wf(),
            patch.width == b.width,
            patch.height == b.height,
            1 <= b.width,
            1 <= b.height,
            b.x + b.width <= old(self).width,
            b.y + b.height <= old(self).height,
        ensures
            final(self).wf(),
            final(self).width == old(self).width,
            final(self).height == old(self).height,
            final(self)@ == overlay_bytes(old(self)@, old(self).width as int, patch@, *b),
    {
        let src_len = self.data.len();
        let patch_len = patch.data.len();
        let base0 = Ghost(self@);
        proof {
            lemma_overlay_upto_zero(base0@, self.width as int, patch@, *b);
        }
        let mut y: u32 = 0;
        while y < b.height
            invariant
                self.wf(),
                self.width == old(self).width,
                self.height == old(self).height,
                patch.wf(),
                patch.width == b.width,
                patch.height == b.height,
                1 <= b.width,
                1 <= b.height,
                b.x + b.width <= self.width,
                b.y + b.height <= self.height,
                src_len == self@.len(),
                base0@.len() == self@.len(),
                patch_len == patch@.len(),
                y <= b.height,
                self@ == overlay_upto(base0@, self.width as int, patch@, *b,
                    4 * ((y as int) * (b.width as int))),
            decreases b.height - y,
        {
            let mut x: u32 = 0;
            while x < b.width
                invariant
                    self.wf(),
                    self.width == old(self).width,
                    self.height == old(self).height,
                    patch.wf(),
                    patch.width == b.width,
                    patch.height == b.height,
                    1 <= b.width,
                    1 <= b.height,
                    b.x + b.width <= self.width,
                    b.y + b.height <= self.height,
                    src_len == self@.len(),
                    base0@.len() == self@.len(),
                    patch_len == patch@.len(),
                    y < b.height,
                    x <= b.width,
                    self@ == overlay_upto(base0@, self.width as int, patch@, *b,
                        4 * ((y as int) * (b.width as int) + x as int)),
                decreases b.width - x,
            {
                let mut c: u32 = 0;
                while c < 4
                    invariant
                        self.wf(),
                        self.width == old(self).width,
                        self.height == old(self).height,
                        patch.wf(),
                        patch.width == b.width,
                        patch.height == b.height,
                        1 <= b.width,
                        1 <= b.height,
                        b.x + b.width <= self.width,
                        b.y + b.height <= self.height,
                        src_len == self@.len(),
                        base0@.len() == self@.len(),
                        patch_len == patch@.len(),
                        y < b.height,
                        x < b.width,
                        c <= 4,
                        self@ == overlay_upto(base0@, self.width as int, patch@, *b,
                            4 * ((y as int) * (b.width as int) + x as int) + c as int),
                    decreases 4 - c,
                {
                    let px: u32 = b.x + x;
                    let py: u32 = b.y + y;
                    proof {
                        let wi = self.width as int;
                        let bw = b.width as int;
                        lemma_chan_at_bound(wi, self.height as int, px as int, py as int, c as int);
                        lemma_chan_at_bound(bw, b.height as int, x as int, y as int, c as int);
                        assert((py as int) * wi + (px as int) < wi * (self.height as int))
                            by (nonlinear_arith)
                            requires 0 <= px < wi, 0 <= py < self.height as int, 1 <= wi;
                        assert((y as int) * bw + (x as int) < bw * (b.height as int))
                            by (nonlinear_arith)
                            requires 0 <= x < bw, 0 <= y < b.height as int, 1 <= bw;
                        lemma_flat_index(bw, x as int, y as int, c as int);
                    }
                    let pidx: usize = 4 * ((y as usize) * (b.width as usize) + x as usize)
                        + c as usize;
                    let idx: usize = 4 * ((py as usize) * (self.width as usize) + px as usize)
                        + c as usize;
                    let v: u8 = patch.data[pidx];
                    proof {
                        lemma_overlay_step(base0@, self@, self.width as int, self.height as int,
                            patch@, *b, x as int, y as int, c as int);
                    }
                    self.data.set(idx, v);
                    c += 1;
                }
                proof {
                    assert(4 * ((y as int) * (b.width as int) + x as int) + 4
                        == 4 * ((y as int) * (b.width as int) + (x as int + 1)));
                }
                x += 1;
            }
            proof {
                assert(4 * ((y as int) * (b.width as int) + b.width as int)
                    == 4 * ((y as int + 1) * (b.width as int))) by (nonlinear_arith);
            }
            y += 1;
        }
        proof {
            assert(4 * ((b.height as int) * (b.width as int))
                == 4 * (b.width as int) * (b.height as int)) by (nonlinear_arith);
            lemma_overlay_upto_full(base0@, self.width as int, patch@, *b);
        }
    }
}

/// The RGBA buffer that smooth (Gaussian-kernel) resampling produces from the
/// given buffer and dimensions; a fixed function of its arguments.
pub uninterp spec fn gaussian_resized(data: Seq<u8>, w: int, h: int, nw: int, nh: int) -> Seq<u8>;

/// The RGBA buffer that nearest-neighbour resampling produces from the given
/// buffer and dimensions; a fixed function of its arguments.
pub uninterp spec fn nearest_resized(data: Seq<u8>, w: int, h: int, nw: int, nh: int) -> Seq<u8>;

/// Relies on `image::imageops::resize` with `FilterType::Gaussian`: the result
/// is an RGBA buffer of the requested dimensions, depends only on the input
/// buffer and the dimensions, and is a plain copy of the input when the
/// dimensions are unchanged.
#[verifier::external_body]
fn resize_gaussian(data: &Vec<u8>, w: u32, h: u32, nw: u32, nh: u32) -> (r: Vec<u8>)
    requires
        data@.len() == 4 * (w as int) * (h as int),
        1 <= w,
        1 <= h,
        1 <= nw,
        1 <= nh,
        (nw <= w && nh <= h) || (w <= nw && h <= nh),
        4 * (nw as int) * (nh as int) <= usize::MAX,
    ensures
        r@ == gaussian_resized(data@, w as int, h as int, nw as int, nh as int),
        r@.len() == 4 * (nw as int) * (nh as int),
        nw == w && nh == h ==> r@ == data@,
{
    let buf: image::RgbaImage = image::RgbaImage::from_raw(w, h, data.clone()).unwrap();
    image::imageops::resize(&buf, nw, nh, image::imageops::FilterType::Gaussian).into_raw()
}

/// Relies on `image::imageops::resize` with `FilterType::Nearest`: the result
/// is an RGBA buffer of the requested dimensions, depends only on the input
/// buffer and the dimensions, and is a plain copy of the input when the
/// dimensions are unchanged.
#[verifier::external_body]
fn resize_nearest(data: &Vec<u8>, w: u32, h: u32, nw: u32, nh: u32) -> (r: Vec<u8>)
    requires
        data@.len() == 4 * (w as int) * (h as int),
        1 <= w,
        1 <= h,
        1 <= nw,
        1 <= nh,
        (nw <= w && nh <= h) || (w <= nw && h <= nh),
        4 * (nw as int) * (nh as int) <= usize::MAX,
    ensures
        r@ == nearest_resized(data@, w as int, h as int, nw as int, nh as int),
        r@.len() == 4 * (nw as int) * (nh as int),
        nw == w && nh == h ==> r@ == data@,
{
    let buf: image::RgbaImage = image::RgbaImage::from_raw(w, h, data.clone()).unwrap();
    image::imageops::resize(&buf, nw, nh, image::imageops::FilterType::Nearest).into_raw()
}

/// The degraded bytes of a `w` by `h` region: a downscale to the scaled
/// dimensions followed by an upscale back to `w` by `h`, with the resampling
/// pair that the filter selects.
pub open spec fn degrade_bytes(
    data: Seq<u8>,
    w: int,
    h: int,
    filter: KuraFilter,
    intensity: int,
) -> Seq<u8> {
    let sw = scaled_dim_spec(w, intensity);
    let sh = scaled_dim_spec(h, intensity);
    match filter {
        KuraFilter::PixelBlur => nearest_resized(
            gaussian_resized(data, w, h, sw, sh),
            sw,
            sh,
            w,
            h,
        ),
        KuraFilter::GaussianBlur => gaussian_resized(
            gaussian_resized(data, w, h, sw, sh),
            sw,
            sh,
            w,
            h,
        ),
        KuraFilter::Pixelated => nearest_resized(
            nearest_resized(data, w, h, sw, sh),
            sw,
            sh,
            w,
            h,
        ),
    }
}

impl Image {
    /// Blocky blur: smooth downscale to `w` by `h`, then nearest-neighbour
    /// upscale back to the original size, so that no detail reappears.
    pub fn apply_pixel_blur(&self, w: u32, h: u32) -> (r: Image)
        requires
            self.wf(),
            1 <= w <= self.width,
            1 <= h <= self.height,
        ensures
            r.wf(),
            r.width == self.width,
            r.height == self.height,
            r@ == nearest_resized(
                gaussian_resized(self@, self.width as int, self.height as int, w as int, h as int),
                w as int,
                h as int,
                self.width as int,
                self.height as int,
            ),
            w == self.width && h == self.height ==> r@ == self@,
    {
        let src_len = self.data.len();
        proof {
            assert(4 * (w as int) * (h as int) <= 4 * (self.width as int) * (self.height as int))
                by (nonlinear_arith)
                requires 1 <= w <= self.width, 1 <= h <= self.height;
        }
        let down = resize_gaussian(&self.data, self.width, self.height, w, h);
        let up = resize_nearest(&down, w, h, self.width, self.height);
        Image { width: self.width, height: self.height, data: up }
    }

    /// Soft blur: smooth downscale to `w` by `h` and smooth upscale back, with
    /// no block edges.
    pub fn apply_gaussian_blur(&self, w: u32, h: u32) -> (r: Image)
        requires
            self.wf(),
            1 <= w <= self.width,
            1 <= h <= self.height,
        ensures
            r.wf(),
            r.width == self.width,
            r.height == self.height,
            r@ == gaussian_resized(
                gaussian_resized(self@, self.width as int, self.height as int, w as int, h as int),
                w as int,
                h as int,
                self.width as int,
                self.height as int,
            ),
            w == self.width && h == self.height ==> r@ == self@,
    {
        let src_len = self.data.len();
        proof {
            assert(4 * (w as int) * (h as int) <= 4 * (self.width as int) * (self.height as int))
                by (nonlinear_arith)
                requires 1 <= w <= self.width, 1 <= h <= self.height;
        }
        let down = resize_gaussian(&self.data, self.width, self.height, w, h);
        let up = resize_gaussian(&down, w, h, self.width, self.height);
        Image { width: self.width, height: self.height, data: up }
    }

    /// Hard pixel blocks: nearest-neighbour downscale to `w` by `h` and
    /// nearest-neighbour upscale back.
    pub fn apply_pixelated(&self, w: u32, h: u32) -> (r: Image)
        requires
            self.wf(),
            1 <= w <= self.width,
            1 <= h <= self.height,
        ensures
            r.wf(),
            r.width == self.width,
            r.height == self.height,
            r@ == nearest_resized(
                nearest_resized(self@, self.width as int, self.height as int, w as int, h as int),
                w as int,
                h as int,
                self.width as int,
                self.height as int,
            ),
            w == self.width && h == self.height ==> r@ == self@,
    {
        let src_len = self.data.len();
        proof {
            assert(4 * (w as int) * (h as int) <= 4 * (self.width as int) * (self.height as int))
                by (nonlinear_arith)
                requires 1 <= w <= self.width, 1 <= h <= self.height;
        }
        let down = resize_nearest(&self.data, self.width, self.height, w, h);
        let up = resize_nearest(&down, w, h, self.width, self.height);
        Image { width: self.width, height: self.height, data: up }
    }

    /// Degrades this image with the algorithm of the filter at the given
    /// intensity; at unit intensity the image comes back unchanged.
    pub fn degrade(&self, filter: KuraFilter, intensity: u32) -> (r: Image)
        requires
            self.wf(),
            1 <= self.width,
            1 <= self.height,
            1 <= intensity,
        ensures
            r.wf(),
            r.width == self.width,
            r.height == self.height,
            r@ == degrade_bytes(self@, self.width as int, self.height as int, filter,
                intensity as int),
            intensity == 1 ==> r@ == self@,
    {
        let sw = scaled_dim(self.width, intensity);
        let sh = scaled_dim(self.height, intensity);
        proof {
            if intensity == 1 {
                lemma_scaled_dim_unit(self.width as int);
                lemma_scaled_dim_unit(self.height as int);
            }
        }
        match filter {
            KuraFilter::PixelBlur => self.apply_pixel_blur(sw, sh),
            KuraFilter::GaussianBlur => self.apply_gaussian_blur(sw, sh),
            KuraFilter::Pixelated => self.apply_pixelated(sw, sh),
        }
    }
}

} // verus!
