use kura::args::FilterType;
use kura::face::KuraFace;
use kura::raster::{clamp_box, scaled_dim, BoundingBox, Image};
use kura::{KuraError, KuraFilter};

fn gradient_image(w: u32, h: u32) -> Image {
    let mut data: Vec<u8> = Vec::new();
    for y in 0..h {
        for x in 0..w {
            data.push((x * 7 + y * 13) as u8);
            data.push((x * 3 + 40) as u8);
            data.push((y * 5 + 90) as u8);
            data.push(255);
        }
    }
    Image::from_bytes(w, h, data).unwrap()
}

fn checkerboard_image(w: u32, h: u32) -> Image {
    let mut data: Vec<u8> = Vec::new();
    for y in 0..h {
        for x in 0..w {
            let v = if (x + y) % 2 == 0 { 255 } else { 0 };
            data.push(v);
            data.push(v);
            data.push(255 - v);
            data.push(255);
        }
    }
    Image::from_bytes(w, h, data).unwrap()
}

fn chan(img: &Image, x: u32, y: u32, c: u32) -> u8 {
    img.bytes()[(4 * (y * img.width + x) + c) as usize]
}

fn bbox(x: u32, y: u32, width: u32, height: u32) -> BoundingBox {
    BoundingBox { x, y, width, height }
}

#[test]
fn output_dims_match_input() {
    let img = gradient_image(37, 23);
    for intensity in [1, 2, 7, 50] {
        let face = KuraFace::new(vec![bbox(3, 4, 10, 8), bbox(20, 1, 40, 40)], img.clone());
        let out = face.render(intensity, &KuraFilter::PixelBlur).unwrap();
        assert_eq!(out.width, 37);
        assert_eq!(out.height, 23);
        assert_eq!(out.bytes().len(), 37 * 23 * 4);
    }
}

#[test]
fn pixels_outside_boxes_unchanged() {
    let img = checkerboard_image(32, 32);
    let face = KuraFace::new(vec![bbox(4, 4, 8, 8), bbox(16, 16, 8, 8)], img.clone());
    let out = face.render(4, &KuraFilter::GaussianBlur).unwrap();
    for y in 0..32u32 {
        for x in 0..32u32 {
            let in_first = x >= 4 && x < 12 && y >= 4 && y < 12;
            let in_second = x >= 16 && x < 24 && y >= 16 && y < 24;
            if !in_first && !in_second {
                for c in 0..4 {
                    assert_eq!(chan(&out, x, y, c), chan(&img, x, y, c));
                }
            }
        }
    }
}

#[test]
fn unit_intensity_is_identity() {
    let img = checkerboard_image(16, 12);
    for filter in [KuraFilter::PixelBlur, KuraFilter::GaussianBlur, KuraFilter::Pixelated] {
        let face = KuraFace::new(vec![bbox(2, 2, 9, 7)], img.clone());
        let out = face.render(1, &filter).unwrap();
        assert_eq!(out.bytes(), img.bytes());
    }
}

#[test]
fn unit_intensity_scaled_dims_are_noop() {
    assert_eq!(scaled_dim(1, 1), 1);
    assert_eq!(scaled_dim(17, 1), 17);
    assert_eq!(scaled_dim(4096, 1), 4096);
}

#[test]
fn scaled_dims_shrink_with_intensity() {
    let mut last = scaled_dim(100, 1);
    for intensity in 2..40 {
        let cur = scaled_dim(100, intensity);
        assert!(cur <= last);
        last = cur;
    }
    assert_eq!(scaled_dim(100, 1), 100);
    assert_eq!(scaled_dim(100, 3), 33);
    assert_eq!(scaled_dim(100, 200), 1);
}

#[test]
fn gaussian_and_pixel_blur_differ() {
    let img = checkerboard_image(8, 8);
    let face = KuraFace::new(vec![bbox(0, 0, 8, 8)], img.clone());
    let soft = face.render(2, &KuraFilter::GaussianBlur).unwrap();
    let blocky = face.render(2, &KuraFilter::PixelBlur).unwrap();
    assert_ne!(soft.bytes(), blocky.bytes());
}

#[test]
fn no_faces_keeps_image_identical() {
    let img = gradient_image(19, 11);
    let face = KuraFace::new(vec![], img.clone());
    let out = face.render(50, &KuraFilter::Pixelated).unwrap();
    assert_eq!(out.bytes(), img.bytes());
}

#[test]
fn small_box_high_intensity_floors_at_one() {
    assert_eq!(scaled_dim(10, 20), 1);
    let img = gradient_image(64, 64);
    let face = KuraFace::new(vec![bbox(10, 10, 10, 10)], img.clone());
    let out = face.render(20, &KuraFilter::Pixelated).unwrap();
    assert_eq!(out.width, 64);
    assert_eq!(out.height, 64);
    // the whole region holds one upscaled sample, never an empty image
    for y in 10..20u32 {
        for x in 10..20u32 {
            for c in 0..4 {
                assert_eq!(chan(&out, x, y, c), chan(&out, 10, 10, c));
            }
        }
    }
}

#[test]
fn overlapping_boxes_last_writer_wins() {
    let img = checkerboard_image(100, 100);
    let first = bbox(0, 0, 50, 50);
    let second = bbox(25, 25, 50, 50);
    let both = KuraFace::new(vec![first, second], img.clone());
    let only_second = KuraFace::new(vec![second], img.clone());
    let out_both = both.render(5, &KuraFilter::PixelBlur).unwrap();
    let out_second = only_second.render(5, &KuraFilter::PixelBlur).unwrap();
    for y in 25..75u32 {
        for x in 25..75u32 {
            for c in 0..4 {
                assert_eq!(chan(&out_both, x, y, c), chan(&out_second, x, y, c));
            }
        }
    }
}

#[test]
fn zero_intensity_is_rejected() {
    let img = gradient_image(8, 8);
    let face = KuraFace::new(vec![bbox(0, 0, 4, 4)], img);
    let r = face.render(0, &KuraFilter::GaussianBlur);
    assert_eq!(r.unwrap_err(), KuraError::InvalidIntensity);
}

#[test]
fn clamp_box_clips_to_image_bounds() {
    let clipped = clamp_box(&bbox(90, 40, 30, 30), 100, 60).unwrap();
    assert_eq!(clipped, bbox(90, 40, 10, 20));
    let inside = clamp_box(&bbox(5, 5, 10, 10), 100, 60).unwrap();
    assert_eq!(inside, bbox(5, 5, 10, 10));
}

#[test]
fn clamp_box_rejects_unusable_boxes() {
    assert!(clamp_box(&bbox(100, 0, 10, 10), 100, 60).is_none());
    assert!(clamp_box(&bbox(0, 60, 10, 10), 100, 60).is_none());
    assert!(clamp_box(&bbox(5, 5, 0, 10), 100, 60).is_none());
    assert!(clamp_box(&bbox(5, 5, 10, 0), 100, 60).is_none());
}

#[test]
fn detection_coordinates_coerce_to_absolute() {
    let b = BoundingBox::from_detection(-7, 11, 30, 40);
    assert_eq!(b, bbox(7, 11, 30, 40));
    let b2 = BoundingBox::from_detection(3, -2, 5, 6);
    assert_eq!(b2, bbox(3, 2, 5, 6));
}

#[test]
fn out_of_bounds_box_is_clamped_in_render() {
    let img = gradient_image(20, 20);
    let face = KuraFace::new(vec![bbox(15, 15, 50, 50)], img.clone());
    let out = face.render(3, &KuraFilter::Pixelated).unwrap();
    assert_eq!(out.width, 20);
    assert_eq!(out.height, 20);
    for y in 0..15u32 {
        for x in 0..20u32 {
            for c in 0..4 {
                assert_eq!(chan(&out, x, y, c), chan(&img, x, y, c));
            }
        }
    }
}

#[test]
fn filter_options_map_to_distinct_algorithms() {
    assert_eq!(KuraFilter::from(FilterType::Gaussian), KuraFilter::GaussianBlur);
    assert_eq!(KuraFilter::from(FilterType::PixelBlur), KuraFilter::PixelBlur);
    assert_eq!(KuraFilter::from(FilterType::Pixelated), KuraFilter::Pixelated);
}

#[test]
fn degradation_changes_a_detailed_region() {
    let img = checkerboard_image(16, 16);
    for filter in [KuraFilter::PixelBlur, KuraFilter::GaussianBlur, KuraFilter::Pixelated] {
        let face = KuraFace::new(vec![bbox(0, 0, 16, 16)], img.clone());
        let out = face.render(8, &filter).unwrap();
        assert_ne!(out.bytes(), img.bytes());
    }
}

#[test]
fn crop_extracts_exact_subimage() {
    let img = gradient_image(5, 4);
    let c = img.crop(&bbox(1, 2, 3, 2));
    assert_eq!(c.width, 3);
    assert_eq!(c.height, 2);
    for y in 0..2u32 {
        for x in 0..3u32 {
            for ch in 0..4 {
                assert_eq!(chan(&c, x, y, ch), chan(&img, x + 1, y + 2, ch));
            }
        }
    }
}

#[test]
fn overlay_writes_patch_only_inside_box() {
    let mut img = gradient_image(6, 6);
    let before = img.clone();
    let patch = checkerboard_image(2, 3);
    img.overlay(&patch, &bbox(4, 1, 2, 3));
    for y in 0..6u32 {
        for x in 0..6u32 {
            for c in 0..4 {
                if x >= 4 && y >= 1 && y < 4 {
                    assert_eq!(chan(&img, x, y, c), chan(&patch, x - 4, y - 1, c));
                } else {
                    assert_eq!(chan(&img, x, y, c), chan(&before, x, y, c));
                }
            }
        }
    }
}

#[test]
fn from_bytes_checks_buffer_length() {
    assert!(Image::from_bytes(4, 4, vec![0u8; 64]).is_some());
    assert!(Image::from_bytes(4, 4, vec![0u8; 63]).is_none());
    assert!(Image::from_bytes(4, 4, vec![0u8; 65]).is_none());
}
