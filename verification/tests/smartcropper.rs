use smartcropper::buffer::extract;
use smartcropper::scorer::score_region;
use smartcropper::select::select_best;
use smartcropper::{CropError, PixelBuffer, Region, SmartCropper};

/// A buffer where every pixel has the same three channel values.
fn solid(width: u32, height: u32, rgb: [u8; 3]) -> PixelBuffer {
    let mut data: Vec<u8> = Vec::new();
    for _ in 0..(width as usize) * (height as usize) {
        data.extend_from_slice(&rgb);
    }
    PixelBuffer::new(width, height, data).unwrap()
}

/// A 300x300 buffer that is flat gray except for a textured square covering
/// exactly `[100, 200) x [100, 200)`.
fn textured_300() -> PixelBuffer {
    let mut data: Vec<u8> = Vec::new();
    for y in 0..300u32 {
        for x in 0..300u32 {
            if (100..200).contains(&x) && (100..200).contains(&y) {
                let v: u8 = ((x * 7 + y * 13) % 256) as u8;
                data.extend_from_slice(&[v, v.wrapping_add(85), v.wrapping_add(170)]);
            } else {
                data.extend_from_slice(&[30, 30, 30]);
            }
        }
    }
    PixelBuffer::new(300, 300, data).unwrap()
}

fn cropper(buf: PixelBuffer) -> SmartCropper {
    SmartCropper { original: buf, cropped: None }
}

#[test]
fn test_regions_fit() {
    let expected = vec![
        Region { x: 0, y: 0, width: 100, height: 100 },
        Region { x: 0, y: 50, width: 100, height: 100 },
        Region { x: 50, y: 0, width: 100, height: 100 },
        Region { x: 50, y: 50, width: 100, height: 100 },
    ];
    let actual = SmartCropper::regions((200, 200), (100, 100));
    assert_eq!(actual, expected);
}

#[test]
fn test_regions_exact_fit() {
    let expected = vec![Region { x: 0, y: 0, width: 100, height: 100 }];
    let actual = SmartCropper::regions((100, 100), (100, 100));
    assert_eq!(actual, expected);
}

#[test]
fn test_regions_too_high() {
    let expected = vec![];
    let actual = SmartCropper::regions((100, 100), (100, 200));
    assert_eq!(actual, expected);
}

#[test]
fn test_regions_too_wide() {
    let expected = vec![];
    let actual = SmartCropper::regions((100, 100), (200, 100));
    assert_eq!(actual, expected);
}

#[test]
fn test_dimensions_before_cropping() {
    let img = cropper(textured_300());
    assert_eq!(img.dimensions(), (0, 0));
}

#[test]
fn test_dimensions_after_cropping() {
    let mut img = cropper(textured_300());
    img.smart_crop(100, 100).unwrap();
    assert_eq!(img.dimensions(), (100, 100));
}

#[test]
fn test_find_interesting_region() {
    let img = cropper(textured_300());
    let expected_region = Region { x: 100, y: 100, width: 100, height: 100 };
    let actual_region = img.find_interesting_region(100, 100);
    assert_eq!(actual_region, expected_region);
}

#[test]
fn crop_to_100x100() {
    let mut img = cropper(textured_300());
    img.smart_crop(100, 100).unwrap();
    assert_eq!(img.dimensions(), (100, 100));
}

#[test]
fn square_image() {
    let mut img = cropper(solid(300, 200, [40, 90, 140]));
    img.smart_square().unwrap();
    let (width, height) = img.dimensions();
    assert_eq!(width, height);
}

#[test]
fn square_of_300x200_uses_min_side() {
    let mut img = cropper(solid(300, 200, [40, 90, 140]));
    img.smart_square().unwrap();
    assert_eq!(img.dimensions(), (200, 200));
}

#[test]
fn enumerated_regions_lie_inside_original() {
    let cases = [((237u32, 191u32), (60u32, 33u32)), ((500, 500), (1, 1)), ((64, 480), (64, 33))];
    for ((ow, oh), (tw, th)) in cases {
        for r in SmartCropper::regions((ow, oh), (tw, th)) {
            assert_eq!(r.width, tw);
            assert_eq!(r.height, th);
            assert!(r.x + r.width <= ow);
            assert!(r.y + r.height <= oh);
        }
    }
}

#[test]
fn uniform_gray_region_scores_zero() {
    let buf = solid(40, 40, [128, 128, 128]);
    let score: u64 = score_region(&buf, Region { x: 0, y: 0, width: 40, height: 40 });
    assert_eq!(score, 0);
}

#[test]
fn score_matches_entropy_of_region_bytes() {
    let buf = textured_300();
    let region = Region { x: 90, y: 110, width: 50, height: 40 };
    let sub = extract(&buf, region);
    let expected: u64 = entropy::shannon_entropy(&sub.data).to_bits() as u64;
    let score: u64 = score_region(&buf, region);
    assert_eq!(score, expected);
    assert!(score > 0);
}

#[test]
fn score_is_invariant_under_pixel_permutation() {
    // The same four pixels in two different arrangements.
    let a = PixelBuffer::new(
        2,
        2,
        vec![1, 2, 3, 4, 5, 6, 7, 8, 9, 10, 11, 12],
    )
    .unwrap();
    let b = PixelBuffer::new(
        2,
        2,
        vec![10, 11, 12, 7, 8, 9, 4, 5, 6, 1, 2, 3],
    )
    .unwrap();
    let whole = Region { x: 0, y: 0, width: 2, height: 2 };
    assert_eq!(score_region(&a, whole), score_region(&b, whole));
}

#[test]
fn score_is_at_most_eight_bits() {
    let eight_bits: u64 = (8.0f32).to_bits() as u64;
    let buf = textured_300();
    let whole = Region { x: 0, y: 0, width: 300, height: 300 };
    assert!(score_region(&buf, whole) <= eight_bits);
    assert!(score_region(&buf, Region { x: 120, y: 120, width: 64, height: 64 }) <= eight_bits);
}

#[test]
fn first_of_equal_maximal_scores_wins() {
    let regions = vec![
        Region { x: 0, y: 0, width: 10, height: 10 },
        Region { x: 0, y: 5, width: 10, height: 10 },
        Region { x: 5, y: 0, width: 10, height: 10 },
        Region { x: 5, y: 5, width: 10, height: 10 },
    ];
    let scores: Vec<u64> = [1.2f32, 3.5, 3.5, 0.9]
        .iter()
        .map(|s| s.to_bits() as u64)
        .collect();
    let fallback = Region { x: 0, y: 0, width: 10, height: 10 };
    let best = select_best(&regions, &scores, fallback);
    assert_eq!(best, regions[1]);
}

#[test]
fn all_zero_scores_keep_the_fallback() {
    let regions = vec![
        Region { x: 0, y: 0, width: 10, height: 10 },
        Region { x: 0, y: 5, width: 10, height: 10 },
    ];
    let scores: Vec<u64> = vec![0, 0];
    let fallback = Region { x: 0, y: 0, width: 10, height: 10 };
    assert_eq!(select_best(&regions, &scores, fallback), fallback);
}

#[test]
fn too_large_crop_is_an_error() {
    let mut img = cropper(solid(100, 100, [1, 2, 3]));
    assert_eq!(img.smart_crop(100, 200), Err(CropError::SizeTooLarge));
    assert_eq!(img.smart_crop(200, 100), Err(CropError::SizeTooLarge));
    assert_eq!(img.dimensions(), (0, 0));
}

#[test]
fn zero_sized_crop_is_an_error() {
    let mut img = cropper(solid(100, 100, [1, 2, 3]));
    assert_eq!(img.smart_crop(0, 50), Err(CropError::DegenerateTarget));
    assert_eq!(img.smart_crop(50, 0), Err(CropError::DegenerateTarget));
    assert_eq!(img.dimensions(), (0, 0));
}

#[test]
fn exact_size_crop_reproduces_the_image() {
    let buf = textured_300();
    let original_bytes = buf.data.clone();
    let mut img = cropper(buf);
    img.smart_crop(300, 300).unwrap();
    let cropped = img.cropped.unwrap();
    assert_eq!(cropped.width, 300);
    assert_eq!(cropped.height, 300);
    assert_eq!(cropped.data, original_bytes);
}

#[test]
fn extract_copies_the_selected_window() {
    let data: Vec<u8> = (0u8..=17).collect();
    let buf = PixelBuffer::new(3, 2, data).unwrap();
    let out = extract(&buf, Region { x: 1, y: 0, width: 2, height: 2 });
    assert_eq!(out.width, 2);
    assert_eq!(out.height, 2);
    assert_eq!(out.data, vec![3, 4, 5, 6, 7, 8, 12, 13, 14, 15, 16, 17]);
}

#[test]
fn buffer_of_wrong_length_is_refused() {
    assert!(PixelBuffer::new(2, 2, vec![0; 11]).is_none());
    assert!(PixelBuffer::new(2, 2, vec![0; 13]).is_none());
    assert!(PixelBuffer::new(2, 2, vec![0; 12]).is_some());
}
