use flickr_cli::engine::DedupeError;
use flickr_cli::phash::{find_duplicates_phash, find_hash_pairs, hash_distance, hash_image_bytes};
use image::{ImageBuffer, ImageFormat, RgbImage};
use std::io::Cursor;

fn make_gradient_image(width: u32, height: u32) -> RgbImage {
    ImageBuffer::from_fn(width, height, |x, y| {
        image::Rgb([(x * 4) as u8, (y * 4) as u8, 128])
    })
}

fn make_inverted_image(width: u32, height: u32) -> RgbImage {
    ImageBuffer::from_fn(width, height, |x, y| {
        image::Rgb([255 - (x * 4) as u8, (y * 2) as u8, 0])
    })
}

fn make_solid_image(width: u32, height: u32, r: u8, g: u8, b: u8) -> RgbImage {
    ImageBuffer::from_fn(width, height, |_x, _y| image::Rgb([r, g, b]))
}

fn file(name: &str, bytes: Vec<u8>) -> (String, Vec<u8>) {
    (name.to_string(), bytes)
}

fn encode(img: &RgbImage, format: ImageFormat) -> Vec<u8> {
    let mut buf = Cursor::new(Vec::new());
    img.write_to(&mut buf, format).unwrap();
    buf.into_inner()
}

/// The largest Hamming distance whose similarity `1 - d/256` reaches the
/// threshold, as the command line computes it.
fn max_distance_for(threshold: f32) -> Option<u32> {
    let mut best = None;
    for d in 0..=256u32 {
        if 1.0 - (d as f32 / 256.0) >= threshold {
            best = Some(d);
        }
    }
    best
}

fn similarity(distance: u32) -> f32 {
    1.0 - (distance as f32 / 256.0)
}

#[test]
fn identical_images_are_duplicates() {
    let img = make_gradient_image(64, 64);
    let files = vec![
        file("a.jpg", encode(&img, ImageFormat::Jpeg)),
        file("b.jpg", encode(&img, ImageFormat::Jpeg)),
    ];
    let pairs = find_duplicates_phash(&files, max_distance_for(0.95).unwrap()).unwrap();
    assert_eq!(
        pairs.len(),
        1,
        "identical images should be found as a duplicate pair"
    );
    assert!(
        similarity(pairs[0].distance) > 0.95,
        "identical images should have similarity > 0.95, got {}",
        similarity(pairs[0].distance)
    );
}

#[test]
fn very_different_images_not_duplicates() {
    let files = vec![
        file("gradient.jpg", encode(&make_gradient_image(64, 64), ImageFormat::Jpeg)),
        file("inverted.jpg", encode(&make_inverted_image(64, 64), ImageFormat::Jpeg)),
    ];
    let pairs = find_duplicates_phash(&files, max_distance_for(0.95).unwrap()).unwrap();
    assert!(
        pairs.is_empty(),
        "visually different images should not be duplicates at threshold 0.95, got {} pairs",
        pairs.len()
    );
}

#[test]
fn single_image_no_pairs() {
    let files = vec![file("only.jpg", encode(&make_gradient_image(64, 64), ImageFormat::Jpeg))];
    let pairs = find_duplicates_phash(&files, max_distance_for(0.5).unwrap()).unwrap();
    assert!(pairs.is_empty(), "single image cannot form any pair");
}

#[test]
fn low_threshold_may_find_near_duplicates() {
    let img = make_gradient_image(64, 64);
    let files = vec![
        file("a.jpg", encode(&img, ImageFormat::Jpeg)),
        file("b.jpg", encode(&img, ImageFormat::Jpeg)),
    ];
    let pairs = find_duplicates_phash(&files, max_distance_for(0.5).unwrap()).unwrap();
    assert!(
        !pairs.is_empty(),
        "identical images should be found at threshold 0.5"
    );
    assert!(similarity(pairs[0].distance) >= 0.5);
}

#[test]
fn identical_solid_color_images_are_duplicates() {
    let img = make_solid_image(64, 64, 100, 150, 200);
    let files = vec![
        file("a.png", encode(&img, ImageFormat::Png)),
        file("b.png", encode(&img, ImageFormat::Png)),
    ];
    let pairs = find_duplicates_phash(&files, max_distance_for(0.95).unwrap()).unwrap();
    assert_eq!(
        pairs.len(),
        1,
        "identical solid-color images should be detected as duplicates"
    );
}

#[test]
fn hash_has_eighteen_bytes_and_matches_image_hasher() {
    let img = make_gradient_image(64, 64);
    let bytes = encode(&img, ImageFormat::Png);
    let h = hash_image_bytes("g.png", &bytes).unwrap();
    assert_eq!(h.len(), 18);
    let hasher = image_hasher::HasherConfig::new()
        .hash_alg(image_hasher::HashAlg::DoubleGradient)
        .hash_size(16, 16)
        .to_hasher();
    let decoded = image::load_from_memory(&bytes).unwrap();
    let expected = hasher.hash_image(&decoded);
    assert_eq!(h, expected.as_bytes().to_vec());
    let other = hasher.hash_image(&image::DynamicImage::ImageRgb8(make_inverted_image(64, 64)));
    let h2 =
        hash_image_bytes("i.PNG", &encode(&make_inverted_image(64, 64), ImageFormat::Png)).unwrap();
    assert_eq!(hash_distance(&h, &h2), expected.dist(&other));
}

#[test]
fn undecodable_bytes_are_an_image_error() {
    assert!(matches!(
        hash_image_bytes("x.png", b"not an image"),
        Err(DedupeError::Image(_))
    ));
    let files = vec![
        file("s.png", encode(&make_solid_image(8, 8, 1, 2, 3), ImageFormat::Png)),
        file("g.png", b"garbage".to_vec()),
    ];
    assert!(matches!(
        find_duplicates_phash(&files, 10),
        Err(DedupeError::Image(_))
    ));
}

#[test]
fn hash_distance_counts_differing_bits() {
    assert_eq!(hash_distance(&[0b1010_1010, 0xFF], &[0b0101_0101, 0xFF]), 8);
    assert_eq!(hash_distance(&[0x01, 0x80, 0x0F], &[0x00, 0x00, 0x00]), 6);
    assert_eq!(hash_distance(&[0xFF, 0xFF], &[0x00]), 8);
    assert_eq!(hash_distance(&[], &[1, 2, 3]), 0);
}

#[test]
fn find_hash_pairs_reports_close_pairs_in_order() {
    let hashes = vec![vec![0x00u8], vec![0x01], vec![0xFF], vec![0x03]];
    let pairs = find_hash_pairs(&hashes, 2);
    let got: Vec<(usize, usize, u32)> = pairs
        .iter()
        .map(|p| (p.index_a, p.index_b, p.distance))
        .collect();
    assert_eq!(got, vec![(0, 1, 1), (0, 3, 2), (1, 3, 1)]);
    assert!(find_hash_pairs(&Vec::new(), 100).is_empty());
}

#[test]
fn format_follows_the_file_extension() {
    let png = encode(&make_solid_image(8, 8, 1, 2, 3), ImageFormat::Png);
    // PNG content under a JPEG name is decoded as JPEG, and fails.
    assert!(matches!(
        hash_image_bytes("mislabelled.jpg", &png),
        Err(DedupeError::Image(_))
    ));
    assert!(hash_image_bytes("right.png", &png).is_ok());
    // No extension, or one that names no image format.
    assert!(matches!(hash_image_bytes("noext", &png), Err(DedupeError::Image(_))));
    assert!(matches!(hash_image_bytes("a.txt", &png), Err(DedupeError::Image(_))));
}

#[test]
fn identical_content_under_extensions_differing_in_case_is_a_duplicate() {
    let img = make_gradient_image(64, 64);
    let files = vec![
        file("a.JPG", encode(&img, ImageFormat::Jpeg)),
        file("b.jpg", encode(&img, ImageFormat::Jpeg)),
    ];
    let pairs = find_duplicates_phash(&files, 0).unwrap();
    assert_eq!(pairs.len(), 1);
    assert_eq!(pairs[0].distance, 0);
}

#[test]
fn name_without_extension_reports_undetermined_format() {
    let png = encode(&make_solid_image(4, 4, 9, 9, 9), ImageFormat::Png);
    match hash_image_bytes("noext", &png) {
        Err(DedupeError::Image(m)) => assert_eq!(m, "The image format could not be determined"),
        other => panic!("unexpected: {:?}", other.map(|h| h.len())),
    }
}
