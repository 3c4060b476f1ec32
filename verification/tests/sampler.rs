use halfblock::color::Color;
use halfblock::raster::RasterImage;
use halfblock::sampler::sample;

/// An image whose pixels all hold the same four bytes.
fn uniform(width: u32, height: u32, pixel: [u8; 4]) -> RasterImage {
    let mut buf = Vec::new();
    for _ in 0..width * height {
        buf.extend_from_slice(&pixel);
    }
    RasterImage::new(width, height, buf).unwrap()
}

/// An image from a list of pixels, row by row.
fn from_pixels(width: u32, height: u32, pixels: &[[u8; 4]]) -> RasterImage {
    let mut buf = Vec::new();
    for p in pixels {
        buf.extend_from_slice(p);
    }
    RasterImage::new(width, height, buf).unwrap()
}

#[test]
fn opaque_grey_square_keeps_its_colour() {
    for c in [0u8, 1, 2, 127, 128, 200, 254, 255] {
        let image = uniform(4, 4, [c, c, c, 255]);
        for size in 1..=4 {
            assert_eq!(sample(&image, 0, 0, size), Color { r: c, g: c, b: c });
        }
        assert_eq!(sample(&image, 1, 2, 2), Color { r: c, g: c, b: c });
    }
}

#[test]
fn opaque_coloured_square_keeps_its_colour() {
    let image = uniform(5, 3, [12, 200, 77, 255]);
    assert_eq!(sample(&image, 0, 0, 3), Color { r: 12, g: 200, b: 77 });
    assert_eq!(sample(&image, 2, 0, 3), Color { r: 12, g: 200, b: 77 });
    assert_eq!(sample(&image, 4, 2, 1), Color { r: 12, g: 200, b: 77 });
}

#[test]
fn transparent_square_is_black() {
    let image = uniform(3, 3, [255, 128, 7, 0]);
    assert_eq!(sample(&image, 0, 0, 3), Color { r: 0, g: 0, b: 0 });
    assert_eq!(sample(&image, 1, 1, 2), Color { r: 0, g: 0, b: 0 });
    let mixed = from_pixels(2, 1, &[[255, 255, 255, 0], [1, 2, 3, 0]]);
    assert_eq!(sample(&mixed, 0, 0, 1), Color { r: 0, g: 0, b: 0 });
    assert_eq!(sample(&mixed, 1, 0, 1), Color { r: 0, g: 0, b: 0 });
}

#[test]
fn half_opacity_darkens() {
    let full = uniform(2, 2, [200, 100, 50, 255]);
    let half = uniform(2, 2, [200, 100, 50, 128]);
    assert_eq!(sample(&full, 0, 0, 2), Color { r: 200, g: 100, b: 50 });
    // 200 * 128 / 255 = 100.39, 100 * 128 / 255 = 50.19, 50 * 128 / 255 = 25.09
    assert_eq!(sample(&half, 0, 0, 2), Color { r: 100, g: 50, b: 25 });
}

#[test]
fn half_opaque_half_transparent_block_is_darker_than_opaque_block() {
    let pixels = [[200, 100, 50], [40, 80, 120], [255, 255, 255], [9, 8, 7]];
    let with_alpha = |alphas: [u8; 4]| {
        let list: Vec<[u8; 4]> = pixels
            .iter()
            .zip(alphas.iter())
            .map(|(p, a)| [p[0], p[1], p[2], *a])
            .collect();
        from_pixels(2, 2, &list)
    };
    let opaque = sample(&with_alpha([255, 255, 255, 255]), 0, 0, 2);
    let mixed = sample(&with_alpha([128, 0, 128, 0]), 0, 0, 2);
    // (200 + 40 + 255 + 9) / 4 = 126, (100 + 80 + 255 + 8) / 4 = 110.75,
    // (50 + 120 + 255 + 7) / 4 = 108
    assert_eq!(opaque, Color { r: 126, g: 110, b: 108 });
    // 128 * (200 + 255) / (255 * 4) = 57.09, 128 * (100 + 255) / 1020 = 44.54,
    // 128 * (50 + 255) / 1020 = 38.27
    assert_eq!(mixed, Color { r: 57, g: 44, b: 38 });
    assert!(mixed.r < opaque.r && mixed.g < opaque.g && mixed.b < opaque.b);
}

#[test]
fn transparent_pixels_still_count_in_the_divisor() {
    // One opaque white pixel among three transparent ones: 255 / 4 = 63.75.
    let image = from_pixels(
        2,
        2,
        &[[255, 255, 255, 255], [255, 255, 255, 0], [9, 9, 9, 0], [0, 0, 0, 0]],
    );
    assert_eq!(sample(&image, 0, 0, 2), Color { r: 63, g: 63, b: 63 });
}

#[test]
fn more_alpha_never_darkens() {
    let values = [[10u8, 250, 33], [90, 0, 255], [255, 17, 1], [128, 128, 64]];
    let alphas = [0u8, 1, 64, 127, 128, 200, 254, 255];
    for (n, low) in alphas.iter().enumerate() {
        for high in &alphas[n..] {
            let dim: Vec<[u8; 4]> = values.iter().map(|v| [v[0], v[1], v[2], *low]).collect();
            let bright: Vec<[u8; 4]> = values.iter().map(|v| [v[0], v[1], v[2], *high]).collect();
            let d = sample(&from_pixels(2, 2, &dim), 0, 0, 2);
            let b = sample(&from_pixels(2, 2, &bright), 0, 0, 2);
            assert!(d.r <= b.r && d.g <= b.g && d.b <= b.b);
        }
    }
}

#[test]
fn quotient_is_cut_off_not_rounded() {
    let image =
        from_pixels(2, 2, &[[1, 0, 0, 255], [2, 0, 0, 255], [2, 0, 0, 255], [2, 0, 0, 255]]);
    // (1 + 2 + 2 + 2) / 4 = 1.75
    assert_eq!(sample(&image, 0, 0, 2).r, 1);
    let edge = from_pixels(1, 1, &[[254, 255, 1, 254]]);
    // 254 * 254 / 255 = 253.003, 254 * 255 / 255 = 254, 254 * 1 / 255 = 0.996
    assert_eq!(sample(&edge, 0, 0, 1), Color { r: 253, g: 254, b: 0 });
}

#[test]
fn square_is_taken_at_its_position() {
    // 4 columns, 2 rows; red holds 10 * column + row, fully opaque.
    let mut list = Vec::new();
    for row in 0u8..2 {
        for col in 0u8..4 {
            list.push([10 * col + row, col, row, 255]);
        }
    }
    let image = from_pixels(4, 2, &list);
    assert_eq!(sample(&image, 3, 1, 1), Color { r: 31, g: 3, b: 1 });
    assert_eq!(sample(&image, 0, 1, 1), Color { r: 1, g: 0, b: 1 });
    // columns 2 and 3, both rows: red (20 + 21 + 30 + 31) / 4 = 25.5
    assert_eq!(sample(&image, 2, 0, 2), Color { r: 25, g: 2, b: 0 });
    // columns 1 and 2: red (10 + 11 + 20 + 21) / 4 = 15.5, green 1.5, blue 0.5
    assert_eq!(sample(&image, 1, 0, 2), Color { r: 15, g: 1, b: 0 });
}

#[test]
fn half_opacity_undercuts_a_full_result_of_one_in_a_small_square() {
    // 11 by 11 pixels, red 2 everywhere but for one pixel of red 1: the sum is
    // 241 on 121 pixels.
    let mut full = vec![[2u8, 0, 0, 255]; 121];
    full[60] = [1, 0, 0, 255];
    let half: Vec<[u8; 4]> = full.iter().map(|p| [p[0], p[1], p[2], 128]).collect();
    assert_eq!(sample(&from_pixels(11, 11, &full), 0, 0, 11).r, 1);
    // 128 * 241 / (255 * 121) = 0.9997
    assert_eq!(sample(&from_pixels(11, 11, &half), 0, 0, 11).r, 0);
}

#[test]
fn half_opacity_can_meet_a_full_result_of_one_in_a_large_square() {
    // 12 by 12 pixels with the sum 287 on 144 pixels: 287 / 144 = 1.99 at
    // full opacity, and 128 * 287 / (255 * 144) = 1.0004 at alpha 128.
    let mut full = vec![[2u8, 0, 0, 255]; 144];
    full[7] = [1, 0, 0, 255];
    let half: Vec<[u8; 4]> = full.iter().map(|p| [p[0], p[1], p[2], 128]).collect();
    assert_eq!(sample(&from_pixels(12, 12, &full), 0, 0, 12).r, 1);
    assert_eq!(sample(&from_pixels(12, 12, &half), 0, 0, 12).r, 1);
}

#[test]
fn black_stays_black_at_any_opacity() {
    for alpha in [0u8, 128, 255] {
        let image = uniform(3, 3, [0, 0, 0, alpha]);
        assert_eq!(sample(&image, 0, 0, 3), Color { r: 0, g: 0, b: 0 });
    }
}

#[test]
fn large_square_of_one_colour() {
    let image = uniform(64, 64, [255, 254, 1, 255]);
    assert_eq!(sample(&image, 0, 0, 64), Color { r: 255, g: 254, b: 1 });
    let dimmed = uniform(64, 64, [255, 254, 1, 128]);
    // 255 * 128 / 255 = 128, 254 * 128 / 255 = 127.5, 1 * 128 / 255 = 0.5
    assert_eq!(sample(&dimmed, 0, 0, 64), Color { r: 128, g: 127, b: 0 });
}
