use recolour::{can_denoise, denoise_image, Image};

fn image_of(width: u32, height: u32, bytes: Vec<u8>) -> Image {
    Image::from_raw(width, height, bytes).unwrap()
}

/// The image whose four channels all hold `values`.
fn grey(width: u32, height: u32, values: &[u8]) -> Image {
    let mut bytes = Vec::new();
    for v in values {
        bytes.extend_from_slice(&[*v, *v, *v, *v]);
    }
    image_of(width, height, bytes)
}

/// The median filter, written out: the window is sorted and its middle taken.
fn medians(image: &Image, radius: i64) -> Vec<u8> {
    let (width, height) = (image.width() as i64, image.height() as i64);
    let bytes = image.as_raw();
    let mut out = Vec::new();
    for y in 0..height {
        for x in 0..width {
            for c in 0..4 {
                let mut values = Vec::new();
                for dy in -radius..=radius {
                    for dx in -radius..=radius {
                        let row = (y + dy).clamp(0, height - 1);
                        let column = (x + dx).clamp(0, width - 1);
                        values.push(bytes[(4 * (row * width + column) + c) as usize]);
                    }
                }
                values.sort();
                out.push(values[values.len() / 2]);
            }
        }
    }
    out
}

fn noisy(width: u32, height: u32) -> Image {
    let mut state: u32 = 12345;
    let mut bytes = Vec::new();
    for _ in 0..(4 * width * height) {
        state = state.wrapping_mul(1664525).wrapping_add(1013904223);
        bytes.push((state >> 24) as u8);
    }
    image_of(width, height, bytes)
}

#[test]
fn uniform_image_is_left_as_it_is() {
    let mut bytes = Vec::new();
    for _ in 0..(7 * 5) {
        bytes.extend_from_slice(&[40, 80, 120, 200]);
    }
    let image = image_of(7, 5, bytes.clone());
    for radius in [0, 1, 2, 3, 10] {
        assert!(can_denoise(&image, radius));
        assert_eq!(denoise_image(&image, radius).into_raw(), bytes);
    }
}

#[test]
fn median_of_three_by_three_window_is_taken() {
    let image = grey(3, 3, &[1, 2, 3, 200, 6, 7, 9, 100, 11]);
    let expected = grey(3, 3, &[2, 3, 3, 9, 7, 7, 9, 11, 11]);
    let out = denoise_image(&image, 1);
    assert_eq!(out.as_raw(), expected.as_raw());
    assert_eq!((out.width(), out.height()), (3, 3));
}

#[test]
fn channels_are_filtered_apart() {
    let bytes = vec![
        1, 9, 10, 255, 2, 100, 10, 0, 3, 11, 10, 255, //
        200, 200, 10, 0, 6, 6, 10, 255, 7, 7, 10, 0, //
        9, 1, 10, 255, 100, 2, 10, 0, 11, 3, 10, 255,
    ];
    let expected = vec![
        2, 9, 10, 255, 3, 11, 10, 255, 3, 11, 10, 255, //
        9, 9, 10, 255, 7, 7, 10, 255, 7, 7, 10, 255, //
        9, 2, 10, 255, 11, 3, 10, 255, 11, 3, 10, 255,
    ];
    assert_eq!(denoise_image(&image_of(3, 3, bytes), 1).into_raw(), expected);
}

#[test]
fn single_outlier_is_removed() {
    let mut values = vec![50u8; 25];
    values[12] = 255;
    let out = denoise_image(&grey(5, 5, &values), 1);
    assert_eq!(out.as_raw(), grey(5, 5, &[50u8; 25]).as_raw());
}

#[test]
fn radius_zero_changes_nothing() {
    let image = noisy(6, 4);
    assert_eq!(denoise_image(&image, 0).as_raw(), image.as_raw());
}

#[test]
fn denoised_image_is_the_median_of_each_window() {
    for (width, height) in [(1, 1), (1, 7), (7, 1), (4, 4), (9, 6)] {
        let image = noisy(width, height);
        for radius in [1u32, 2, 3] {
            let out = denoise_image(&image, radius);
            assert_eq!(out.as_raw(), &medians(&image, radius as i64));
        }
    }
}

#[test]
fn denoising_leaves_the_input_alone() {
    let image = noisy(5, 5);
    let before = image.as_raw().clone();
    let _ = denoise_image(&image, 1);
    assert_eq!(image.as_raw(), &before);
}

#[test]
fn image_without_pixels_is_denoised() {
    let image = image_of(0, 3, Vec::new());
    assert!(can_denoise(&image, 1));
    let out = denoise_image(&image, 1);
    assert_eq!((out.width(), out.height(), out.pixel_count()), (0, 3, 0));
}

#[test]
fn windows_beyond_the_limits_are_told() {
    let image = image_of(2, 2, vec![0u8; 16]);
    assert!(can_denoise(&image, 23169));
    assert!(!can_denoise(&image, 23170));
    assert!(!can_denoise(&image, u32::MAX));
    let wide = image_of(i32::MAX as u32, 0, Vec::new());
    assert!(can_denoise(&wide, 0));
    assert!(!can_denoise(&wide, 1));
}
