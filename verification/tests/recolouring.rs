use recolour::{
    nearest_color, parse_hex_color, recolour_image, recolour_pixel, Color, Image, Pixel,
    RecolourError,
};

fn rgb(r: u8, g: u8, b: u8) -> Color {
    Color { r, g, b }
}

fn image_of(width: u32, height: u32, bytes: &[u8]) -> Image {
    Image::from_raw(width, height, bytes.to_vec()).unwrap()
}

fn black_and_white() -> Vec<Color> {
    vec![parse_hex_color("#000000").unwrap(), parse_hex_color("#FFFFFF").unwrap()]
}

#[test]
fn dark_pixel_goes_to_black() {
    let palette = black_and_white();
    assert_eq!(nearest_color(rgb(10, 10, 10), &palette), Some(rgb(0, 0, 0)));
}

#[test]
fn light_pixel_goes_to_white() {
    let palette = black_and_white();
    assert_eq!(nearest_color(rgb(200, 200, 200), &palette), Some(rgb(255, 255, 255)));
}

#[test]
fn empty_palette_has_no_nearest_color() {
    assert_eq!(nearest_color(rgb(1, 2, 3), &[]), None);
    assert_eq!(recolour_pixel(Pixel { r: 1, g: 2, b: 3, a: 4 }, &[]), None);
}

#[test]
fn empty_palette_is_refused_and_image_kept() {
    let bytes = [1u8, 2, 3, 4, 5, 6, 7, 8, 9, 10, 11, 12];
    let mut image = image_of(3, 1, &bytes);
    let result = recolour_image(&mut image, &[]);
    assert!(matches!(result, Err(RecolourError::EmptyPalette)));
    assert_eq!(image.as_raw().as_slice(), &bytes[..]);
    assert_eq!(image.width(), 3);
    assert_eq!(image.height(), 1);
}

#[test]
fn single_colour_palette_takes_every_pixel() {
    let palette = vec![rgb(12, 34, 56)];
    let mut image = image_of(2, 2, &[0, 0, 0, 9, 255, 255, 255, 8, 12, 34, 56, 7, 200, 1, 90, 6]);
    let copy = recolour_image(&mut image, &palette).unwrap();
    let expected = [12u8, 34, 56, 9, 12, 34, 56, 8, 12, 34, 56, 7, 12, 34, 56, 6];
    assert_eq!(image.as_raw().as_slice(), &expected[..]);
    assert_eq!(copy.as_raw().as_slice(), &expected[..]);
}

#[test]
fn first_of_two_equally_near_colours_wins() {
    // both are at distance 10 from (10, 0, 0)
    let palette = vec![rgb(20, 0, 0), rgb(0, 0, 0)];
    assert_eq!(nearest_color(rgb(10, 0, 0), &palette), Some(rgb(20, 0, 0)));
    let reversed = vec![rgb(0, 0, 0), rgb(20, 0, 0)];
    assert_eq!(nearest_color(rgb(10, 0, 0), &reversed), Some(rgb(0, 0, 0)));
}

#[test]
fn rounding_makes_unequal_distances_tie() {
    // sqrt(300) = 17.32 and sqrt(281) = 16.76 both round to 17: the first stays
    let pixel = rgb(10, 10, 10);
    let palette = vec![rgb(0, 0, 0), rgb(0, 0, 1)];
    assert_eq!(nearest_color(pixel, &palette), Some(rgb(0, 0, 0)));
    let reversed = vec![rgb(0, 0, 1), rgb(0, 0, 0)];
    assert_eq!(nearest_color(pixel, &reversed), Some(rgb(0, 0, 1)));
}

#[test]
fn duplicate_colours_in_palette_are_kept_in_order() {
    let palette = vec![rgb(5, 5, 5), rgb(5, 5, 5), rgb(200, 200, 200)];
    assert_eq!(nearest_color(rgb(6, 6, 6), &palette), Some(rgb(5, 5, 5)));
}

#[test]
fn colour_at_largest_distance_is_still_chosen() {
    // black against white is as far as two colours can be
    let palette = vec![rgb(255, 255, 255)];
    assert_eq!(nearest_color(rgb(0, 0, 0), &palette), Some(rgb(255, 255, 255)));
    let other = vec![rgb(0, 255, 255)];
    assert_eq!(nearest_color(rgb(255, 0, 0), &other), Some(rgb(0, 255, 255)));
    let mut image = image_of(1, 1, &[255, 0, 0, 77]);
    recolour_image(&mut image, &other).unwrap();
    assert_eq!(image.as_raw().as_slice(), &[0u8, 255, 255, 77][..]);
}

#[test]
fn recoloured_pixels_are_in_the_palette() {
    let palette = vec![rgb(40, 40, 40), rgb(235, 219, 178), rgb(204, 36, 29), rgb(69, 133, 136)];
    let mut bytes = Vec::new();
    for i in 0..64u32 {
        bytes.push((i * 37 % 256) as u8);
        bytes.push((i * 91 % 256) as u8);
        bytes.push((i * 13 % 256) as u8);
        bytes.push((i * 5 % 256) as u8);
    }
    let mut image = image_of(8, 8, &bytes);
    recolour_image(&mut image, &palette).unwrap();
    for i in 0..image.pixel_count() {
        assert!(palette.contains(&image.pixel(i).rgb()));
    }
}

#[test]
fn alpha_is_kept() {
    let palette = black_and_white();
    let mut bytes = Vec::new();
    for i in 0..=255u8 {
        bytes.extend_from_slice(&[i, 255 - i, i / 2, i]);
    }
    let mut image = image_of(16, 16, &bytes);
    recolour_image(&mut image, &palette).unwrap();
    for i in 0..256usize {
        assert_eq!(image.pixel(i).a, i as u8);
    }
}

#[test]
fn recolouring_twice_changes_nothing_more() {
    let palette = vec![rgb(40, 40, 40), rgb(235, 219, 178), rgb(204, 36, 29), rgb(69, 133, 136)];
    let mut bytes = Vec::new();
    for i in 0..100u32 {
        bytes.extend_from_slice(&[(i * 7) as u8, (i * 29) as u8, (i * 53) as u8, (i * 3) as u8]);
    }
    let mut image = image_of(10, 10, &bytes);
    let once = recolour_image(&mut image, &palette).unwrap();
    let twice = recolour_image(&mut image, &palette).unwrap();
    assert_eq!(once.as_raw(), twice.as_raw());
    assert_eq!(image.as_raw(), once.as_raw());
}

#[test]
fn recoloured_image_keeps_its_size() {
    let palette = black_and_white();
    let mut image = image_of(3, 2, &[0u8; 24]);
    let copy = recolour_image(&mut image, &palette).unwrap();
    assert_eq!((image.width(), image.height()), (3, 2));
    assert_eq!((copy.width(), copy.height()), (3, 2));
    assert_eq!(image.pixel_count(), 6);
}

#[test]
fn image_without_pixels_is_recoloured() {
    let palette = black_and_white();
    let mut image = image_of(0, 5, &[]);
    let copy = recolour_image(&mut image, &palette).unwrap();
    assert_eq!(copy.pixel_count(), 0);
}

#[test]
fn recolour_pixel_replaces_colour_only() {
    let palette = black_and_white();
    let pixel = Pixel { r: 240, g: 250, b: 230, a: 128 };
    assert_eq!(recolour_pixel(pixel, &palette), Some(Pixel { r: 255, g: 255, b: 255, a: 128 }));
}

#[test]
fn image_from_raw_wants_four_bytes_a_pixel() {
    assert!(Image::from_raw(2, 2, vec![0u8; 16]).is_some());
    assert!(Image::from_raw(2, 2, vec![0u8; 15]).is_none());
    assert!(Image::from_raw(2, 2, vec![0u8; 17]).is_none());
    assert!(Image::from_raw(0, 0, vec![]).is_some());
    assert!(Image::from_raw(u32::MAX, u32::MAX, vec![0u8; 4]).is_none());
}

#[test]
fn image_pixels_are_read_and_written_row_by_row() {
    let mut image = image_of(2, 1, &[1, 2, 3, 4, 5, 6, 7, 8]);
    assert_eq!(image.pixel(1), Pixel { r: 5, g: 6, b: 7, a: 8 });
    image.set_pixel(0, Pixel { r: 9, g: 10, b: 11, a: 12 });
    assert_eq!(image.clone().into_raw(), vec![9, 10, 11, 12, 5, 6, 7, 8]);
}
