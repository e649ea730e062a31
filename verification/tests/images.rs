use bmp_image::color::Color;
use bmp_image::image::{Image, ImageError};

fn numbered(count: u8) -> Vec<Color> {
    let mut data = Vec::new();
    for i in 0..count {
        data.push(Color::rgba(i, i, i, i));
    }
    data
}

#[test]
fn filled_image_has_one_color_everywhere() {
    let color = Color::rgba(1, 2, 3, 4);
    let image = Image::from_color(3, 2, color);
    assert_eq!(image.width(), 3);
    assert_eq!(image.height(), 2);
    assert_eq!(image.data().len(), 6);
    assert!(image.data().iter().all(|pixel| *pixel == color));
}

#[test]
fn filled_image_of_one_pixel() {
    let color = Color::rgb(200, 100, 50);
    let image = Image::from_color(1, 1, color);
    assert_eq!(image.data(), &[color][..]);
}

#[test]
fn filled_image_without_columns_or_rows_is_empty() {
    let color = Color::rgb(1, 1, 1);
    let no_columns = Image::from_color(0, 5, color);
    assert_eq!(no_columns.width(), 0);
    assert_eq!(no_columns.height(), 5);
    assert_eq!(no_columns.data().len(), 0);
    let no_rows = Image::from_color(5, 0, color);
    assert_eq!(no_rows.width(), 5);
    assert_eq!(no_rows.height(), 0);
    assert_eq!(no_rows.data().len(), 0);
}

#[test]
fn new_image_is_opaque_black() {
    let image = Image::new(4, 3);
    assert_eq!(image.width(), 4);
    assert_eq!(image.height(), 3);
    assert_eq!(image.data().len(), 12);
    assert!(image.data().iter().all(|pixel| pixel.data == 0xFF00_0000));
    assert!(image.data().iter().all(|pixel| *pixel == Color::rgb(0, 0, 0)));
}

#[test]
fn default_image_is_empty() {
    let image = Image::default();
    assert_eq!(image.width(), 0);
    assert_eq!(image.height(), 0);
    assert!(image.data().is_empty());
    assert!(image.into_data().is_empty());
}

#[test]
fn from_data_keeps_dimensions_and_order() {
    let data = numbered(6);
    let image = match Image::from_data(2, 3, data.clone()) {
        Ok(image) => image,
        Err(error) => panic!("refused: {:?}", error),
    };
    assert_eq!(image.width(), 2);
    assert_eq!(image.height(), 3);
    assert_eq!(image.data(), &data[..]);
    assert_eq!(image.into_data(), data);
}

#[test]
fn from_data_refuses_too_few_pixels() {
    assert!(matches!(Image::from_data(2, 3, numbered(5)), Err(ImageError::DimensionMismatch)));
    assert!(matches!(Image::from_data(1, 1, Vec::new()), Err(ImageError::DimensionMismatch)));
}

#[test]
fn from_data_refuses_too_many_pixels() {
    assert!(matches!(Image::from_data(2, 3, numbered(7)), Err(ImageError::DimensionMismatch)));
    assert!(matches!(Image::from_data(0, 3, numbered(1)), Err(ImageError::DimensionMismatch)));
    assert!(matches!(Image::from_data(3, 0, numbered(3)), Err(ImageError::DimensionMismatch)));
}

#[test]
fn from_data_accepts_no_pixels_for_an_empty_grid() {
    assert!(matches!(Image::from_data(0, 0, Vec::new()), Ok(_)));
    assert!(matches!(Image::from_data(0, 7, Vec::new()), Ok(_)));
    assert!(matches!(Image::from_data(7, 0, Vec::new()), Ok(_)));
}

#[test]
fn from_data_does_not_wrap_large_dimensions() {
    // 65536 * 65536 is 2^32: no pixel count of a real vector equals it by accident.
    assert!(matches!(
        Image::from_data(65536, 65536, Vec::new()),
        Err(ImageError::DimensionMismatch)
    ));
    assert!(matches!(
        Image::from_data(65536, 65536, numbered(1)),
        Err(ImageError::DimensionMismatch)
    ));
}

#[test]
fn data_mut_changes_pixels_in_place() {
    let mut image = Image::new(2, 2);
    let red = Color::rgb(255, 0, 0);
    image.data_mut()[3] = red;
    assert_eq!(image.width(), 2);
    assert_eq!(image.height(), 2);
    assert_eq!(image.data().len(), 4);
    assert_eq!(image.data()[3], red);
    assert_eq!(image.data()[0], Color::rgb(0, 0, 0));
    assert_eq!(image.data_mut().len(), 4);
}

#[test]
fn clone_is_a_copy_of_its_own() {
    let mut image = Image::from_color(2, 1, Color::rgb(1, 2, 3));
    let copy = image.clone();
    image.data_mut()[0] = Color::rgb(9, 9, 9);
    assert_eq!(copy.data(), &[Color::rgb(1, 2, 3), Color::rgb(1, 2, 3)][..]);
    assert_eq!(copy.width(), 2);
    assert_eq!(copy.height(), 1);
}

#[test]
fn error_kinds_differ() {
    assert_ne!(ImageError::InvalidSignature, ImageError::DimensionMismatch);
    assert_eq!(format!("{:?}", ImageError::DimensionMismatch), "DimensionMismatch");
}

#[test]
fn draw_hands_over_the_whole_image() {
    let data = numbered(6);
    let image = match Image::from_data(3, 2, data.clone()) {
        Ok(image) => image,
        Err(error) => panic!("refused: {:?}", error),
    };
    let blit = image.draw(-4, 9);
    assert_eq!(blit.x, -4);
    assert_eq!(blit.y, 9);
    assert_eq!(blit.w, 3);
    assert_eq!(blit.h, 2);
    assert_eq!(blit.pixels, &data[..]);
}
