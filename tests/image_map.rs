use raytracer::image_map::{Bitmap, ImageMap};

fn two_by_two() -> Bitmap {
    // row 0: red, green; row 1: blue, white
    Bitmap::new(2, 2, vec![255, 0, 0, 0, 255, 0, 0, 0, 255, 255, 255, 255]).unwrap()
}

#[test]
fn bitmap_needs_three_bytes_per_pixel() {
    assert!(Bitmap::new(2, 2, vec![0; 11]).is_none());
    assert!(Bitmap::new(2, 2, vec![0; 13]).is_none());
    assert!(Bitmap::new(2, 2, vec![0; 12]).is_some());
    assert!(Bitmap::new(0, 5, vec![]).is_some());
}

#[test]
fn texel_reads_row_major_pixels() {
    let m = ImageMap::new(Some(two_by_two()));
    assert_eq!(m.texel(0, 0), (255, 0, 0));
    assert_eq!(m.texel(1, 0), (0, 255, 0));
    assert_eq!(m.texel(0, 1), (0, 0, 255));
    assert_eq!(m.texel(1, 1), (255, 255, 255));
}

#[test]
fn texel_clamps_to_last_column_and_row() {
    let m = ImageMap::new(Some(two_by_two()));
    assert_eq!(m.texel(2, 0), (0, 255, 0));
    assert_eq!(m.texel(0, 7), (0, 0, 255));
    assert_eq!(m.texel(u32::MAX, u32::MAX), (255, 255, 255));
}

#[test]
fn missing_image_gives_cyan() {
    let m = ImageMap::new(None);
    assert_eq!(m.texel(0, 0), (0, 255, 255));
    let empty = ImageMap::new(Some(Bitmap::new(0, 0, vec![]).unwrap()));
    assert_eq!(empty.texel(3, 3), (0, 255, 255));
}
