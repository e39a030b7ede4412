use raster_blend::{Image, ImagePixel, RGBA};

fn rgba(r: u8, g: u8, b: u8, a: u8) -> RGBA {
    RGBA { r, g, b, a }
}

fn sample_3x2() -> Image {
    let pixels: Vec<RGBA> = (0..6u8).map(|i| rgba(i, 10 * i, 100 + i, 255)).collect();
    Image::new(3, 2, pixels).unwrap()
}

#[test]
fn new_rejects_mismatched_length() {
    assert!(Image::new(2, 2, vec![rgba(0, 0, 0, 0); 3]).is_none());
    assert!(Image::new(2, 2, vec![rgba(0, 0, 0, 0); 5]).is_none());
    assert!(Image::new(0, 3, vec![rgba(0, 0, 0, 0)]).is_none());
    assert!(Image::new(2, 2, vec![rgba(0, 0, 0, 0); 4]).is_some());
    assert!(Image::new(0, 0, Vec::new()).is_some());
    assert!(Image::new(5, 0, Vec::new()).is_some());
}

#[test]
fn accessors_report_dimensions_and_colors() {
    let img = sample_3x2();
    assert_eq!(img.width(), 3);
    assert_eq!(img.height(), 2);
    assert_eq!(img.colors().len(), 6);
    assert_eq!(img.colors()[4], rgba(4, 40, 104, 255));
}

#[test]
fn pixel_at_negative_coordinates_is_absent() {
    let img = sample_3x2();
    for (x, y) in [(-1, 0), (0, -1), (-1, -1), (i32::MIN, 0), (0, i32::MIN), (-3, 1)] {
        assert!(img.pixel_at(x, y).is_none());
    }
}

#[test]
fn pixel_at_past_the_edge_is_absent() {
    let img = sample_3x2();
    assert!(img.pixel_at(3, 0).is_none());
    assert!(img.pixel_at(0, 2).is_none());
    assert!(img.pixel_at(i32::MAX, i32::MAX).is_none());
    let empty = Image::new(0, 0, Vec::new()).unwrap();
    assert!(empty.pixel_at(0, 0).is_none());
}

#[test]
fn pixel_at_reads_row_major_index() {
    let img = sample_3x2();
    for y in 0..2i32 {
        for x in 0..3i32 {
            let i = (y * 3 + x) as u8;
            let p = img.pixel_at(x, y).unwrap();
            assert_eq!(p, ImagePixel { x: x as u32, y: y as u32, color: rgba(i, 10 * i, 100 + i, 255) });
        }
    }
}

#[test]
fn lookup_takes_wide_coordinates() {
    let img = sample_3x2();
    assert_eq!(img.lookup(2, 1).unwrap().color, rgba(5, 50, 105, 255));
    assert!(img.lookup(i64::MIN, 0).is_none());
    assert!(img.lookup(1 << 40, 0).is_none());
    assert!(img.lookup(0, 1 << 40).is_none());
}

#[test]
fn index_to_coords_divides_by_width() {
    let img = sample_3x2();
    assert_eq!(img.index_to_coords(0), (0, 0));
    assert_eq!(img.index_to_coords(2), (2, 0));
    assert_eq!(img.index_to_coords(3), (0, 1));
    assert_eq!(img.index_to_coords(5), (2, 1));
}

#[test]
fn pixels_enumerates_row_major_once_each() {
    let img = sample_3x2();
    let all = img.pixels();
    assert_eq!(all.len(), 6);
    let coords: Vec<(u32, u32)> = all.iter().map(|p| (p.x, p.y)).collect();
    assert_eq!(coords, vec![(0, 0), (1, 0), (2, 0), (0, 1), (1, 1), (2, 1)]);
    for (i, p) in all.iter().enumerate() {
        assert_eq!(p.color, img.colors()[i]);
    }
}

#[test]
fn pixels_of_empty_image_is_empty() {
    let img = Image::new(4, 0, Vec::new()).unwrap();
    assert!(img.pixels().is_empty());
    let img = Image::new(0, 4, Vec::new()).unwrap();
    assert!(img.pixels().is_empty());
}
