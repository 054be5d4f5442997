use cellshow::palette::Rgb;
use cellshow::raster::{decode_image, RasterImage, RasterSampler};

/// The 2x2 checkerboard: transparent black / opaque white on the top row,
/// opaque white / transparent black on the bottom row.
fn checkerboard() -> RasterImage {
    let rgba: Vec<u8> = vec![
        0, 0, 0, 0, // (0,0): channel sum 0
        255, 255, 255, 255, // (1,0): channel sum 1020
        255, 255, 255, 255, // (0,1)
        0, 0, 0, 0, // (1,1)
    ];
    RasterImage::new(2, 2, rgba)
}

#[test]
fn sample_cell_is_none_outside_the_pixel_extent() {
    let s = RasterSampler::new(checkerboard(), Rgb::new(100, 150, 200));
    assert_eq!(s.sample_cell(2, 0), None);
    assert_eq!(s.sample_cell(0, 2), None);
    assert_eq!(s.sample_cell(7, 9), None);
}

#[test]
fn sample_cell_brightness_never_exceeds_the_ceiling() {
    let s = RasterSampler::new(checkerboard(), Rgb::new(100, 150, 200));
    for x in 0..2 {
        for y in 0..2 {
            let g = s.sample_cell(x, y).unwrap();
            assert!(g <= s.max_brightness);
        }
    }
    assert_eq!(s.max_brightness, 255);
}

#[test]
fn checkerboard_paints_tint_and_black() {
    let tint = Rgb::new(100, 150, 200);
    let s = RasterSampler::new(checkerboard(), tint);
    // the brightest cell comes through as the tint, unscaled
    assert_eq!(s.paint_cell(1, 0), Some(tint));
    assert_eq!(s.paint_cell(0, 1), Some(tint));
    // the darkest cell is black
    assert_eq!(s.paint_cell(0, 0), Some(Rgb::new(0, 0, 0)));
    assert_eq!(s.paint_cell(1, 1), Some(Rgb::new(0, 0, 0)));
    assert_eq!(s.paint_cell(2, 2), None);
}

#[test]
fn painted_grid_matches_per_cell_lookups() {
    let tint = Rgb::new(100, 150, 200);
    let s = RasterSampler::new(checkerboard(), tint);
    let grid = s.painted_grid();
    assert_eq!(grid.len(), 4);
    assert_eq!(grid[0], Rgb::new(0, 0, 0));
    assert_eq!(grid[1], tint);
    assert_eq!(grid[2], tint);
    assert_eq!(grid[3], Rgb::new(0, 0, 0));
}

#[test]
fn paint_scales_each_channel_by_the_brightness_ratio() {
    let s = RasterSampler::new(checkerboard(), Rgb::new(100, 150, 200));
    // ceiling 255, value 128: channels scale by 128/255 and truncate
    assert_eq!(s.paint(128), Rgb::new(50, 75, 100));
    assert_eq!(s.paint(0), Rgb::new(0, 0, 0));
    assert_eq!(s.paint(255), Rgb::new(100, 150, 200));
}

#[test]
fn all_black_image_paints_black_without_dividing_by_zero() {
    let img = RasterImage::new(1, 1, vec![0, 0, 0, 0]);
    let s = RasterSampler::new(img, Rgb::new(100, 150, 200));
    assert_eq!(s.max_brightness, 0);
    assert_eq!(s.paint_cell(0, 0), Some(Rgb::new(0, 0, 0)));
}

#[test]
fn decode_flips_the_image_upright() {
    // top pixel white, bottom pixel black in the encoded PNG
    let mut png = image::RgbaImage::new(1, 2);
    png.put_pixel(0, 0, image::Rgba([255, 255, 255, 255]));
    png.put_pixel(0, 1, image::Rgba([0, 0, 0, 255]));
    let mut bytes: Vec<u8> = Vec::new();
    png.write_to(&mut std::io::Cursor::new(&mut bytes), image::ImageFormat::Png)
        .unwrap();

    let img = decode_image(&bytes).unwrap();
    assert_eq!(img.width, 1);
    assert_eq!(img.height, 2);
    // after the vertical flip, row 0 holds the black pixel: (0+0+0+255)/4
    assert_eq!(img.grey_value(0, 0), 63);
    assert_eq!(img.grey_value(0, 1), 255);
}

#[test]
fn decode_rejects_bytes_that_are_no_image() {
    let r = decode_image(&[0x13, 0x37, 0x00, 0x42]);
    assert!(r.is_err());
    assert!(!r.err().unwrap().message.is_empty());
}
