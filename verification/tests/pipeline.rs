use pixelart::color::quantize;
use pixelart::downsample::image_to_low_res;
use pixelart::pixel_size::PixelSize;
use pixelart::raster::Image;
use pixelart::raster::Rgb;
use pixelart::render::pixels_to_ansi;

fn solid(width: u32, height: u32, p: Rgb) -> Image {
    let mut pixels = Vec::new();
    for _ in 0..(width as usize) * (height as usize) {
        pixels.push(p);
    }
    Image { width, height, pixels }
}

/// An image whose pixel at flat index `i` has red channel `i`, for telling
/// sampled positions apart.
fn numbered(width: u32, height: u32) -> Image {
    let mut pixels = Vec::new();
    for i in 0..(width as usize) * (height as usize) {
        pixels.push(Rgb { r: i as u8, g: 0, b: 0 });
    }
    Image { width, height, pixels }
}

#[test]
fn quantize_black_is_16() {
    assert_eq!(quantize(0, 0, 0), 16);
}

#[test]
fn quantize_white_is_231() {
    assert_eq!(quantize(255, 255, 255), 231);
}

#[test]
fn quantize_pure_red_is_196() {
    assert_eq!(quantize(255, 0, 0), 196);
}

#[test]
fn quantize_pure_blue_is_21() {
    assert_eq!(quantize(0, 0, 255), 21);
}

#[test]
fn quantize_monotonic_in_each_channel() {
    for lo in [0u8, 42, 43, 128, 254] {
        let hi = lo + 1;
        assert!(quantize(lo, 7, 7) <= quantize(hi, 7, 7));
        assert!(quantize(7, lo, 7) <= quantize(7, hi, 7));
        assert!(quantize(7, 7, lo) <= quantize(7, 7, hi));
    }
}

#[test]
fn downsample_block_one_is_identity() {
    let img = numbered(4, 3);
    let out = image_to_low_res(&img, 1);
    assert_eq!(out.width, 4);
    assert_eq!(out.height, 3);
    assert_eq!(out.pixels, img.pixels);
}

#[test]
fn downsample_block_beyond_width_is_empty() {
    let img = numbered(4, 3);
    let out = image_to_low_res(&img, 5);
    assert_eq!(out.width, 0);
    assert_eq!(out.pixels.len(), 0);
}

#[test]
fn downsample_uses_flattened_index_sampling() {
    // 5x5 source, block size 2: the flattened counter re-decomposed against
    // the source width picks indices 0, 2, 4 and 11 -- index 4 still lies in
    // source row 0, which per-axis block sampling would never pick.
    let img = numbered(5, 5);
    let out = image_to_low_res(&img, 2);
    assert_eq!(out.width, 2);
    assert_eq!(out.height, 2);
    let reds: Vec<u8> = out.pixels.iter().map(|p| p.r).collect();
    assert_eq!(reds, vec![0, 2, 4, 11]);
}

#[test]
fn downsample_dimensions_divide() {
    let img = numbered(7, 5);
    let out = image_to_low_res(&img, 2);
    assert_eq!(out.width, 3);
    assert_eq!(out.height, 2);
    assert_eq!(out.pixels.len(), 6);
}

#[test]
fn sequence_from_4_width_10() {
    let mut sizes = PixelSize::new(4, 10);
    assert_eq!(sizes.next(), Some(4));
    assert_eq!(sizes.next(), Some(8));
    assert_eq!(sizes.next(), None);
    assert_eq!(sizes.next(), None);
}

#[test]
fn sequence_from_3_width_20() {
    let mut sizes = PixelSize::new(3, 20);
    assert_eq!(sizes.next(), Some(3));
    assert_eq!(sizes.next(), Some(9));
    assert_eq!(sizes.next(), None);
}

#[test]
fn sequence_empty_when_start_exceeds_width() {
    let mut sizes = PixelSize::new(11, 10);
    assert_eq!(sizes.next(), None);
}

#[test]
fn render_single_red_pixel() {
    let img = solid(1, 1, Rgb { r: 255, g: 0, b: 0 });
    let s = pixels_to_ansi(&img);
    assert_eq!(s, "\n\x1b[38;5;196m\u{2588}\u{2588}");
}

#[test]
fn render_empty_image_is_empty_string() {
    let img = Image { width: 0, height: 3, pixels: Vec::new() };
    let s = pixels_to_ansi(&img);
    assert_eq!(s, "");
}

#[test]
fn render_reparse_matches_downsampled_shape() {
    let img = numbered(7, 5);
    let out = image_to_low_res(&img, 2);
    let s = pixels_to_ansi(&out);
    assert!(s.starts_with('\n'));
    let lines: Vec<&str> = s.split('\n').skip(1).collect();
    assert_eq!(lines.len(), out.height() as usize);
    for line in lines {
        let glyphs = line.matches('\u{2588}').count();
        assert_eq!(glyphs as u32, 2 * out.width());
        let escapes = line.matches('\x1b').count();
        assert_eq!(escapes as u32, out.width());
    }
}

#[test]
fn get_pixel_reads_row_major() {
    let img = numbered(4, 3);
    assert_eq!(img.get_pixel(0, 0).r, 0);
    assert_eq!(img.get_pixel(2, 1).r, 6);
    assert_eq!(img.get_pixel(3, 2).r, 11);
}

#[test]
fn solid_blue_first_frame() {
    let img = solid(100, 100, Rgb { r: 0, g: 0, b: 255 });
    let mut sizes = PixelSize::new(5, img.width);
    let first = sizes.next();
    assert_eq!(first, Some(5));
    let out = image_to_low_res(&img, 5);
    assert_eq!(out.width, 20);
    assert_eq!(out.height, 20);
    let s = pixels_to_ansi(&out);
    let lines: Vec<&str> = s.split('\n').skip(1).collect();
    assert_eq!(lines.len(), 20);
    let cell = "\x1b[38;5;21m\u{2588}\u{2588}";
    for line in lines {
        assert_eq!(line, cell.repeat(20));
    }
}
