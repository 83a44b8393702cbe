use webapp::math::{build_runs, decode_png, frame_pixels, math_spans, rgb_to_rgba, MathError, PngColor, PngFrame};

#[test]
fn runs_merge_equal_neighbours_and_skip_transparent_pixels() {
    // One row: two equal opaque pixels, a transparent one, then one whose
    // coverage 7 rounds down to nothing, then coverage 250 which caps at 255.
    let pixels = [
        10, 20, 30, 255, //
        10, 20, 30, 255, //
        1, 2, 3, 0, //
        1, 2, 3, 7, //
        5, 5, 5, 250,
    ];
    let runs = build_runs(5, 1, &pixels);
    assert_eq!(runs.len(), 2);
    assert_eq!((runs[0].x, runs[0].y, runs[0].width, runs[0].rgba), (0, 0, 2, [10, 20, 30, 255]));
    assert_eq!((runs[1].x, runs[1].y, runs[1].width, runs[1].rgba), (4, 0, 1, [5, 5, 5, 255]));
}

#[test]
fn runs_quantize_coverage_to_sixteenths() {
    // 40 and 47 both round to 48, so they form a single run; 24 rounds to 32.
    let pixels = [
        9, 9, 9, 40, //
        9, 9, 9, 47, //
        9, 9, 9, 24, //
        0, 0, 0, 0, //
        9, 9, 9, 8, //
        0, 0, 0, 0,
    ];
    let runs = build_runs(3, 2, &pixels[..]);
    // Row 0: (0..2, 48), (2..3, 32); row 1: pixel (0,1) is transparent, pixel (1,1)
    // has coverage 8 which rounds to 16.
    assert_eq!(runs.len(), 3);
    assert_eq!((runs[0].x, runs[0].width, runs[0].rgba[3]), (0, 2, 48));
    assert_eq!((runs[1].x, runs[1].width, runs[1].rgba[3]), (2, 1, 32));
    assert_eq!((runs[2].x, runs[2].y, runs[2].width, runs[2].rgba[3]), (1, 1, 1, 16));
}

#[test]
fn rgb_frames_become_opaque_rgba() {
    assert_eq!(rgb_to_rgba(&[1, 2, 3, 4, 5, 6]), vec![1, 2, 3, 255, 4, 5, 6, 255]);
    assert_eq!(rgb_to_rgba(&[1, 2, 3, 4]), vec![1, 2, 3, 255]);
}

#[test]
fn frame_pixels_follow_the_color_layout() {
    let buffer = [1u8, 2, 3, 4, 5, 6, 7, 8, 99];
    let rgba = PngFrame { width: 2, height: 1, color: PngColor::Rgba, buffer_size: 8 };
    assert_eq!(frame_pixels(rgba, &buffer), Ok(vec![1, 2, 3, 4, 5, 6, 7, 8]));
    let rgb = PngFrame { width: 2, height: 1, color: PngColor::Rgb, buffer_size: 6 };
    assert_eq!(frame_pixels(rgb, &buffer), Ok(vec![1, 2, 3, 255, 4, 5, 6, 255]));
    let gray = PngFrame { width: 2, height: 1, color: PngColor::Grayscale, buffer_size: 2 };
    assert_eq!(frame_pixels(gray, &buffer), Err(MathError::UnsupportedColor(PngColor::Grayscale)));
    let too_large = PngFrame { width: 9, height: 9, color: PngColor::Rgba, buffer_size: 400 };
    assert_eq!(frame_pixels(too_large, &buffer), Err(MathError::FrameTooLarge));
}

#[test]
fn math_spans_find_inline_and_display_math() {
    assert_eq!(
        math_spans("area $\\pi r^2$ and $$x^2$$ end"),
        vec![("\\pi r^2", false), ("x^2", true)]
    );
    assert_eq!(math_spans("no math here"), Vec::<(&str, bool)>::new());
    assert_eq!(math_spans("price $5 only"), Vec::<(&str, bool)>::new());
    assert_eq!(math_spans("$$unclosed $x$"), Vec::<(&str, bool)>::new());
    assert_eq!(math_spans("$é$ $$ü$$"), vec![("é", false), ("ü", true)]);
    assert_eq!(math_spans("$$$$"), vec![("", true)]);
}

#[test]
fn drawing_the_runs_reproduces_the_visible_pixels() {
    // One row of six pixels: visible, visible (other color), hidden, visible
    // twice in one color, hidden by rounding.
    let pixels = [
        1, 1, 1, 255, //
        2, 2, 2, 255, //
        0, 0, 0, 0, //
        3, 3, 3, 128, //
        3, 3, 3, 130, //
        4, 4, 4, 7,
    ];
    let runs = build_runs(6, 1, &pixels);
    let mut drawn = [None; 6];
    for run in &runs {
        for x in run.x..run.x + run.width {
            assert!(drawn[x as usize].is_none());
            drawn[x as usize] = Some(run.rgba);
        }
    }
    assert_eq!(
        drawn,
        [Some([1, 1, 1, 255]), Some([2, 2, 2, 255]), None, Some([3, 3, 3, 128]), Some([3, 3, 3, 128]), None]
    );
}

fn encode_png(width: u32, height: u32, color: png::ColorType, data: &[u8]) -> Vec<u8> {
    let mut out = Vec::new();
    {
        let mut encoder = png::Encoder::new(&mut out, width, height);
        encoder.set_color(color);
        encoder.set_depth(png::BitDepth::Eight);
        let mut writer = encoder.write_header().unwrap();
        writer.write_image_data(data).unwrap();
    }
    out
}

#[test]
fn png_formulas_decode_to_rgba_images() {
    let rgb = encode_png(2, 1, png::ColorType::Rgb, &[1, 2, 3, 4, 5, 6]);
    let image = decode_png(&rgb, 7).unwrap();
    assert_eq!((image.width, image.height, image.baseline), (2, 1, 1));
    assert_eq!(image.pixels, vec![1, 2, 3, 255, 4, 5, 6, 255]);
    assert!(image.runs.is_empty());
    let rgba = encode_png(1, 2, png::ColorType::Rgba, &[9, 8, 7, 6, 5, 4, 3, 2]);
    let image = decode_png(&rgba, 1).unwrap();
    assert_eq!((image.width, image.height, image.baseline), (1, 2, 1));
    assert_eq!(image.pixels, vec![9, 8, 7, 6, 5, 4, 3, 2]);
    let gray = encode_png(1, 1, png::ColorType::Grayscale, &[200]);
    assert!(matches!(decode_png(&gray, 0), Err(Some(MathError::UnsupportedColor(PngColor::Grayscale)))));
    assert!(matches!(decode_png(b"not a png", 0), Err(None)));
}
