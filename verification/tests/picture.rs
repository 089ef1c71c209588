use dymo_print::color_map::DynamicBiLevel;
use dymo_print::error::LabelError;
use dymo_print::picture::{
    convert_memory_bw_image, convert_to_bw, decode_image, encode_png, prepare_image, LumaImage,
    Pixels, PrintableImage, SourceImage,
};

fn luma_source(width: u32, height: u32, f: impl Fn(u32, u32) -> u8) -> SourceImage {
    let mut v = Vec::new();
    for y in 0..height {
        for x in 0..width {
            v.push(f(x, y));
        }
    }
    SourceImage { width, height, has_alpha: false, pixels: Pixels::Luma(v) }
}

#[test]
fn bilevel_index_and_map() {
    let m = DynamicBiLevel { threshold: 128 };
    assert_eq!(m.index_of(128), 0);
    assert_eq!(m.index_of(129), 1);
    assert_eq!(m.index_of(0), 0);
    assert_eq!(m.index_of(255), 1);
    let mut c = 200u8;
    m.map_color(&mut c);
    assert_eq!(c, 255);
    let mut c = 100u8;
    m.map_color(&mut c);
    assert_eq!(c, 0);
    let all_black = DynamicBiLevel { threshold: 255 };
    let mut c = 255u8;
    all_black.map_color(&mut c);
    assert_eq!(c, 0);
}

#[test]
fn printable_rows_pack_dark_pixels_msb_first() {
    // 64 wide, 2 high: row 0 has dark pixels at 0 and 9, row 1 all white
    let mut pixels = vec![255u8; 128];
    pixels[0] = 0;
    pixels[9] = 17;
    let img = LumaImage { width: 64, height: 2, pixels };
    let p = PrintableImage::printable_from_grey(&img).ok().unwrap();
    assert_eq!(p.data.len(), 2);
    assert_eq!(p.data[0], [0x80, 0x40, 0, 0, 0, 0, 0, 0]);
    assert_eq!(p.data[1], [0; 8]);
}

#[test]
fn printable_narrow_rows_pad_with_blank_dots() {
    // 60 pixels wide, all black: the last four dots of the line stay blank
    let img = LumaImage { width: 60, height: 1, pixels: vec![0u8; 60] };
    let p = PrintableImage::printable_from_grey(&img).ok().unwrap();
    assert_eq!(p.data[0], [0xff, 0xff, 0xff, 0xff, 0xff, 0xff, 0xff, 0xf0]);
}

#[test]
fn printable_wide_rows_keep_first_64_columns() {
    let mut pixels = vec![255u8; 70];
    pixels[63] = 0;
    pixels[64] = 0;
    let img = LumaImage { width: 70, height: 1, pixels };
    let p = PrintableImage::printable_from_grey(&img).ok().unwrap();
    assert_eq!(p.data[0], [0, 0, 0, 0, 0, 0, 0, 0x01]);
}

#[test]
fn printable_empty_image() {
    let img = LumaImage { width: 3, height: 0, pixels: vec![] };
    let p = PrintableImage::printable_from_grey(&img).ok().unwrap();
    assert!(p.data.is_empty());
}

#[test]
fn preview_draws_blocks_and_spaces() {
    let p = PrintableImage { data: vec![[0x80, 0, 0, 0, 0, 0, 0, 0x01], [0xff; 8]] };
    let s = p.preview();
    let lines: Vec<&str> = s.split('\n').collect();
    assert_eq!(lines.len(), 3);
    assert_eq!(lines[2], "");
    let first: Vec<char> = lines[0].chars().collect();
    assert_eq!(first.len(), 64);
    assert_eq!(first[0], '\u{2588}');
    assert!(first[1..63].iter().all(|&c| c == ' '));
    assert_eq!(first[63], '\u{2588}');
    assert_eq!(lines[1], "\u{2588}".repeat(64));
    assert_eq!(s.chars().count(), 2 * 65);
    let empty = PrintableImage { data: vec![] };
    assert_eq!(empty.preview(), "");
}

#[test]
fn convert_keeps_a_64_wide_picture() {
    let img = luma_source(64, 2, |x, y| if x == 5 && y == 1 { 10 } else { 200 });
    let bw = convert_to_bw(&img, 128).ok().unwrap();
    assert_eq!((bw.width, bw.height), (64, 2));
    assert_eq!(bw.pixels[64 + 5], 0);
    assert_eq!(bw.pixels.iter().filter(|&&p| p == 255).count(), 127);
}

#[test]
fn convert_turns_a_64_high_picture() {
    // 3 wide, 64 high: pixel (0, 0) is dark; after a quarter turn clockwise
    // it lands at (63, 0) of the 64 wide, 3 high picture.
    let img = luma_source(3, 64, |x, y| if x == 0 && y == 0 { 0 } else { 255 });
    let bw = convert_to_bw(&img, 128).ok().unwrap();
    assert_eq!((bw.width, bw.height), (64, 3));
    assert_eq!(bw.pixels[63], 0);
    assert_eq!(bw.pixels.iter().filter(|&&p| p == 0).count(), 1);
}

#[test]
fn convert_refuses_other_sizes() {
    let img = luma_source(10, 20, |_, _| 0);
    match convert_to_bw(&img, 128) {
        Err(LabelError::Dimensions { width, height }) => assert_eq!((width, height), (10, 20)),
        _ => panic!("expected a dimension error"),
    }
}

#[test]
fn convert_refuses_transparency() {
    let img = SourceImage {
        width: 64,
        height: 1,
        has_alpha: true,
        pixels: Pixels::Rgba(vec![0u8; 256]),
    };
    assert!(matches!(convert_to_bw(&img, 128), Err(LabelError::Transparency)));
    assert!(matches!(prepare_image(&img), Err(LabelError::Transparency)));
}

#[test]
fn convert_rgba_uses_luma_of_colour() {
    // pure white and pure black pixels, no transparency flag
    let mut v = Vec::new();
    for x in 0..64 {
        let c = if x < 32 { 255 } else { 0 };
        v.extend_from_slice(&[c, c, c, 255]);
    }
    let img = SourceImage { width: 64, height: 1, has_alpha: false, pixels: Pixels::Rgba(v) };
    let bw = convert_to_bw(&img, 128).ok().unwrap();
    assert!(bw.pixels[..32].iter().all(|&p| p == 255));
    assert!(bw.pixels[32..].iter().all(|&p| p == 0));
}

#[test]
fn png_roundtrip_through_the_image_crate() {
    let mut pixels = vec![255u8; 64 * 4];
    pixels[70] = 0;
    let img = LumaImage { width: 64, height: 4, pixels };
    let png = encode_png(&img).ok().unwrap();
    assert_eq!(&png[1..4], b"PNG");
    let back = decode_image(&png).ok().unwrap();
    assert_eq!((back.width, back.height, back.has_alpha), (64, 4, false));
    match back.pixels {
        Pixels::Luma(v) => assert_eq!(v, img.pixels),
        _ => panic!("expected a grey picture"),
    }
    let bw = convert_memory_bw_image(&png, 128).ok().unwrap();
    assert_eq!(bw.pixels, img.pixels);
}

#[test]
fn decoding_garbage_fails() {
    match decode_image(b"not a picture") {
        Err(LabelError::Image { message }) => assert!(!message.is_empty()),
        _ => panic!("expected an image error"),
    }
    assert!(matches!(
        convert_memory_bw_image(b"not a picture", 128),
        Err(LabelError::Image { .. })
    ));
}

#[test]
fn label_pipeline_end_to_end() {
    let img = luma_source(64, 2, |x, _| if x < 8 { 0 } else { 255 });
    let bw = convert_to_bw(&img, 128).ok().unwrap();
    let p = PrintableImage::printable_from_grey(&bw).ok().unwrap();
    assert_eq!(p.data, vec![[0xff, 0, 0, 0, 0, 0, 0, 0]; 2]);
    let c = dymo_print::command_accumulator::print_commands(&p);
    assert_eq!(c.len(), 129 + 18);
    assert_eq!(c[68], 0x16);
    assert_eq!(c[69..77], [0xff, 0, 0, 0, 0, 0, 0, 0]);
}

#[test]
fn sixteen_bit_grey_keeps_its_grey_level() {
    // a 64 wide, 1 high, 16-bit grey PNG whose pixels are all 124 * 256
    let mut data = Vec::new();
    for _ in 0..64 {
        data.extend_from_slice(&[0x7c, 0x00]);
    }
    let mut png = Vec::new();
    image::codecs::png::PngEncoder::new(&mut png)
        .encode(&data, 64, 1, image::ColorType::L16)
        .unwrap();
    let img = decode_image(&png).ok().unwrap();
    assert!(matches!(img.pixels, Pixels::Luma(_)));
    let bw = convert_to_bw(&img, 123).ok().unwrap();
    assert!(bw.pixels.iter().all(|&p| p == 255));
}

#[test]
fn whitespace_surrounds_the_label() {
    let p = PrintableImage { data: vec![[0xff; 8]] };
    let c = dymo_print::command_accumulator::print_commands(&p);
    assert_eq!(c[6..9], [0x1b, 0x44, 0]);
    assert_eq!(c[65..68], [0x1b, 0x44, 8]);
    assert_eq!(c[77..80], [0x1b, 0x44, 0]);
}

#[test]
fn sixteen_bit_colour_is_weighed_at_sixteen_bits() {
    // a 64 wide, 1 high, 16-bit RGB PNG of pure green: grey 183 after the
    // 16-bit weighing, so it is white at threshold 182
    let mut data = Vec::new();
    for _ in 0..64 {
        data.extend_from_slice(&[0, 0, 0xff, 0xff, 0, 0]);
    }
    let mut png = Vec::new();
    image::codecs::png::PngEncoder::new(&mut png)
        .encode(&data, 64, 1, image::ColorType::Rgb16)
        .unwrap();
    let img = decode_image(&png).ok().unwrap();
    assert!(matches!(img.pixels, Pixels::Rgb16(_)));
    let bw = convert_to_bw(&img, 182).ok().unwrap();
    assert!(bw.pixels.iter().all(|&p| p == 255));
    let bw = convert_to_bw(&img, 183).ok().unwrap();
    assert!(bw.pixels.iter().all(|&p| p == 0));
}

#[test]
fn sixteen_bit_colour_is_turned() {
    // 2 wide, 64 high 16-bit RGB picture: only pixel (0, 0) is black
    let mut v = vec![u16::MAX; 2 * 64 * 3];
    v[0] = 0;
    v[1] = 0;
    v[2] = 0;
    let img = SourceImage { width: 2, height: 64, has_alpha: false, pixels: Pixels::Rgb16(v) };
    let bw = convert_to_bw(&img, 128).ok().unwrap();
    assert_eq!((bw.width, bw.height), (64, 2));
    assert_eq!(bw.pixels[63], 0);
    assert_eq!(bw.pixels.iter().filter(|&&p| p == 0).count(), 1);
}
