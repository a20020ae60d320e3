//! zune-png's decoding of small grayscale and RGB images, compared with the
//! `png` crate's. The images are 32 by 32, as in the PNG suite, and are
//! written by the `png` crate's encoder.
use zune_frame::frame::Frame;

fn reference_png(color: png::ColorType, depth: png::BitDepth, samples_per_pixel: usize, bits: usize) -> Vec<u8> {
    let (width, height) = (32usize, 32usize);
    let row_bytes = (width * samples_per_pixel * bits + 7) / 8;
    let data: Vec<u8> = (0..row_bytes * height)
        .map(|i| {
            let (y, x) = (i / row_bytes, i % row_bytes);
            ((x * 7 + y * 13 + (x * y) % 11) % 256) as u8
        })
        .collect();
    let mut bytes = Vec::new();
    {
        let mut encoder = png::Encoder::new(&mut bytes, width as u32, height as u32);
        encoder.set_color(color);
        encoder.set_depth(depth);
        let mut writer = encoder.write_header().unwrap();
        writer.write_image_data(&data).unwrap();
    }
    bytes
}

fn decode_ref(data: &[u8]) -> Vec<u8> {
    let transformations = png::Transformations::EXPAND;

    let mut decoder = png::Decoder::new(data);
    decoder.set_transformations(transformations);
    let mut reader = decoder.read_info().unwrap();

    let mut buf = vec![0; reader.output_buffer_size()];
    let _ = reader.next_frame(&mut buf).unwrap();

    buf
}

fn decode_zune(data: &[u8]) -> Vec<u8> {
    zune_png::PngDecoder::new(data).decode_raw().unwrap()
}

fn test_decoding(contents: Vec<u8>) {
    let zune_results = decode_zune(&contents);
    let ref_results = decode_ref(&contents);
    assert_eq!(&zune_results, &ref_results);
}

#[test]
fn test_1bpp_basic() {
    test_decoding(reference_png(png::ColorType::Grayscale, png::BitDepth::One, 1, 1));
}

#[test]
fn test_2bpp_basic() {
    test_decoding(reference_png(png::ColorType::Grayscale, png::BitDepth::Two, 1, 2));
}

#[test]
fn test_4bpp_basic() {
    test_decoding(reference_png(png::ColorType::Grayscale, png::BitDepth::Four, 1, 4));
}

#[test]
fn test_8bpp_basic() {
    test_decoding(reference_png(png::ColorType::Grayscale, png::BitDepth::Eight, 1, 8));
}

#[test]
fn test_16bpp_basic() {
    test_decoding(reference_png(png::ColorType::Grayscale, png::BitDepth::Sixteen, 1, 16));
}

#[test]
fn test_8bpp_luma_basic() {
    test_decoding(reference_png(png::ColorType::Rgb, png::BitDepth::Eight, 3, 8));
}

#[test]
fn test_16bpp_luma_basic() {
    test_decoding(reference_png(png::ColorType::Rgb, png::BitDepth::Sixteen, 3, 16));
}

#[test]
fn decoded_gray_plane_flattens_to_rgba() {
    let contents = reference_png(png::ColorType::Grayscale, png::BitDepth::Eight, 1, 8);
    let pixels = decode_zune(&contents);
    let mut frame = Frame::new(vec![zune_frame::channel::Channel::from_vec(pixels.clone())]);
    let mut out = vec![0u8; pixels.len() * 4];
    frame.flatten_rgba(zune_core::colorspace::ColorSpace::Luma, &mut out).unwrap();
    for (i, p) in pixels.iter().enumerate() {
        assert_eq!(&out[4 * i..4 * i + 4], &[*p, *p, *p, 255]);
    }
}
