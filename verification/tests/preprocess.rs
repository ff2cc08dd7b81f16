use model_inference::error::EngineError;
use model_inference::decoder::{ResampleFilter, Resampling};
use model_inference::preprocess::{
    normalize, preprocess, resampling_for_input, PreprocessedTensor, RgbRaster, CHANNELS,
    INPUT_HEIGHT, INPUT_WIDTH,
};

fn png(width: u32, height: u32, colour: [u8; 3]) -> Vec<u8> {
    let img = image::RgbImage::from_pixel(width, height, image::Rgb(colour));
    encode(image::DynamicImage::ImageRgb8(img), image::ImageFormat::Png)
}

fn encode(img: image::DynamicImage, format: image::ImageFormat) -> Vec<u8> {
    let mut out = std::io::Cursor::new(Vec::new());
    img.write_to(&mut out, format).unwrap();
    out.into_inner()
}

fn plane(tensor: &PreprocessedTensor, c: usize) -> &[i32] {
    let size = (INPUT_HEIGHT * INPUT_WIDTH) as usize;
    &tensor.numerators()[c * size..(c + 1) * size]
}

#[test]
fn a_raster_needs_three_samples_for_each_pixel() {
    assert!(RgbRaster::from_raw(2, 1, vec![0; 6]).is_some());
    assert!(RgbRaster::from_raw(2, 1, vec![0; 5]).is_none());
    assert!(RgbRaster::from_raw(2, 1, vec![0; 7]).is_none());
    assert!(RgbRaster::from_raw(0, 9, Vec::new()).is_some());
    assert!(RgbRaster::from_raw(0, 0, vec![1]).is_none());
    assert!(RgbRaster::from_raw(u32::MAX, u32::MAX, vec![0; 3]).is_none());
}

#[test]
fn a_raster_keeps_what_it_was_made_of() {
    let raster = RgbRaster::from_raw(1, 2, vec![1, 2, 3, 4, 5, 6]).unwrap();
    assert_eq!(raster.width(), 1);
    assert_eq!(raster.height(), 2);
    assert_eq!(raster.pixels(), &vec![1, 2, 3, 4, 5, 6]);
}

#[test]
fn the_denominators_are_255_times_the_deviation() {
    assert_eq!(PreprocessedTensor::denominator(0), 58395);
    assert_eq!(PreprocessedTensor::denominator(1), 57120);
    assert_eq!(PreprocessedTensor::denominator(2), 57375);
}

#[test]
fn samples_are_normalized_by_the_formula() {
    let raster = RgbRaster::from_raw(1, 1, vec![255, 128, 0]).unwrap();
    let tensor = normalize(&raster);
    assert_eq!(tensor.shape(), (3, 1, 1));
    assert_eq!(tensor.numerators(), &vec![131325, 11720, -103530]);
}

#[test]
fn a_normalized_value_is_the_fraction_of_the_formula() {
    let means = [0.485f64, 0.456, 0.406];
    let deviations = [0.229f64, 0.224, 0.225];
    for v in [0u8, 1, 17, 127, 128, 254, 255] {
        let raster = RgbRaster::from_raw(1, 1, vec![v, v, v]).unwrap();
        let tensor = normalize(&raster);
        for c in 0..3 {
            let exact = tensor.numerator(c, 0, 0) as f64
                / PreprocessedTensor::denominator(c) as f64;
            let formula = (v as f64 / 255.0 - means[c]) / deviations[c];
            assert!((exact - formula).abs() < 1e-12, "v = {}, c = {}", v, c);
        }
    }
}

#[test]
fn a_black_sample_is_minus_mean_by_deviation() {
    let raster = RgbRaster::from_raw(1, 1, vec![0, 0, 0]).unwrap();
    let tensor = normalize(&raster);
    assert_eq!(tensor.numerators(), &vec![-255 * 485, -255 * 456, -255 * 406]);
    assert_eq!(tensor.numerator(0, 0, 0) * 229, -485 * PreprocessedTensor::denominator(0));
    assert_eq!(tensor.numerator(1, 0, 0) * 224, -456 * PreprocessedTensor::denominator(1));
    assert_eq!(tensor.numerator(2, 0, 0) * 225, -406 * PreprocessedTensor::denominator(2));
}

#[test]
fn the_tensor_holds_one_plane_for_each_channel() {
    // Two rows of three pixels; sample = 10 * row + column, plus 100 per channel.
    let mut samples = Vec::new();
    for y in 0..2u8 {
        for x in 0..3u8 {
            for c in 0..3u8 {
                samples.push(100 * c + 10 * y + x);
            }
        }
    }
    let raster = RgbRaster::from_raw(3, 2, samples).unwrap();
    let tensor = normalize(&raster);
    assert_eq!(tensor.shape(), (3, 2, 3));
    assert_eq!(tensor.numerators().len(), 18);
    let means = [485, 456, 406];
    for c in 0..3usize {
        for y in 0..2usize {
            for x in 0..3usize {
                let v = (100 * c + 10 * y + x) as i32;
                let expected = 1000 * v - 255 * means[c];
                assert_eq!(tensor.numerator(c, y, x), expected);
                assert_eq!(tensor.numerators()[c * 6 + y * 3 + x], expected);
            }
        }
    }
}

#[test]
fn an_empty_raster_gives_an_empty_tensor() {
    let raster = RgbRaster::from_raw(0, 4, Vec::new()).unwrap();
    let tensor = normalize(&raster);
    assert_eq!(tensor.shape(), (3, 4, 0));
    assert!(tensor.numerators().is_empty());
}

#[test]
fn an_image_of_the_input_size_is_taken_as_it_is() {
    let tensor = preprocess("png", &png(INPUT_WIDTH, INPUT_HEIGHT, [255, 128, 0])).unwrap();
    assert_eq!(tensor.shape(), (CHANNELS, 224, 224));
    assert!(plane(&tensor, 0).iter().all(|n| *n == 131325));
    assert!(plane(&tensor, 1).iter().all(|n| *n == 11720));
    assert!(plane(&tensor, 2).iter().all(|n| *n == -103530));
}

#[test]
fn every_image_is_stretched_to_the_input_size() {
    for (width, height) in [(1, 1), (10, 3), (3, 10), (224, 10), (500, 300), (7, 449)] {
        let tensor = preprocess("png", &png(width, height, [9, 9, 9])).unwrap();
        assert_eq!(tensor.shape(), (3, 224, 224), "for {}x{}", width, height);
        assert_eq!(tensor.numerators().len(), 3 * 224 * 224);
    }
}

#[test]
fn a_black_image_is_black_after_resampling() {
    let tensor = preprocess("png", &png(17, 5, [0, 0, 0])).unwrap();
    assert!(plane(&tensor, 0).iter().all(|n| *n == -255 * 485));
    assert!(plane(&tensor, 1).iter().all(|n| *n == -255 * 456));
    assert!(plane(&tensor, 2).iter().all(|n| *n == -255 * 406));
}

#[test]
fn every_entry_is_the_numerator_of_some_sample() {
    let mut img = image::RgbImage::new(31, 19);
    for (x, y, pixel) in img.enumerate_pixels_mut() {
        *pixel = image::Rgb([(x * 8) as u8, (y * 13) as u8, (x * y) as u8]);
    }
    let bytes = encode(image::DynamicImage::ImageRgb8(img), image::ImageFormat::Png);
    let tensor = preprocess("png", &bytes).unwrap();
    let means = [485, 456, 406];
    for c in 0..3 {
        for n in plane(&tensor, c) {
            let scaled = n + 255 * means[c];
            assert_eq!(scaled % 1000, 0);
            assert!((0..=255).contains(&(scaled / 1000)));
        }
    }
}

#[test]
fn a_grey_image_has_three_equal_channels() {
    let img = image::GrayImage::from_pixel(224, 224, image::Luma([77]));
    let bytes = encode(image::DynamicImage::ImageLuma8(img), image::ImageFormat::Png);
    let tensor = preprocess("png", &bytes).unwrap();
    assert!(plane(&tensor, 0).iter().all(|n| *n == 77000 - 255 * 485));
    assert!(plane(&tensor, 1).iter().all(|n| *n == 77000 - 255 * 456));
    assert!(plane(&tensor, 2).iter().all(|n| *n == 77000 - 255 * 406));
}

#[test]
fn the_extension_names_the_format() {
    let img = image::RgbImage::from_pixel(224, 224, image::Rgb([1, 2, 3]));
    for (extension, format) in [
        ("bmp", image::ImageFormat::Bmp),
        ("tga", image::ImageFormat::Tga),
        ("qoi", image::ImageFormat::Qoi),
        ("tiff", image::ImageFormat::Tiff),
        ("tif", image::ImageFormat::Tiff),
        ("ppm", image::ImageFormat::Pnm),
        ("png", image::ImageFormat::Png),
        ("apng", image::ImageFormat::Png),
    ] {
        let bytes = encode(image::DynamicImage::ImageRgb8(img.clone()), format);
        let tensor = preprocess(extension, &bytes).unwrap();
        assert_eq!(tensor.numerators()[0], 1000 - 255 * 485, "for {}", extension);
        assert_eq!(plane(&tensor, 2)[0], 3000 - 255 * 406, "for {}", extension);
    }
}

#[test]
fn the_case_of_the_extension_does_not_matter() {
    let bytes = png(8, 8, [4, 5, 6]);
    for extension in ["png", "PNG", "Png", "pNg"] {
        assert!(preprocess(extension, &bytes).is_ok(), "for {}", extension);
    }
}

#[test]
fn the_content_does_not_choose_the_format() {
    let bytes = png(8, 8, [4, 5, 6]);
    for extension in ["jpg", "jpeg", "bmp", "webp", "gif", "tga"] {
        assert!(
            matches!(preprocess(extension, &bytes), Err(EngineError::Decode(_))),
            "for {}",
            extension
        );
    }
}

#[test]
fn an_extension_that_names_no_format_is_a_decode_error() {
    let bytes = png(8, 8, [4, 5, 6]);
    for extension in ["", "txt", "pngx", ".png", "p ng", "圖"] {
        match preprocess(extension, &bytes) {
            Err(EngineError::Decode(reason)) => {
                assert_eq!(reason, format!("不支持的圖像格式: {}", extension))
            }
            other => panic!("unexpected: {:?}", other.map(|tensor| tensor.shape())),
        }
    }
}

#[test]
fn a_format_without_a_decoder_is_a_decode_error() {
    let bytes = png(8, 8, [4, 5, 6]);
    for extension in ["avif", "exr", "dds", "hdr", "ff"] {
        match preprocess(extension, &bytes) {
            Err(EngineError::Decode(reason)) => {
                assert_ne!(reason, format!("不支持的圖像格式: {}", extension))
            }
            other => panic!("unexpected: {:?}", other.map(|tensor| tensor.shape())),
        }
    }
}

#[test]
fn images_are_resampled_to_the_input_size_with_lanczos() {
    assert_eq!(
        resampling_for_input(),
        Resampling { width: 224, height: 224, filter: ResampleFilter::Lanczos3 }
    );
}

#[test]
fn resampling_is_that_of_the_lanczos_filter() {
    let mut img = image::RgbImage::new(9, 7);
    for (x, y, pixel) in img.enumerate_pixels_mut() {
        *pixel = image::Rgb([(x * 28) as u8, (y * 36) as u8, ((x + y) * 15) as u8]);
    }
    let expected = image::DynamicImage::ImageRgb8(img.clone())
        .resize_exact(224, 224, image::imageops::FilterType::Lanczos3)
        .to_rgb8();
    let nearest = image::DynamicImage::ImageRgb8(img.clone())
        .resize_exact(224, 224, image::imageops::FilterType::Nearest)
        .to_rgb8();
    assert_ne!(expected.as_raw(), nearest.as_raw());
    let bytes = encode(image::DynamicImage::ImageRgb8(img), image::ImageFormat::Png);
    let tensor = preprocess("png", &bytes).unwrap();
    let raster = RgbRaster::from_raw(224, 224, expected.into_raw()).unwrap();
    assert_eq!(tensor.numerators(), normalize(&raster).numerators());
}

#[test]
fn bytes_that_are_no_image_are_a_decode_error() {
    for bytes in [&b""[..], b"not an image", &[0x89, b'P', b'N', b'G'], &[0u8; 64]] {
        match preprocess("png", bytes) {
            Err(EngineError::Decode(reason)) => assert!(!reason.is_empty()),
            other => panic!("unexpected: {:?}", other.map(|tensor| tensor.shape())),
        }
    }
}

#[test]
fn a_cut_off_image_is_a_decode_error() {
    let bytes = png(40, 40, [5, 6, 7]);
    let cut = &bytes[..bytes.len() / 2];
    assert!(matches!(preprocess("png", cut), Err(EngineError::Decode(_))));
}

#[test]
fn an_image_of_the_input_size_is_normalized_sample_by_sample() {
    let mut img = image::RgbImage::new(224, 224);
    for (x, y, pixel) in img.enumerate_pixels_mut() {
        *pixel = image::Rgb([x as u8, y as u8, (x ^ y) as u8]);
    }
    let bytes = encode(image::DynamicImage::ImageRgb8(img), image::ImageFormat::Png);
    let tensor = preprocess("png", &bytes).unwrap();
    let means = [485, 456, 406];
    for (x, y) in [(0usize, 0usize), (1, 0), (0, 1), (17, 200), (223, 223), (100, 3)] {
        let samples = [x as i32, y as i32, (x ^ y) as i32];
        for c in 0..3 {
            assert_eq!(tensor.numerator(c, y, x), 1000 * samples[c] - 255 * means[c]);
        }
    }
}

#[test]
fn two_tensors_of_the_same_bytes_are_equal() {
    let bytes = png(224, 224, [12, 34, 56]);
    let first = preprocess("png", &bytes).unwrap();
    let second = preprocess("png", &bytes).unwrap();
    assert_eq!(first.numerators(), second.numerators());
    let small = png(31, 7, [12, 34, 56]);
    let first = preprocess("png", &small).unwrap();
    let second = preprocess("png", &small).unwrap();
    assert_eq!(first.numerators(), second.numerators());
}
