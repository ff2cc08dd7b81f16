//! Decoding and resampling of raster images, done by the `image` crate.
//!
//! Nothing in this file is proved: each item states what the `image` crate
//! is relied on to do.

use vstd::prelude::*;
use crate::preprocess::RgbRaster;

verus! {

/// A decoded image of any colour type, as the `image` crate holds it.
#[verifier::external_type_specification]
#[verifier::external_body]
pub struct ExDynamicImage(image::DynamicImage);

/// The error of the `image` crate.
#[verifier::external_type_specification]
#[verifier::external_body]
pub struct ExImageError(image::ImageError);

/// A format of encoded images, as the `image` crate names it.
#[verifier::external_type_specification]
#[verifier::external_body]
pub struct ExImageFormat(image::ImageFormat);

/// The format that `ImageFormat::from_extension` gives for a file
/// extension, or `None` where it knows none of that extension.
pub uninterp spec fn extension_format(extension: Seq<char>) -> Option<image::ImageFormat>;

/// The image that `image::load_from_memory_with_format` decodes from the
/// bytes `content` as one of the given format, or `None` where it fails.
pub uninterp spec fn decoded_image(content: Seq<u8>, format: image::ImageFormat) -> Option<
    image::DynamicImage,
>;

/// The samples of an image as `DynamicImage::to_rgb8` gives them: row by
/// row, three for each pixel.
pub uninterp spec fn rgb8_samples(img: image::DynamicImage) -> Seq<u8>;

/// The image that the bytes `content` decode to by the format that the
/// extension names, or `None` where the extension names no format or the
/// bytes are no image of it.
pub open spec fn image_of(extension: Seq<char>, content: Seq<u8>) -> Option<image::DynamicImage> {
    match extension_format(extension) {
        Some(format) => decoded_image(content, format),
        None => None,
    }
}

/// Whether the bytes `content` decode as an image of the format that the
/// extension names.
pub open spec fn image_decodes(extension: Seq<char>, content: Seq<u8>) -> bool {
    image_of(extension, content) is Some
}

/// Width and height of an image, in pixels.
pub uninterp spec fn image_dimensions(img: image::DynamicImage) -> (nat, nat);

/// The resampling filters of `image::imageops`.
#[derive(Debug, Clone, Copy, PartialEq, Eq, Structural)]
pub enum ResampleFilter {
    Nearest,
    Triangle,
    CatmullRom,
    Gaussian,
    Lanczos3,
}

/// `ImageFormat::from_extension`: the format that goes by a file
/// extension, whatever the case of its letters, from a table that is built
/// into the `image` crate. It reads nothing but the extension, so the
/// result depends on the extension alone.
#[verifier::external_body]
pub(crate) fn format_of_extension(extension: &str) -> (format: Option<image::ImageFormat>)
    ensures
        format == extension_format(extension@),
{
    image::ImageFormat::from_extension(extension)
}

/// `image::load_from_memory_with_format`: decodes an encoded image with the
/// decoder that is built in for the given format, under the crate's default
/// limits. It guesses nothing and asks no hook that a process may have
/// registered, so whether it succeeds, and the image it gives, depend on
/// the bytes and the format alone.
#[verifier::external_body]
pub(crate) fn decode_as(content: &[u8], format: image::ImageFormat) -> (decoded: Result<
    image::DynamicImage,
    image::ImageError,
>)
    ensures
        match decoded {
            Ok(img) => decoded_image(content@, format) == Some(img),
            Err(_) => decoded_image(content@, format) is None,
        },
{
    image::load_from_memory_with_format(content, format)
}

/// How an image is resampled: to which size, and with which filter.
#[derive(Debug, Clone, Copy, PartialEq, Eq, Structural)]
pub struct Resampling {
    pub width: u32,
    pub height: u32,
    pub filter: ResampleFilter,
}

/// `DynamicImage::resize_exact`: a new image of exactly the given width and
/// height, resampled without regard to the aspect ratio. An image that has
/// the asked size already is copied, sample by sample. Of the samples of
/// any other image nothing is said: the filters are computed in floating
/// point, with functions whose last bit is not the same on every machine.
#[verifier::external_body]
pub(crate) fn resize_exact(img: &image::DynamicImage, how: Resampling) -> (resized:
    image::DynamicImage)
    ensures
        image_dimensions(resized) == (how.width as nat, how.height as nat),
        image_dimensions(*img) == (how.width as nat, how.height as nat) ==> rgb8_samples(resized)
            == rgb8_samples(*img),
{
    let Resampling { width, height, filter } = how;
    let filter = match filter {
        ResampleFilter::Nearest => image::imageops::FilterType::Nearest,
        ResampleFilter::Triangle => image::imageops::FilterType::Triangle,
        ResampleFilter::CatmullRom => image::imageops::FilterType::CatmullRom,
        ResampleFilter::Gaussian => image::imageops::FilterType::Gaussian,
        ResampleFilter::Lanczos3 => image::imageops::FilterType::Lanczos3,
    };
    img.resize_exact(width, height, filter)
}

/// `DynamicImage::to_rgb8`: the image as 8-bit RGB, of the same width and
/// height, its pixels row by row with three samples each. The samples
/// depend on the image alone.
#[verifier::external_body]
pub(crate) fn to_rgb8(img: &image::DynamicImage) -> (raster: RgbRaster)
    ensures
        raster.wf(),
        (raster.columns(), raster.rows()) == image_dimensions(*img),
        raster@ == rgb8_samples(*img),
{
    let rgb = img.to_rgb8();
    let pixels = rgb.pixels().flat_map(|pixel| pixel.0).collect();
    RgbRaster { width: rgb.width(), height: rgb.height(), pixels }
}

/// The text with which the `image` crate describes one of its errors.
#[verifier::external_body]
pub(crate) fn image_error_text(error: &image::ImageError) -> (text: String) {
    error.to_string()
}

} // verus!
