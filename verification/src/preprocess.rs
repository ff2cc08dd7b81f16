//! From an encoded image to the tensor that a model takes.
//!
//! A tensor entry is the exact fraction `(v / 255 - mean) / std` of a sample
//! `v`, with the mean and the standard deviation of its channel given in
//! thousandths. Written over one denominator that is
//! `(1000 v - 255 mean) / (255 std)`: the tensor holds the numerators, and
//! the denominator is fixed for each channel.

use vstd::prelude::*;
use crate::decoder::{
    decode_as, extension_format, format_of_extension, image_decodes, image_dimensions, image_of,
    image_error_text, resize_exact, rgb8_samples, to_rgb8, ResampleFilter, Resampling,
};
use crate::error::EngineError;

verus! {

/// Channels of a tensor: red, green, blue.
pub const CHANNELS: usize = 3;

/// Height of the image that a model takes.
pub const INPUT_HEIGHT: u32 = 224;

/// Width of the image that a model takes.
pub const INPUT_WIDTH: u32 = 224;

/// Mean of a channel, in thousandths.
pub open spec fn mean_milli(c: int) -> int {
    if c == 0 {
        485
    } else if c == 1 {
        456
    } else {
        406
    }
}

/// Standard deviation of a channel, in thousandths.
pub open spec fn std_milli(c: int) -> int {
    if c == 0 {
        229
    } else if c == 1 {
        224
    } else {
        225
    }
}

/// Numerator of the normalized value of sample `v` in channel `c`.
pub open spec fn normalized_numerator(c: int, v: int) -> int {
    1000 * v - 255 * mean_milli(c)
}

/// Denominator of the normalized values of channel `c`.
pub open spec fn normalized_denominator(c: int) -> int {
    255 * std_milli(c)
}

/// The normalized value of a sample is `(v / 255 - mean) / std`: multiplied
/// out, `numerator * 255 * std == denominator * (1000 v - 255 mean)` with
/// mean and std in thousandths, and the denominator is positive.
pub proof fn lemma_normalized_value(c: int, v: int)
    requires
        0 <= c < 3,
    ensures
        normalized_denominator(c) > 0,
        normalized_numerator(c, v) * (255 * std_milli(c)) == normalized_denominator(c) * (1000 * v
            - 255 * mean_milli(c)),
{
    let n = normalized_numerator(c, v);
    let d = normalized_denominator(c);
    assert(n * d == d * n) by (nonlinear_arith);
}

/// A black sample is normalized to `-mean / std` in every channel.
pub proof fn lemma_black_sample(c: int)
    requires
        0 <= c < 3,
    ensures
        normalized_numerator(c, 0) * std_milli(c) == -mean_milli(c) * normalized_denominator(c),
{
    let m = mean_milli(c);
    let s = std_milli(c);
    assert((-255 * m) * s == -m * (255 * s)) by (nonlinear_arith);
}

/// An 8-bit RGB image: its samples row by row, three for each pixel.
#[derive(Debug)]
pub struct RgbRaster {
    pub(crate) width: u32,
    pub(crate) height: u32,
    pub(crate) pixels: Vec<u8>,
}

impl RgbRaster {
    /// Columns of the image.
    pub closed spec fn columns(&self) -> nat {
        self.width as nat
    }

    /// Rows of the image.
    pub closed spec fn rows(&self) -> nat {
        self.height as nat
    }

    /// The samples, row by row, three for each pixel.
    pub closed spec fn view(&self) -> Seq<u8> {
        self.pixels@
    }

    /// There are three samples for each pixel.
    pub open spec fn wf(&self) -> bool {
        self@.len() == 3 * self.columns() * self.rows()
    }

    /// The sample of channel `c` of the pixel in row `y` and column `x`.
    pub open spec fn sample(&self, c: int, y: int, x: int) -> u8 {
        self@[(y * self.columns() + x) * 3 + c]
    }

    /// Columns of the image.
    pub fn width(&self) -> (w: u32)
        ensures
            w == self.columns(),
    {
        self.width
    }

    /// Rows of the image.
    pub fn height(&self) -> (h: u32)
        ensures
            h == self.rows(),
    {
        self.height
    }

    /// The samples, row by row, three for each pixel.
    pub fn pixels(&self) -> (samples: &Vec<u8>)
        ensures
            samples@ == self@,
    {
        &self.pixels
    }

    /// A raster of the given size, if `pixels` holds exactly its samples.
    pub fn from_raw(width: u32, height: u32, pixels: Vec<u8>) -> (raster: Option<RgbRaster>)
        ensures
            raster is Some <==> pixels@.len() == 3 * width * height,
            raster matches Some(r) ==> r.columns() == width && r.rows() == height && r@ == pixels@
                && r.wf(),
    {
        let w = width as u128;
        let h = height as u128;
        assert(w * h <= 0xFFFF_FFFF * 0xFFFF_FFFF) by (nonlinear_arith)
            requires
                w <= 0xFFFF_FFFF,
                h <= 0xFFFF_FFFF,
        ;
        let expected: u128 = 3 * (w * h);
        assert(expected == 3 * width * height) by (nonlinear_arith)
            requires
                expected == 3 * (w * h),
                w == width,
                h == height,
        ;
        if pixels.len() as u128 == expected {
            Some(RgbRaster { width, height, pixels })
        } else {
            None
        }
    }
}

/// A model input: three channel planes of `height` rows and `width` columns,
/// holding the numerators of the normalized samples.
#[derive(Debug)]
pub struct PreprocessedTensor {
    height: usize,
    width: usize,
    numerators: Vec<i32>,
}

impl PreprocessedTensor {
    /// Rows of a plane.
    pub closed spec fn rows(&self) -> nat {
        self.height as nat
    }

    /// Columns of a plane.
    pub closed spec fn columns(&self) -> nat {
        self.width as nat
    }

    /// The numerators, plane by plane and row by row.
    pub closed spec fn view(&self) -> Seq<i32> {
        self.numerators@
    }

    /// The tensor holds three full planes.
    pub open spec fn wf(&self) -> bool {
        self@.len() == 3 * self.rows() * self.columns()
    }

    /// The numerator of channel `c`, row `y`, column `x`.
    pub open spec fn entry(&self, c: int, y: int, x: int) -> int {
        self@[(c * self.rows() + y) * self.columns() + x] as int
    }

    /// Whether the tensor is the normalization of `raster`.
    pub open spec fn normalizes(&self, raster: RgbRaster) -> bool {
        &&& self.wf()
        &&& self.rows() == raster.rows()
        &&& self.columns() == raster.columns()
        &&& forall|c: int, y: int, x: int|
            0 <= c < 3 && 0 <= y < self.rows() && 0 <= x < self.columns() ==> #[trigger] self.entry(
                c,
                y,
                x,
            ) == normalized_numerator(c, raster.sample(c, y, x) as int)
    }

    /// Channels, rows and columns.
    pub fn shape(&self) -> (dims: (usize, usize, usize))
        ensures
            dims == (3usize, self.rows() as usize, self.columns() as usize),
    {
        (CHANNELS, self.height, self.width)
    }

    /// The numerators, plane by plane and row by row.
    pub fn numerators(&self) -> (all: &Vec<i32>)
        ensures
            all@ == self@,
    {
        &self.numerators
    }

    /// The numerator of channel `c`, row `y`, column `x`.
    pub fn numerator(&self, c: usize, y: usize, x: usize) -> (n: i32)
        requires
            self.wf(),
            c < 3,
            y < self.rows(),
            x < self.columns(),
        ensures
            n == self.entry(c as int, y as int, x as int),
    {
        let total = self.numerators.len();
        let ghost h = self.height as int;
        let ghost w = self.width as int;
        proof {
            assert(3 * h * w == total);
            assert((c * h + y) * w + x < 3 * h * w) by (nonlinear_arith)
                requires
                    0 <= c < 3,
                    0 <= y < h,
                    0 <= x < w,
            ;
            assert(0 <= (c * h + y) * w) by (nonlinear_arith)
                requires
                    0 <= c,
                    0 <= y,
                    0 <= h,
                    0 <= w,
            ;
            assert((c * h + y) * w <= (c * h + y) * w + x);
            assert(c * h <= c * h + y);
            assert(0 <= c * h) by (nonlinear_arith)
                requires
                    0 <= c,
                    0 <= h,
            ;
            assert(c * h + y <= (c * h + y) * w) by (nonlinear_arith)
                requires
                    0 <= c * h + y,
                    1 <= w,
            ;
        }
        self.numerators[(c * self.height + y) * self.width + x]
    }

    /// The denominator of the values of channel `c`.
    pub fn denominator(c: usize) -> (d: i32)
        requires
            c < 3,
        ensures
            d == normalized_denominator(c as int),
    {
        if c == 0 {
            255 * 229
        } else if c == 1 {
            255 * 224
        } else {
            255 * 225
        }
    }
}

/// A cell of a plane of `h` rows and `w` columns has its place in the plane.
proof fn lemma_cell_index(h: int, w: int, y: int, x: int)
    requires
        0 <= y < h,
        0 <= x < w,
    ensures
        0 <= y * w + x < h * w,
{
    assert(y * w + x < h * w) by (nonlinear_arith)
        requires
            0 <= y < h,
            0 <= x < w,
    ;
    assert(0 <= y * w) by (nonlinear_arith)
        requires
            0 <= y,
            0 <= w,
    ;
}

/// The numerators of channel `c` for the first `count` pixels of `samples`.
spec fn plane_of(samples: Seq<u8>, c: int, count: int) -> Seq<i32> {
    Seq::new(count as nat, |p: int| normalized_numerator(c, samples[3 * p + c] as int) as i32)
}

fn numerator_of(c: usize, v: u8) -> (n: i32)
    requires
        c < 3,
    ensures
        n == normalized_numerator(c as int, v as int),
{
    let mean: i32 = if c == 0 {
        485
    } else if c == 1 {
        456
    } else {
        406
    };
    1000 * (v as i32) - 255 * mean
}

fn push_plane(numerators: &mut Vec<i32>, samples: &Vec<u8>, c: usize, count: usize)
    requires
        c < 3,
        samples@.len() == 3 * count,
    ensures
        final(numerators)@ == old(numerators)@ + plane_of(samples@, c as int, count as int),
{
    let total = samples.len();
    let mut p: usize = 0;
    while p < count
        invariant
            p <= count,
            c < 3,
            total == 3 * count,
            samples@.len() == 3 * count,
            numerators@ == old(numerators)@ + plane_of(samples@, c as int, p as int),
        decreases count - p,
    {
        numerators.push(numerator_of(c, samples[3 * p + c]));
        p += 1;
        assert(numerators@ =~= old(numerators)@ + plane_of(samples@, c as int, p as int));
    }
}

/// Normalizes a raster: the tensor has the planes of red, green and blue,
/// each of the raster's size, and every entry is the numerator of the
/// normalized sample at its place.
pub fn normalize(raster: &RgbRaster) -> (tensor: PreprocessedTensor)
    requires
        raster.wf(),
    ensures
        tensor.normalizes(*raster),
{
    let width = raster.width as usize;
    let height = raster.height as usize;
    let total = raster.pixels.len();
    let ghost w = width as int;
    let ghost h = height as int;
    proof {
        assert(total == 3 * w * h);
        assert(3 * w * h == 3 * (w * h)) by (nonlinear_arith);
        assert(0 <= w * h) by (nonlinear_arith)
            requires
                0 <= w,
                0 <= h,
        ;
        assert(w * h == h * w) by (nonlinear_arith);
        assert(3 * h * w == 3 * (h * w)) by (nonlinear_arith);
    }
    let count: usize = width * height;
    let mut numerators: Vec<i32> = Vec::new();
    push_plane(&mut numerators, &raster.pixels, 0, count);
    push_plane(&mut numerators, &raster.pixels, 1, count);
    push_plane(&mut numerators, &raster.pixels, 2, count);
    let tensor = PreprocessedTensor { height, width, numerators };
    proof {
        let samples = raster.pixels@;
        assert(tensor@ == plane_of(samples, 0, count as int) + plane_of(samples, 1, count as int)
            + plane_of(samples, 2, count as int));
        assert forall|c: int, y: int, x: int| 0 <= c < 3 && 0 <= y < h && 0 <= x < w implies #[trigger] tensor.entry(
            c,
            y,
            x,
        ) == normalized_numerator(c, raster.sample(c, y, x) as int) by {
            lemma_cell_index(h, w, y, x);
            let p = y * w + x;
            assert((c * h + y) * w + x == c * (h * w) + p) by (nonlinear_arith)
                requires
                    p == y * w + x,
            ;
            assert((y * w + x) * 3 + c == 3 * p + c);
            if c == 0 {
                assert(tensor@[p] == plane_of(samples, 0, count as int)[p]);
            } else if c == 1 {
                assert(tensor@[count + p] == plane_of(samples, 1, count as int)[p]);
            } else {
                assert(tensor@[2 * count + p] == plane_of(samples, 2, count as int)[p]);
            }
        }
    }
    tensor
}

/// The tensor of a black raster holds `-mean / std` in every cell of a
/// channel's plane.
pub proof fn lemma_black_raster(tensor: PreprocessedTensor, raster: RgbRaster)
    requires
        raster.wf(),
        tensor.normalizes(raster),
        forall|i: int| 0 <= i < raster@.len() ==> raster@[i] == 0,
    ensures
        forall|c: int, y: int, x: int|
            0 <= c < 3 && 0 <= y < tensor.rows() && 0 <= x < tensor.columns() ==> #[trigger] tensor.entry(
                c,
                y,
                x,
            ) * std_milli(c) == -mean_milli(c) * normalized_denominator(c),
{
    assert forall|c: int, y: int, x: int|
        0 <= c < 3 && 0 <= y < tensor.rows() && 0 <= x < tensor.columns() implies #[trigger] tensor.entry(
        c,
        y,
        x,
    ) * std_milli(c) == -mean_milli(c) * normalized_denominator(c) by {
        let h = raster.rows() as int;
        let w = raster.columns() as int;
        lemma_cell_index(h, w, y, x);
        assert(3 * (h * w) == 3 * w * h) by (nonlinear_arith);
        assert(0 <= (y * w + x) * 3 + c < raster@.len());
        assert(raster.sample(c, y, x) == 0);
        lemma_black_sample(c);
    }
}

impl PreprocessedTensor {
    /// The tensor is the normalization of some raster of its size.
    pub open spec fn is_normalized(&self) -> bool {
        exists|raster: RgbRaster| raster.wf() && self.normalizes(raster)
    }

    /// The tensor is the normalization of the raster of its size that holds
    /// the given samples.
    pub open spec fn normalizes_samples(&self, samples: Seq<u8>) -> bool {
        exists|raster: RgbRaster|
            raster.wf() && raster@ == samples && #[trigger] self.normalizes(raster)
    }
}

/// Whether an image has the size that a model takes, so that it is
/// normalized as it is decoded.
pub open spec fn has_input_size(img: image::DynamicImage) -> bool {
    image_dimensions(img) == (INPUT_WIDTH as nat, INPUT_HEIGHT as nat)
}

/// Whether the tensor is that of the image which the bytes `content` hold
/// under the given extension: it has the input size of a model and is the
/// normalization of a raster, and where the image has the input size
/// already, of the raster of the image's own samples.
pub open spec fn is_tensor_of(
    tensor: PreprocessedTensor,
    extension: Seq<char>,
    content: Seq<u8>,
) -> bool {
    match image_of(extension, content) {
        Some(img) => {
            &&& tensor.rows() == INPUT_HEIGHT
            &&& tensor.columns() == INPUT_WIDTH
            &&& tensor.is_normalized()
            &&& has_input_size(img) ==> tensor.normalizes_samples(rgb8_samples(img))
        },
        None => false,
    }
}

/// The tensor of a black image of the input size holds `-mean / std` in
/// every cell of a channel's plane.
pub proof fn lemma_black_image(tensor: PreprocessedTensor, extension: Seq<char>, content: Seq<u8>)
    requires
        is_tensor_of(tensor, extension, content),
        image_of(extension, content) matches Some(img) && has_input_size(img) && forall|i: int|
            0 <= i < rgb8_samples(img).len() ==> rgb8_samples(img)[i] == 0,
    ensures
        forall|c: int, y: int, x: int|
            0 <= c < 3 && 0 <= y < tensor.rows() && 0 <= x < tensor.columns() ==> #[trigger] tensor.entry(
                c,
                y,
                x,
            ) * std_milli(c) == -mean_milli(c) * normalized_denominator(c),
{
    let img = image_of(extension, content)->0;
    let raster = choose|raster: RgbRaster|
        raster.wf() && raster@ == rgb8_samples(img) && #[trigger] tensor.normalizes(raster);
    lemma_black_raster(tensor, raster);
}

/// The tensor of an image of the input size holds, in every cell, the
/// numerator of the normalized sample of the image at that place.
pub proof fn lemma_image_tensor(
    tensor: PreprocessedTensor,
    extension: Seq<char>,
    content: Seq<u8>,
    c: int,
    y: int,
    x: int,
)
    requires
        is_tensor_of(tensor, extension, content),
        image_of(extension, content) matches Some(img) && has_input_size(img),
        0 <= c < 3,
        0 <= y < INPUT_HEIGHT,
        0 <= x < INPUT_WIDTH,
    ensures
        tensor.entry(c, y, x) == normalized_numerator(
            c,
            rgb8_samples(image_of(extension, content)->0)[(y * INPUT_WIDTH + x) * 3 + c] as int,
        ),
{
    let img = image_of(extension, content)->0;
    let raster = choose|raster: RgbRaster|
        raster.wf() && raster@ == rgb8_samples(img) && #[trigger] tensor.normalizes(raster);
    assert(tensor.entry(c, y, x) == normalized_numerator(c, raster.sample(c, y, x) as int));
}

/// How every image is resampled before it is normalized: stretched to the
/// input size of a model, with the Lanczos filter of window 3.
pub open spec fn input_resampling() -> Resampling {
    Resampling { width: INPUT_WIDTH, height: INPUT_HEIGHT, filter: ResampleFilter::Lanczos3 }
}

/// How every image is resampled before it is normalized.
pub fn resampling_for_input() -> (how: Resampling)
    ensures
        how == input_resampling(),
{
    Resampling { width: INPUT_WIDTH, height: INPUT_HEIGHT, filter: ResampleFilter::Lanczos3 }
}

/// What is said of an extension that names no image format.
pub open spec fn unknown_format_text(extension: Seq<char>) -> Seq<char> {
    "不支持的圖像格式: "@ + extension
}

/// Decodes an image by the format that its file extension names, stretches
/// it to the input size of a model with a Lanczos filter, and normalizes the
/// result. Fails where the extension names no format, with a text that says
/// so, and where the bytes are no image of that format. The tensor of an
/// image that has the input size already is the normalization of the
/// image's own samples.
pub fn preprocess(extension: &str, content: &[u8]) -> (res: Result<
    PreprocessedTensor,
    EngineError,
>)
    ensures
        res is Ok <==> image_decodes(extension@, content@),
        res matches Ok(tensor) ==> tensor.is_normalized() && tensor.rows() == INPUT_HEIGHT
            && tensor.columns() == INPUT_WIDTH,
        res matches Ok(tensor) ==> is_tensor_of(tensor, extension@, content@),
        res matches Err(e) ==> e is Decode,
        extension_format(extension@) is None ==> (res matches Err(e) && e.message_text()
            == unknown_format_text(extension@)),
{
    let format = match format_of_extension(extension) {
        Some(format) => format,
        None => {
            let mut text = String::from_str("不支持的圖像格式: ");
            text.append(extension);
            return Err(EngineError::Decode(text));
        },
    };
    match decode_as(content, format) {
        Err(e) => Err(EngineError::Decode(image_error_text(&e))),
        Ok(img) => {
            let resized = resize_exact(&img, resampling_for_input());
            let raster = to_rgb8(&resized);
            Ok(normalize(&raster))
        },
    }
}

} // verus!
