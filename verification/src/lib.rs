//! A local image-classification engine.
//!
//! The engine loads a model and its class names, turns an encoded image
//! into the tensor that the model takes, ranks the classes of an image, and
//! runs the images of a directory one after the other with statistics of the
//! run. It reads no file itself: a caller hands it what the files hold.
//!
//! - `inference`: the engine and its operations, and a batch run that takes
//!   its files one at a time.
//! - `commands`: the three operations as a caller drives them, each with an
//!   answer of one shape.
//! - `labels`: where class names come from.
//! - `preprocess`: from an encoded image to a tensor of exact fractions.
//! - `decoder`: decoding and resampling, done by the `image` crate.
//! - `ranking`: the best classes of a vector of scores.
//! - `batch`: the records, the failures and the statistics of a batch run.
//! - `files`: which files of a directory are images, and their extensions.
//! - `text`: lines, suffixes, decimal numbers.
//! - `clock`: wall-clock time.
//! - `error`: the errors of the engine.

pub mod batch;
pub mod clock;
pub mod commands;
pub mod decoder;
pub mod error;
pub mod files;
pub mod inference;
pub mod labels;
pub mod preprocess;
pub mod ranking;
pub mod text;
