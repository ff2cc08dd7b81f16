//! Which files of a directory a batch run takes.

use vstd::prelude::*;
use crate::text::{chars_of, matches_ignoring_case, string_of_range, tail_matches_ignoring_case};

verus! {

/// Whether `name` has the extension `lower`, in any case of its letters:
/// the name ends with a dot and the extension, and the dot is not its first
/// character.
pub open spec fn has_extension(name: Seq<char>, lower: Seq<char>, upper: Seq<char>) -> bool {
    let dot = name.len() - lower.len() - 1;
    &&& dot >= 1
    &&& name[dot] == '.'
    &&& matches_ignoring_case(name.skip(dot + 1), lower, upper)
}

/// Whether a file name has one of the extensions of an image: `png`, `jpg`,
/// `jpeg`, `bmp` or `webp`, in any case of the letters.
pub open spec fn is_image_name(name: Seq<char>) -> bool {
    ||| has_extension(name, "png"@, "PNG"@)
    ||| has_extension(name, "jpg"@, "JPG"@)
    ||| has_extension(name, "jpeg"@, "JPEG"@)
    ||| has_extension(name, "bmp"@, "BMP"@)
    ||| has_extension(name, "webp"@, "WEBP"@)
}

/// The extension of a file name that has one of the extensions of an
/// image, as it is written in the name, and `None` for every other name.
pub open spec fn image_extension_of(name: Seq<char>) -> Option<Seq<char>> {
    if has_extension(name, "png"@, "PNG"@) || has_extension(name, "jpg"@, "JPG"@) || has_extension(
        name,
        "bmp"@,
        "BMP"@,
    ) {
        Some(name.skip(name.len() - 3))
    } else if has_extension(name, "jpeg"@, "JPEG"@) || has_extension(name, "webp"@, "WEBP"@) {
        Some(name.skip(name.len() - 4))
    } else {
        None
    }
}

fn name_has_extension(name: &Vec<char>, lower: &str, upper: &str, len: usize) -> (b: bool)
    requires
        lower@.len() == len,
        len <= 8,
    ensures
        b == has_extension(name@, lower@, upper@),
{
    if name.len() < len + 2 {
        return false;
    }
    let dot: usize = name.len() - len - 1;
    name[dot] == '.' && tail_matches_ignoring_case(name, dot + 1, lower, upper)
}

/// Tests whether a file name has the extension of an image.
pub fn has_image_extension(name: &str) -> (b: bool)
    ensures
        b == is_image_name(name@),
{
    let text = chars_of(name);
    proof {
        reveal_strlit("png");
        reveal_strlit("jpg");
        reveal_strlit("jpeg");
        reveal_strlit("bmp");
        reveal_strlit("webp");
    }
    name_has_extension(&text, "png", "PNG", 3) || name_has_extension(&text, "jpg", "JPG", 3)
        || name_has_extension(&text, "jpeg", "JPEG", 4) || name_has_extension(
        &text,
        "bmp",
        "BMP",
        3,
    ) || name_has_extension(&text, "webp", "WEBP", 4)
}

/// The extension of a file name that has one of the extensions of an image.
pub fn image_extension(name: &str) -> (extension: Option<String>)
    ensures
        extension is Some <==> is_image_name(name@),
        match extension {
            Some(text) => image_extension_of(name@) == Some(text@),
            None => image_extension_of(name@) is None,
        },
{
    let text = chars_of(name);
    proof {
        reveal_strlit("png");
        reveal_strlit("jpg");
        reveal_strlit("jpeg");
        reveal_strlit("bmp");
        reveal_strlit("webp");
    }
    let n = text.len();
    if name_has_extension(&text, "png", "PNG", 3) || name_has_extension(&text, "jpg", "JPG", 3)
        || name_has_extension(&text, "bmp", "BMP", 3) {
        let extension = string_of_range(&text, n - 3, n);
        assert(text@.subrange(n - 3, n as int) =~= name@.skip(name@.len() - 3));
        Some(extension)
    } else if name_has_extension(&text, "jpeg", "JPEG", 4) || name_has_extension(
        &text,
        "webp",
        "WEBP",
        4,
    ) {
        let extension = string_of_range(&text, n - 4, n);
        assert(text@.subrange(n - 4, n as int) =~= name@.skip(name@.len() - 4));
        Some(extension)
    } else {
        None
    }
}

/// A file of the directory of a batch run: its name, and what it holds, or
/// the reason why it could not be read.
#[derive(Debug)]
pub struct ImageFile {
    pub name: String,
    pub content: Result<Vec<u8>, String>,
}

/// How many of the files have the name of an image.
pub open spec fn candidate_count(files: Seq<ImageFile>) -> nat
    decreases files.len(),
{
    if files.len() == 0 {
        0
    } else {
        candidate_count(files.drop_last()) + if is_image_name(files.last().name@) {
            1nat
        } else {
            0nat
        }
    }
}

/// No two files have the same name, as in a directory.
pub open spec fn distinct_file_names(files: Seq<ImageFile>) -> bool {
    forall|i: int, j: int|
        0 <= i < j < files.len() ==> (#[trigger] files[i]).name@ != (#[trigger] files[j]).name@
}

} // verus!
