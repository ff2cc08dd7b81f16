//! The ordered class names of a model.
//!
//! A label file is either a JSON array of strings, where its path ends in
//! `.json`, or plain text with one name on each line. Where no file is given
//! or none exists, the names are made up: `Class_0` to `Class_999`.

use vstd::prelude::*;
use crate::error::EngineError;
use crate::text::{decimal, ends_with, has_suffix, lines_of, push_decimal, split_lines, texts};

verus! {

/// How many names are made up where a model comes without labels.
pub const DEFAULT_CLASS_COUNT: usize = 1000;

/// The made-up name of class `i`.
pub open spec fn default_class_name(i: nat) -> Seq<char> {
    "Class_"@ + decimal(i)
}

/// The made-up names, in the order of the class ids.
pub open spec fn default_names() -> Seq<Seq<char>> {
    Seq::new(DEFAULT_CLASS_COUNT as nat, |i: int| default_class_name(i as nat))
}

/// Makes up the names `Class_0` to `Class_999`.
pub fn default_class_names() -> (names: Vec<String>)
    ensures
        texts(names@) == default_names(),
{
    let mut names: Vec<String> = Vec::new();
    let mut i: usize = 0;
    while i < DEFAULT_CLASS_COUNT
        invariant
            i <= DEFAULT_CLASS_COUNT,
            names@.len() == i,
            forall|j: int| 0 <= j < i ==> (#[trigger] names@[j])@ == default_class_name(j as nat),
        decreases DEFAULT_CLASS_COUNT - i,
    {
        let mut name = String::from_str("Class_");
        push_decimal(&mut name, i as u64);
        names.push(name);
        i += 1;
    }
    assert(texts(names@) =~= default_names());
    names
}

/// The error of `serde_json`.
#[verifier::external_type_specification]
#[verifier::external_body]
pub struct ExJsonError(serde_json::Error);

/// The strings of the JSON array that `content` is, or `None` where
/// `content` is no JSON array of strings.
pub uninterp spec fn json_string_list(content: Seq<char>) -> Option<Seq<Seq<char>>>;

/// `serde_json::from_str` for a vector of strings: the strings of the array
/// in their order, or an error where the text is anything else. The result
/// depends on the text alone.
#[verifier::external_body]
pub(crate) fn parse_string_list(content: &str) -> (parsed: Result<Vec<String>, serde_json::Error>)
    ensures
        match parsed {
            Ok(names) => json_string_list(content@) == Some(texts(names@)),
            Err(_) => json_string_list(content@) is None,
        },
{
    serde_json::from_str::<Vec<String>>(content)
}

/// The text with which `serde_json` describes one of its errors.
#[verifier::external_body]
pub(crate) fn json_error_text(error: &serde_json::Error) -> (text: String) {
    error.to_string()
}

/// Where the class names come from.
#[derive(Debug)]
pub enum LabelSource {
    /// No label file was named.
    NotGiven,
    /// A label file was named, and nothing exists at its path.
    Missing,
    /// The label file exists and could not be read; the text says why.
    Unreadable(String),
    /// The label file and what it holds.
    File { path: String, content: String },
}

/// Whether a path names a JSON file.
pub open spec fn is_json_path(path: Seq<char>) -> bool {
    ends_with(path, ".json"@)
}

/// The class names that a source gives, or `None` where it gives an error.
pub open spec fn names_from(source: LabelSource) -> Option<Seq<Seq<char>>> {
    match source {
        LabelSource::NotGiven => Some(default_names()),
        LabelSource::Missing => Some(default_names()),
        LabelSource::Unreadable(_) => None,
        LabelSource::File { path, content } => if is_json_path(path@) {
            json_string_list(content@)
        } else {
            Some(lines_of(content@))
        },
    }
}

/// Takes the outcome of parsing a JSON label file: the names as they are,
/// the parser's error as a load error.
pub fn class_names_from_json(parsed: Result<Vec<String>, serde_json::Error>) -> (res: Result<
    Vec<String>,
    EngineError,
>)
    ensures
        match parsed {
            Ok(names) => res == Ok::<Vec<String>, EngineError>(names),
            Err(_) => res matches Err(e) && e is Load,
        },
{
    match parsed {
        Ok(names) => Ok(names),
        Err(error) => Err(EngineError::Load(json_error_text(&error))),
    }
}

/// Reads the class names from their source. A missing file is no error: the
/// names are made up. A file that cannot be read or parsed is one.
pub fn read_class_names(source: &LabelSource) -> (res: Result<Vec<String>, EngineError>)
    ensures
        match res {
            Ok(names) => names_from(*source) == Some(texts(names@)),
            Err(e) => names_from(*source) is None && e is Load,
        },
        source matches LabelSource::Unreadable(reason) ==> res matches Err(e) && e.message_text()
            == reason@,
{
    match source {
        LabelSource::NotGiven => Ok(default_class_names()),
        LabelSource::Missing => Ok(default_class_names()),
        LabelSource::Unreadable(reason) => Err(EngineError::Load(reason.clone())),
        LabelSource::File { path, content } => {
            if has_suffix(path.as_str(), ".json") {
                class_names_from_json(parse_string_list(content.as_str()))
            } else {
                Ok(split_lines(content.as_str()))
            }
        },
    }
}

} // verus!
