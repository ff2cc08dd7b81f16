//! The errors of the engine.

use vstd::prelude::*;

verus! {

/// Why an operation of the engine failed.
#[derive(Debug)]
pub enum EngineError {
    /// An image could not be read or decoded; the text says why.
    Decode(String),
    /// The model format is known but cannot be loaded yet.
    UnsupportedFormat,
    /// A model or label file is unreadable or malformed; the text says why.
    Load(String),
    /// Inference was asked for before any model was loaded.
    NotLoaded,
    /// The directory of a batch run could not be listed; the text says why.
    Directory(String),
}

impl EngineError {
    /// The text that describes the error.
    pub open spec fn message_text(self) -> Seq<char> {
        match self {
            EngineError::Decode(reason) => reason@,
            EngineError::UnsupportedFormat => "TorchScript模型加載尚未實現，請使用ONNX模型"@,
            EngineError::Load(reason) => reason@,
            EngineError::NotLoaded => "尚未載入模型"@,
            EngineError::Directory(reason) => reason@,
        }
    }

    /// The text that describes the error, for display.
    pub fn message(&self) -> (text: String)
        ensures
            text@ == self.message_text(),
    {
        match self {
            EngineError::Decode(reason) => reason.clone(),
            EngineError::UnsupportedFormat => String::from_str(
                "TorchScript模型加載尚未實現，請使用ONNX模型",
            ),
            EngineError::Load(reason) => reason.clone(),
            EngineError::NotLoaded => String::from_str("尚未載入模型"),
            EngineError::Directory(reason) => reason.clone(),
        }
    }
}

} // verus!
