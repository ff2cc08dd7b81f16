//! The three operations that a caller drives the engine with, and the one
//! shape in which each of them answers.

use vstd::prelude::*;
use crate::batch::{BatchResults, InferenceStats};
use crate::decoder::image_decodes;
use crate::error::EngineError;
use crate::files::ImageFile;
use crate::inference::{
    loaded_model, mock_ranking, BatchRun, EngineState, LoadedModel, ModelHandle, ModelInference,
    ModelType,
};
use crate::labels::{names_from, read_class_names, LabelSource};
use crate::ranking::{ranked_classes, InferenceResult};
use crate::text::{
    equals_ignoring_case, matches_ignoring_case, millis_text, push_millis, starts_with,
};

verus! {

/// What a caller asks for.
#[derive(Debug)]
pub struct InferenceRequest {
    pub model_path: String,
    pub image_path: Option<String>,
    pub image_dir: Option<String>,
    pub model_type: String,
    pub class_names_path: Option<String>,
}

/// The answer to every operation: whether it succeeded, a text for the
/// user, and what the operation gave.
#[derive(Debug)]
pub struct InferenceResponse {
    pub success: bool,
    pub message: String,
    pub results: Option<Vec<InferenceResult>>,
    pub batch_results: Option<BatchResults>,
    pub stats: Option<InferenceStats>,
}

impl InferenceResponse {
    /// The answer holds a text only.
    pub open spec fn is_bare(&self) -> bool {
        self.results is None && self.batch_results is None && self.stats is None
    }

    /// A failure with its text.
    pub fn failure(message: String) -> (response: InferenceResponse)
        ensures
            !response.success,
            response.message == message,
            response.is_bare(),
    {
        InferenceResponse { success: false, message, results: None, batch_results: None, stats: None }
    }

    /// The failure of an operation: what the operation says of failures,
    /// and then the text of the error.
    pub fn failed(prefix: &str, error: &EngineError) -> (response: InferenceResponse)
        ensures
            !response.success,
            response.message@ == prefix@ + error.message_text(),
            response.is_bare(),
    {
        let mut message = String::from_str(prefix);
        let reason = error.message();
        message.append(reason.as_str());
        InferenceResponse::failure(message)
    }
}

/// The format that a tag names: `onnx` or `torchscript`, in any case of the
/// letters.
pub open spec fn model_type_of(tag: Seq<char>) -> Option<ModelType> {
    if matches_ignoring_case(tag, "torchscript"@, "TORCHSCRIPT"@) {
        Some(ModelType::TorchScript)
    } else if matches_ignoring_case(tag, "onnx"@, "ONNX"@) {
        Some(ModelType::ONNX)
    } else {
        None
    }
}

/// Reads a format tag.
pub fn parse_model_type(tag: &str) -> (kind: Option<ModelType>)
    ensures
        kind == model_type_of(tag@),
{
    if equals_ignoring_case(tag, "torchscript", "TORCHSCRIPT") {
        Some(ModelType::TorchScript)
    } else if equals_ignoring_case(tag, "onnx", "ONNX") {
        Some(ModelType::ONNX)
    } else {
        None
    }
}

/// The model that a load of the given path and tag gives, or `None` where
/// the tag names no format or the format cannot be loaded.
pub open spec fn model_to_load(model_path: Seq<char>, tag: Seq<char>) -> Option<LoadedModel> {
    match model_type_of(tag) {
        Some(kind) => loaded_model(model_path, kind),
        None => None,
    }
}

/// Tells whether a model of the given path and tag can be loaded, before
/// any file of class names is looked at.
pub fn model_loads(model_path: &str, model_type: &str) -> (loads: bool)
    ensures
        loads == model_to_load(model_path@, model_type@) is Some,
{
    match parse_model_type(model_type) {
        Some(kind) => ModelHandle::load(model_path, kind).is_ok(),
        None => false,
    }
}

/// What an engine holds after a load: the new model and the new class
/// names, where both can be had, and what it held before otherwise.
pub open spec fn after_load(
    before: EngineState,
    model_path: Seq<char>,
    tag: Seq<char>,
    class_names: LabelSource,
) -> EngineState {
    match (model_to_load(model_path, tag), names_from(class_names)) {
        (Some(model), Some(labels)) => EngineState { model: Some(model), labels },
        _ => before,
    }
}

/// Whether a load with the given arguments brings exactly this state.
pub open spec fn brought_by(
    state: EngineState,
    model_path: Seq<char>,
    tag: Seq<char>,
    class_names: LabelSource,
) -> bool {
    model_to_load(model_path, tag) is Some && state.model == model_to_load(model_path, tag)
        && names_from(class_names) == Some(state.labels)
}

/// However two loads follow each other, the engine ends with a model and
/// class names that one and the same load brought, or with what it held at
/// first: never with the model of one load and the class names of another.
pub proof fn lemma_loads_never_mix(
    before: EngineState,
    first_path: Seq<char>,
    first_tag: Seq<char>,
    first_names: LabelSource,
    second_path: Seq<char>,
    second_tag: Seq<char>,
    second_names: LabelSource,
)
    ensures
        ({
            let end = after_load(
                after_load(before, first_path, first_tag, first_names),
                second_path,
                second_tag,
                second_names,
            );
            ||| end == before
            ||| brought_by(end, first_path, first_tag, first_names)
            ||| brought_by(end, second_path, second_tag, second_names)
        }),
{
}

/// Loads a model and its class names. The tag is read first, then the
/// model is loaded, then the class names are read; the first of these to
/// fail ends the operation, and the answer names it. The engine takes the
/// new model and the new names together, or stays as it was.
pub fn load_model(
    engine: &mut ModelInference,
    model_path: &str,
    model_type: &str,
    class_names: &LabelSource,
) -> (response: InferenceResponse)
    ensures
        response.is_bare(),
        response.success <==> model_to_load(model_path@, model_type@) is Some && names_from(
            *class_names,
        ) is Some,
        final(engine)@ == after_load(old(engine)@, model_path@, model_type@, *class_names),
        response.success ==> response.message@ == "模型載入成功"@,
        model_type_of(model_type@) is None ==> response.message@ == "不支持的模型類型"@,
        model_type_of(model_type@) is Some && model_to_load(model_path@, model_type@) is None
            ==> response.message@ == "載入模型失敗: "@
            + EngineError::UnsupportedFormat.message_text(),
        model_to_load(model_path@, model_type@) is Some && names_from(*class_names) is None
            ==> starts_with(response.message@, "載入類別名稱失敗: "@),
        model_to_load(model_path@, model_type@) is Some ==> (class_names matches LabelSource::Unreadable(
            reason,
        ) ==> response.message@ == "載入類別名稱失敗: "@ + reason@),
{
    let kind = match parse_model_type(model_type) {
        Some(kind) => kind,
        None => {
            return InferenceResponse::failure(String::from_str("不支持的模型類型"));
        },
    };
    let model = match ModelHandle::load(model_path, kind) {
        Ok(model) => model,
        Err(e) => {
            return InferenceResponse::failed("載入模型失敗: ", &e);
        },
    };
    let names = match read_class_names(class_names) {
        Ok(names) => names,
        Err(e) => {
            let response = InferenceResponse::failed("載入類別名稱失敗: ", &e);
            assert(response.message@.subrange(0, "載入類別名稱失敗: "@.len() as int)
                =~= "載入類別名稱失敗: "@);
            return response;
        },
    };
    engine.install(model, names);
    InferenceResponse {
        success: true,
        message: String::from_str("模型載入成功"),
        results: None,
        batch_results: None,
        stats: None,
    }
}

/// The text of a single inference that took `micros` microseconds.
pub open spec fn inference_done_text(micros: nat) -> Seq<char> {
    "推理完成，耗時 "@ + millis_text(micros) + " 毫秒"@
}

/// Whether the image could be read and decodes by the format that the
/// extension names.
pub open spec fn is_decodable(extension: Seq<char>, image: Result<Vec<u8>, String>) -> bool {
    match image {
        Ok(content) => image_decodes(extension, content@),
        Err(_) => false,
    }
}

/// Whether `response` is the answer to a single inference: it succeeds
/// exactly where a model is loaded and the image could be read and decodes,
/// then with the ranking and a text that tells the time; it fails with a
/// text that begins the same way for every failure, and then gives the
/// error.
pub open spec fn is_single_answer(
    engine: ModelInference,
    extension: Seq<char>,
    image: Result<Vec<u8>, String>,
    response: InferenceResponse,
) -> bool {
    &&& response.batch_results is None
    &&& response.stats is None
    &&& response.success <==> engine.model() is Some && is_decodable(extension, image)
    &&& response.success ==> (response.results matches Some(results) && ranked_classes(results@)
        == mock_ranking(engine.labels()))
    &&& response.success ==> (exists|micros: nat|
        response.message@ == inference_done_text(micros))
    &&& !response.success ==> response.results is None && starts_with(
        response.message@,
        "推理失敗: "@,
    )
    &&& engine.model() is None ==> response.message@ == "推理失敗: "@
        + EngineError::NotLoaded.message_text()
    &&& engine.model() is Some ==> (image matches Err(reason) ==> response.message@
        == "推理失敗: "@ + reason@)
}

/// Classifies one image, given as the extension of its file and what the
/// file holds, or the reason why the file could not be read. An unloaded
/// engine fails whatever the image is. The time in the answer is that of
/// preprocessing and inference.
pub fn infer_single_image(
    engine: &ModelInference,
    extension: &str,
    image: &Result<Vec<u8>, String>,
) -> (response: InferenceResponse)
    ensures
        is_single_answer(*engine, extension@, *image, response),
{
    let started = std::time::Instant::now();
    infer_single_image_since(engine, &started, extension, image)
}

/// Classifies one image as `infer_single_image` does, and gives as the time
/// in the answer what has passed since `started`: a caller that reads the
/// file itself starts the clock before it does.
pub fn infer_single_image_since(
    engine: &ModelInference,
    started: &std::time::Instant,
    extension: &str,
    image: &Result<Vec<u8>, String>,
) -> (response: InferenceResponse)
    ensures
        is_single_answer(*engine, extension@, *image, response),
{
    let outcome = if !engine.is_loaded() {
        Err(EngineError::NotLoaded)
    } else {
        match image {
            Err(reason) => Err(EngineError::Decode(reason.clone())),
            Ok(content) => engine.infer_single_image_since(
                started,
                extension,
                content.as_slice(),
            ),
        }
    };
    match outcome {
        Ok(out) => {
            let mut message = String::from_str("推理完成，耗時 ");
            push_millis(&mut message, out.1);
            message.append(" 毫秒");
            assert(message@ == inference_done_text(out.1 as nat));
            InferenceResponse {
                success: true,
                message,
                results: Some(out.0),
                batch_results: None,
                stats: None,
            }
        },
        Err(e) => {
            let response = InferenceResponse::failed("推理失敗: ", &e);
            assert(response.message@.subrange(0, "推理失敗: "@.len() as int) =~= "推理失敗: "@);
            response
        },
    }
}

/// The answer to a batch run over a directory that could not be listed.
pub fn batch_failed(reason: &str) -> (response: InferenceResponse)
    ensures
        !response.success,
        response.is_bare(),
        response.message@ == "批量推理失敗: "@ + reason@,
{
    InferenceResponse::failed("批量推理失敗: ", &EngineError::Directory(String::from_str(reason)))
}

/// The answer to a batch run that has taken its last file: the results and
/// the statistics of the files taken.
pub fn batch_finished(run: BatchRun) -> (response: InferenceResponse)
    requires
        run.wf(),
    ensures
        response.success,
        response.results is None,
        response.message@ == "批量推理完成"@,
        response.batch_results matches Some(results) && response.stats matches Some(stats)
            && run.engine().is_batch_of(run.files(), results, stats),
{
    let out = run.finish();
    InferenceResponse {
        success: true,
        message: String::from_str("批量推理完成"),
        results: None,
        batch_results: Some(out.0),
        stats: Some(out.1),
    }
}

/// Classifies the images of a directory, given as its files, or as the
/// reason why the directory could not be listed.
pub fn batch_inference(
    engine: &ModelInference,
    listing: &Result<Vec<ImageFile>, String>,
) -> (response: InferenceResponse)
    ensures
        response.results is None,
        response.success <==> listing is Ok,
        listing matches Err(reason) ==> response.is_bare() && response.message@ == "批量推理失敗: "@
            + reason@,
        listing matches Ok(files) ==> response.message@ == "批量推理完成"@ && (
        response.batch_results matches Some(results) && response.stats matches Some(stats)
            && engine.is_batch_of(files@, results, stats)),
{
    match listing {
        Err(reason) => batch_failed(reason.as_str()),
        Ok(files) => {
            let out = engine.batch_inference(files);
            InferenceResponse {
                success: true,
                message: String::from_str("批量推理完成"),
                results: None,
                batch_results: Some(out.0),
                stats: Some(out.1),
            }
        },
    }
}

/// A greeting for `name`.
pub fn greet(name: &str) -> (greeting: String)
    ensures
        greeting@ == "Hello, "@ + name@ + "! You've been greeted from Rust!"@,
{
    let mut greeting = String::from_str("Hello, ");
    greeting.append(name);
    greeting.append("! You've been greeted from Rust!");
    greeting
}

} // verus!
