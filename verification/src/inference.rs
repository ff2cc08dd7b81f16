//! The engine: one loaded model, its class names, and inference on single
//! images and on the files of a directory.

use vstd::prelude::*;
use crate::batch::{
    failure_names, lemma_record_map_distinct, record_names, total_time, BatchFailure, BatchRecord,
    BatchResult, BatchResults, InferenceStats,
};
use crate::clock::elapsed_micros;
use crate::decoder::{extension_format, image_decodes};
use crate::error::EngineError;
use crate::files::{
    candidate_count, distinct_file_names, image_extension, image_extension_of, is_image_name,
    ImageFile,
};
use crate::labels::{names_from, read_class_names, LabelSource};
use crate::preprocess::{
    is_tensor_of, preprocess, unknown_format_text, PreprocessedTensor, INPUT_HEIGHT, INPUT_WIDTH,
};
use crate::ranking::{
    ids_of, is_ranked_results, lemma_descending_scores_rank_in_order, lemma_ranking_unique,
    mock_score_seq, mock_scores, rank_results, ranked_classes, ranking_len, InferenceResult,
    RankedClass, TOP_K,
};
use crate::text::texts;

verus! {

/// The formats of a model file.
#[derive(Debug, Clone, Copy, PartialEq, Eq, Structural)]
pub enum ModelType {
    TorchScript,
    ONNX,
}

/// A loaded model: its format and the path it came from.
#[derive(Debug)]
pub struct ModelHandle {
    kind: ModelType,
    path: String,
}

/// What a `ModelHandle` stands for.
pub struct LoadedModel {
    pub kind: ModelType,
    pub path: Seq<char>,
}

impl View for ModelHandle {
    type V = LoadedModel;

    closed spec fn view(&self) -> LoadedModel {
        LoadedModel { kind: self.kind, path: self.path@ }
    }
}

/// What loading a model of the given format from the given path gives: a
/// model for ONNX, and `None` for TorchScript, which cannot be loaded yet.
pub open spec fn loaded_model(path: Seq<char>, kind: ModelType) -> Option<LoadedModel> {
    match kind {
        ModelType::ONNX => Some(LoadedModel { kind, path }),
        ModelType::TorchScript => None,
    }
}

/// What the mock model gives for the class names `labels`: the first
/// `TOP_K` classes in their order, class `i` with `100 - 15 i` points.
pub open spec fn mock_ranking(labels: Seq<Seq<char>>) -> Seq<RankedClass> {
    Seq::new(
        ranking_len(TOP_K as nat, labels.len()),
        |i: int| RankedClass { class_id: i, class_name: labels[i], probability: 100 - 15 * i },
    )
}

/// The mock ranking is the ranking of the mock scores.
pub proof fn lemma_mock_ranking(labels: Seq<Seq<char>>)
    ensures
        is_ranked_results(mock_score_seq(labels.len()), labels, mock_ranking(labels)),
{
    let scores = mock_score_seq(labels.len());
    let k = ranking_len(TOP_K as nat, labels.len());
    assert(scores.take(labels.len() as int) =~= scores);
    lemma_descending_scores_rank_in_order(scores, k);
    assert(ids_of(mock_ranking(labels)) =~= Seq::new(k, |i: int| i));
}

/// A ranking for `labels` has as many entries as there are labels, and at
/// most `TOP_K`; its scores fall strictly from each entry to the next; its
/// class ids are pairwise distinct and lie within the labels.
pub proof fn lemma_mock_ranking_is_strict(labels: Seq<Seq<char>>)
    ensures
        mock_ranking(labels).len() == ranking_len(TOP_K as nat, labels.len()),
        forall|i: int, j: int|
            0 <= i < j < mock_ranking(labels).len() ==> (#[trigger] mock_ranking(
                labels,
            )[i]).probability > (#[trigger] mock_ranking(labels)[j]).probability,
        forall|i: int, j: int|
            0 <= i < j < mock_ranking(labels).len() ==> (#[trigger] mock_ranking(
                labels,
            )[i]).class_id != (#[trigger] mock_ranking(labels)[j]).class_id,
        forall|i: int|
            0 <= i < mock_ranking(labels).len() ==> 0 <= (#[trigger] mock_ranking(
                labels,
            )[i]).class_id < labels.len(),
{
}

impl ModelHandle {
    /// The format of the model.
    pub fn kind(&self) -> (kind: ModelType)
        ensures
            kind == self@.kind,
    {
        self.kind
    }

    /// The path the model came from.
    pub fn path(&self) -> (path: &String)
        ensures
            path@ == self@.path,
    {
        &self.path
    }

    /// Loads a model. TorchScript is declined as unsupported.
    pub fn load(model_path: &str, model_type: ModelType) -> (res: Result<ModelHandle, EngineError>)
        ensures
            match res {
                Ok(handle) => loaded_model(model_path@, model_type) == Some(handle@),
                Err(e) => loaded_model(model_path@, model_type) is None && e
                    is UnsupportedFormat,
            },
    {
        match model_type {
            ModelType::ONNX => Ok(
                ModelHandle { kind: model_type, path: String::from_str(model_path) },
            ),
            ModelType::TorchScript => Err(EngineError::UnsupportedFormat),
        }
    }

    /// The scores of `class_count` classes for a tensor. The mock model
    /// gives the same scores for every tensor, and reads none.
    pub fn infer(&self, tensor: &PreprocessedTensor, class_count: usize) -> (scores: Vec<i32>)
        ensures
            scores@ == mock_score_seq(class_count as nat),
    {
        mock_scores(class_count)
    }
}

/// The engine. It is unloaded until a model has been loaded.
#[derive(Debug)]
pub struct ModelInference {
    class_names: Vec<String>,
    model: Option<ModelHandle>,
}

/// What an engine holds: the loaded model, if there is one, and the class
/// names in the order of the class ids.
pub struct EngineState {
    pub model: Option<LoadedModel>,
    pub labels: Seq<Seq<char>>,
}

impl View for ModelInference {
    type V = EngineState;

    closed spec fn view(&self) -> EngineState {
        EngineState {
            model: match self.model {
                Some(handle) => Some(handle@),
                None => None,
            },
            labels: texts(self.class_names@),
        }
    }
}

impl ModelInference {
    /// The class names, in the order of the class ids.
    pub open spec fn labels(&self) -> Seq<Seq<char>> {
        self@.labels
    }

    /// The loaded model, if there is one.
    pub open spec fn model(&self) -> Option<LoadedModel> {
        self@.model
    }

    /// Whether inference on the file gives a ranking: a model is loaded,
    /// the file could be read, and what it holds decodes by the extension of
    /// its name.
    pub open spec fn infers(&self, file: ImageFile) -> bool {
        &&& self.model() is Some
        &&& image_extension_of(file.name@) matches Some(extension)
        &&& file.content matches Ok(bytes)
        &&& image_decodes(extension, bytes@)
    }

    /// Whether the engine classifies the file in a batch run: inference on
    /// it gives a ranking, and there is a class to name.
    pub open spec fn classifies(&self, file: ImageFile) -> bool {
        self.infers(file) && self.labels().len() > 0
    }

    /// Whether the engine fails on the file in a batch run: the file has
    /// the name of an image, and inference on it gives an error.
    pub open spec fn rejects(&self, file: ImageFile) -> bool {
        is_image_name(file.name@) && !self.infers(file)
    }

    /// Whether `error` is the error of inference on the file: `NotLoaded`
    /// where no model is loaded; else the reason why the file could not be
    /// read, as a decode error; else a decode error.
    pub open spec fn is_error_of(&self, file: ImageFile, error: EngineError) -> bool {
        if self.model() is None {
            error is NotLoaded
        } else {
            match file.content {
                Err(reason) => error is Decode && error.message_text() == reason@,
                Ok(_) => error is Decode,
            }
        }
    }

    /// How many of the files the engine classifies.
    pub open spec fn classified_count(&self, files: Seq<ImageFile>) -> nat
        decreases files.len(),
    {
        if files.len() == 0 {
            0
        } else {
            self.classified_count(files.drop_last()) + if self.classifies(files.last()) {
                1nat
            } else {
                0nat
            }
        }
    }

    /// An unloaded engine without class names.
    pub fn new() -> (engine: Self)
        ensures
            engine.model() is None,
            engine.labels() == Seq::<Seq<char>>::empty(),
    {
        let engine = ModelInference { class_names: Vec::new(), model: None };
        assert(engine.labels() =~= Seq::<Seq<char>>::empty());
        engine
    }

    /// Whether a model is loaded.
    pub fn is_loaded(&self) -> (loaded: bool)
        ensures
            loaded == self.model() is Some,
    {
        self.model.is_some()
    }

    /// The format of the loaded model.
    pub fn model_type(&self) -> (kind: Option<ModelType>)
        ensures
            match kind {
                Some(k) => self.model() matches Some(m) && m.kind == k,
                None => self.model() is None,
            },
    {
        match &self.model {
            Some(handle) => Some(handle.kind()),
            None => None,
        }
    }

    /// The class names, in the order of the class ids.
    pub fn class_names(&self) -> (names: &Vec<String>)
        ensures
            texts(names@) == self.labels(),
    {
        &self.class_names
    }

    /// Puts a model and its class names in place of what the engine held.
    pub fn install(&mut self, model: ModelHandle, class_names: Vec<String>)
        ensures
            final(self).model() == Some(model@),
            final(self).labels() == texts(class_names@),
    {
        self.model = Some(model);
        self.class_names = class_names;
    }

    /// Loads a model in place of the one loaded before. Where the model
    /// cannot be loaded the engine stays as it was. The class names are not
    /// touched.
    pub fn load_model(&mut self, model_path: &str, model_type: ModelType) -> (res: Result<
        (),
        EngineError,
    >)
        ensures
            final(self).labels() == old(self).labels(),
            match res {
                Ok(_) => loaded_model(model_path@, model_type) is Some && final(self).model()
                    == loaded_model(model_path@, model_type),
                Err(e) => loaded_model(model_path@, model_type) is None && e is UnsupportedFormat
                    && final(self).model() == old(self).model(),
            },
    {
        match ModelHandle::load(model_path, model_type) {
            Ok(handle) => {
                self.model = Some(handle);
                Ok(())
            },
            Err(e) => Err(e),
        }
    }

    /// Takes the class names from their source. Where the source gives an
    /// error the names stay as they were. The model is not touched.
    pub fn load_class_names(&mut self, source: &LabelSource) -> (res: Result<(), EngineError>)
        ensures
            final(self).model() == old(self).model(),
            match res {
                Ok(_) => names_from(*source) == Some(final(self).labels()),
                Err(e) => names_from(*source) is None && e is Load && final(self).labels()
                    == old(self).labels(),
            },
            source matches LabelSource::Unreadable(reason) ==> res matches Err(e)
                && e.message_text() == reason@,
    {
        match read_class_names(source) {
            Ok(names) => {
                self.class_names = names;
                Ok(())
            },
            Err(e) => Err(e),
        }
    }

    /// The tensor of an encoded image, decoded by the format that the
    /// extension of its file names.
    pub fn preprocess_image(&self, extension: &str, content: &[u8]) -> (res: Result<
        PreprocessedTensor,
        EngineError,
    >)
        ensures
            res is Ok <==> image_decodes(extension@, content@),
            res matches Ok(tensor) ==> tensor.is_normalized() && tensor.rows() == INPUT_HEIGHT
                && tensor.columns() == INPUT_WIDTH,
            res matches Ok(tensor) ==> is_tensor_of(tensor, extension@, content@),
            res matches Err(e) ==> e is Decode,
            extension_format(extension@) is None ==> (res matches Err(e) && e.message_text()
                == unknown_format_text(extension@)),
    {
        preprocess(extension, content)
    }

    /// The ranking that the mock model gives.
    fn generate_mock_results(
        &self,
        handle: &ModelHandle,
        tensor: &PreprocessedTensor,
    ) -> (results: Vec<InferenceResult>)
        ensures
            ranked_classes(results@) == mock_ranking(self.labels()),
    {
        let scores = handle.infer(tensor, self.class_names.len());
        let results = rank_results(&scores, &self.class_names);
        proof {
            let labels = self.labels();
            let k = ranking_len(TOP_K as nat, labels.len());
            let ranked = ranked_classes(results@);
            assert(scores@.take(labels.len() as int) =~= scores@);
            lemma_descending_scores_rank_in_order(scores@, k);
            lemma_ranking_unique(scores@, k, ids_of(ranked), Seq::new(k, |i: int| i));
            assert forall|i: int| 0 <= i < ranked.len() implies ranked[i] == mock_ranking(
                labels,
            )[i] by {
                assert(ids_of(ranked)[i] == i);
                let r = ranked[i];
                assert(r.class_name == labels[r.class_id] && r.probability == scores@[r.class_id]);
            }
            assert(ranked =~= mock_ranking(labels));
        }
        results
    }

    /// Classifies one encoded image, decoded by the format that the
    /// extension of its file names: the ranking of its classes, and the
    /// microseconds that preprocessing and inference took. Fails on an
    /// unloaded engine, whatever the image, and on bytes that are no image
    /// of that format.
    pub fn infer_single_image(&self, extension: &str, content: &[u8]) -> (res: Result<
        (Vec<InferenceResult>, u64),
        EngineError,
    >)
        ensures
            res is Ok <==> self.model() is Some && image_decodes(extension@, content@),
            res matches Ok(out) ==> ranked_classes(out.0@) == mock_ranking(self.labels()),
            res matches Err(e) ==> if self.model() is None {
                e is NotLoaded
            } else {
                e is Decode
            },
    {
        let started = std::time::Instant::now();
        self.infer_single_image_since(&started, extension, content)
    }

    /// Classifies one encoded image as `infer_single_image` does, and gives
    /// as its time the microseconds that have passed since `started`: a
    /// caller that reads the file itself starts the clock before it does.
    pub fn infer_single_image_since(
        &self,
        started: &std::time::Instant,
        extension: &str,
        content: &[u8],
    ) -> (res: Result<(Vec<InferenceResult>, u64), EngineError>)
        ensures
            res is Ok <==> self.model() is Some && image_decodes(extension@, content@),
            res matches Ok(out) ==> ranked_classes(out.0@) == mock_ranking(self.labels()),
            res matches Err(e) ==> if self.model() is None {
                e is NotLoaded
            } else {
                e is Decode
            },
    {
        match &self.model {
            None => Err(EngineError::NotLoaded),
            Some(handle) => {
                match self.preprocess_image(extension, content) {
                    Err(e) => Err(e),
                    Ok(tensor) => {
                        let results = self.generate_mock_results(handle, &tensor);
                        let elapsed = elapsed_micros(started);
                        Ok((results, elapsed))
                    },
                }
            },
        }
    }
}

impl ModelInference {
    /// Whether one of the first `upto` files has the given name and is
    /// classified.
    pub open spec fn classified_name(
        &self,
        files: Seq<ImageFile>,
        upto: int,
        name: Seq<char>,
    ) -> bool {
        exists|j: int| 0 <= j < upto && self.classifies(#[trigger] files[j]) && files[j].name@ == name
    }

    /// The names of the files that the engine classifies, in the order of
    /// the files.
    pub open spec fn classified_names(&self, files: Seq<ImageFile>) -> Seq<Seq<char>>
        decreases files.len(),
    {
        if files.len() == 0 {
            Seq::empty()
        } else if self.classifies(files.last()) {
            self.classified_names(files.drop_last()).push(files.last().name@)
        } else {
            self.classified_names(files.drop_last())
        }
    }

    /// How many of the files have the name of an image and are not
    /// classified.
    pub open spec fn failed_count(&self, files: Seq<ImageFile>) -> nat
        decreases files.len(),
    {
        if files.len() == 0 {
            0
        } else {
            self.failed_count(files.drop_last()) + if is_image_name(files.last().name@)
                && !self.classifies(files.last()) {
                1nat
            } else {
                0nat
            }
        }
    }

    /// Of the files that have the name of an image, each is either
    /// classified or failed: the candidates are as many as both together.
    pub proof fn lemma_candidates_split(&self, files: Seq<ImageFile>)
        ensures
            candidate_count(files) == self.classified_count(files) + self.failed_count(files),
        decreases files.len(),
    {
        if files.len() > 0 {
            self.lemma_candidates_split(files.drop_last());
        }
    }

    /// The files on which the engine fails, in the order of the files.
    pub open spec fn rejected_files(&self, files: Seq<ImageFile>) -> Seq<ImageFile>
        decreases files.len(),
    {
        if files.len() == 0 {
            Seq::empty()
        } else if self.rejects(files.last()) {
            self.rejected_files(files.drop_last()).push(files.last())
        } else {
            self.rejected_files(files.drop_last())
        }
    }

    /// Whether the failures are those of the files on which the engine
    /// fails: one for each such file, in the order of the files, under the
    /// file's name and with the error of inference on it.
    pub open spec fn failures_match(&self, files: Seq<ImageFile>, failures: Seq<BatchFailure>) -> bool {
        let rejected = self.rejected_files(files);
        &&& failures.len() == rejected.len()
        &&& forall|i: int|
            0 <= i < failures.len() ==> (#[trigger] failures[i]).image_name@ == rejected[i].name@
                && self.is_error_of(rejected[i], failures[i].error)
    }

    /// Whether the results and the three counts are those of a batch run
    /// over the files. The counts are the files with the name of an image,
    /// those of them that the engine classifies, and the microseconds
    /// spent. There is a record under a name exactly where a file of that
    /// name is classified, and it holds the best class. Where no two files
    /// have the same name, as in a directory, the records stand in the
    /// order of their files, one for each classified file, and the time is
    /// the sum of their times. The failures are those of the files on which
    /// the engine fails.
    pub open spec fn is_tally_of(
        &self,
        files: Seq<ImageFile>,
        results: BatchResults,
        total_images: nat,
        successful_images: nat,
        total_time_us: nat,
    ) -> bool {
        &&& results.wf()
        &&& total_images == candidate_count(files)
        &&& successful_images == self.classified_count(files)
        &&& total_time_us <= successful_images * u64::MAX
        &&& forall|name: Seq<char>| #[trigger]
            results@.contains_key(name) <==> self.classified_name(files, files.len() as int, name)
        &&& forall|name: Seq<char>| #[trigger]
            results@.contains_key(name) ==> results@[name].image_name == name
                && results@[name].result == mock_ranking(self.labels())[0]
        &&& distinct_file_names(files) ==> {
            &&& results.records().len() == successful_images
            &&& record_names(results.records()) == self.classified_names(files)
            &&& total_time_us == total_time(results.records())
        }
        &&& self.failures_match(files, results.failures())
    }

    /// Whether results and statistics are those of a batch run over the
    /// files: the statistics hold the counts of the run, and the average
    /// and the rate that follow from them.
    pub open spec fn is_batch_of(
        &self,
        files: Seq<ImageFile>,
        results: BatchResults,
        stats: InferenceStats,
    ) -> bool {
        &&& stats.wf()
        &&& self.is_tally_of(
            files,
            results,
            stats.total_images as nat,
            stats.successful_images as nat,
            stats.total_time_us as nat,
        )
    }

    /// A batch run over files of which the engine classifies some and fails
    /// the others counts both together as its images and the classified
    /// ones as its successes, and holds one record for each success where
    /// no two files have the same name.
    pub proof fn lemma_batch_counts(
        &self,
        files: Seq<ImageFile>,
        results: BatchResults,
        stats: InferenceStats,
    )
        requires
            self.is_batch_of(files, results, stats),
        ensures
            stats.total_images == self.classified_count(files) + self.failed_count(files),
            stats.successful_images == self.classified_count(files),
            distinct_file_names(files) ==> results@.dom().len() == self.classified_count(files),
    {
        self.lemma_candidates_split(files);
        if distinct_file_names(files) {
            lemma_record_map_distinct(results.records());
        }
    }

    /// Where there is a class to name, the failures of a batch run are
    /// those of exactly the files that have the name of an image and are
    /// not classified.
    pub proof fn lemma_failures_are_the_unclassified(&self, files: Seq<ImageFile>)
        requires
            self.labels().len() > 0,
        ensures
            self.rejected_files(files).len() == self.failed_count(files),
            forall|file: ImageFile|
                self.rejects(file) <==> is_image_name(file.name@) && !self.classifies(file),
        decreases files.len(),
    {
        if files.len() > 0 {
            self.lemma_failures_are_the_unclassified(files.drop_last());
        }
    }

    /// A batch run over files of which none has the name of an image, and
    /// so over no files at all, has no records and no failures, and its
    /// statistics are all zero: no images, no time, no average and no rate.
    pub proof fn lemma_batch_without_images(
        &self,
        files: Seq<ImageFile>,
        results: BatchResults,
        stats: InferenceStats,
    )
        requires
            self.is_batch_of(files, results, stats),
            candidate_count(files) == 0,
        ensures
            stats.total_images == 0,
            stats.successful_images == 0,
            stats.total_time_us == 0,
            stats.average_time_ms@ == (0nat, 1nat),
            stats.fps@ == (0nat, 1nat),
            results@ == Map::<Seq<char>, BatchRecord>::empty(),
            results.failures() == Seq::<BatchFailure>::empty(),
    {
        self.lemma_candidates_split(files);
        assert forall|name: Seq<char>| !results@.contains_key(name) by {
            if self.classified_name(files, files.len() as int, name) {
                let j = choose|j: int|
                    0 <= j < files.len() && self.classifies(#[trigger] files[j]) && files[j].name@
                        == name;
                self.lemma_classified_is_counted(files, j);
            }
        }
        assert(results@ =~= Map::<Seq<char>, BatchRecord>::empty());
        self.lemma_rejected_are_candidates(files);
        assert(results.failures() =~= Seq::<BatchFailure>::empty());
    }

    /// A classified file is counted.
    proof fn lemma_classified_is_counted(&self, files: Seq<ImageFile>, at: int)
        requires
            0 <= at < files.len(),
            self.classifies(files[at]),
        ensures
            self.classified_count(files) > 0,
        decreases files.len(),
    {
        if at < files.len() - 1 {
            self.lemma_classified_is_counted(files.drop_last(), at);
        }
    }

    /// The files on which the engine fails are among those with the name of
    /// an image, which are no more than the files.
    proof fn lemma_rejected_are_candidates(&self, files: Seq<ImageFile>)
        ensures
            self.rejected_files(files).len() <= candidate_count(files) <= files.len(),
        decreases files.len(),
    {
        if files.len() > 0 {
            self.lemma_rejected_are_candidates(files.drop_last());
        }
    }

    /// Runs the files of a directory through the engine, one after the
    /// other. Only files with the name of an image count. A file that
    /// cannot be read or classified leaves a failure and fails nothing
    /// else. Each other one leaves a record under its name, with its best
    /// class and the time it took; a later file of the same name replaces
    /// the record of an earlier one.
    pub fn batch_inference(&self, files: &Vec<ImageFile>) -> (out: (BatchResults, InferenceStats))
        ensures
            self.is_batch_of(files@, out.0, out.1),
    {
        let mut run = BatchRun::new(self);
        let mut i: usize = 0;
        assert(files@.take(0) =~= Seq::<ImageFile>::empty());
        while i < files.len()
            invariant
                i <= files.len(),
                run.wf(),
                run.engine() == *self,
                run.files() == files@.take(i as int),
            decreases files.len() - i,
        {
            proof {
                self.lemma_rejected_are_candidates(files@.take(i as int));
                assert(files@.take(i + 1) =~= files@.take(i as int).push(files@[i as int]));
            }
            let started = std::time::Instant::now();
            run.step(&files[i], &started);
            i += 1;
        }
        assert(files@.take(files@.len() as int) =~= files@);
        run.finish()
    }
}

/// A batch run in progress: an engine, and what the files taken so far have
/// left. A caller that reads the files itself takes them one at a time.
pub struct BatchRun<'a> {
    engine: &'a ModelInference,
    results: BatchResults,
    total: usize,
    successes: usize,
    total_time_us: u128,
    files: Ghost<Seq<ImageFile>>,
}

impl<'a> BatchRun<'a> {
    /// The engine of the run.
    pub closed spec fn engine(&self) -> ModelInference {
        *self.engine
    }

    /// The files taken so far, in their order.
    pub closed spec fn files(&self) -> Seq<ImageFile> {
        self.files@
    }

    /// The failures that the files taken so far have left, in their order.
    pub closed spec fn failures(&self) -> Seq<BatchFailure> {
        self.results.failures()
    }

    /// What the run holds is the tally of the files taken so far.
    pub closed spec fn wf(&self) -> bool {
        self.engine.is_tally_of(
            self.files@,
            self.results,
            self.total as nat,
            self.successes as nat,
            self.total_time_us as nat,
        )
    }

    /// A run of the engine that has taken no file yet.
    pub fn new(engine: &'a ModelInference) -> (run: BatchRun<'a>)
        ensures
            run.wf(),
            run.engine() == *engine,
            run.files() == Seq::<ImageFile>::empty(),
    {
        let run = BatchRun {
            engine,
            results: BatchResults::new(),
            total: 0,
            successes: 0,
            total_time_us: 0,
            files: Ghost(Seq::empty()),
        };
        proof {
            assert(record_names(run.results.records()) =~= engine.classified_names(run.files@));
        }
        run
    }

    /// Takes the next file. A file without the name of an image leaves
    /// nothing. Of the others, one that the engine classifies leaves a
    /// record with the microseconds that have passed since `started`, and
    /// one on which the engine fails leaves a failure. A file is refused,
    /// and the run stays as it is, only where it has the name of an image
    /// and the run has counted as many images as a `usize` holds.
    pub fn step(&mut self, file: &ImageFile, started: &std::time::Instant) -> (taken: bool)
        requires
            old(self).wf(),
        ensures
            final(self).wf(),
            final(self).engine() == old(self).engine(),
            taken <==> !(is_image_name(file.name@) && candidate_count(old(self).files())
                == usize::MAX),
            taken ==> final(self).files() == old(self).files().push(*file),
            !taken ==> final(self).files() == old(self).files(),
            final(self).engine().failures_match(final(self).files(), final(self).failures()),
            if taken && old(self).engine().rejects(*file) {
                final(self).failures().len() == old(self).failures().len() + 1
                    && final(self).failures().drop_last() == old(self).failures()
            } else {
                final(self).failures() == old(self).failures()
            },
    {
        let ghost before = self.files@;
        let ghost after = before.push(*file);
        let ghost engine = *self.engine;
        let ghost old_results = self.results;
        proof {
            assert(after.drop_last() =~= before);
            assert(after.last() == *file);
            engine.lemma_candidates_split(before);
            assert forall|i: int, j: int| 0 <= i < j < before.len() && distinct_file_names(
                after,
            ) implies (#[trigger] before[i]).name@ != (#[trigger] before[j]).name@ by {
                assert(after[i] == before[i] && after[j] == before[j]);
            }
        }
        let extension = match image_extension(file.name.as_str()) {
            Some(extension) => extension,
            None => {
                self.files = Ghost(after);
                proof {
                    engine.lemma_names_after(before, *file);
                }
                return true;
            },
        };
        if self.total == usize::MAX {
            return false;
        }
        self.total += 1;
        self.files = Ghost(after);
        let outcome = match &file.content {
            Err(reason) => {
                if self.engine.is_loaded() {
                    Err(EngineError::Decode(reason.clone()))
                } else {
                    Err(EngineError::NotLoaded)
                }
            },
            Ok(bytes) => self.engine.infer_single_image_since(
                started,
                extension.as_str(),
                bytes.as_slice(),
            ),
        };
        match outcome {
            Err(error) => {
                let failure = BatchFailure { image_name: file.name.clone(), error };
                self.results.reject(failure);
                proof {
                    assert(self.results@ == old_results@);
                    assert(!engine.classifies(*file));
                    assert(engine.rejects(*file));
                    assert(engine.is_error_of(*file, failure.error));
                    engine.lemma_names_after(before, *file);
                    let failures = self.results.failures();
                    let rejected = engine.rejected_files(after);
                    assert forall|i: int| 0 <= i < failures.len() implies (
                    #[trigger] failures[i]).image_name@ == rejected[i].name@ && engine.is_error_of(
                        rejected[i],
                        failures[i].error,
                    ) by {
                        if i < old_results.failures().len() {
                            assert(failures[i] == old_results.failures()[i]);
                        }
                    }
                }
            },
            Ok(out) => {
                proof {
                    assert(engine.infers(*file));
                    assert(ranked_classes(out.0@).len() == out.0@.len());
                    assert(mock_ranking(engine.labels()).len() == ranking_len(
                        TOP_K as nat,
                        engine.labels().len(),
                    ));
                }
                if out.0.len() > 0 {
                    let entry = BatchResult {
                        image_name: file.name.clone(),
                        result: out.0[0].clone(),
                        inference_time_us: out.1,
                    };
                    proof {
                        assert(ranked_classes(out.0@)[0] == out.0@[0]@);
                        assert(engine.classifies(*file));
                        if distinct_file_names(after) && self.results@.contains_key(
                            entry@.image_name,
                        ) {
                            let j = choose|j: int|
                                0 <= j < before.len() && engine.classifies(#[trigger] before[j])
                                    && before[j].name@ == entry@.image_name;
                            assert(after[j] == before[j]);
                            assert(after[j].name@ != after[before.len() as int].name@);
                        }
                    }
                    self.results.insert(entry);
                    proof {
                        if distinct_file_names(after) {
                            assert(self.results.records().drop_last() =~= old_results.records());
                            assert(record_names(self.results.records()) =~= record_names(
                                old_results.records(),
                            ).push(file.name@));
                        }
                    }
                    self.total_time_us = self.total_time_us + out.1 as u128;
                    self.successes += 1;
                }
                proof {
                    engine.lemma_names_after(before, *file);
                }
            },
        }
        true
    }

    /// The failures that the files taken so far have left, in their order:
    /// the last of them is that of the file taken last, where the run has
    /// grown by one failure with it.
    pub fn failed(&self) -> (all: &Vec<BatchFailure>)
        ensures
            all@ == self.failures(),
    {
        self.results.failed()
    }

    /// Ends the run: the results, and the statistics of the files taken.
    pub fn finish(self) -> (out: (BatchResults, InferenceStats))
        requires
            self.wf(),
        ensures
            self.engine().is_batch_of(self.files(), out.0, out.1),
            out.0.failures() == self.failures(),
    {
        let stats = InferenceStats::summarize(self.total, self.successes, self.total_time_us);
        (self.results, stats)
    }
}

impl ModelInference {
    /// A name is that of a classified file among the files and one more
    /// exactly where it is that of one among the files, or the one more is
    /// classified and has the name.
    proof fn lemma_names_after(&self, files: Seq<ImageFile>, file: ImageFile)
        ensures
            forall|name: Seq<char>|
                #![trigger self.classified_name(files.push(file), files.push(file).len() as int, name)]
                #![trigger self.classified_name(files, files.len() as int, name)]
                self.classified_name(files.push(file), files.push(file).len() as int, name) <==> (
                self.classified_name(files, files.len() as int, name) || (self.classifies(file)
                    && file.name@ == name)),
    {
        let after = files.push(file);
        assert forall|name: Seq<char>|
            #![trigger self.classified_name(after, after.len() as int, name)]
            #![trigger self.classified_name(files, files.len() as int, name)]
            self.classified_name(after, after.len() as int, name) <==> (self.classified_name(
                files,
                files.len() as int,
                name,
            ) || (self.classifies(file) && file.name@ == name)) by {
            if self.classified_name(after, after.len() as int, name) {
                let j = choose|j: int|
                    0 <= j < files.len() + 1 && self.classifies(#[trigger] after[j]) && after[j].name@
                        == name;
                if j < files.len() {
                    assert(after[j] == files[j]);
                    assert(self.classifies(files[j]));
                }
            }
            if self.classified_name(files, files.len() as int, name) {
                let j = choose|j: int|
                    0 <= j < files.len() && self.classifies(#[trigger] files[j]) && files[j].name@
                        == name;
                assert(after[j] == files[j]);
                assert(self.classifies(after[j]));
            }
            if self.classifies(file) && file.name@ == name {
                assert(after[files.len() as int] == file);
                assert(self.classifies(after[files.len() as int]));
            }
        }
    }
}

impl Default for ModelInference {
    fn default() -> (engine: Self)
        ensures
            engine.model() is None,
            engine.labels() == Seq::<Seq<char>>::empty(),
    {
        ModelInference::new()
    }
}

} // verus!
