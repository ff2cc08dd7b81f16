use model_inference::batch::{BatchFailure, BatchResult, BatchResults, InferenceStats, Ratio};
use model_inference::error::EngineError;
use model_inference::inference::BatchRun;
use model_inference::clock::capped_micros;
use model_inference::files::ImageFile;
use model_inference::inference::{ModelInference, ModelType};
use model_inference::labels::LabelSource;
use model_inference::ranking::InferenceResult;

fn png(width: u32, height: u32) -> Vec<u8> {
    let img = image::RgbImage::from_pixel(width, height, image::Rgb([200, 100, 50]));
    let mut out = std::io::Cursor::new(Vec::new());
    image::DynamicImage::ImageRgb8(img).write_to(&mut out, image::ImageFormat::Png).unwrap();
    out.into_inner()
}

/// A file that holds an image of the format that its name has, or a PNG
/// image where its name has none.
fn good(name: &str) -> ImageFile {
    let extension = name.rsplit('.').next().unwrap();
    let content = match image::ImageFormat::from_extension(extension) {
        Some(format) => {
            let img = image::RgbImage::from_pixel(6, 4, image::Rgb([200, 100, 50]));
            let mut out = std::io::Cursor::new(Vec::new());
            image::DynamicImage::ImageRgb8(img).write_to(&mut out, format).unwrap();
            out.into_inner()
        }
        None => png(6, 4),
    };
    ImageFile { name: name.to_string(), content: Ok(content) }
}

/// A file that holds a PNG image, whatever its name.
fn png_as(name: &str) -> ImageFile {
    ImageFile { name: name.to_string(), content: Ok(png(6, 4)) }
}

fn corrupt(name: &str) -> ImageFile {
    ImageFile { name: name.to_string(), content: Ok(b"corrupt".to_vec()) }
}

fn unreadable(name: &str) -> ImageFile {
    ImageFile { name: name.to_string(), content: Err(format!("cannot read {}", name)) }
}

fn loaded() -> ModelInference {
    let mut engine = ModelInference::new();
    engine.load_model("model.onnx", ModelType::ONNX).unwrap();
    engine.load_class_names(&LabelSource::NotGiven).unwrap();
    engine
}

fn record(name: &str, class_id: usize, micros: u64) -> BatchResult {
    BatchResult {
        image_name: name.to_string(),
        result: InferenceResult { class_id, class_name: format!("c{}", class_id), probability: 1 },
        inference_time_us: micros,
    }
}

const ZERO: Ratio = Ratio { numerator: 0, denominator: 1 };

#[test]
fn statistics_of_a_run() {
    let stats = InferenceStats::summarize(5, 4, 8_000);
    assert_eq!(stats.total_images, 5);
    assert_eq!(stats.successful_images, 4);
    assert_eq!(stats.total_time_us, 8_000);
    // 8 ms over 4 images: 2 ms each, 500 images in a second.
    assert_eq!(stats.average_time_ms, Ratio { numerator: 8_000, denominator: 4_000 });
    assert_eq!(stats.fps, Ratio { numerator: 4_000_000, denominator: 8_000 });
    assert_eq!(stats.fps.numerator / stats.fps.denominator, 500);
}

#[test]
fn the_average_of_no_images_is_zero() {
    let stats = InferenceStats::summarize(3, 0, 0);
    assert_eq!(stats.average_time_ms, ZERO);
    assert_eq!(stats.fps, ZERO);
    let stats = InferenceStats::summarize(3, 0, 77);
    assert_eq!(stats.average_time_ms, ZERO);
    assert_eq!(stats.fps, Ratio { numerator: 0, denominator: 77 });
}

#[test]
fn the_rate_of_no_time_is_zero() {
    let stats = InferenceStats::summarize(2, 2, 0);
    assert_eq!(stats.fps, ZERO);
    assert_eq!(stats.average_time_ms, Ratio { numerator: 0, denominator: 2_000 });
}

#[test]
fn statistics_take_the_largest_numbers() {
    let stats = InferenceStats::summarize(usize::MAX, usize::MAX, u128::MAX);
    assert_eq!(stats.average_time_ms.numerator, u128::MAX);
    assert_eq!(stats.average_time_ms.denominator, 1000 * usize::MAX as u128);
    assert_eq!(stats.fps.numerator, 1_000_000 * usize::MAX as u128);
    assert_eq!(stats.fps.denominator, u128::MAX);
}

#[test]
fn records_are_found_by_name() {
    let mut results = BatchResults::new();
    assert_eq!(results.len(), 0);
    results.insert(record("a.png", 1, 10));
    results.insert(record("b.png", 2, 20));
    assert_eq!(results.len(), 2);
    assert_eq!(results.get(&"a.png".to_string()).unwrap().result.class_id, 1);
    assert_eq!(results.get(&"b.png".to_string()).unwrap().inference_time_us, 20);
    assert!(results.get(&"c.png".to_string()).is_none());
    assert!(results.get(&"A.png".to_string()).is_none());
}

#[test]
fn a_later_record_replaces_one_of_the_same_name() {
    let mut results = BatchResults::new();
    results.insert(record("a.png", 1, 10));
    results.insert(record("b.png", 2, 20));
    results.insert(record("a.png", 3, 30));
    assert_eq!(results.len(), 2);
    let found = results.get(&"a.png".to_string()).unwrap();
    assert_eq!(found.result.class_id, 3);
    assert_eq!(found.inference_time_us, 30);
    let names: Vec<&str> = results.entries().iter().map(|e| e.image_name.as_str()).collect();
    assert_eq!(names, vec!["a.png", "b.png"]);
}

#[test]
fn a_cloned_record_is_equal_in_every_field() {
    let copy = record("a.png", 4, 9).clone();
    assert_eq!(copy.image_name, "a.png");
    assert_eq!(copy.result.class_id, 4);
    assert_eq!(copy.result.class_name, "c4");
    assert_eq!(copy.inference_time_us, 9);
}

#[test]
fn valid_and_invalid_images_are_counted() {
    let files = vec![
        good("a.png"),
        corrupt("b.jpg"),
        good("c.JPEG"),
        unreadable("d.bmp"),
        good("e.webp"),
        corrupt("f.png"),
    ];
    let (results, stats) = loaded().batch_inference(&files);
    assert_eq!(stats.total_images, 6);
    assert_eq!(stats.successful_images, 3);
    assert_eq!(results.len(), 3);
    for name in ["a.png", "c.JPEG", "e.webp"] {
        assert!(results.get(&name.to_string()).is_some());
    }
    for name in ["b.jpg", "d.bmp", "f.png"] {
        assert!(results.get(&name.to_string()).is_none());
    }
}

#[test]
fn files_without_an_image_name_do_not_count() {
    let files = vec![good("a.png"), good("notes.txt"), good("b"), good(".png"), corrupt("c.gif")];
    let (results, stats) = loaded().batch_inference(&files);
    assert_eq!(stats.total_images, 1);
    assert_eq!(stats.successful_images, 1);
    assert_eq!(results.len(), 1);
    assert!(results.get(&"notes.txt".to_string()).is_none());
}

#[test]
fn each_record_holds_the_best_class_and_its_own_name() {
    let files = vec![good("a.png"), good("b.png")];
    let (results, _) = loaded().batch_inference(&files);
    for name in ["a.png", "b.png"] {
        let found = results.get(&name.to_string()).unwrap();
        assert_eq!(found.image_name, name);
        assert_eq!(found.result.class_id, 0);
        assert_eq!(found.result.class_name, "Class_0");
        assert_eq!(found.result.probability, 100);
    }
}

#[test]
fn an_empty_directory_gives_zero_statistics() {
    let (results, stats) = loaded().batch_inference(&Vec::new());
    assert_eq!(results.len(), 0);
    assert_eq!(
        stats,
        InferenceStats {
            total_images: 0,
            successful_images: 0,
            total_time_us: 0,
            average_time_ms: ZERO,
            fps: ZERO,
        }
    );
}

#[test]
fn a_directory_without_images_gives_zero_statistics() {
    let files = vec![good("readme.md"), corrupt("data.bin")];
    let (results, stats) = loaded().batch_inference(&files);
    assert_eq!(results.len(), 0);
    assert_eq!(stats.total_images, 0);
    assert_eq!(stats.successful_images, 0);
    assert_eq!(stats.average_time_ms, ZERO);
    assert_eq!(stats.fps, ZERO);
}

#[test]
fn only_failures_give_no_average_and_no_rate() {
    let files = vec![corrupt("a.png"), unreadable("b.png")];
    let (results, stats) = loaded().batch_inference(&files);
    assert_eq!(results.len(), 0);
    assert_eq!(stats.total_images, 2);
    assert_eq!(stats.successful_images, 0);
    assert_eq!(stats.total_time_us, 0);
    assert_eq!(stats.average_time_ms, ZERO);
    assert_eq!(stats.fps, ZERO);
}

#[test]
fn an_unloaded_engine_fails_every_image_and_no_more() {
    let files = vec![good("a.png"), good("b.png")];
    let (results, stats) = ModelInference::new().batch_inference(&files);
    assert_eq!(stats.total_images, 2);
    assert_eq!(stats.successful_images, 0);
    assert_eq!(results.len(), 0);
}

#[test]
fn an_engine_without_labels_records_nothing() {
    let mut engine = ModelInference::new();
    engine.load_model("model.onnx", ModelType::ONNX).unwrap();
    let files = vec![good("a.png")];
    let (results, stats) = engine.batch_inference(&files);
    assert_eq!(stats.total_images, 1);
    assert_eq!(stats.successful_images, 0);
    assert_eq!(results.len(), 0);
}

#[test]
fn the_statistics_agree_with_the_records() {
    let files = vec![good("a.png"), good("b.png"), corrupt("c.png"), good("d.png")];
    let (results, stats) = loaded().batch_inference(&files);
    let sum: u128 = results.entries().iter().map(|e| e.inference_time_us as u128).sum();
    assert_eq!(stats.total_time_us, sum);
    assert_eq!(stats.average_time_ms.numerator, sum);
    assert_eq!(stats.average_time_ms.denominator, 3_000);
    if sum > 0 {
        assert_eq!(stats.fps, Ratio { numerator: 3_000_000, denominator: sum });
    } else {
        assert_eq!(stats.fps, ZERO);
    }
}

#[test]
fn a_second_file_of_the_same_name_replaces_the_first() {
    let files = vec![good("a.png"), good("a.png"), good("b.png")];
    let (results, stats) = loaded().batch_inference(&files);
    assert_eq!(stats.total_images, 3);
    assert_eq!(stats.successful_images, 3);
    assert_eq!(results.len(), 2);
}

#[test]
fn times_are_capped_at_sixty_four_bits() {
    assert_eq!(capped_micros(0), 0);
    assert_eq!(capped_micros(1_234_567), 1_234_567);
    assert_eq!(capped_micros(u64::MAX as u128), u64::MAX);
    assert_eq!(capped_micros(u64::MAX as u128 + 1), u64::MAX);
    assert_eq!(capped_micros(u128::MAX), u64::MAX);
}

fn failed_names(results: &BatchResults) -> Vec<&str> {
    results.failed().iter().map(|failure| failure.image_name.as_str()).collect()
}

#[test]
fn failures_are_kept_in_their_order() {
    let mut results = BatchResults::new();
    assert!(results.failed().is_empty());
    results.reject(BatchFailure { image_name: "b.png".to_string(), error: EngineError::NotLoaded });
    results.insert(record("a.png", 1, 10));
    results.reject(BatchFailure {
        image_name: "c.png".to_string(),
        error: EngineError::Decode("bad".to_string()),
    });
    assert_eq!(failed_names(&results), vec!["b.png", "c.png"]);
    assert!(matches!(results.failed()[0].error, EngineError::NotLoaded));
    assert_eq!(results.failed()[1].error.message(), "bad");
    assert_eq!(results.len(), 1);
}

#[test]
fn every_image_that_is_not_classified_leaves_a_failure() {
    let files = vec![
        good("a.png"),
        corrupt("b.jpg"),
        good("notes.txt"),
        unreadable("d.bmp"),
        good("e.webp"),
        corrupt("f.png"),
    ];
    let (results, stats) = loaded().batch_inference(&files);
    assert_eq!(failed_names(&results), vec!["b.jpg", "d.bmp", "f.png"]);
    assert_eq!(stats.total_images, results.len() + results.failed().len());
    assert!(matches!(results.failed()[0].error, EngineError::Decode(_)));
    match &results.failed()[1].error {
        EngineError::Decode(reason) => assert_eq!(reason, "cannot read d.bmp"),
        other => panic!("unexpected: {:?}", other),
    }
}

#[test]
fn an_image_under_the_extension_of_another_format_fails() {
    let files = vec![png_as("a.jpg"), png_as("b.PNG")];
    let (results, stats) = loaded().batch_inference(&files);
    assert_eq!(stats.total_images, 2);
    assert_eq!(stats.successful_images, 1);
    assert_eq!(failed_names(&results), vec!["a.jpg"]);
    assert!(results.get(&"b.PNG".to_string()).is_some());
}

#[test]
fn an_unloaded_engine_fails_every_image_with_not_loaded() {
    let files = vec![good("a.png"), unreadable("b.png"), good("c.txt")];
    let (results, _) = ModelInference::new().batch_inference(&files);
    assert_eq!(failed_names(&results), vec!["a.png", "b.png"]);
    assert!(results.failed().iter().all(|f| matches!(f.error, EngineError::NotLoaded)));
}

#[test]
fn an_engine_without_labels_leaves_neither_record_nor_failure() {
    let mut engine = ModelInference::new();
    engine.load_model("model.onnx", ModelType::ONNX).unwrap();
    let (results, stats) = engine.batch_inference(&vec![good("a.png"), corrupt("b.png")]);
    assert_eq!(stats.total_images, 2);
    assert_eq!(results.len(), 0);
    assert_eq!(failed_names(&results), vec!["b.png"]);
}

#[test]
fn a_run_takes_its_files_one_at_a_time() {
    let engine = loaded();
    let mut run = BatchRun::new(&engine);
    for file in [good("a.png"), corrupt("b.png"), good("c.txt"), png_as("d.jpeg")] {
        let started = std::time::Instant::now();
        assert!(run.step(&file, &started));
    }
    let (results, stats) = run.finish();
    assert_eq!(stats.total_images, 3);
    // PNG bytes under `d.jpeg` do not decode as JPEG.
    assert_eq!(stats.successful_images, 1);
    assert_eq!(results.len(), 1);
    assert_eq!(failed_names(&results), vec!["b.png", "d.jpeg"]);
}

#[test]
fn a_run_without_files_ends_with_zero_statistics() {
    let engine = loaded();
    let (results, stats) = BatchRun::new(&engine).finish();
    assert_eq!(results.len(), 0);
    assert!(results.failed().is_empty());
    assert_eq!(stats, InferenceStats::summarize(0, 0, 0));
    assert_eq!(stats.fps, ZERO);
}

#[test]
fn the_time_of_a_record_runs_from_the_instant_given() {
    let engine = loaded();
    let mut run = BatchRun::new(&engine);
    let quarter = std::time::Duration::from_millis(15);
    let started = std::time::Instant::now().checked_sub(quarter).unwrap();
    assert!(run.step(&good("a.png"), &started));
    let (results, stats) = run.finish();
    assert!(results.get(&"a.png".to_string()).unwrap().inference_time_us >= 15_000);
    assert!(stats.total_time_us >= 15_000);
}

#[test]
fn a_run_shows_each_failure_as_it_comes() {
    let engine = loaded();
    let mut run = BatchRun::new(&engine);
    let mut seen = Vec::new();
    for file in [good("a.png"), corrupt("b.png"), good("c.txt"), unreadable("d.bmp"), good("e.bmp")]
    {
        let before = run.failed().len();
        let started = std::time::Instant::now();
        assert!(run.step(&file, &started));
        seen.push(run.failed().get(before).map(|failure| failure.image_name.clone()));
    }
    assert_eq!(
        seen,
        vec![None, Some("b.png".to_string()), None, Some("d.bmp".to_string()), None]
    );
    let (results, _) = run.finish();
    assert_eq!(failed_names(&results), vec!["b.png", "d.bmp"]);
}
