use watermarker::batch::{
    exit_code, progress_percent, summarize, validate_dimensions, validate_paths, BatchSummary,
    TaskError,
};
use watermarker::geometry::ValidationError;

#[test]
fn all_valid_paths_pass_validation() {
    let paths = vec![
        "a.png".to_string(),
        "dir/b.jpg".to_string(),
        "c.webp".to_string(),
        "d.bmp".to_string(),
        "e.jpeg".to_string(),
    ];
    assert_eq!(validate_paths(&paths), Ok(()));
}

#[test]
fn one_bad_extension_fails_before_any_task() {
    // A batch with one invalid input fails validation as a whole: the first
    // offending path is reported and no task result ever exists.
    let paths = vec![
        "a.png".to_string(),
        "b.txt".to_string(),
        "c.jpg".to_string(),
    ];
    assert_eq!(
        validate_paths(&paths),
        Err((1, ValidationError::UnsupportedExtension))
    );
}

#[test]
fn missing_extension_fails_validation() {
    let paths = vec!["a.png".to_string(), "noext".to_string()];
    assert_eq!(
        validate_paths(&paths),
        Err((1, ValidationError::MissingExtension))
    );
}

#[test]
fn empty_batch_is_valid() {
    let paths: Vec<String> = Vec::new();
    assert_eq!(validate_paths(&paths), Ok(()));
}

#[test]
fn dimension_check_requires_strictly_larger_bases() {
    let dims = vec![(100, 100), (50, 80)];
    assert!(validate_dimensions(&dims, 20, 20));
    // One base exactly the watermark's width fails the strict check.
    let dims_equal = vec![(100, 100), (20, 80)];
    assert!(!validate_dimensions(&dims_equal, 20, 20));
    let dims_short = vec![(100, 19)];
    assert!(!validate_dimensions(&dims_short, 20, 20));
}

#[test]
fn one_failed_decode_leaves_other_tasks_successful() {
    // N tasks, one fails: the summary counts N-1 successes and the exit code
    // reports partial failure.
    let results: Vec<Result<String, TaskError>> = vec![
        Ok("a_WATERMARKED.png".to_string()),
        Err(TaskError::Decode),
        Ok("c_WATERMARKED.png".to_string()),
        Ok("d_WATERMARKED.png".to_string()),
    ];
    let summary = summarize(&results);
    assert_eq!(summary, BatchSummary { succeeded: 3, failed: 1 });
    assert_ne!(exit_code(&summary), 0);
}

#[test]
fn full_success_exits_zero() {
    let results: Vec<Result<String, TaskError>> =
        vec![Ok("a".to_string()), Ok("b".to_string())];
    let summary = summarize(&results);
    assert_eq!(summary, BatchSummary { succeeded: 2, failed: 0 });
    assert_eq!(exit_code(&summary), 0);
}

#[test]
fn every_failure_kind_is_counted() {
    let results: Vec<Result<String, TaskError>> = vec![
        Err(TaskError::Decode),
        Err(TaskError::UnsupportedFormat),
        Err(TaskError::Write),
    ];
    let summary = summarize(&results);
    assert_eq!(summary, BatchSummary { succeeded: 0, failed: 3 });
    assert_ne!(exit_code(&summary), 0);
}

#[test]
fn progress_is_pixels_done_over_total() {
    assert_eq!(progress_percent(0, 400), 0);
    assert_eq!(progress_percent(200, 400), 50);
    assert_eq!(progress_percent(400, 400), 100);
    assert_eq!(progress_percent(1, 3), 33);
}
