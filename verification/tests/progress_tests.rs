use gh_discussion_export::progress::ProgressReporter;

#[test]
fn test_format_progress_message_zero() {
    let message = ProgressReporter::format_progress_message(0, 0);
    assert_eq!(message, "0/0 (100%)");
}

#[test]
fn test_format_progress_message_start() {
    let message = ProgressReporter::format_progress_message(0, 10);
    assert_eq!(message, "0/10 (0%)");
}

#[test]
fn test_format_progress_message_half() {
    let message = ProgressReporter::format_progress_message(5, 10);
    assert_eq!(message, "5/10 (50%)");
}

#[test]
fn test_format_progress_message_complete() {
    let message = ProgressReporter::format_progress_message(10, 10);
    assert_eq!(message, "10/10 (100%)");
}

#[test]
fn test_format_progress_message_rounding() {
    let message = ProgressReporter::format_progress_message(1, 3);
    assert_eq!(message, "1/3 (33%)");

    let message = ProgressReporter::format_progress_message(2, 3);
    assert_eq!(message, "2/3 (66%)");
}

#[test]
fn test_format_progress_message_large_numbers() {
    let message = ProgressReporter::format_progress_message(999, 1000);
    assert_eq!(message, "999/1000 (99%)");
}

#[test]
fn test_reporter_creation() {
    let reporter = ProgressReporter::new(100, "Test".to_string());
    assert_eq!(reporter.total, 100);
    assert_eq!(reporter.current, 0);
    assert_eq!(reporter.label, "Test");
}

#[test]
fn test_reporter_increment() {
    let mut reporter = ProgressReporter::new(10, "Test".to_string());
    assert_eq!(reporter.current, 0);

    reporter.increment();
    assert_eq!(reporter.current, 1);

    reporter.increment();
    assert_eq!(reporter.current, 2);
}

#[test]
fn test_reporter_set_progress() {
    let mut reporter = ProgressReporter::new(10, "Test".to_string());
    reporter.set_progress(5);
    assert_eq!(reporter.current, 5);

    reporter.set_progress(5);
    assert_eq!(reporter.current, 5);

    reporter.set_progress(15);
    assert_eq!(reporter.current, 5);
}

#[test]
fn test_reporter_increment_stops_at_total() {
    let mut reporter = ProgressReporter::new(5, "Test".to_string());

    for _ in 0..10 {
        reporter.increment();
    }

    assert_eq!(reporter.current, 5);
}

#[test]
fn test_format_progress_includes_label() {
    let reporter = ProgressReporter::new(10, "Downloading".to_string());
    let message = reporter.format_progress();
    assert_eq!(message, "Downloading: 0/10 (0%)");
}

#[test]
fn test_format_progress_updates_with_current() {
    let mut reporter = ProgressReporter::new(10, "Downloading".to_string());
    reporter.set_progress(5);

    let message = reporter.format_progress();
    assert_eq!(message, "Downloading: 5/10 (50%)");
}
