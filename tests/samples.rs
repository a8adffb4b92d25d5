use bingo::logger::{tag, threshold, Severity, TagColor};
use bingo::samples::{sample_path, sample_paths};

#[test]
fn first_sample_is_unprefixed() {
    assert_eq!(sample_path(1, "bingo.png"), "bingo.png");
    assert_eq!(sample_path(0, "bingo.png"), "bingo.png");
}

#[test]
fn later_samples_are_numbered() {
    assert_eq!(sample_path(2, "bingo.png"), "2_bingo.png");
    assert_eq!(sample_path(10, "out.png"), "10_out.png");
    assert_eq!(sample_path(4294967295, "x"), "4294967295_x");
}

#[test]
fn samples_give_one_name_each() {
    let names = sample_paths(4, "card.png");
    assert_eq!(names, vec!["card.png", "2_card.png", "3_card.png", "4_card.png"]);
    assert!(sample_paths(0, "card.png").is_empty());
    assert_eq!(sample_paths(1, "card.png"), vec!["card.png"]);
}

#[test]
fn verbosity_thresholds() {
    assert_eq!(threshold(0), Severity::Error);
    assert_eq!(threshold(1), Severity::Info);
    assert_eq!(threshold(2), Severity::Trace);
    assert_eq!(threshold(7), Severity::Trace);
}

#[test]
fn tags_per_severity() {
    assert_eq!(tag(Severity::Error), (TagColor::Red, "error"));
    assert_eq!(tag(Severity::Warn), (TagColor::Yellow, "warn"));
    assert_eq!(tag(Severity::Info), (TagColor::Cyan, "info"));
    assert_eq!(tag(Severity::Debug), (TagColor::Magenta, "debug"));
    assert_eq!(tag(Severity::Trace), (TagColor::Blue, "trace"));
}
