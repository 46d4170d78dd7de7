use metric_census::locate::{craw_path_for_metric_files, is_metric_file_name, FsEntry};

fn file(path: &str, name: &str) -> FsEntry {
    FsEntry::File { path: path.to_string(), name: name.to_string() }
}

fn dir(entries: Vec<FsEntry>) -> FsEntry {
    FsEntry::Dir { entries }
}

fn located(entry: &FsEntry) -> Vec<String> {
    let mut files = Vec::new();
    craw_path_for_metric_files(entry, &mut files);
    files
}

#[test]
fn metric_file_name_needs_prefix_and_suffix() {
    assert!(is_metric_file_name("metrics.out"));
    assert!(is_metric_file_name("metrics-2024-01-01.out"));
    assert!(is_metric_file_name("metrics.out.out"));
    assert!(!is_metric_file_name("metrics"));
    assert!(!is_metric_file_name(".out"));
    assert!(!is_metric_file_name(""));
    assert!(!is_metric_file_name("metrics.out.gz"));
    assert!(!is_metric_file_name("old-metrics.out"));
    assert!(!is_metric_file_name("metric.out"));
    assert!(!is_metric_file_name("metricsout"));
}

#[test]
fn metric_file_name_is_case_sensitive() {
    assert!(!is_metric_file_name("Metrics.out"));
    assert!(!is_metric_file_name("metrics.OUT"));
    assert!(!is_metric_file_name("METRICS.OUT"));
}

#[test]
fn crawl_of_empty_directory_finds_nothing() {
    assert_eq!(located(&dir(vec![])), Vec::<String>::new());
}

#[test]
fn crawl_of_non_matching_tree_finds_nothing() {
    let tree = dir(vec![
        file("/r/readme.txt", "readme.txt"),
        dir(vec![file("/r/a/events.out", "events.out"), dir(vec![])]),
        FsEntry::Other,
    ]);
    assert_eq!(located(&tree), Vec::<String>::new());
}

#[test]
fn crawl_of_single_file_root() {
    assert_eq!(located(&file("/r/metrics.out", "metrics.out")), vec!["/r/metrics.out".to_string()]);
    assert_eq!(located(&file("/r/other.out", "other.out")), Vec::<String>::new());
    assert_eq!(located(&FsEntry::Other), Vec::<String>::new());
}

#[test]
fn crawl_goes_by_the_name_not_the_path() {
    assert_eq!(
        located(&file("/metrics.out/notes.txt", "notes.txt")),
        Vec::<String>::new()
    );
    assert_eq!(located(&file("/data/x", "metrics.out")), vec!["/data/x".to_string()]);
}

#[test]
fn crawl_finds_matches_at_any_depth_in_listing_order() {
    let tree = dir(vec![
        file("/r/metrics1.out", "metrics1.out"),
        dir(vec![
            file("/r/a/skip.log", "skip.log"),
            dir(vec![dir(vec![file("/r/a/b/c/metrics-deep.out", "metrics-deep.out")])]),
            file("/r/a/metrics2.out", "metrics2.out"),
        ]),
        FsEntry::Other,
        file("/r/metrics3.out", "metrics3.out"),
    ]);
    assert_eq!(
        located(&tree),
        vec![
            "/r/metrics1.out".to_string(),
            "/r/a/b/c/metrics-deep.out".to_string(),
            "/r/a/metrics2.out".to_string(),
            "/r/metrics3.out".to_string(),
        ]
    );
}

#[test]
fn crawl_appends_to_what_is_there() {
    let mut files = vec!["kept".to_string()];
    craw_path_for_metric_files(&dir(vec![file("/m/metrics.out", "metrics.out")]), &mut files);
    assert_eq!(files, vec!["kept".to_string(), "/m/metrics.out".to_string()]);
}
