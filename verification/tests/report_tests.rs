use loadsmith_lab::report::{
    bundle_counts, bundle_summary_text, fmt_n, rows_text, summary_counts, summary_text,
    BundleEntryResult, BundleResult, CaseResult,
};

fn result(passed: bool) -> CaseResult {
    CaseResult {
        name: "c".to_string(),
        description: None,
        passed,
        duration: std::time::Duration::from_secs(1),
        rows_read: None,
        rows_written: None,
        prep_lines: vec![],
        loadsmith_output: String::new(),
        failures: vec![],
        output_dir: String::new(),
    }
}

#[test]
fn thousands_separators() {
    assert_eq!(fmt_n(0), "0");
    assert_eq!(fmt_n(999), "999");
    assert_eq!(fmt_n(1000), "1,000");
    assert_eq!(fmt_n(100000), "100,000");
    assert_eq!(fmt_n(1234567), "1,234,567");
    assert_eq!(fmt_n(u64::MAX), "18,446,744,073,709,551,615");
}

#[test]
fn thousands_separators_read_back() {
    for n in [0u64, 7, 1000, 99998, 1234567, u64::MAX] {
        assert_eq!(fmt_n(n).replace(',', "").parse::<u64>().unwrap(), n);
    }
}

#[test]
fn rows_part_of_a_verdict() {
    assert_eq!(rows_text(Some(100000), Some(99998)), "100,000 read · 99,998 written");
    assert_eq!(rows_text(Some(5), None), "5 read");
    assert_eq!(rows_text(None, Some(1000)), "1,000 written");
    assert_eq!(rows_text(None, None), "");
}

#[test]
fn run_summary() {
    let results = vec![result(true), result(false), result(true)];
    assert_eq!(summary_counts(&results), (2, 1));
    assert_eq!(summary_text(2, 1), "2 passed, 1 failed");
    assert_eq!(summary_counts(&vec![]), (0, 0));
}

#[test]
fn bundle_summary() {
    let e = |passed: bool| BundleEntryResult {
        case_name: "c".to_string(),
        passed,
        case_result: None,
        setup_failure: None,
        validate_failure: None,
        cleanup_warning: None,
    };
    let b = BundleResult { name: "smoke".to_string(), entries: vec![e(true), e(true), e(false)] };
    assert_eq!(bundle_counts(&b), (2, 1));
    assert_eq!(bundle_summary_text("smoke", 2, 1), "smoke — 2 passed, 1 failed");
}
