use loadsmith_lab::bundle::{
    bundle_image_tag, bundle_passed, hook_config, hook_failure, BundleEntry, CaseOutcome,
    EntryRun, EntryStep,
};
use loadsmith_lab::commands::errored_case;
use loadsmith_lab::report::{BundleEntryResult, BundleResult, CaseResult};

fn entry(setup: Option<&str>, validate: Option<&str>, cleanup: Option<&str>) -> BundleEntry {
    BundleEntry {
        case: "catalog/pg".to_string(),
        setup: setup.map(String::from),
        validate: validate.map(String::from),
        cleanup: cleanup.map(String::from),
    }
}

fn case_result(passed: bool, output_dir: &str) -> CaseResult {
    CaseResult {
        name: "pg".to_string(),
        description: None,
        passed,
        duration: std::time::Duration::from_secs(2),
        rows_read: Some(10),
        rows_written: Some(10),
        prep_lines: vec![],
        loadsmith_output: String::new(),
        failures: if passed { vec![] } else { vec!["status: expected 'success', got exit code 1".to_string()] },
        output_dir: output_dir.to_string(),
    }
}

#[test]
fn hook_image_tag() {
    assert_eq!(bundle_image_tag("smoke"), "loadsmith-lab-bundle-smoke:local");
}

#[test]
fn hook_failures() {
    assert_eq!(hook_failure(Ok(0)), None);
    assert_eq!(hook_failure(Ok(3)), Some("exit 3".to_string()));
    assert_eq!(hook_failure(Ok(-1)), Some("exit -1".to_string()));
    assert_eq!(hook_failure(Err("no such image".to_string())), Some("no such image".to_string()));
}

#[test]
fn hook_containers() {
    let setup = hook_config("loadsmith-lab-bundle-smoke:local", "smoke", "catalog/pg", "/scripts/setup.sh", None);
    assert_eq!(setup.image, "loadsmith-lab-bundle-smoke:local");
    assert_eq!(
        setup.env,
        vec![
            ("LOADSMITH_LAB_BUNDLE_NAME".to_string(), "smoke".to_string()),
            ("LOADSMITH_LAB_CASE_NAME".to_string(), "catalog/pg".to_string()),
        ]
    );
    assert!(setup.binds.is_empty());
    assert_eq!(setup.cmd, vec!["/scripts/setup.sh".to_string()]);

    let validate = hook_config("img", "smoke", "catalog/pg", "/scripts/check.py", Some("/tmp/ls-lab-1"));
    assert_eq!(validate.env[2], ("LOADSMITH_LAB_OUTPUT_DIR".to_string(), "/output".to_string()));
    assert_eq!(validate.binds, vec!["/tmp/ls-lab-1:/output".to_string()]);
    assert_eq!(validate.cmd, vec!["/scripts/check.py".to_string(), "/output".to_string()]);
}

#[test]
fn entry_with_every_hook_passing() {
    let (mut run, step) = EntryRun::start(&entry(Some("/s/setup"), Some("/s/check"), Some("/s/clean")));
    assert!(matches!(step, EntryStep::Setup(ref s) if s == "/s/setup"));
    let step = run.setup_done(Ok(0));
    assert!(matches!(step, EntryStep::RunCase(ref c) if c == "catalog/pg"));
    let step = run.case_done(CaseOutcome::Ran(case_result(true, "/tmp/ls-lab-1")));
    assert!(matches!(step, EntryStep::Validate(ref v, Some(ref d)) if v == "/s/check" && d == "/tmp/ls-lab-1"));
    let step = run.validate_done(Ok(0));
    assert!(matches!(step, EntryStep::Cleanup(ref c, Some(ref d)) if c == "/s/clean" && d == "/tmp/ls-lab-1"));
    let step = run.cleanup_done(Ok(1));
    assert!(matches!(step, EntryStep::Finish));
    let r = run.finish();
    assert!(r.passed);
    assert_eq!(r.cleanup_warning, Some("exit 1".to_string()));
}

#[test]
fn failed_setup_skips_the_case_but_not_cleanup() {
    let (mut run, _) = EntryRun::start(&entry(Some("/s/setup"), Some("/s/check"), Some("/s/clean")));
    let step = run.setup_done(Ok(2));
    assert!(matches!(step, EntryStep::Cleanup(ref c, None) if c == "/s/clean"));
    assert!(matches!(run.cleanup_done(Ok(0)), EntryStep::Finish));
    let r = run.finish();
    assert!(!r.passed);
    assert_eq!(r.setup_failure, Some("exit 2".to_string()));
    assert!(r.case_result.is_none());
}

#[test]
fn failed_case_skips_validate() {
    let (mut run, step) = EntryRun::start(&entry(None, Some("/s/check"), None));
    assert!(matches!(step, EntryStep::RunCase(_)));
    let step = run.case_done(CaseOutcome::Ran(case_result(false, "/tmp/ls-lab-2")));
    assert!(matches!(step, EntryStep::Finish));
    let r = run.finish();
    assert!(!r.passed);
    assert!(r.validate_failure.is_none());
}

#[test]
fn unresolved_and_errored_cases() {
    let (mut run, _) = EntryRun::start(&entry(None, None, None));
    assert!(matches!(run.case_done(CaseOutcome::Unresolved("not installed".to_string())), EntryStep::Finish));
    let r = run.finish();
    assert_eq!(r.setup_failure, Some("not installed".to_string()));
    assert!(!r.passed);

    let (mut run, _) = EntryRun::start(&entry(None, Some("/s/check"), None));
    assert!(matches!(run.case_done(CaseOutcome::Errored("docker down".to_string())), EntryStep::Finish));
    let r = run.finish();
    let c = r.case_result.unwrap();
    assert_eq!(c.name, "catalog/pg");
    assert!(!c.passed);
    assert_eq!(c.failures, vec!["docker down".to_string()]);
}

#[test]
fn failed_validate_fails_the_entry() {
    let (mut run, _) = EntryRun::start(&entry(None, Some("/s/check"), None));
    let _ = run.case_done(CaseOutcome::Ran(case_result(true, "/o")));
    assert!(matches!(run.validate_done(Err("timeout".to_string())), EntryStep::Finish));
    let r = run.finish();
    assert!(!r.passed);
    assert_eq!(r.validate_failure, Some("timeout".to_string()));
}

#[test]
fn cleanup_never_decides_the_verdict() {
    let finish_with_cleanup = |outcome: Result<i64, String>| {
        let (mut run, _) = EntryRun::start(&entry(None, None, Some("/s/clean")));
        let _ = run.case_done(CaseOutcome::Ran(case_result(true, "/o")));
        let _ = run.cleanup_done(outcome);
        run.finish().passed
    };
    assert!(finish_with_cleanup(Ok(0)));
    assert!(finish_with_cleanup(Ok(9)));
    assert!(finish_with_cleanup(Err("gone".to_string())));
}

#[test]
fn bundle_verdict() {
    let ok = |passed: bool| BundleEntryResult {
        case_name: "c".to_string(),
        passed,
        case_result: None,
        setup_failure: None,
        validate_failure: None,
        cleanup_warning: None,
    };
    assert!(bundle_passed(&BundleResult { name: "b".to_string(), entries: vec![ok(true), ok(true)] }));
    assert!(!bundle_passed(&BundleResult { name: "b".to_string(), entries: vec![ok(true), ok(false)] }));
    assert!(bundle_passed(&BundleResult { name: "b".to_string(), entries: vec![] }));
}

#[test]
fn errored_case_result() {
    let r = errored_case("catalog/pg", "image not found".to_string());
    assert_eq!(r.name, "catalog/pg");
    assert!(!r.passed);
    assert_eq!(r.failures, vec!["image not found".to_string()]);
    assert_eq!(r.duration, std::time::Duration::ZERO);
}
