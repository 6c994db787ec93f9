use loadsmith_lab::case::{
    default_timeout, Case, CaseMeta, Expect, LoadsmithDef, OutputExpect, PipelineDef,
    PostgresReadiness, ServiceDef, VolumeMount,
};
use loadsmith_lab::origin::Config;
use loadsmith_lab::runner::{
    finish_case, loadsmith_container, output_path, parse_metric, parse_rows_from_stdout,
    pipeline_paths, postgres_conn_str, probe_query, probe_ready, scratch_name, service_container,
    stdout_log_path, validate_expects, FileObservation, RunOpts,
};

const SUMMARY: &str = "│ Pipeline finished\n│   Rows read:    100,000\n│   Rows written: 99,998\n│ done\n";

fn expect(status: &str) -> Expect {
    Expect { status: status.to_string(), rows_read: None, rows_written: None, output: None }
}

fn no_file() -> FileObservation {
    FileObservation { exists: false, line_count: None }
}

fn sample_case() -> Case {
    Case {
        case: CaseMeta { name: "pg-to-jsonl".to_string(), description: Some("Postgres to JSONL".to_string()), tags: vec![] },
        services: vec![ServiceDef {
            image: "images/postgres-15".to_string(),
            alias: "pg".to_string(),
            readiness: None,
            env: vec!["POSTGRES_PASSWORD=secret=1".to_string(), "FLAG".to_string()],
            docker_args: vec!["/data:/var/lib/postgresql/data".to_string()],
        }],
        loadsmith: LoadsmithDef {
            image: "loadsmith:0.3".to_string(),
            volumes: vec![VolumeMount { host: "/fixtures".to_string(), container: "/fixtures".to_string() }],
            env: vec!["RUST_LOG=debug".to_string()],
            docker_args: vec!["--memory=1g".to_string()],
        },
        pipeline: PipelineDef { file: "pipeline.yaml".to_string() },
        expect: Expect { status: "success".to_string(), rows_read: Some(100000), rows_written: None, output: None },
    }
}

fn opts(color: bool) -> RunOpts {
    RunOpts {
        loadsmith_source: None,
        loadsmith_tag: None,
        origins: Config { origins: vec![] },
        color,
        log_level: "info".to_string(),
        plugin_overrides: vec![],
    }
}

#[test]
fn readiness_timeout_defaults_to_a_minute() {
    assert_eq!(default_timeout(), 60);
}

#[test]
fn parse_metric_reads_the_summary_box() {
    assert_eq!(parse_metric(SUMMARY, "rows read"), Some(100000));
    assert_eq!(parse_metric(SUMMARY, "rows written"), Some(99998));
    assert_eq!(parse_metric(SUMMARY, "rows skipped"), None);
    assert_eq!(parse_rows_from_stdout(SUMMARY), (Some(100000), Some(99998)));
    assert_eq!(parse_rows_from_stdout("nothing here"), (None, None));
}

#[test]
fn parse_metric_takes_the_first_matching_line_and_number() {
    // the first line mentioning the label decides, even without a number
    assert_eq!(parse_metric("rows read: n/a\nrows read: 5\n", "rows read"), None);
    // a word of commas alone is taken and does not parse
    assert_eq!(parse_metric("ROWS READ , 5\n", "rows read"), None);
    assert_eq!(parse_metric("Total ROWS READ 1,2,3 (approx 7)\n", "rows read"), Some(123));
}

#[test]
fn status_expectation() {
    assert!(validate_expects(&expect("success"), 0, None, None, "/out", &no_file()).is_empty());
    assert_eq!(
        validate_expects(&expect("success"), 1, None, None, "/out", &no_file()),
        vec!["status: expected 'success', got exit code 1".to_string()]
    );
    assert!(validate_expects(&expect("failure"), 2, None, None, "/out", &no_file()).is_empty());
    assert_eq!(
        validate_expects(&expect("failure"), 0, None, None, "/out", &no_file()),
        vec!["status: expected 'failure', got exit code 0".to_string()]
    );
    assert_eq!(
        validate_expects(&expect("success"), -1, None, None, "/out", &no_file()),
        vec!["status: expected 'success', got exit code -1".to_string()]
    );
}

#[test]
fn row_count_expectations() {
    let mut e = expect("success");
    e.rows_read = Some(100000);
    e.rows_written = Some(100000);
    assert_eq!(
        validate_expects(&e, 0, Some(99998), None, "/out", &no_file()),
        vec![
            "expected rows_read=100000, got 99998".to_string(),
            "expected rows_written=100000, got none".to_string(),
        ]
    );
    assert!(validate_expects(&e, 0, Some(100000), Some(100000), "/out", &no_file()).is_empty());
}

#[test]
fn output_file_expectations() {
    let mut e = expect("success");
    e.output = Some(OutputExpect { file: "out.jsonl".to_string(), row_count: Some(3) });
    assert_eq!(
        validate_expects(&e, 0, None, None, "/tmp/run", &no_file()),
        vec!["output file not found: /tmp/run/out.jsonl".to_string()]
    );
    let three = FileObservation { exists: true, line_count: Some(Ok(3)) };
    assert!(validate_expects(&e, 0, None, None, "/tmp/run", &three).is_empty());
    let two = FileObservation { exists: true, line_count: Some(Ok(2)) };
    assert_eq!(
        validate_expects(&e, 0, None, None, "/tmp/run", &two),
        vec!["row_count: expected 3, got 2 in /tmp/run/out.jsonl".to_string()]
    );
    let broken = FileObservation { exists: true, line_count: Some(Err("permission denied".to_string())) };
    assert_eq!(
        validate_expects(&e, 0, None, None, "/tmp/run", &broken),
        vec!["cannot count rows in /tmp/run/out.jsonl: permission denied".to_string()]
    );
    e.output = Some(OutputExpect { file: "/abs/out.csv".to_string(), row_count: None });
    assert_eq!(output_path("/abs/out.csv", "/tmp/run"), "/abs/out.csv");
    assert_eq!(
        validate_expects(&e, 0, None, None, "/tmp/run", &no_file()),
        vec!["output file not found: /abs/out.csv".to_string()]
    );
}

#[test]
fn failures_come_in_order() {
    let mut e = expect("success");
    e.rows_read = Some(1);
    e.output = Some(OutputExpect { file: "o".to_string(), row_count: None });
    let f = validate_expects(&e, 3, Some(2), None, "/r", &no_file());
    assert_eq!(
        f,
        vec![
            "status: expected 'success', got exit code 3".to_string(),
            "expected rows_read=1, got 2".to_string(),
            "output file not found: /r/o".to_string(),
        ]
    );
}

#[test]
fn finish_case_passes_exactly_without_failures() {
    let case = sample_case();
    let r = finish_case(&case, std::time::Duration::from_millis(1500), 0, SUMMARY, "/tmp/ls-lab-x", &no_file());
    assert!(r.passed);
    assert_eq!(r.name, "pg-to-jsonl");
    assert_eq!(r.description.as_deref(), Some("Postgres to JSONL"));
    assert_eq!(r.rows_read, Some(100000));
    assert_eq!(r.rows_written, Some(99998));
    assert_eq!(r.output_dir, "/tmp/ls-lab-x");
    assert_eq!(r.duration, std::time::Duration::from_millis(1500));
    assert!(r.failures.is_empty() && r.prep_lines.is_empty() && r.loadsmith_output.is_empty());

    let r = finish_case(&case, std::time::Duration::ZERO, 0, "no summary", "/tmp/ls-lab-x", &no_file());
    assert!(!r.passed);
    assert_eq!(r.failures, vec!["expected rows_read=100000, got none".to_string()]);
}

#[test]
fn service_container_settings() {
    let case = sample_case();
    let c = service_container(&case.services[0], "loadsmith-lab/images/postgres-15:local", "ls-lab-net");
    assert_eq!(c.image, "loadsmith-lab/images/postgres-15:local");
    assert_eq!(c.hostname.as_deref(), Some("pg"));
    assert_eq!(c.network.as_deref(), Some("ls-lab-net"));
    assert_eq!(
        c.env,
        vec![
            ("POSTGRES_PASSWORD".to_string(), "secret=1".to_string()),
            ("FLAG".to_string(), String::new()),
        ]
    );
    assert_eq!(c.binds, vec!["/data:/var/lib/postgresql/data".to_string()]);
    assert!(c.cmd.is_empty() && c.publish_ports.is_empty() && c.docker_args.is_empty());
}

#[test]
fn loadsmith_container_settings() {
    let case = sample_case();
    let c = loadsmith_container(&case, &opts(false), "loadsmith:0.3", "net", "/o/pipeline.yaml", "/o", "/plugins-cache");
    assert_eq!(c.image, "loadsmith:0.3");
    assert_eq!(c.hostname, None);
    assert_eq!(c.network.as_deref(), Some("net"));
    assert_eq!(
        c.binds,
        vec![
            "/o/pipeline.yaml:/case/pipeline.yaml:ro".to_string(),
            "/o:/output".to_string(),
            "/plugins-cache:/plugins:ro".to_string(),
            "/fixtures:/fixtures".to_string(),
        ]
    );
    assert_eq!(
        c.env,
        vec![
            ("RUST_LOG".to_string(), "debug".to_string()),
            ("NO_COLOR".to_string(), "1".to_string()),
        ]
    );
    assert_eq!(
        c.cmd,
        vec!["run", "/case/pipeline.yaml", "--plugin-dir", "/plugins", "--log-level", "info"]
            .into_iter()
            .map(String::from)
            .collect::<Vec<_>>()
    );
    assert_eq!(c.docker_args, vec!["--memory=1g".to_string()]);
    let coloured = loadsmith_container(&case, &opts(true), "img", "net", "p", "o", "d");
    assert_eq!(coloured.env, vec![("RUST_LOG".to_string(), "debug".to_string())]);
}

#[test]
fn run_paths() {
    let case = sample_case();
    assert_eq!(
        pipeline_paths("/cases/pg", &case, "/tmp/ls-lab-1"),
        ("/cases/pg/pipeline.yaml".to_string(), "/tmp/ls-lab-1/pipeline.yaml".to_string())
    );
    assert_eq!(stdout_log_path("/tmp/ls-lab-1"), "/tmp/ls-lab-1/loadsmith.stdout");
}

#[test]
fn scratch_names_are_fresh() {
    let a = scratch_name();
    let b = scratch_name();
    assert!(a.starts_with("ls-lab-"));
    assert_eq!(a.chars().count(), "ls-lab-".len() + 32);
    assert!(a["ls-lab-".len()..].chars().all(|c| c.is_ascii_hexdigit() && !c.is_ascii_uppercase()));
    assert_ne!(a, b);
}

#[test]
fn postgres_probe() {
    let pg = PostgresReadiness {
        dbname: "lab".to_string(),
        user: "u".to_string(),
        password: "p".to_string(),
        probe_query: None,
    };
    assert_eq!(
        postgres_conn_str("10.0.0.2", 5432, &pg),
        "host=10.0.0.2 port=5432 dbname=lab user=u password=p connect_timeout=3"
    );
    assert_eq!(probe_query(&pg), "SELECT 1");
    assert!(probe_ready("SELECT 1", 0));
    assert!(!probe_ready("SELECT count(*) FROM t WHERE false", 0));
    assert!(probe_ready("SELECT * FROM seeded", 2));
    let seeded = PostgresReadiness { probe_query: Some("SELECT 1 FROM t".to_string()), ..pg };
    assert_eq!(probe_query(&seeded), "SELECT 1 FROM t");
}

#[test]
fn peek_description_reads_the_case_description() {
    let text = "case:\n  name: pg-copy\n  description: Copy rows into Postgres\nservices: []\n";
    assert_eq!(
        loadsmith_lab::case::peek_description(text),
        Some("Copy rows into Postgres".to_string())
    );
    assert_eq!(loadsmith_lab::case::peek_description("case:\n  name: bare\n"), None);
    assert_eq!(loadsmith_lab::case::peek_description("case: [unclosed"), None);
    assert_eq!(loadsmith_lab::case::peek_description("case:\n  description: 42\n"), None);
}

#[test]
fn row_count_counts_newline_terminated_lines() {
    assert_eq!(loadsmith_lab::runner::count_rows(b""), 0);
    assert_eq!(loadsmith_lab::runner::count_rows(b"{\"a\":1}\n{\"a\":2}\n"), 2);
    assert_eq!(loadsmith_lab::runner::count_rows(b"{\"a\":1}\n{\"a\":2}"), 1);
    assert_eq!(loadsmith_lab::runner::count_rows(b"\n\n\n"), 3);
}

#[test]
fn parse_metric_reads_back_formatted_counts() {
    for (r, w) in [(0u64, 7u64), (100_000, 99_998), (1_234_567_890, 1_000), (u64::MAX, 999)] {
        let s = format!(
            "  Rows read:    {}\n  Rows written: {}",
            loadsmith_lab::report::fmt_n(r),
            loadsmith_lab::report::fmt_n(w)
        );
        assert_eq!(parse_metric(&s, "rows read"), Some(r));
        assert_eq!(parse_metric(&s, "rows written"), Some(w));
    }
}
