use pixeleagle_cli::cli::{key_value, Cli, CliErrorKind, Commands, CompareWith, OutputFormat};
use pixeleagle_cli::project::{
    download_failure, is_success, wait_step, Method, Project, RequestBody, RequestError, WaitStep,
    DEFAULT_URL,
};
use pixeleagle_cli::retry::{is_retryable, Retry, RetryStep, SendOutcome};
use pixeleagle_cli::string_map::StringMap;
use pixeleagle_cli::text::{decimal, parse_u32, text_eq};
use pixeleagle_cli::types::{ChangedScreenshot, ComparisonResult, Difference, Run, Screenshot};
use pixeleagle_cli::upload::{
    all_paths, content_hash, paths_to_upload, prepare_hashes, reply_is_known, screenshot_name,
};

fn args(a: &[&str]) -> Vec<String> {
    a.iter().map(|s| s.to_string()).collect()
}

fn shot(name: &str, hash: &str) -> Screenshot {
    Screenshot {
        name: name.to_string(),
        hash: hash.to_string(),
    }
}

fn changed(name: &str, diff: Difference) -> ChangedScreenshot {
    ChangedScreenshot {
        name: name.to_string(),
        hash: format!("{name}-new"),
        previous_hash: format!("{name}-old"),
        diff,
    }
}

fn project() -> Project {
    Project::try_new(DEFAULT_URL, "secret".to_string()).unwrap()
}

// ---- text ----

#[test]
fn decimal_writes_numbers() {
    assert_eq!(decimal(0), "0");
    assert_eq!(decimal(7), "7");
    assert_eq!(decimal(300), "300");
    assert_eq!(decimal(u128::MAX), u128::MAX.to_string());
}

#[test]
fn parse_u32_reads_numbers() {
    assert_eq!(parse_u32("0"), Some(0));
    assert_eq!(parse_u32("+12"), Some(12));
    assert_eq!(parse_u32("007"), Some(7));
    assert_eq!(parse_u32("4294967295"), Some(u32::MAX));
    assert_eq!(parse_u32("4294967296"), None);
    assert_eq!(parse_u32(""), None);
    assert_eq!(parse_u32("+"), None);
    assert_eq!(parse_u32("1a"), None);
    assert_eq!(parse_u32("-1"), None);
    assert_eq!(parse_u32("-0"), Some(0));
    assert_eq!(parse_u32("-000"), Some(0));
    assert_eq!(parse_u32("-"), None);
    assert_eq!(parse_u32("+-0"), None);
}

#[test]
fn written_numbers_read_back() {
    for n in [0u32, 1, 9, 10, 300, 65535, u32::MAX] {
        assert_eq!(parse_u32(&decimal(n as u128)), Some(n));
    }
}

#[test]
fn text_eq_compares_texts() {
    assert!(text_eq("abc", "abc"));
    assert!(!text_eq("abc", "abd"));
    assert!(!text_eq("abc", "ab"));
}

// ---- key:value and metadata ----

#[test]
fn key_value_reads_pairs() {
    assert_eq!(
        key_value("branch:main"),
        Ok(("branch".to_string(), "main".to_string()))
    );
    assert_eq!(key_value(":"), Ok((String::new(), String::new())));
    assert_eq!(key_value("k:"), Ok(("k".to_string(), String::new())));
}

#[test]
fn key_value_refuses_other_texts() {
    assert_eq!(
        key_value("branch"),
        Err("Invalid key:value pair: '\"branch\"'".to_string())
    );
    assert_eq!(
        key_value("a:b:c"),
        Err("Invalid key:value pair: '\"a:b:c\"'".to_string())
    );
    assert_eq!(
        key_value("say \"hi\""),
        Err("Invalid key:value pair: '\"say \\\"hi\\\"\"'".to_string())
    );
}

#[test]
fn key_value_round_trip() {
    let (k, v) = key_value("os:linux").unwrap();
    assert_eq!(format!("{k}:{v}"), "os:linux");
}

#[test]
fn as_hashmap_holds_filters_and_same_keys() {
    let with = CompareWith {
        with_run: None,
        filter: vec![
            ("branch".to_string(), "main".to_string()),
            ("os".to_string(), "linux".to_string()),
            ("branch".to_string(), "dev".to_string()),
        ],
        same: vec!["os".to_string(), "gpu".to_string()],
    };
    let map = with.as_hashmap();
    assert_eq!(map.len(), 3);
    assert_eq!(map.get("branch"), Some("dev".to_string()));
    assert_eq!(map.get("os"), Some("<equal>".to_string()));
    assert_eq!(map.get("gpu"), Some("<equal>".to_string()));
    assert_eq!(map.get("ref"), None);
}

#[test]
fn string_map_reads_what_was_stored() {
    let mut map = StringMap::new();
    assert_eq!(map.len(), 0);
    map.insert("a".to_string(), "1".to_string());
    map.insert("b".to_string(), "2".to_string());
    map.insert("a".to_string(), "3".to_string());
    assert_eq!(map.get("a"), Some("3".to_string()));
    assert_eq!(map.get("b"), Some("2".to_string()));
    assert_eq!(map.get("c"), None);
    assert_eq!(
        map.entries(),
        vec![
            ("a".to_string(), "3".to_string()),
            ("b".to_string(), "2".to_string())
        ]
    );
}

// ---- command line ----

#[test]
fn parse_defaults() {
    let cli = Cli::try_parse_from(
        &args(&["cmd", "--token", "a", "compare-run", "1", "--with-run", "2"]),
        None,
    )
    .unwrap();
    assert_eq!(cli.token, "a");
    assert_eq!(cli.format, OutputFormat::Text);
    let Commands::CompareRun {
        run_id,
        with,
        run_arguments,
    } = cli.command
    else {
        panic!("parsed the wrong command");
    };
    assert_eq!(run_id, 1);
    assert_eq!(with.with_run, Some(2));
    assert!(with.filter.is_empty() && with.same.is_empty());
    assert!(!run_arguments.print_details);
    assert!(!run_arguments.wait);
    assert_eq!(run_arguments.wait_timeout, 300);
}

#[test]
fn parse_token_from_environment() {
    let cli = Cli::try_parse_from(&args(&["cmd", "new-run"]), Some("env".to_string())).unwrap();
    assert_eq!(cli.token, "env");
    let cli = Cli::try_parse_from(
        &args(&["cmd", "--token=arg", "new-run"]),
        Some("env".to_string()),
    )
    .unwrap();
    assert_eq!(cli.token, "arg");
    let err = Cli::try_parse_from(&args(&["cmd", "new-run"]), None).unwrap_err();
    assert_eq!(err.kind, CliErrorKind::MissingArgument);
    assert_eq!(err.detail, "--token");
}

#[test]
fn parse_usage_examples() {
    let token = Some("from-env".to_string());
    let cli = Cli::try_parse_from(
        &args(&["pixeleagle", "new-run", "--metadata", "{\"branch\":\"main\"}"]),
        token.clone(),
    )
    .unwrap();
    assert_eq!(cli.token, "from-env");
    assert!(
        matches!(cli.command, Commands::NewRun { metadata: Some(ref m) } if m == "{\"branch\":\"main\"}")
    );

    let cli = Cli::try_parse_from(
        &args(&["pixeleagle", "upload-screenshots", "12", "screenshot1.png", "screenshot2.png"]),
        token.clone(),
    )
    .unwrap();
    let Commands::UploadScreenshots { run_id, path, clean_name } = cli.command else {
        panic!("parsed the wrong command");
    };
    assert_eq!(run_id, 12);
    assert_eq!(path, vec!["screenshot1.png", "screenshot2.png"]);
    assert!(!clean_name);

    let cli = Cli::try_parse_from(
        &args(&["pixeleagle", "compare-run", "12", "--with-run", "11", "--wait", "--print-details"]),
        token,
    )
    .unwrap();
    let Commands::CompareRun { run_id, with, run_arguments } = cli.command else {
        panic!("parsed the wrong command");
    };
    assert_eq!(run_id, 12);
    assert_eq!(with.with_run, Some(11));
    assert!(run_arguments.wait && run_arguments.print_details);
    assert_eq!(run_arguments.wait_timeout, 300);
}

#[test]
fn parse_all_subcommands() {
    let cli = Cli::try_parse_from(
        &args(&["cmd", "--format", "json", "--token", "t", "new-run", "--metadata", "{\"a\":\"b\"}"]),
        None,
    )
    .unwrap();
    assert_eq!(cli.format, OutputFormat::Json);
    assert!(matches!(cli.command, Commands::NewRun { metadata: Some(ref m) } if m == "{\"a\":\"b\"}"));

    let cli = Cli::try_parse_from(
        &args(&["cmd", "--token", "t", "upload-screenshot", "3", "a.png", "--name", "n", "--clean-name"]),
        None,
    )
    .unwrap();
    let Commands::UploadScreenshot { run_id, path, name, clean_name } = cli.command else {
        panic!("parsed the wrong command");
    };
    assert_eq!((run_id, path.as_str(), name.as_deref(), clean_name), (3, "a.png", Some("n"), true));

    let cli = Cli::try_parse_from(
        &args(&["cmd", "--token", "t", "upload-screenshots", "3", "a.png", "b.png", "--", "-c.png"]),
        None,
    )
    .unwrap();
    let Commands::UploadScreenshots { run_id, path, clean_name } = cli.command else {
        panic!("parsed the wrong command");
    };
    assert_eq!(run_id, 3);
    assert_eq!(path, vec!["a.png", "b.png", "-c.png"]);
    assert!(!clean_name);

    let cli = Cli::try_parse_from(
        &args(&["cmd", "--token", "t", "get-comparison", "4", "--with-run=5", "--wait", "--wait-timeout", "10", "--print-details"]),
        None,
    )
    .unwrap();
    let Commands::GetComparison { run_id, with_run, run_arguments } = cli.command else {
        panic!("parsed the wrong command");
    };
    assert_eq!((run_id, with_run), (4, 5));
    assert!(run_arguments.wait && run_arguments.print_details);
    assert_eq!(run_arguments.wait_timeout, 10);

    let cli = Cli::try_parse_from(
        &args(&["cmd", "--token", "t", "download-screenshot", "4", "--with-run", "5", "shot", "-o", "out.png"]),
        None,
    )
    .unwrap();
    let Commands::DownloadScreenshot { run_id, with_run, name, output } = cli.command else {
        panic!("parsed the wrong command");
    };
    assert_eq!((run_id, with_run, name.as_str(), output.as_str()), (4, 5, "shot", "out.png"));

    let cli = Cli::try_parse_from(
        &args(&["cmd", "--token", "t", "download-diff", "4", "--with-run", "5", "shot", "-o=out.png"]),
        None,
    )
    .unwrap();
    let Commands::DownloadDiff { output, .. } = cli.command else {
        panic!("parsed the wrong command");
    };
    assert_eq!(output, "out.png");
}

#[test]
fn parse_refusals() {
    let kind = |a: &[&str]| Cli::try_parse_from(&args(a), None).unwrap_err().kind;
    assert_eq!(kind(&["cmd", "--token", "t"]), CliErrorKind::MissingSubcommand);
    assert_eq!(kind(&["cmd", "--token", "t", "nope"]), CliErrorKind::UnknownSubcommand);
    assert_eq!(kind(&["cmd", "--token", "t", "new-run", "--bogus"]), CliErrorKind::UnknownArgument);
    assert_eq!(kind(&["cmd", "--token"]), CliErrorKind::MissingValue);
    assert_eq!(kind(&["cmd", "--token", "--format", "json"]), CliErrorKind::MissingValue);
    assert_eq!(kind(&["cmd", "--token", "a", "--token", "b", "new-run"]), CliErrorKind::RepeatedArgument);
    assert_eq!(kind(&["cmd", "--format", "xml", "--token", "t", "new-run"]), CliErrorKind::InvalidValue);
    assert_eq!(kind(&["cmd", "--token", "t", "compare-run", "x", "--with-run", "1"]), CliErrorKind::InvalidValue);
    assert_eq!(kind(&["cmd", "--token", "t", "compare-run", "1", "--filter", "nocolon"]), CliErrorKind::InvalidValue);
    assert_eq!(kind(&["cmd", "--token", "t", "compare-run", "1", "2", "--with-run", "1"]), CliErrorKind::UnknownArgument);
    assert_eq!(kind(&["cmd", "--token", "t", "compare-run", "1", "--wait=yes", "--with-run", "1"]), CliErrorKind::UnexpectedValue);
    assert_eq!(kind(&["cmd", "--token", "t", "get-comparison", "1"]), CliErrorKind::MissingArgument);
    assert_eq!(kind(&["cmd", "--token", "t", "download-diff", "1", "--with-run", "2", "n"]), CliErrorKind::MissingArgument);
    assert_eq!(kind(&["cmd", "compare-run", "1", "--token", "t", "--with-run", "1"]), CliErrorKind::UnknownArgument);
    assert_eq!(kind(&["cmd", "--help"]), CliErrorKind::DisplayHelp);
    assert_eq!(kind(&["cmd", "help"]), CliErrorKind::DisplayHelp);
    assert_eq!(kind(&["cmd", "-V"]), CliErrorKind::DisplayVersion);
    assert_eq!(kind(&["cmd", "--token", "t", "compare-run", "-h"]), CliErrorKind::DisplayHelp);
    assert_eq!(kind(&["cmd", "--token", "t", "compare-run", "1", "--with-run=-1"]), CliErrorKind::InvalidValue);
}

#[test]
fn parse_signed_zero_and_empty_output() {
    let cli = Cli::try_parse_from(
        &args(&["cmd", "--token", "t", "compare-run", "+3", "--with-run=-0"]),
        None,
    )
    .unwrap();
    let Commands::CompareRun { run_id, with, .. } = cli.command else {
        panic!("parsed the wrong command");
    };
    assert_eq!(run_id, 3);
    assert_eq!(with.with_run, Some(0));

    let cli = Cli::try_parse_from(
        &args(&["cmd", "--token", "t", "get-comparison", "--with-run", "1", "--", "-0"]),
        None,
    )
    .unwrap();
    assert!(matches!(cli.command, Commands::GetComparison { run_id: 0, with_run: 1, .. }));

    let err = Cli::try_parse_from(
        &args(&["cmd", "--token", "t", "download-diff", "1", "--with-run", "2", "n", "--output="]),
        None,
    )
    .unwrap_err();
    assert_eq!(err.kind, CliErrorKind::MissingValue);
    assert_eq!(err.detail, "--output=");
    let err = Cli::try_parse_from(
        &args(&["cmd", "--token", "t", "download-screenshot", "1", "--with-run", "2", "n", "-o", ""]),
        None,
    )
    .unwrap_err();
    assert_eq!(err.kind, CliErrorKind::MissingValue);
    assert_eq!(err.detail, "-o");
}

// ---- comparisons ----

fn comparison() -> ComparisonResult {
    ComparisonResult::new(
        0x0123_4567_89ab_cdef_0123_4567_89ab_cdef,
        7,
        6,
        vec![shot("gone", "h-gone")],
        vec![shot("fresh", "h-fresh"), shot("twin", "h-twin-new")],
        vec![
            changed("menu", Difference::Done(0.125f32.to_bits())),
            changed("title", Difference::Processing),
            changed("twin", Difference::Unknown),
        ],
        vec![shot("same", "h-same")],
    )
}

#[test]
fn comparison_is_finished_when_every_change_is_done() {
    let mut c = comparison();
    assert!(!c.is_finished());
    c.diff.retain(|d| matches!(d.diff, Difference::Done(_)));
    assert!(c.is_finished());
    c.diff.clear();
    assert!(c.is_finished());
    // a finished comparison reports every change as changed, none as processing
    let mut c = comparison();
    c.diff.retain(|d| matches!(d.diff, Difference::Done(_)));
    let detail = c.get_detail(&vec!["12.50".to_string()]);
    assert!(detail.contains("1 changed\n - menu (12.50%)\n"));
    assert!(!detail.contains("processing"));
}

#[test]
fn comparison_detail_lists_every_section() {
    let c = comparison();
    let percents = vec!["12.50".to_string(), String::new(), String::new()];
    assert_eq!(
        c.get_detail(&percents),
        "6 screenshots, 1 unchanged\n\
         1 missing\n - gone\n\
         2 new\n - fresh\n - twin\n\
         1 changed\n - menu (12.50%)\n\
         2 processing\n - title\n - twin\n"
    );
}

#[test]
fn comparison_detail_header_lines() {
    fn header_count(detail: &str, label: &str) -> Option<usize> {
        detail
            .lines()
            .filter(|l| !l.starts_with(" - "))
            .find(|l| l.ends_with(label))
            .map(|l| l[..l.len() - label.len()].parse().unwrap())
    }
    let c = comparison();
    let detail = c.get_detail(&vec!["12.50".to_string(), String::new(), String::new()]);
    assert!(!c.is_finished());
    assert_eq!(header_count(&detail, " processing"), Some(2));
    assert_eq!(header_count(&detail, " changed"), Some(1));
    assert_eq!(
        header_count(&detail, " changed").unwrap() + header_count(&detail, " processing").unwrap(),
        c.diff.len()
    );

    let mut c = comparison();
    c.diff.retain(|d| !matches!(d.diff, Difference::Done(_)));
    let detail = c.get_detail(&vec![String::new(), String::new()]);
    assert_eq!(header_count(&detail, " changed"), None);
    assert_eq!(header_count(&detail, " processing"), Some(c.diff.len()));

    let mut c = comparison();
    c.diff.retain(|d| matches!(d.diff, Difference::Done(_)));
    let detail = c.get_detail(&vec!["12.50".to_string()]);
    assert!(c.is_finished());
    assert_eq!(header_count(&detail, " processing"), None);
    assert_eq!(header_count(&detail, " changed"), Some(c.diff.len()));
}

#[test]
fn comparison_detail_of_an_empty_comparison() {
    let c = ComparisonResult::new(1, 2, 3, vec![], vec![], vec![], vec![]);
    assert_eq!(c.get_detail(&vec![]), "0 screenshots, 0 unchanged\n");
}

#[test]
fn comparison_url() {
    let mut c = comparison();
    assert_eq!(c.try_get_url(), None);
    project().set_comparison_url(&mut c);
    assert_eq!(c.project_url.as_deref(), Some("https://pixel-eagle.com/"));
    assert_eq!(
        c.get_url(),
        "https://pixel-eagle.com/project/01234567-89ab-cdef-0123-456789abcdef/run/7/compare/6"
    );
    assert_eq!(c.try_get_url(), Some(c.get_url()));
}

#[test]
fn comparison_lookups() {
    let c = comparison();
    assert_eq!(c.screenshot_hash("same"), Some("h-same".to_string()));
    assert_eq!(c.screenshot_hash("gone"), Some("h-gone".to_string()));
    // a new screenshot comes before a changed one of the same name
    assert_eq!(c.screenshot_hash("twin"), Some("h-twin-new".to_string()));
    assert_eq!(c.screenshot_hash("menu"), Some("menu-new".to_string()));
    assert_eq!(c.screenshot_hash("nothing"), None);
    assert_eq!(
        c.changed_screenshot("menu"),
        Some(("menu-new".to_string(), "menu-old".to_string()))
    );
    assert_eq!(c.changed_screenshot("gone"), None);
}

#[test]
fn run_holds_its_id() {
    let run = Run { id: 42 };
    assert_eq!(run.id, 42);
}

// ---- project requests ----

#[test]
fn project_url_is_parsed() {
    let p = project();
    assert_eq!(p.url, "https://pixel-eagle.com/");
    assert_eq!(p.token, "secret");
    assert!(Project::try_new("not a url", "t".to_string()).is_none());
    let p = Project::new("http://localhost:8080/base/", "t".to_string());
    assert_eq!(p.url, "http://localhost:8080/base/");
    let p = Project::hosted("h".to_string()).unwrap();
    assert_eq!(p.url, "https://pixel-eagle.com/");
    assert_eq!(p.token, "h");
}

#[test]
fn project_requests() {
    let p = project();
    let q = p.comparison_request(Method::Post, 12, 3).unwrap();
    assert_eq!(q.url, "https://pixel-eagle.com/runs/12/compare/3");
    assert_eq!(q.method, Method::Post);
    assert_eq!(q.token.as_deref(), Some("secret"));
    assert!(matches!(q.body, RequestBody::Empty));

    let q = p.comparison_request(Method::Get, 12, 3).unwrap();
    assert_eq!(q.method, Method::Get);

    let mut meta = StringMap::new();
    meta.insert("os".to_string(), "<equal>".to_string());
    let q = p.compare_auto_request(12, meta).unwrap();
    assert_eq!(q.url, "https://pixel-eagle.com/runs/12/compare/auto");
    assert!(matches!(q.body, RequestBody::Json(ref m) if m.get("os") == Some("<equal>".to_string())));

    let q = p.upload_request(5, "dir/a.png".to_string(), "a".to_string()).unwrap();
    assert_eq!(q.url, "https://pixel-eagle.com/runs/5");
    assert!(matches!(q.body, RequestBody::Screenshot { ref name, ref path } if name == "a" && path == "dir/a.png"));

    let q = p
        .hashes_request(5, vec![("a".to_string(), "00".to_string())])
        .unwrap();
    assert_eq!(q.url, "https://pixel-eagle.com/runs/5/hashes");

    let q = p
        .download_screenshot_request(0x0123_4567_89ab_cdef_0123_4567_89ab_cdef, "abc")
        .unwrap();
    assert_eq!(
        q.url,
        "https://pixel-eagle.com/files/01234567-89ab-cdef-0123-456789abcdef/screenshot/abc"
    );
    assert_eq!(q.method, Method::Get);
    assert!(q.token.is_none());

    let q = p.download_diff_request(1, "a", "b").unwrap();
    assert_eq!(
        q.url,
        "https://pixel-eagle.com/files/00000000-0000-0000-0000-000000000001/diff/a/b"
    );
}

#[test]
fn create_run_request_reads_metadata() {
    let p = project();
    let q = p.create_run_request(None).unwrap();
    assert_eq!(q.url, "https://pixel-eagle.com/runs");
    assert!(matches!(q.body, RequestBody::Json(ref m) if m.len() == 0));

    let q = p
        .create_run_request(Some("{\"commit\": \"b6bf94a\", \"branch\": \"main\"}".to_string()))
        .unwrap();
    let RequestBody::Json(m) = q.body else {
        panic!("metadata must be sent as JSON");
    };
    assert_eq!(m.len(), 2);
    assert_eq!(m.get("commit"), Some("b6bf94a".to_string()));
    assert_eq!(m.get("branch"), Some("main".to_string()));

    assert!(matches!(
        p.create_run_request(Some("not json".to_string())),
        Err(RequestError::InvalidMetadata)
    ));
    assert!(matches!(
        p.create_run_request(Some("{\"n\": 1}".to_string())),
        Err(RequestError::InvalidMetadata)
    ));
}

#[test]
fn statuses_and_messages() {
    assert!(is_success(200));
    assert!(is_success(204));
    assert!(!is_success(199));
    assert!(!is_success(300));
    assert!(!is_success(404));
    assert_eq!(
        download_failure("screenshot", 404),
        "Failed to download screenshot (HTTP 404)"
    );
    assert_eq!(download_failure("diff", 500), "Failed to download diff (HTTP 500)");
}

#[test]
fn waiting_for_a_comparison() {
    let mut c = comparison();
    assert_eq!(wait_step(&c, 0, 300), WaitStep::Poll { from: 7, to: 6 });
    assert_eq!(wait_step(&c, 300_000_000_000, 300), WaitStep::Poll { from: 7, to: 6 });
    assert_eq!(wait_step(&c, 300_000_000_001, 300), WaitStep::TimedOut);
    c.diff.clear();
    assert_eq!(wait_step(&c, 300_000_000_001, 300), WaitStep::Finished);
}

// ---- retries ----

#[test]
fn retry_waits_then_gives_up() {
    let mut r = Retry::new();
    let mut waits = vec![];
    assert_eq!(r.retries(), 0);
    for i in 0..3 {
        match r.next(SendOutcome::Transient(format!("error {i}"))) {
            RetryStep::Wait { backoff_ms, notice } => waits.push((backoff_ms, notice)),
            _ => panic!("expected a retry"),
        }
        assert_eq!(r.retries(), i + 1);
    }
    assert_eq!(
        waits,
        vec![
            (1000, "Retrying in 1s (attempt 2/4)...".to_string()),
            (2000, "Retrying in 2s (attempt 3/4)...".to_string()),
            (4000, "Retrying in 4s (attempt 4/4)...".to_string()),
        ]
    );
    match r.next(SendOutcome::Status(503)) {
        RetryStep::Abort(m) => {
            assert_eq!(m, "Failed to contact Pixel Eagle after 4 attempts: HTTP 503")
        }
        _ => panic!("expected to give up"),
    }
}

#[test]
fn retry_delivers_and_aborts() {
    let mut r = Retry::new();
    assert!(matches!(r.next(SendOutcome::Status(200)), RetryStep::Deliver));
    assert!(matches!(r.next(SendOutcome::Status(404)), RetryStep::Deliver));
    assert!(matches!(r.next(SendOutcome::Status(502)), RetryStep::Wait { .. }));
    match r.next(SendOutcome::Failed("bad request".to_string())) {
        RetryStep::Abort(m) => assert_eq!(m, "Failed to contact Pixel Eagle: bad request"),
        _ => panic!("expected to give up"),
    }
}

#[test]
fn retryable_statuses() {
    for s in [502u16, 503, 504, 408] {
        assert!(is_retryable(s));
    }
    for s in [200u16, 400, 404, 500, 501] {
        assert!(!is_retryable(s));
    }
}

// ---- uploads ----

#[test]
fn screenshot_names() {
    assert_eq!(screenshot_name("dir/shot.png", Some("given".to_string()), true), "given");
    assert_eq!(screenshot_name("dir/shot.png", None, false), "dir/shot.png");
    assert_eq!(screenshot_name("dir/shot.png", None, true), "shot");
    assert_eq!(screenshot_name("dir/archive.tar.gz", None, true), "archive.tar");
    assert_eq!(screenshot_name(".hidden", None, true), ".hidden");
    assert_eq!(screenshot_name("..", None, true), "..");
    assert_eq!(screenshot_name("dir/file.", None, true), "file");
    assert_eq!(screenshot_name("dir/.config.toml", None, true), ".config");
    assert_eq!(screenshot_name("dir/plain", None, true), "plain");
}

#[test]
fn content_hash_is_sha256_in_hex() {
    assert_eq!(
        content_hash(b"abc"),
        "ba7816bf8f01cfea414140de5dae2223b00361a396177a9cb410ff61f20015ad"
    );
    assert_eq!(
        content_hash(b""),
        "e3b0c44298fc1c149afbf4c8996fb92427ae41e4649b934ca495991b7852b855"
    );
    for data in [&b""[..], &b"abc"[..], &[0u8, 255, 16][..]] {
        let h = content_hash(data);
        assert_eq!(h.len(), 64);
        assert!(h.chars().all(|c| c.is_ascii_digit() || ('a'..='f').contains(&c)));
    }
}

#[test]
fn choosing_screenshots_to_upload() {
    let entries = vec![
        ("a.png".to_string(), "a".to_string()),
        ("missing.png".to_string(), "m".to_string()),
        ("b.png".to_string(), "b".to_string()),
        ("a2.png".to_string(), "a".to_string()),
    ];
    let contents = vec![Some(b"abc".to_vec()), None, Some(vec![]), Some(b"abc".to_vec())];
    let (table, hashes) = prepare_hashes(&entries, &contents);
    assert_eq!(table.get("a"), Some("a2.png".to_string()));
    assert_eq!(table.get("m"), Some("missing.png".to_string()));
    assert_eq!(hashes.len(), 3);
    assert_eq!(hashes[0].0, "a");
    assert_eq!(hashes[0].1, content_hash(b"abc"));
    assert_eq!(hashes[1].0, "b");
    assert_eq!(hashes[2].0, "a");
    assert!(hashes.iter().all(|(_, h)| h.len() == 64));

    let reply = vec![shot("b", "x"), shot("a", "y")];
    assert!(reply_is_known(&table, &reply));
    assert_eq!(
        paths_to_upload(&table, &reply),
        vec![
            ("b.png".to_string(), "b".to_string()),
            ("a2.png".to_string(), "a".to_string())
        ]
    );
    assert!(!reply_is_known(&table, &vec![shot("zzz", "x")]));
    assert!(!reply_is_known(&table, &vec![shot("a", "x"), shot("a", "y")]));
    assert_eq!(
        all_paths(&table),
        vec![
            ("a2.png".to_string(), "a".to_string()),
            ("missing.png".to_string(), "m".to_string()),
            ("b.png".to_string(), "b".to_string())
        ]
    );
    let mut names: Vec<String> = all_paths(&table).into_iter().map(|(_, n)| n).collect();
    names.sort();
    names.dedup();
    assert_eq!(names.len(), 3);
}
