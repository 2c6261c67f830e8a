use pixeleagle_cli::cli::{Cli, Commands};

fn args(a: &[&str]) -> Vec<String> {
    a.iter().map(|s| s.to_string()).collect()
}

#[test]
fn test_compare_parameters_run() {
    let cli = Cli::try_parse_from(
        &args(&["cmd", "--token", "a", "compare-run", "1", "--with-run", "2"]),
        None,
    );
    assert!(cli.is_ok());
}

#[test]
fn test_compare_parameters_auto() {
    let cli = Cli::try_parse_from(
        &args(&["cmd", "--token", "a", "compare-run", "1", "--filter", "branch:main"]),
        None,
    );
    assert!(cli.is_ok());
    let cli = Cli::try_parse_from(
        &args(&["cmd", "--token", "a", "compare-run", "1", "--same", "os"]),
        None,
    );
    assert!(cli.is_ok());
    let command = [
        "cmd",
        "--token",
        "a",
        "compare-run",
        "1",
        "--filter",
        "branch:main",
        "--same",
        "os",
    ];
    let cli = Cli::try_parse_from(&args(&command), None);
    assert!(cli.is_ok());
    let cli = Cli::try_parse_from(&args(&command), None).unwrap();
    let Commands::CompareRun {
        run_id,
        with,
        run_arguments: _,
    } = cli.command
    else {
        panic!("parsed the wrong command");
    };
    assert_eq!(run_id, 1);
    assert!(with.with_run.is_none());
    assert_eq!(with.same, vec!["os"]);
    assert_eq!(
        with.filter,
        vec![("branch".to_string(), "main".to_string())]
    );

    let command = [
        "cmd",
        "--token",
        "a",
        "compare-run",
        "1",
        "--filter",
        "branch:main",
        "--filter",
        "ref:gold",
        "--same",
        "os",
    ];
    let cli = Cli::try_parse_from(&args(&command), None);
    assert!(cli.is_ok());
    let cli = Cli::try_parse_from(&args(&command), None).unwrap();
    let Commands::CompareRun {
        run_id,
        with,
        run_arguments: _,
    } = cli.command
    else {
        panic!("parsed the wrong command");
    };
    assert_eq!(run_id, 1);
    assert!(with.with_run.is_none());
    assert_eq!(with.same, vec!["os"]);
    assert_eq!(
        with.filter,
        vec![
            ("branch".to_string(), "main".to_string()),
            ("ref".to_string(), "gold".to_string())
        ]
    );
}

#[test]
fn test_compare_parameters_excluded() {
    let cli = Cli::try_parse_from(
        &args(&[
            "cmd",
            "--token",
            "a",
            "compare-run",
            "1",
            "--with-run",
            "2",
            "--filter",
            "branch:main",
            "--same",
            "os",
        ]),
        None,
    );
    assert!(cli.is_err());
    let cli = Cli::try_parse_from(
        &args(&["cmd", "--token", "a", "compare-run", "1", "--with-run", "2", "--same", "os"]),
        None,
    );
    assert!(cli.is_err());
    let cli = Cli::try_parse_from(
        &args(&[
            "cmd",
            "--token",
            "a",
            "compare-run",
            "1",
            "--with-run",
            "2",
            "--filter",
            "branch:main",
        ]),
        None,
    );
    assert!(cli.is_err());
}

#[test]
fn test_compare_parameters_at_least_one() {
    let cli = Cli::try_parse_from(&args(&["cmd", "--token", "a", "compare-run", "1"]), None);
    assert!(cli.is_err());
}
