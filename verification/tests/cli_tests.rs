use continuum::cli::{filter_args, parse_cli_args, CliOptions};

fn strings(v: &[&str]) -> Vec<String> {
    v.iter().map(|s| s.to_string()).collect()
}

#[test]
fn test_parse_tui_and_flags() {
    let args = vec!["--file", "/tmp/comic.cbz", "--page", "15", "--tui"];
    let opts = CliOptions::parse_from_args(args);
    assert_eq!(
        opts,
        CliOptions {
            file: Some("/tmp/comic.cbz".to_string()),
            page: Some(15),
            tui_mode: true,
        }
    );
}

#[test]
fn test_parse_positional_args() {
    let args = vec!["/tmp/chapter1.cbz", "5", "--tui"];
    let opts = CliOptions::parse_from_args(args);
    assert_eq!(
        opts,
        CliOptions {
            file: Some("/tmp/chapter1.cbz".to_string()),
            page: Some(5),
            tui_mode: true,
        }
    );
}

#[test]
fn test_parse_file_only() {
    let args = vec!["/tmp/solo.cbz"];
    let opts = CliOptions::parse_from_args(args);
    assert_eq!(
        opts,
        CliOptions {
            file: Some("/tmp/solo.cbz".to_string()),
            page: None,
            tui_mode: false,
        }
    );
}

#[test]
fn options_ignore_a_page_that_is_not_a_number_and_unknown_flags() {
    let opts = CliOptions::parse_from_args(vec!["-p", "twelve", "--verbose", "-f", "a.cbz", "x", "-3"]);
    assert_eq!(
        opts,
        CliOptions { file: Some("a.cbz".to_string()), page: None, tui_mode: false }
    );
    let opts = CliOptions::parse_from_args(vec!["a.cbz", "b.cbz", "-7"]);
    assert_eq!(opts, CliOptions { file: Some("a.cbz".to_string()), page: None, tui_mode: false });
    let opts = CliOptions::parse_from_args(vec!["a.cbz", "+7", "9"]);
    assert_eq!(opts, CliOptions { file: Some("a.cbz".to_string()), page: Some(7), tui_mode: false });
    let opts = CliOptions::parse_from_args(vec!["--page"]);
    assert_eq!(opts, CliOptions::default());
}

#[test]
fn parses_file_and_page_flags() {
    let raw = strings(&[
        "continuum",
        "--file",
        "/a/x.cbz",
        "--page",
        "42",
        "--mode",
        "manga",
        "--storage-profile",
        "usb",
    ]);
    let cli = parse_cli_args(&raw);
    assert_eq!(cli.file, Some("/a/x.cbz".to_string()));
    assert_eq!(cli.page, Some(42));
    assert_eq!(cli.mode, Some("manga".to_string()));
    assert_eq!(cli.storage_profile, Some("usb".to_string()));
    // GLib must never see our private flags.
    assert_eq!(filter_args(&raw), vec!["continuum".to_string()]);
}

#[test]
fn keeps_positional_and_ignores_page_without_value() {
    let raw = strings(&["continuum", "/a/y.cbz", "--page", "7"]);
    let cli = parse_cli_args(&raw);
    assert_eq!(cli.file, None);
    assert_eq!(cli.page, Some(7));
    assert_eq!(cli.mode, None);
    assert_eq!(
        filter_args(&raw),
        vec!["continuum".to_string(), "/a/y.cbz".to_string()]
    );
    // --page with no value at end must not panic.
    let raw2 = strings(&["continuum", "--page"]);
    assert_eq!(filter_args(&raw2), vec!["continuum".to_string()]);
    assert_eq!(parse_cli_args(&raw2).page, None);
}

#[test]
fn launcher_options_never_reach_the_toolkit() {
    let raw = strings(&["continuum", "--mode", "--file", "--page", "x", "--storage-profile"]);
    let out = filter_args(&raw);
    assert_eq!(out, vec!["continuum".to_string()]);
    // `--mode` takes `--file` as its value; `--page` takes `x`, which is no number.
    let cli = parse_cli_args(&raw);
    assert_eq!(cli.mode, Some("--file".to_string()));
    assert_eq!(cli.page, None);
    assert_eq!(cli.storage_profile, None);
}
