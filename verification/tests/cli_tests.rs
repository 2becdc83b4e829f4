use pyusp::cli::{arg_val, has_flag, parse_cli, CliCommand};

fn args(v: &[&str]) -> Vec<String> {
    v.iter().map(|s| s.to_string()).collect()
}

#[test]
fn values_follow_their_key() {
    let a = args(&["--font", "a.ttf", "--text", "hi", "--font", "b.ttf"]);
    assert_eq!(arg_val(&a, "--font"), Some("a.ttf".to_string()));
    assert_eq!(arg_val(&a, "--text"), Some("hi".to_string()));
    assert_eq!(arg_val(&a, "--script"), None);
    // a key in last position has no value
    assert_eq!(arg_val(&args(&["--out"]), "--out"), None);
    // only the first occurrence is looked at
    assert_eq!(arg_val(&args(&["--x", "--x", "v"]), "--x"), Some("--x".to_string()));
    assert_eq!(arg_val(&[], "--x"), None);
}

#[test]
fn flags() {
    let a = args(&["--trace", "--font", "f"]);
    assert!(has_flag(&a, "--trace"));
    assert!(!has_flag(&a, "--wine-bytes"));
    assert!(!has_flag(&a, "--fon"));
}

#[test]
fn help_first() {
    assert!(matches!(parse_cli(&args(&[]), true), CliCommand::Help));
    assert!(matches!(parse_cli(&args(&["--font", "f", "-h"]), true), CliCommand::Help));
    assert!(matches!(parse_cli(&args(&["--help", "--find-sig", "41"]), true), CliCommand::Help));
}

#[test]
fn signature_scan_when_available() {
    let a = args(&["--find-sig", "41 57", "--usp10", "u.dll"]);
    match parse_cli(&a, true) {
        CliCommand::FindSig { hex, module } => {
            assert_eq!(hex, "41 57");
            assert_eq!(module, Some("u.dll".to_string()));
        }
        _ => panic!("expected a scan"),
    }
    let a = args(&["--find-sig", "41", "--usp10", "u.dll", "--scan-module", "gdi32full.dll"]);
    match parse_cli(&a, true) {
        CliCommand::FindSig { module, .. } => assert_eq!(module, Some("gdi32full.dll".to_string())),
        _ => panic!("expected a scan"),
    }
    // unavailable: the arguments are read as a shaping request
    assert!(matches!(parse_cli(&args(&["--find-sig", "41"]), false), CliCommand::MissingFont));
}

#[test]
fn shaping_request() {
    assert!(matches!(parse_cli(&args(&["--text", "x"]), true), CliCommand::MissingFont));
    assert!(matches!(parse_cli(&args(&["--font", "f.ttf"]), true), CliCommand::MissingText));
    let a = args(&[
        "--font", "f.ttf", "--text", "abc", "--features", "+kern", "--trace", "--out", "o.json",
    ]);
    match parse_cli(&a, true) {
        CliCommand::Shape { opts, out } => {
            assert_eq!(opts.font, "f.ttf");
            assert_eq!(opts.text, "abc");
            assert_eq!(opts.script, "");
            assert_eq!(opts.language, "");
            assert_eq!(opts.direction, "auto");
            assert!(!opts.show_all);
            assert_eq!(opts.usp10_path, None);
            assert_eq!(opts.features_arg, "+kern");
            assert!(opts.trace);
            assert!(!opts.wine_bytes);
            assert!(!opts.textshaping);
            assert_eq!(out, Some("o.json".to_string()));
        }
        _ => panic!("expected a shaping request"),
    }
    let a = args(&[
        "--font", "f", "--text", "t", "--direction", "rtl", "--script", "arab", "--language",
        "ar", "--usp10", "w.dll", "--wine-bytes", "--textshaping", "--show-all-lookups",
    ]);
    match parse_cli(&a, true) {
        CliCommand::Shape { opts, out } => {
            assert_eq!(opts.direction, "rtl");
            assert_eq!(opts.script, "arab");
            assert_eq!(opts.language, "ar");
            assert_eq!(opts.usp10_path, Some("w.dll".to_string()));
            assert!(opts.wine_bytes && opts.textshaping && opts.show_all);
            assert_eq!(out, None);
        }
        _ => panic!("expected a shaping request"),
    }
}
