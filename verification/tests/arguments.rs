use market_capture::export::arguments::Arguments;
use market_capture::recorder::manifest::Configuration;
use market_capture::replay::{resolved_configuration, setting, ReplayArguments};

fn texts(arguments: &[&str]) -> Vec<String> {
    arguments.iter().map(|text| (*text).to_owned()).collect()
}

#[test]
fn incomplete_input_requires_explicit_flag() {
    let parsed = Arguments::parse(vec![
        "/data/capture".into(),
        "/data/dataset".into(),
        "--allow-incomplete".into(),
    ])
    .unwrap();
    assert!(parsed.allow_incomplete);
    assert_eq!(parsed.output_directory, "/data/dataset");
}

#[test]
fn arguments_require_explicit_incomplete_and_configuration_overrides() {
    let parsed = ReplayArguments::parse(vec![
        "/data/capture".into(),
        "--allow-incomplete".into(),
        "--config-override".into(),
        "MODE=research".into(),
    ])
    .unwrap();

    assert!(parsed.allow_incomplete);
    assert_eq!(parsed.capture_directory, "/data/capture");
    assert_eq!(
        setting(&parsed.configuration_overrides, "MODE"),
        Some("research")
    );
}

#[test]
fn rejects_implicit_or_duplicate_overrides() {
    assert!(ReplayArguments::parse(vec!["/data/capture".into(), "MODE=research".into()]).is_err());
    assert!(ReplayArguments::parse(vec![
        "/data/capture".into(),
        "--config-override".into(),
        "MODE=a".into(),
        "--config-override".into(),
        "MODE=b".into(),
    ])
    .is_err());
}

#[test]
fn export_arguments_are_two_directories() {
    let parsed = Arguments::parse(texts(&["in", "out"])).unwrap();
    assert_eq!(parsed.capture_directory, "in");
    assert_eq!(parsed.output_directory, "out");
    assert!(!parsed.allow_incomplete);
    let usage = "usage: export-parquet <capture-directory> <new-dataset-directory> [--allow-incomplete]";
    assert_eq!(Arguments::parse(texts(&["in"])), Err(usage.to_owned()));
    assert_eq!(
        Arguments::parse(texts(&["a", "b", "c"])),
        Err(usage.to_owned())
    );
    assert_eq!(
        Arguments::parse(texts(&["in", "--fast", "out", "--slow"])),
        Err("unknown option: --fast".to_owned())
    );
}

#[test]
fn every_fault_of_replay_arguments_is_named() {
    let cases = [
        (
            vec![],
            "usage: replay <capture-directory> [--allow-incomplete] [--config-override KEY=VALUE]",
        ),
        (
            vec!["--config-override"],
            "--config-override requires KEY=VALUE",
        ),
        (
            vec!["--config-override", "MODE"],
            "--config-override requires KEY=VALUE",
        ),
        (
            vec!["--config-override", "=x"],
            "configuration override key cannot be empty",
        ),
        (
            vec!["--config-override", "A=1", "--config-override", "A=2"],
            "duplicate configuration override: A",
        ),
        (vec!["-v"], "unknown option: -v"),
        (vec!["one", "two"], "unexpected argument: two"),
    ];
    for (arguments, error) in cases {
        assert_eq!(
            ReplayArguments::parse(texts(&arguments)).unwrap_err(),
            error
        );
    }
}

#[test]
fn an_override_splits_at_its_first_sign() {
    let parsed =
        ReplayArguments::parse(texts(&["dir", "--config-override", "URL=a=b"])).unwrap();
    assert_eq!(setting(&parsed.configuration_overrides, "URL"), Some("a=b"));
}

#[test]
fn overrides_win_over_the_captured_configuration() {
    let captured = Configuration::new()
        .insert("MODE".into(), "live".into())
        .insert("DEPTH".into(), "10".into());
    let overrides = Configuration::new()
        .insert("MODE".into(), "research".into())
        .insert("SPEED".into(), "2".into());
    let resolved = resolved_configuration(&captured, &overrides);
    assert_eq!(setting(&resolved, "MODE"), Some("research"));
    assert_eq!(setting(&resolved, "DEPTH"), Some("10"));
    assert_eq!(setting(&resolved, "SPEED"), Some("2"));
    assert_eq!(setting(&resolved, "OTHER"), None);
    let keys: Vec<&str> = resolved
        .entries()
        .iter()
        .map(|entry| entry.0.as_str())
        .collect();
    assert_eq!(keys, ["DEPTH", "MODE", "SPEED"]);
}
