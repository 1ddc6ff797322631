use bottlerocket_settings_sdk::cli::proto1::{InputFile, Proto1Command, Protocol1, SetCommand};
use bottlerocket_settings_sdk::cli::{Cli, Protocol};
use bottlerocket_settings_sdk::example::needs_migrator::{ScoreV1, ScoreV2};
use bottlerocket_settings_sdk::example::EmptyError;
use bottlerocket_settings_sdk::NoMigration;
use std::str::FromStr;

#[test]
fn input_file_from_str() {
    for stdin in ["/dev/stdin", "-", "stdin"] {
        assert!(matches!(InputFile::from_str(stdin), Ok(InputFile::Stdin)));
    }
    for name in ["input.json", "", "/dev/stdin2", "--", "Stdin", "./stdin"] {
        match InputFile::from_str(name) {
            Ok(InputFile::NormalFile(filename)) => assert_eq!(filename, name),
            other => panic!("'{}' is not the standard input, but gave {:?}", name, other),
        }
    }
}

#[test]
fn input_file_is_parsed_from_a_string() {
    assert!(matches!("-".parse::<InputFile>(), Ok(InputFile::Stdin)));
    match "input.json".parse::<InputFile>() {
        Ok(InputFile::NormalFile(filename)) => assert_eq!(filename, "input.json"),
        other => panic!("unexpected result {:?}", other),
    }
}

#[test]
fn input_file_paths_and_names() {
    assert!(matches!(InputFile::default(), InputFile::Stdin));
    assert_eq!(InputFile::Stdin.as_ref(), "/dev/stdin");
    assert_eq!(InputFile::Stdin.name(), "stdin");
    let file = InputFile::NormalFile("input.json".to_string());
    assert_eq!(file.as_ref(), "input.json");
    assert_eq!(file.name(), "input.json");
}

#[test]
fn protocol_is_named() {
    let cli = Cli {
        protocol: Protocol::Proto1(Protocol1 {
            command: Proto1Command::SetValue(SetCommand {}),
            input_file: None,
        }),
    };
    assert_eq!(cli.protocol.name(), "proto1");
}

#[test]
fn no_migration_is_a_marker() {
    assert_eq!(NoMigration::new(), NoMigration);
    assert_eq!(NoMigration::no_defined_migration::<String>(), Ok(NoMigration));
}

#[test]
fn scores_migrate_under_a_new_name() {
    assert_eq!(ScoreV1::get_version(), "v1");
    assert_eq!(ScoreV2::get_version(), "v2");
    let scores = vec![("ann".to_string(), 3), ("bob".to_string(), -1)];
    let v2 = ScoreV1 { scores: scores.clone() }.migrate_forward();
    assert_eq!(v2.all_scores, scores);
    assert_eq!(v2.migrate_backward().scores, scores);
    assert_eq!(EmptyError.message(), "EmptyError");
}
