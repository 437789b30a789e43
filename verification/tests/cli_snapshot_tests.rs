use monochange::cli_snapshot::cli_snapshot_argv;
use monochange::error::MonochangeError;

#[test]
fn snapshot_commands_split_into_program_and_arguments() {
    let (program, args) = cli_snapshot_argv("cli", "cargo run --quiet -- 'snapshot json'").unwrap();
    assert_eq!(program, "cargo");
    assert_eq!(args, vec!["run".to_string(), "--quiet".to_string(), "--".to_string(), "snapshot json".to_string()]);
}

#[test]
fn snapshot_commands_that_cannot_be_split_are_configuration_errors() {
    assert_eq!(
        cli_snapshot_argv("cli", "echo 'unterminated"),
        Err(MonochangeError::Config("failed to parse cli snapshot command `echo 'unterminated`".to_string()))
    );
}

#[test]
fn empty_snapshot_commands_are_configuration_errors() {
    assert_eq!(
        cli_snapshot_argv("cli", "   "),
        Err(MonochangeError::Config("cli snapshot command for package `cli` must not be empty".to_string()))
    );
}
