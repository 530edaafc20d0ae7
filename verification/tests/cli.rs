use dotrift::cli::{ensure_absolute, Cli, CliError, CliOption, Command, ProfileCommand, ResolveError};
use dotrift::environment::Environment;

fn parse(args: &[&str]) -> Result<Cli, CliError> {
    Cli::try_parse_from(args)
}

#[test]
fn init_accepts_the_global_target_flag() {
    let cli = parse(&["dotrift", "-t", "/tmp/file1", "init"]).expect("-t is accepted by every subcommand");
    assert!(matches!(cli.command, Command::Init));
}

#[test]
fn init_resolves_the_default_source_directory() {
    let env = Environment::default();
    let cli = parse(&["dotrift", "init"]).unwrap();
    let (source, _, command) = cli.resolve(&env, &Some("/".to_string())).unwrap();
    assert!(matches!(command, Command::Init));
    let expected = env.default_source_dir().unwrap();
    assert_eq!(source.unwrap(), ensure_absolute(&expected, &Some("/".to_string())).unwrap());
}

#[test]
fn init_resolves_the_source_override() {
    let env = Environment::default();
    let cli = parse(&["dotrift", "-s", "/tmp/dir1", "init"]).unwrap();
    let (source, _, command) = cli.resolve(&env, &None).unwrap();
    assert!(matches!(command, Command::Init));
    assert_eq!(source.unwrap(), "/tmp/dir1".to_string());
}

#[test]
fn prune_empty_dirs_requires_clean_up() {
    assert!(matches!(
        parse(&["dotrift", "apply", "--prune-empty-dirs"]),
        Err(CliError::MissingRequired { option: CliOption::PruneEmptyDirs, needs: CliOption::CleanUp })
    ));
}

#[test]
fn dry_run_conflicts_with_verbose() {
    assert!(matches!(
        parse(&["dotrift", "apply", "--dry-run", "--verbose"]),
        Err(CliError::Conflict { first: CliOption::DryRun, second: CliOption::Verbose })
    ));
}

#[test]
fn dry_run_conflicts_with_quiet() {
    assert!(matches!(
        parse(&["dotrift", "apply", "--dry-run", "--quiet"]),
        Err(CliError::Conflict { first: CliOption::DryRun, second: CliOption::Quiet })
    ));
}

#[test]
fn verbose_conflicts_with_quiet() {
    assert!(matches!(
        parse(&["dotrift", "apply", "--verbose", "--quiet"]),
        Err(CliError::Conflict { first: CliOption::Quiet, second: CliOption::Verbose })
    ));
}

#[test]
fn rejects_a_positional_argument() {
    assert!(matches!(
        parse(&["dotrift", "init", "file1"]),
        Err(CliError::UnexpectedArgument { arg }) if arg == "file1"
    ));
}

#[test]
fn rejects_an_apply_flag() {
    assert!(matches!(
        parse(&["dotrift", "init", "--clean-up"]),
        Err(CliError::UnknownArgument { arg }) if arg == "--clean-up"
    ));
}

#[test]
fn rejects_a_flag_missing_its_value() {
    assert!(parse(&["dotrift", "init", "--source"]).is_err());
    assert!(matches!(
        parse(&["dotrift", "--source"]),
        Err(CliError::MissingValue { option: CliOption::Source })
    ));
}

#[test]
fn apply_reads_every_flag() {
    let cli = parse(&["dotrift", "apply", "--clean-up", "--prune-empty-dirs", "--quiet"]).unwrap();
    assert!(matches!(
        cli.command,
        Command::Apply { clean_up: true, prune_empty_dirs: true, dry_run: false, quiet: true, verbose: false }
    ));
    assert!(cli.source.is_none());
    assert!(cli.target.is_none());
}

#[test]
fn option_values_come_in_every_form() {
    let cli = parse(&["dotrift", "--source=/s", "-t/t", "status"]).unwrap();
    assert_eq!(cli.source.as_deref(), Some("/s"));
    assert_eq!(cli.target.as_deref(), Some("/t"));
    assert!(matches!(cli.command, Command::Status));
    let cli = parse(&["dotrift", "-s=/s", "--target", "init", "init"]).unwrap();
    assert_eq!(cli.source.as_deref(), Some("/s"));
    assert_eq!(cli.target.as_deref(), Some("init"));
    assert!(matches!(cli.command, Command::Init));
    let cli = parse(&["dotrift", "-s", "-", "init"]).unwrap();
    assert_eq!(cli.source.as_deref(), Some("-"));
}

#[test]
fn option_errors() {
    assert!(matches!(parse(&["dotrift", "--source="]), Err(CliError::EmptyValue { option: CliOption::Source })));
    assert!(matches!(
        parse(&["dotrift", "-s", "/a", "-s", "/b", "init"]),
        Err(CliError::Duplicate { option: CliOption::Source })
    ));
    assert!(matches!(parse(&["dotrift", "-t", "-x", "init"]), Err(CliError::MissingValue { option: CliOption::Target })));
    assert!(matches!(
        parse(&["dotrift", "apply", "--dry-run=yes"]),
        Err(CliError::UnexpectedValue { option: CliOption::DryRun })
    ));
    assert!(matches!(
        parse(&["dotrift", "apply", "--quiet", "--quiet"]),
        Err(CliError::Duplicate { option: CliOption::Quiet })
    ));
    assert!(matches!(parse(&["dotrift", "-x"]), Err(CliError::UnknownArgument { arg }) if arg == "-x"));
    assert!(matches!(parse(&["dotrift", "frobnicate"]), Err(CliError::UnknownSubcommand { name }) if name == "frobnicate"));
    assert!(matches!(parse(&["dotrift"]), Err(CliError::MissingSubcommand)));
    assert!(matches!(parse(&["dotrift", "-s", "/a"]), Err(CliError::MissingSubcommand)));
}

#[test]
fn help_and_version() {
    assert!(matches!(parse(&["dotrift", "-h"]), Err(CliError::Help)));
    assert!(matches!(parse(&["dotrift", "--help"]), Err(CliError::Help)));
    assert!(matches!(parse(&["dotrift", "apply", "-h"]), Err(CliError::Help)));
    assert!(matches!(parse(&["dotrift", "-V"]), Err(CliError::Version)));
    assert!(matches!(parse(&["dotrift", "--version"]), Err(CliError::Version)));
    assert!(matches!(parse(&["dotrift", "init", "-V"]), Err(CliError::UnknownArgument { .. })));
    assert!(matches!(parse(&["dotrift", "help"]), Err(CliError::Help)));
    assert!(matches!(parse(&["dotrift", "help", "profile", "activate"]), Err(CliError::Help)));
    assert!(matches!(parse(&["dotrift", "help", "apply", "x"]), Err(CliError::UnknownSubcommand { name }) if name == "x"));
    assert!(matches!(parse(&["dotrift", "--help=x"]), Err(CliError::UnexpectedValue { option: CliOption::Help })));
}

#[test]
fn profile_commands() {
    let cli = parse(&["dotrift", "profile", "activate", "work"]).unwrap();
    assert!(matches!(cli.command, Command::Profile { command: ProfileCommand::Activate { name } } if name == "work"));
    let cli = parse(&["dotrift", "profile", "deactivate", "--", "-odd"]).unwrap();
    assert!(matches!(cli.command, Command::Profile { command: ProfileCommand::Deactivate { name } } if name == "-odd"));
    let cli = parse(&["dotrift", "profile", "list"]).unwrap();
    assert!(matches!(cli.command, Command::Profile { command: ProfileCommand::List }));
    let cli = parse(&["dotrift", "profile", "show"]).unwrap();
    assert!(matches!(cli.command, Command::Profile { command: ProfileCommand::Show }));
    assert!(matches!(parse(&["dotrift", "profile"]), Err(CliError::MissingSubcommand)));
    assert!(matches!(parse(&["dotrift", "profile", "activate"]), Err(CliError::MissingName)));
    assert!(matches!(
        parse(&["dotrift", "profile", "activate", "a", "b"]),
        Err(CliError::UnexpectedArgument { arg }) if arg == "b"
    ));
    assert!(matches!(parse(&["dotrift", "profile", "drop"]), Err(CliError::UnknownSubcommand { name }) if name == "drop"));
}

#[test]
fn resolve_makes_paths_absolute() {
    let env = Environment::test_root("/state");
    let cli = parse(&["dotrift", "-s", "src", "-t", "dst", "apply"]).unwrap();
    let (source, target, _) = cli.resolve(&env, &Some("/home/u".to_string())).unwrap();
    assert_eq!(source.as_deref(), Some("/home/u/src"));
    assert_eq!(target.as_deref(), Some("/home/u/dst"));
    let cli = parse(&["dotrift", "-s", "src", "init"]).unwrap();
    assert!(matches!(cli.resolve(&env, &None), Err(ResolveError::CurrentDirUnknown)));
}

#[test]
fn resolve_skips_the_source_where_unused() {
    let env = Environment::test_root("/state");
    let cli = parse(&["dotrift", "status"]).unwrap();
    let (source, target, command) = cli.resolve(&env, &None).unwrap();
    assert!(source.is_none());
    assert!(target.is_none());
    assert!(matches!(command, Command::Status));
    let cli = parse(&["dotrift", "-s", "rel", "profile", "deactivate", "p"]).unwrap();
    let (source, _, _) = cli.resolve(&env, &None).unwrap();
    assert!(source.is_none());
}

#[test]
fn ensure_absolute_keeps_an_absolute_path() {
    assert_eq!(ensure_absolute("/a/b", &None).unwrap(), "/a/b");
}

#[test]
fn ensure_absolute_joins_a_relative_path_onto_the_current_directory() {
    assert_eq!(ensure_absolute("file1", &Some("/cwd".to_string())).unwrap(), "/cwd/file1");
    assert_eq!(ensure_absolute("file1", &Some("/cwd/".to_string())).unwrap(), "/cwd/file1");
}
