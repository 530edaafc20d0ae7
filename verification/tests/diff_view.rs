use dotrift::deploy::ObstructionChoice;
use dotrift::diff_view::{
    command_words, diff_exit_error, diff_invocation, kind_word, obstruction_question, offered_choices, pager_command,
    EntryKind,
};
use dotrift::global::{DiffCommand, PagerCommand, PagerSelection};

fn strings(v: &[&str]) -> Vec<String> {
    v.iter().map(|s| s.to_string()).collect()
}

#[test]
fn the_diff_choice_gates_on_two_regular_files() {
    assert!(offered_choices(true, true).contains(&ObstructionChoice::ViewDiff));
}

#[test]
fn the_diff_choice_gates_on_a_directory_obstruction() {
    assert!(!offered_choices(true, false).contains(&ObstructionChoice::ViewDiff));
}

#[test]
fn the_diff_choice_gates_on_a_missing_path() {
    assert!(!offered_choices(false, true).contains(&ObstructionChoice::ViewDiff));
}

#[test]
fn offered_choices_keep_prompt_order() {
    assert_eq!(
        offered_choices(true, true),
        vec![
            ObstructionChoice::Skip,
            ObstructionChoice::ViewDiff,
            ObstructionChoice::Replace,
            ObstructionChoice::ReplaceAll
        ]
    );
    assert_eq!(
        offered_choices(false, false),
        vec![ObstructionChoice::Skip, ObstructionChoice::Replace, ObstructionChoice::ReplaceAll]
    );
}

#[test]
fn question_names_both_paths_and_kinds() {
    assert_eq!(kind_word(EntryKind::Unknown), "unknown");
    assert_eq!(
        obstruction_question(EntryKind::File, "~/dots/vimrc", EntryKind::Directory, "~/.vimrc"),
        "cannot deploy file ~/dots/vimrc because directory ~/.vimrc is already present\nhow would you like to proceed?"
    );
    assert_eq!(
        obstruction_question(EntryKind::Symlink, "a", EntryKind::File, "b"),
        "cannot deploy symlink a because file b is already present\nhow would you like to proceed?"
    );
}

#[test]
fn default_diff_labels_both_sides() {
    let (program, args) = diff_invocation(None, "/t/f", "/s/f", "/tmp/rendered");
    assert_eq!(program, "diff");
    assert_eq!(args, strings(&["-u", "--label", "/t/f", "--label", "/s/f", "/t/f", "/tmp/rendered"]));
}

#[test]
fn configured_diff_substitutes_or_appends_paths() {
    let diff = DiffCommand { command: "delta".to_string(), args: strings(&["--side-by-side"]) };
    let (program, args) = diff_invocation(Some(&diff), "/t/f", "/s/f", "/r/f");
    assert_eq!(program, "delta");
    assert_eq!(args, strings(&["--side-by-side", "/t/f", "/r/f"]));
    let diff = DiffCommand { command: "difft".to_string(), args: strings(&["${target}", "${source}", "--label=${source-label}"]) };
    let (_, args) = diff_invocation(Some(&diff), "/t/f", "/s/f", "/r/f");
    assert_eq!(args, strings(&["/t/f", "/r/f", "--label=/s/f"]));
}

#[test]
fn diff_exit_statuses() {
    assert_eq!(diff_exit_error(None, Some(0)), None);
    assert_eq!(diff_exit_error(Some("delta"), Some(1)), None);
    assert_eq!(diff_exit_error(None, Some(2)).as_deref(), Some("`diff` exited with status 2"));
    assert_eq!(diff_exit_error(None, None).as_deref(), Some("`diff` terminated by a signal"));
    assert_eq!(
        diff_exit_error(Some("delta"), Some(-3)).as_deref(),
        Some("the configured diff command `delta` exited with status -3")
    );
    assert_eq!(
        diff_exit_error(Some("delta"), None).as_deref(),
        Some("the configured diff command `delta` terminated by a signal")
    );
}

#[test]
fn command_lines_split_at_whitespace() {
    assert_eq!(command_words("less -R"), strings(&["less", "-R"]));
    assert_eq!(command_words("  bat\t--paging=always \n"), strings(&["bat", "--paging=always"]));
    assert!(command_words(" \t ").is_empty());
    assert!(command_words("").is_empty());
}

#[test]
fn pager_commands() {
    assert_eq!(
        pager_command(&PagerSelection::EnvDotrift("less -R -F".to_string())),
        Some(("less".to_string(), strings(&["-R", "-F"])))
    );
    assert_eq!(pager_command(&PagerSelection::EnvPager("more".to_string())), Some(("more".to_string(), vec![])));
    let configured = PagerCommand { command: "less".to_string(), args: strings(&["-R"]) };
    assert_eq!(
        pager_command(&PagerSelection::Config(&configured)),
        Some(("less".to_string(), strings(&["-R"])))
    );
    assert_eq!(pager_command(&PagerSelection::Stdout), None);
}
