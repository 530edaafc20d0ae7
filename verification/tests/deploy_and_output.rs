use dotrift::capture::{Capture, CaptureWriter};
use dotrift::collision::{merge_collision_groups, CollisionGroups};
use dotrift::deploy::{
    apply_status, cleanup_action, decide, describe_decision, identity_check_needed, resolve_reply, step_after_answer,
    step_after_decision, written_outcome, CleanupAction, Decision, DeployOutcome, DeployStep, ExitStatus,
    ObstructionChoice, Outcome, PromptReply, ReplaceLatch, ResolveAction,
};
use dotrift::dry_run::{dry_run_summary, print_dry_run_summary};
use dotrift::mode::DeployType;
use dotrift::output::{OutputLog, Tag};
use dotrift::deploy::{after_entry, cleanup_runs, finish_run, ApplyOptions, ApplyTally, RunStep};
use dotrift::deployment::kept_entries;
use dotrift::entry_order::{path_less, sort_by_target};
use dotrift::rules::DeploymentEntry;
use dotrift::target_state::{deployed_record, RecordKind};
use dotrift::targets::ResolvedPortal;
use dotrift::tree::{build_tree, PortalEntry};

fn rendered(log: &OutputLog) -> Vec<String> {
    log.lines().iter().map(|l| l.render()).collect()
}

#[test]
fn captures_formatted_args_with_trailing_newline() {
    let mut capture = Capture::new();
    capture.clear();
    capture.push_line(&format!("hello {}", "world"));
    capture.push_line("");
    assert_eq!(capture.take(), "hello world\n\n");
    assert_eq!(capture.take(), "");
}

#[test]
fn capture_writer_collects_written_text() {
    let mut writer = CaptureWriter::new();
    assert_eq!(writer.write(b"hello "), 6);
    assert_eq!(writer.write("w\u{f6}rld\n".as_bytes()), 7);
    writer.flush();
    assert_eq!(writer.write(&[0x66, 0xff]), 2);
    assert_eq!(writer.into_capture().take(), "hello w\u{f6}rld\nf\u{fffd}");
}

fn groups(pairs: &[(&str, &str)]) -> CollisionGroups {
    let mut g = CollisionGroups::new();
    for (target, key) in pairs {
        g.add(target.to_string(), key.to_string());
    }
    g
}

#[test]
fn add_test_merge_collision_groups() {
    let existing = groups(&[("/a", "k1")]);
    let new = groups(&[("/a", "k1"), ("/b", "k2")]);
    let result = merge_collision_groups(existing, new);
    assert_eq!(result.len(), 2);
    assert!(result.iter().any(|keys| keys == &["k1"]));
    assert!(result.iter().any(|keys| keys == &["k2"]));
}

#[test]
fn portal_test_merge_collision_groups() {
    let existing = groups(&[("/a", "k1")]);
    let new = groups(&[("/a", "k1"), ("/b", "k2")]);
    let result = merge_collision_groups(existing, new);
    assert_eq!(result.len(), 2);
    assert!(result.iter().any(|keys| keys == &["k1"]));
    assert!(result.iter().any(|keys| keys == &["k2"]));
}

#[test]
fn merge_unites_the_keys_of_one_target() {
    let existing = groups(&[("/a", "k1"), ("/a", "k2")]);
    let new = groups(&[("/a", "k3"), ("/a", "k1")]);
    let result = merge_collision_groups(existing, new);
    assert_eq!(result.len(), 1);
    let mut keys = result[0].clone();
    keys.sort();
    assert_eq!(keys, vec!["k1", "k2", "k3"]);
}

fn entry(source: &str, deploy_type: DeployType) -> PortalEntry {
    let mut e = PortalEntry::new(source.to_string());
    e.deploy_type = deploy_type;
    e
}

#[test]
fn dry_run_test_dry_run_print_snapshot() {
    let entries = vec![
        ("/target/a.txt".to_string(), entry("/source/a.txt", DeployType::Symlink)),
        ("/target/b.txt".to_string(), entry("/source/b.txt", DeployType::Symlink)),
        ("/target/subdir/c.txt".to_string(), entry("/source/subdir/c.txt", DeployType::Copy)),
        ("/target/subdir/d.txt".to_string(), entry("/source/subdir/d.txt", DeployType::Copy)),
    ];
    let tree = build_tree(entries).unwrap();
    let mut log = OutputLog::new();
    let count = tree.print_tree(&mut log);
    assert_eq!(count, 4);
    print_dry_run_summary(&mut log, count, 0);
    assert_eq!(
        rendered(&log),
        vec![
            "[CREATE] /target",
            "[CREATE] /target/a.txt -> /source/a.txt (symlink)",
            "[CREATE] /target/b.txt -> /source/b.txt (symlink)",
            "[CREATE] /target/subdir",
            "[CREATE] /target/subdir/c.txt -> /source/subdir/c.txt (file)",
            "[CREATE] /target/subdir/d.txt -> /source/subdir/d.txt (file)",
            "[SUMMARY] 4 creates",
        ]
    );
}

#[test]
fn print_tree_orders_nodes_by_component() {
    let entries = vec![
        ("/t/z".to_string(), entry("/s/z", DeployType::Template)),
        ("/t/b/y".to_string(), entry("/s/y", DeployType::Copy)),
        ("/t/a".to_string(), entry("/s/a", DeployType::Symlink)),
    ];
    let tree = build_tree(entries).unwrap();
    let mut log = OutputLog::new();
    assert_eq!(tree.print_tree(&mut log), 3);
    assert_eq!(
        rendered(&log),
        vec![
            "[CREATE] /t",
            "[CREATE] /t/a -> /s/a (symlink)",
            "[CREATE] /t/b",
            "[CREATE] /t/b/y -> /s/y (file)",
            "[CREATE] /t/z -> /s/z (tmpl)",
        ]
    );
}

#[test]
fn dry_run_summary_counts() {
    assert_eq!(dry_run_summary(0, 0), None);
    assert_eq!(dry_run_summary(1, 0).as_deref(), Some("1 create"));
    assert_eq!(dry_run_summary(0, 1).as_deref(), Some("1 removal"));
    assert_eq!(dry_run_summary(3, 2).as_deref(), Some("3 creates, 2 removals"));
    let mut log = OutputLog::new();
    print_dry_run_summary(&mut log, 0, 0);
    assert!(log.lines().is_empty());
    print_dry_run_summary(&mut log, 0, 12);
    assert!(matches!(log.lines()[0].tag, Tag::Summary));
    assert_eq!(log.lines()[0].message, "12 removals");
}

#[test]
fn latch_enable_stays_enabled() {
    let mut latch = ReplaceLatch::default();
    assert!(!latch.is_enabled());
    latch.enable();
    assert!(latch.is_enabled());
    latch.enable();
    assert!(latch.is_enabled());
}

#[test]
fn describe_decision_maps_three_arms() {
    assert_eq!(describe_decision(&Decision::Deployed), (Outcome::Deployed, "deployed"));
    assert_eq!(
        describe_decision(&Decision::Replaced { remove: "/tmp/x".to_string() }),
        (Outcome::Replaced, "replaced")
    );
    assert_eq!(describe_decision(&Decision::Prompt("/tmp/x".to_string())), (Outcome::Obstruction, "obstruction"));
}

#[test]
fn decide_covers_every_case() {
    let d = decide(Some("/t/a".to_string()), "/t/a/b", true, true, true, false, true);
    assert!(matches!(d, Decision::Prompt(p) if p == "/t/a"));
    let d = decide(Some("/t/a".to_string()), "/t/a/b", true, false, false, true, false);
    assert!(matches!(d, Decision::Replaced { remove } if remove == "/t/a"));
    assert!(matches!(decide(None, "/t/x", false, false, false, false, false), Decision::Deployed));
    assert!(matches!(decide(None, "/t/x", true, true, false, false, false), Decision::Replaced { remove } if remove == "/t/x"));
    assert!(matches!(decide(None, "/t/x", true, false, true, false, true), Decision::Replaced { .. }));
    assert!(matches!(decide(None, "/t/x", true, false, true, false, false), Decision::Prompt(p) if p == "/t/x"));
    assert!(identity_check_needed(false, false, true));
    assert!(!identity_check_needed(true, false, true));
    assert!(!identity_check_needed(false, true, true));
}

/// Drives the obstruction prompt with scripted replies, showing a diff for
/// each diff choice; gives the action, the prompts asked and the diffs shown.
fn run_prompts(replies: &[PromptReply]) -> (ResolveAction, usize, usize) {
    let mut diffs = 0;
    for (asked, reply) in replies.iter().enumerate() {
        match resolve_reply(*reply) {
            Some(action) => return (action, asked + 1, diffs),
            None => diffs += 1,
        }
    }
    (ResolveAction::Cancel, replies.len() + 1, diffs)
}

#[test]
fn a_viewdiff_then_replace_shows_once_and_replaces() {
    let (action, prompts, diffs) = run_prompts(&[
        PromptReply::Chose(ObstructionChoice::ViewDiff),
        PromptReply::Chose(ObstructionChoice::Replace),
    ]);
    assert_eq!(action, ResolveAction::Replace { latch_all: false });
    assert_eq!(prompts, 2);
    assert_eq!(diffs, 1);
}

#[test]
fn a_skip_resolves_to_a_skip_action() {
    let (action, _, diffs) = run_prompts(&[PromptReply::Chose(ObstructionChoice::Skip)]);
    assert_eq!(action, ResolveAction::Skip);
    assert_eq!(diffs, 0);
}

#[test]
fn a_replace_all_resolves_to_a_latched_replace() {
    let (action, _, _) = run_prompts(&[PromptReply::Chose(ObstructionChoice::ReplaceAll)]);
    assert_eq!(action, ResolveAction::Replace { latch_all: true });
}

#[test]
fn a_cancelled_prompt_parks_as_a_cancel_action() {
    let (action, prompts, _) = run_prompts(&[PromptReply::Cancelled]);
    assert_eq!(action, ResolveAction::Cancel);
    assert_eq!(prompts, 1);
}

#[test]
fn answers_step_the_deployer() {
    let mut latch = ReplaceLatch::default();
    assert_eq!(
        step_after_answer(ResolveAction::Skip, "/o".to_string(), &mut latch),
        DeployStep::Finish(DeployOutcome::Skipped)
    );
    assert_eq!(
        step_after_answer(ResolveAction::Cancel, "/o".to_string(), &mut latch),
        DeployStep::Finish(DeployOutcome::Cancelled)
    );
    assert_eq!(
        step_after_answer(ResolveAction::Replace { latch_all: false }, "/o".to_string(), &mut latch),
        DeployStep::Write { replace: Some("/o".to_string()) }
    );
    assert!(!latch.is_enabled());
    step_after_answer(ResolveAction::Replace { latch_all: true }, "/o".to_string(), &mut latch);
    assert!(latch.is_enabled());
    assert_eq!(step_after_decision(Decision::Deployed), DeployStep::Write { replace: None });
    assert_eq!(step_after_decision(Decision::Prompt("/p".to_string())), DeployStep::Ask("/p".to_string()));
    assert_eq!(written_outcome(&None), DeployOutcome::Deployed);
    assert_eq!(written_outcome(&Some("/x".to_string())), DeployOutcome::Replaced);
}

#[test]
fn exit_status_and_cleanup() {
    assert_eq!(apply_status(true, 3), ExitStatus::Cancelled);
    assert_eq!(apply_status(false, 3), ExitStatus::Skipped);
    assert_eq!(apply_status(false, 0), ExitStatus::Success);
    assert_eq!(ExitStatus::Success.code(), 0);
    assert_ne!(ExitStatus::Cancelled.code(), ExitStatus::Skipped.code());
    assert_eq!(cleanup_action(false, true, false), CleanupAction::DropRecord);
    assert_eq!(cleanup_action(true, false, true), CleanupAction::Leave);
    assert_eq!(cleanup_action(true, true, true), CleanupAction::ReportRemoval);
    assert_eq!(cleanup_action(true, true, false), CleanupAction::Remove);
}

#[test]
fn obstruction_hotkeys() {
    assert_eq!(ObstructionChoice::ReplaceAll.hotkey(), Some('a'));
    assert_eq!(ObstructionChoice::Skip.hotkey(), None);
}

// The facts that `decide` weighs are found on disk by the caller; each
// test below hands in what its scenario finds there.

#[test]
fn decides_deployed_for_missing_target() {
    let decision = decide(None, "/t/target.txt", false, false, false, false, true);
    assert_eq!(decision, Decision::Deployed);
}

#[test]
fn decides_prompt_for_divergent_content_even_when_replace_identical() {
    let decision = decide(None, "/t/target.txt", true, false, false, false, true);
    assert_eq!(decision, Decision::Prompt("/t/target.txt".to_string()));
}

#[test]
fn decides_replaced_for_any_existing_target_under_replace_all() {
    let decision = decide(None, "/t/target.txt", true, false, false, true, false);
    assert_eq!(decision, Decision::Replaced { remove: "/t/target.txt".to_string() });
}

#[test]
fn decides_replaced_for_symlink_resolving_to_identical_file_when_replace_identical() {
    // The symlink resolves to a file with the same content: identical.
    assert!(identity_check_needed(false, false, true));
    let decision = decide(None, "/t/target.txt", true, false, true, false, true);
    assert_eq!(decision, Decision::Replaced { remove: "/t/target.txt".to_string() });
}

#[test]
fn decides_prompt_for_directory_target_even_when_inner_content_matches() {
    // A directory is never identical to a file.
    let decision = decide(None, "/t/target.txt", true, false, false, false, true);
    assert_eq!(decision, Decision::Prompt("/t/target.txt".to_string()));
}

#[test]
fn decides_replaced_for_previously_managed_file_matching_current_content() {
    assert!(!identity_check_needed(true, false, true));
    let decision = decide(None, "/t/target.txt", true, true, false, false, true);
    assert_eq!(decision, Decision::Replaced { remove: "/t/target.txt".to_string() });
}

/// Drives one entry through the deploy steps as `apply` does, answering
/// prompts from `answers`; returns the outcome and whether a removal came
/// before the write.
fn drive(
    target_exists: bool,
    managed: bool,
    latch: &mut ReplaceLatch,
    answers: &mut Vec<ResolveAction>,
    prompts: &mut usize,
) -> (DeployOutcome, bool) {
    let decision = decide(None, "/t/x", target_exists, managed, false, latch.is_enabled(), false);
    let mut step = step_after_decision(decision);
    loop {
        match step {
            DeployStep::Write { replace } => return (written_outcome(&replace), replace.is_some()),
            DeployStep::Ask(obstruction) => {
                *prompts += 1;
                let action = answers.remove(0);
                step = step_after_answer(action, obstruction, latch);
            }
            DeployStep::Finish(outcome) => return (outcome, false),
        }
    }
}

#[test]
fn deploy_one_deploys_missing_target() {
    let (mut latch, mut prompts) = (ReplaceLatch::default(), 0);
    let outcome = drive(false, false, &mut latch, &mut vec![], &mut prompts);
    assert_eq!(outcome, (DeployOutcome::Deployed, false));
    assert_eq!(prompts, 0);
    // The copy wrote "new"; its record is a file with that content's digest.
    let entry = copy_entry("/s/file.txt", "/t/target.txt");
    let digest = 0x5eed_u64;
    let record = deployed_record(&entry, Some(digest));
    assert_eq!(record.target_path, "/t/target.txt");
    assert_eq!(record.source_path, "/s/file.txt");
    assert_eq!(record.kind, RecordKind::File);
    assert_eq!(record.content_hash, Some(digest));
}

#[test]
fn deploy_one_replaces_managed_path_without_prompting() {
    let (mut latch, mut prompts) = (ReplaceLatch::default(), 0);
    let outcome = drive(true, true, &mut latch, &mut vec![], &mut prompts);
    assert_eq!(outcome, (DeployOutcome::Replaced, true));
    assert_eq!(prompts, 0);
}

#[test]
fn deploy_one_skip_and_cancel() {
    for (action, expected) in
        [(ResolveAction::Skip, DeployOutcome::Skipped), (ResolveAction::Cancel, DeployOutcome::Cancelled)]
    {
        let (mut latch, mut prompts) = (ReplaceLatch::default(), 0);
        let outcome = drive(true, false, &mut latch, &mut vec![action], &mut prompts);
        assert_eq!(outcome, (expected, false));
        assert_eq!(prompts, 1);
    }
}

#[test]
fn deploy_one_latch_suppresses_second_prompt() {
    let (mut latch, mut prompts) = (ReplaceLatch::default(), 0);
    let mut answers = vec![ResolveAction::Replace { latch_all: true }];
    assert_eq!(drive(true, false, &mut latch, &mut answers, &mut prompts), (DeployOutcome::Replaced, true));
    assert_eq!(drive(true, false, &mut latch, &mut answers, &mut prompts), (DeployOutcome::Replaced, true));
    assert_eq!(prompts, 1);
    assert!(latch.is_enabled());
}

fn copy_entry(source: &str, target: &str) -> DeploymentEntry {
    DeploymentEntry {
        source_path: source.to_string(),
        target_path: target.to_string(),
        deploy_type: DeployType::Copy,
        mode: None,
    }
}

#[test]
fn symlink_records_carry_no_digest() {
    let mut entry = copy_entry("/s/a", "/t/a");
    entry.deploy_type = DeployType::Symlink;
    let record = deployed_record(&entry, Some(7));
    assert_eq!(record.kind, RecordKind::Symlink);
    assert_eq!(record.content_hash, None);
}

#[test]
fn entries_deploy_in_ascending_target_order() {
    let entries = vec![
        copy_entry("/s/1", "/t/b"),
        copy_entry("/s/2", "/t/a/z"),
        copy_entry("/s/3", "/t/a-b"),
        copy_entry("/s/4", "/t/a"),
        copy_entry("/s/5", "/t/b"),
    ];
    let sorted = sort_by_target(entries.clone());
    let sources: Vec<&str> = sorted.iter().map(|e| e.source_path.as_str()).collect();
    // `Path` order compares components: `/t/a` < `/t/a/z` < `/t/a-b`.
    assert_eq!(sources, vec!["/s/4", "/s/2", "/s/3", "/s/1", "/s/5"]);
    let mut expected = entries;
    expected.sort_by(|l, r| std::path::Path::new(&l.target_path).cmp(std::path::Path::new(&r.target_path)));
    assert_eq!(sorted, expected);
    assert!(path_less("/t/a/z", "/t/a-b"));
    assert!(!path_less("/t/a-b", "/t/a/z"));
    assert!(path_less("/x", "a"));
    assert!(path_less("../a", "-a"));
}

#[test]
fn a_cancel_stops_the_run_and_skips_block_clean_up() {
    let mut tally = ApplyTally::default();
    assert_eq!(after_entry(&mut tally, DeployOutcome::Deployed), RunStep::Next);
    assert_eq!(after_entry(&mut tally, DeployOutcome::Skipped), RunStep::Next);
    assert_eq!(after_entry(&mut tally, DeployOutcome::Cancelled), RunStep::Stop(ExitStatus::Cancelled));
    assert_eq!(tally, ApplyTally { deployed: 1, replaced: 0, skipped: 1 });
    let clean = ApplyOptions { clean_up: true, ..ApplyOptions::default() };
    assert!(!cleanup_runs(&clean, &tally));
    assert!(cleanup_runs(&clean, &ApplyTally::default()));
    assert!(cleanup_runs(&ApplyOptions { dry_run: true, ..clean }, &tally));
    assert!(!cleanup_runs(&ApplyOptions::default(), &ApplyTally::default()));
    let (line, status) = finish_run(&clean, &tally, (2, 1));
    assert_eq!(line.as_deref(), Some("deployed 1, replaced 0, skipped 1, removed 2, pruned 1"));
    assert_eq!(status, ExitStatus::Skipped);
    let (line, status) = finish_run(&ApplyOptions::default(), &ApplyTally { deployed: 3, replaced: 0, skipped: 0 }, (9, 9));
    assert_eq!(line.as_deref(), Some("deployed 3, replaced 0, skipped 0"));
    assert_eq!(status, ExitStatus::Success);
    let (line, status) = finish_run(&ApplyOptions { dry_run: true, ..ApplyOptions::default() }, &tally, (0, 0));
    assert_eq!((line, status), (None, ExitStatus::Success));
}

#[test]
fn kept_entries_drop_ignored_portals() {
    let portals = vec![
        ResolvedPortal { source: "/s/a".to_string(), target: "a".to_string() },
        ResolvedPortal { source: "/s/b".to_string(), target: "b".to_string() },
    ];
    let kept = kept_entries(&portals, &[true, false]);
    assert_eq!(kept.len(), 1);
    assert_eq!(kept[0].target, "b");
}
