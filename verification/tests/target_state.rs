use dotrift::prompt::CollisionOptions;
use dotrift::target_state::safe_strip_prefix;
use dotrift::ignore_file::{ignore_file_lines, ignored_flags, read_ignore, IgnoreError};
use dotrift::target_state::PruneWalk;
use dotrift::targets::ResolvedPortal;
use dotrift::collision::resolve_collisions;
use dotrift::target_state::{
    chain_step, dry_run_prune_chain, managed_verdict, parent_chain, prune_chain, prune_removes, prune_start_dirs,
    stale_record, would_be_empty, ChainError, ChainStep, DirListing, Observed, PathKind, RecordKind,
};

fn strings(list: &[&str]) -> Vec<String> {
    list.iter().map(|s| s.to_string()).collect()
}

#[test]
fn parent_chain_lists_the_parents_below_the_root() {
    assert_eq!(parent_chain("/t", "/t/a/b/file").unwrap(), strings(&["/t/a", "/t/a/b"]));
    assert_eq!(parent_chain("/t/", "/t/a/file").unwrap(), strings(&["/t/a"]));
    assert!(parent_chain("/t", "/t/file").unwrap().is_empty());
    assert_eq!(parent_chain("/t", "/u/file"), Err(ChainError::OutsideRoot));
    assert_eq!(parent_chain("/t", "/"), Err(ChainError::NoParent));
    assert_eq!(parent_chain("/t", "/t"), Err(ChainError::OutsideRoot));
}

#[test]
fn chain_steps() {
    assert_eq!(chain_step(PathKind::Directory), ChainStep::Continue);
    assert_eq!(chain_step(PathKind::NotDirectory), ChainStep::Obstructed);
    assert_eq!(chain_step(PathKind::DanglingLink), ChainStep::Obstructed);
    assert_eq!(chain_step(PathKind::Missing), ChainStep::Clear);
}

#[test]
fn stale_records() {
    let desired = strings(&["/t/a", "/t/b/c"]);
    assert!(stale_record("/t/x", "/t", &desired));
    assert!(!stale_record("/t/a", "/t", &desired));
    assert!(!stale_record("/t/b//c", "/t", &desired));
    assert!(!stale_record("/t", "/t", &desired));
    assert!(!stale_record("/elsewhere/x", "/t", &desired));
}

#[test]
fn pruning_chains() {
    assert_eq!(prune_chain("/t", "/t/a/b/file"), strings(&["/t/a/b", "/t/a"]));
    assert!(prune_chain("/t", "/t/file").is_empty());
    assert!(prune_chain("/t", "/u/a/file").is_empty());
    assert_eq!(dry_run_prune_chain("/t", "/t/a/b"), strings(&["/t/a/b", "/t/a"]));
    assert!(dry_run_prune_chain("/t", "/t").is_empty());
    assert_eq!(
        prune_start_dirs(&strings(&["/t/b/x", "/t/a/y", "/t/b/z", "/t/a/c/d"])),
        strings(&["/t/a", "/t/a/c", "/t/b"])
    );
}

#[test]
fn emptiness() {
    let removals = strings(&["/t/d/a", "/t/d/b"]);
    assert!(would_be_empty(&DirListing::Missing, &removals));
    assert!(!would_be_empty(&DirListing::NotDirectory, &removals));
    assert!(would_be_empty(&DirListing::Entries(strings(&["/t/d/a"])), &removals));
    assert!(!would_be_empty(&DirListing::Entries(strings(&["/t/d/a", "/t/d/keep"])), &removals));
    assert!(would_be_empty(&DirListing::Entries(vec![]), &[]));
    assert!(prune_removes(&DirListing::Entries(vec![])));
    assert!(!prune_removes(&DirListing::Entries(strings(&["/x"]))));
    assert!(!prune_removes(&DirListing::Missing));
    assert!(!prune_removes(&DirListing::NotDirectory));
}

#[test]
fn managed_verdicts() {
    let link = |l: &str| Observed::Symlink { link: Some(l.to_string()) };
    assert!(managed_verdict(RecordKind::Symlink, "/s/f", None, &link("/s/f")));
    assert!(!managed_verdict(RecordKind::Symlink, "/s/f", None, &link("/s/other")));
    assert!(!managed_verdict(RecordKind::Symlink, "/s/f", None, &Observed::Symlink { link: None }));
    assert!(!managed_verdict(RecordKind::Symlink, "/s/f", None, &Observed::File { hash: Some(1) }));
    assert!(managed_verdict(RecordKind::File, "/s/f", Some(7), &Observed::File { hash: Some(7) }));
    assert!(!managed_verdict(RecordKind::File, "/s/f", Some(7), &Observed::File { hash: Some(8) }));
    assert!(!managed_verdict(RecordKind::File, "/s/f", None, &Observed::File { hash: Some(7) }));
    assert!(!managed_verdict(RecordKind::File, "/s/f", Some(7), &Observed::Missing));
    assert!(!managed_verdict(RecordKind::File, "/s/f", Some(7), &Observed::Other));
}

fn pairs(list: &[(&str, &str)]) -> Vec<(String, String)> {
    list.iter().map(|(a, b)| (a.to_string(), b.to_string())).collect()
}

fn sorted(mut v: Vec<String>) -> Vec<String> {
    v.sort();
    v
}

#[test]
fn resolve_collisions_groups_keys_by_target() {
    let (_, groups) = resolve_collisions(&pairs(&[("/t/x", "a")]));
    assert_eq!(groups.len(), 0);
    let (_, groups) = resolve_collisions(&pairs(&[("/t/x", "a"), ("/t/x", "b")]));
    assert_eq!(groups.len(), 1);
    assert_eq!(sorted(groups.group("/t/x").unwrap().clone()), strings(&["a", "b"]));
    let (_, groups) = resolve_collisions(&pairs(&[("/t/out/f1", "flat"), ("/t/out/f1", "subdir")]));
    assert_eq!(sorted(groups.group("/t/out/f1").unwrap().clone()), strings(&["flat", "subdir"]));
    let (_, groups) = resolve_collisions(&pairs(&[("/t/out/f1", "subdir"), ("/t/out/f2", "subdir")]));
    assert_eq!(groups.len(), 0);
    let (_, groups) = resolve_collisions(&pairs(&[
        ("/t/x", "a"),
        ("/t/x", "b"),
        ("/t/y", "c"),
        ("/t/y", "d"),
    ]));
    assert_eq!(groups.len(), 2);
    assert_eq!(sorted(groups.group("/t/y").unwrap().clone()), strings(&["c", "d"]));
}

#[test]
fn ignore_patterns_cover_the_control_files() {
    let matcher = read_ignore("/s", &strings(&["# note", "*.bak", "secret/"])).unwrap();
    let targets: Vec<ResolvedPortal> = ["a.bak", "dotrift.toml", "x", "d/y.bak", ".dotriftignore", "dotrift_data.toml"]
        .iter()
        .map(|t| ResolvedPortal { source: format!("/s/{t}"), target: t.to_string() })
        .collect();
    assert_eq!(ignored_flags(&matcher, &targets), vec![true, true, false, true, true, true]);
    let none = read_ignore("/s", &[]).unwrap();
    assert_eq!(ignored_flags(&none, &targets), vec![false, true, false, false, true, true]);
}

#[test]
fn collision_prompt_choices() {
    let all = CollisionOptions::all();
    assert_eq!(all, vec![CollisionOptions::Skip, CollisionOptions::Overwrite, CollisionOptions::Diff, CollisionOptions::Quit]);
    let labels: Vec<&str> = all.iter().map(|o| o.label()).collect();
    assert_eq!(labels, vec!["skip", "overwrite", "diff", "quit"]);
    let keys: Vec<char> = all.iter().map(|o| o.hot_key()).collect();
    assert_eq!(keys, vec!['s', 'o', 'd', 'q']);
    assert_eq!(CollisionOptions::default(), CollisionOptions::Skip);
}

#[test]
fn strip_prefix_cases() {
    assert_eq!(safe_strip_prefix("/t/a/b", "/t"), "a/b");
    assert_eq!(safe_strip_prefix("/t/a/b", "/t/"), "a/b");
    assert_eq!(safe_strip_prefix("/t", "/t"), "");
    assert_eq!(safe_strip_prefix("/u/a", "/t"), "/u/a");
    assert_eq!(safe_strip_prefix("/tt/a", "/t"), "/tt/a");
    assert_eq!(safe_strip_prefix("a/b/c", "a"), "b/c");
}

#[test]
fn ignore_file_lines_follow_str_lines() {
    let lines = |text: &str| ignore_file_lines(text);
    assert!(lines("").is_empty());
    assert_eq!(lines("a"), vec!["a"]);
    assert_eq!(lines("a\n"), vec!["a"]);
    assert_eq!(lines("\n"), vec![""]);
    assert_eq!(lines("a\r\nb\n\nc"), vec!["a", "b", "", "c"]);
    assert_eq!(lines("a\r"), vec!["a\r"]);
    assert_eq!(lines("\u{feff}\u{feff}*.log\n\u{feff}x"), vec!["*.log", "\u{feff}x"]);
    for text in ["x\ny\r\n", "one", "\r\n\r\n", "tail\r"] {
        let expected: Vec<&str> = text.lines().collect();
        assert_eq!(lines(text), expected);
    }
}

#[test]
fn ignore_patterns_report_the_first_refused_line() {
    let lines = strings(&["", "   ", "# {a,b", "*.tmp   ", "{a,b", "[z-a]"]);
    match read_ignore("/s", &lines) {
        Err(IgnoreError::Pattern { line }) => assert_eq!(line, "{a,b"),
        other => panic!("unexpected {:?}", other.map(|_| ())),
    }
    let matcher = read_ignore("./s", &strings(&["", "   ", "# {a,b", "*.tmp   "])).unwrap();
    let targets: Vec<ResolvedPortal> = ["x.tmp", "x.tmpx"]
        .iter()
        .map(|t| ResolvedPortal { source: format!("/s/{t}"), target: t.to_string() })
        .collect();
    assert_eq!(ignored_flags(&matcher, &targets), vec![true, false]);
}

#[test]
fn prune_walk_removes_the_leading_empty_parents() {
    // Both parents empty: both go, nearest first, and the root stays.
    let mut walk = PruneWalk::new("/t", "/t/a/b/file");
    assert_eq!(walk.next_dir().as_deref(), Some("/t/a/b"));
    assert!(walk.observe(&DirListing::Entries(vec![])));
    assert_eq!(walk.next_dir().as_deref(), Some("/t/a"));
    assert!(walk.observe(&DirListing::Entries(vec![])));
    assert_eq!(walk.next_dir(), None);
    assert_eq!(walk.pruned(), 2);
    // A kept sibling stops the walk at `/t/a`.
    let mut walk = PruneWalk::new("/t", "/t/a/b/file");
    assert!(walk.observe(&DirListing::Entries(vec![])));
    assert!(!walk.observe(&DirListing::Entries(strings(&["/t/a/keep"]))));
    assert_eq!(walk.next_dir(), None);
    assert!(!walk.observe(&DirListing::Entries(vec![])));
    assert_eq!(walk.pruned(), 1);
    // A missing parent or a symlink ends the walk at once.
    for listing in [DirListing::Missing, DirListing::NotDirectory] {
        let mut walk = PruneWalk::new("/t", "/t/a/file");
        assert!(!walk.observe(&listing));
        assert_eq!(walk.pruned(), 0);
    }
    // Directly below the root there is nothing to prune.
    assert_eq!(PruneWalk::new("/t", "/t/file").next_dir(), None);
}
