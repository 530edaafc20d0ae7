use dotrift::analysis::analyze_portal;
use dotrift::deploy::{apply_summary, ApplyTally, DeployOutcome};

fn strings(v: &[&str]) -> Vec<String> {
    v.iter().map(|s| s.to_string()).collect()
}

fn pairs(v: &[(&str, &str)]) -> Vec<(String, String)> {
    v.iter().map(|(a, b)| (a.to_string(), b.to_string())).collect()
}

/// Runs the analysis with target directory `/t` and source directory `/s`;
/// `entries` are (path below `/t`, path below `/s`).
fn run(keys: &[&str], resolved: &[(&str, &str)], entries: &[(&str, &str)]) -> (Vec<(String, String)>, Vec<Vec<String>>) {
    let entries: Vec<(String, String)> = entries.iter().map(|(a, b)| (format!("/t/{a}"), format!("/s/{b}"))).collect();
    let analysis = analyze_portal(&strings(keys), &pairs(resolved), &entries, "/t", "/s");
    let missing = analysis.missing.iter().map(|(d, c, _)| (d.clone(), c.clone())).collect();
    let collisions = analysis
        .collisions
        .into_iter()
        .map(|mut g| {
            g.sort();
            g
        })
        .collect();
    (missing, collisions)
}

#[test]
fn analyze_portal_single_literal_collision() {
    let (missing, collisions) = run(&["a"], &[("/t/a", "a")], &[("a", "a")]);
    assert!(missing.is_empty());
    assert_eq!(collisions, vec![strings(&["a"])]);
}

#[test]
fn analyze_portal_glob_collision() {
    let (missing, collisions) = run(&["*"], &[("/t/a", "*")], &[("a", "a")]);
    assert!(missing.is_empty());
    assert_eq!(collisions, vec![strings(&["*", "a"])]);
}

#[test]
fn analyze_portal_existing_portal_collision() {
    let (missing, collisions) = run(&["a", "b"], &[("/t/x", "a"), ("/t/x", "b")], &[]);
    assert!(missing.is_empty());
    assert_eq!(collisions, vec![strings(&["a", "b"])]);
}

#[test]
fn analyze_portal_missing_key() {
    let (missing, collisions) = run(&["a"], &[("/t/x", "a")], &[("y", "new")]);
    assert_eq!(missing, pairs(&[("new", "y")]));
    assert!(collisions.is_empty());
}

#[test]
fn analyze_portal_both_missing_and_collision() {
    let (missing, collisions) = run(&["a"], &[("/t/x", "a")], &[("x", "new")]);
    assert_eq!(missing, pairs(&[("new", "x")]));
    assert_eq!(collisions, vec![strings(&["a", "new"])]);
}

#[test]
fn analyze_portal_three_way_collision_at_same_target() {
    let (missing, collisions) = run(&["dir", "b"], &[("/t/a", "dir"), ("/t/a", "b")], &[("a", "c")]);
    assert_eq!(missing, pairs(&[("c", "a")]));
    assert_eq!(collisions, vec![strings(&["b", "c", "dir"])]);
}

#[test]
fn analyze_portal_entry_outside_target_keeps_its_path_and_warns() {
    let analysis = analyze_portal(&strings(&["a"]), &[], &pairs(&[("/elsewhere/f", "/s/f")]), "/t", "/s");
    assert_eq!(analysis.missing, vec![("f".to_string(), "/elsewhere/f".to_string(), true)]);
    let analysis = analyze_portal(&strings(&["f"]), &[], &pairs(&[("/t/sub/f", "/s/f")]), "/t", "/s");
    assert!(analysis.missing.is_empty());
}

#[test]
fn apply_tally_counts_and_summarises() {
    let mut tally = ApplyTally::default();
    tally.record(DeployOutcome::Deployed);
    tally.record(DeployOutcome::Deployed);
    tally.record(DeployOutcome::Replaced);
    tally.record(DeployOutcome::Skipped);
    tally.record(DeployOutcome::Cancelled);
    assert_eq!(tally, ApplyTally { deployed: 2, replaced: 1, skipped: 1 });
    assert_eq!(apply_summary(&tally, None), "deployed 2, replaced 1, skipped 1");
    assert_eq!(
        apply_summary(&tally, Some((3, 10))),
        "deployed 2, replaced 1, skipped 1, removed 3, pruned 10"
    );
    assert_eq!(apply_summary(&ApplyTally::default(), None), "deployed 0, replaced 0, skipped 0");
}
