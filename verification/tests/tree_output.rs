use dotrift::deploy::format_deploy_suffix;
use dotrift::mode::{DeployMode, DeployType};
use dotrift::output::{
    deploy_type_label, portal_str, print_added, print_created_dir, print_created_file, print_dry_create_dir,
    print_dry_create_file, print_dry_remove, print_managed, print_ok, print_removed, print_summary, print_unmanaged,
    print_warn, OutputLog, Tag,
};
use dotrift::rules::DeploymentEntry;
use dotrift::tree::{build_tree, Leaf, Node, PortalEntry, TreeError};

#[test]
fn tree_refuses_related_paths() {
    let mut tree = Node::new();
    assert_eq!(tree.insert_entry("/t/a/b", PortalEntry::new("/s/b".to_string())), Ok(()));
    assert_eq!(tree.insert_entry("/t/a/b", PortalEntry::new("/s/x".to_string())), Err(TreeError::FileExists));
    assert_eq!(tree.insert_entry("/t/a/b/c", PortalEntry::new("/s/x".to_string())), Err(TreeError::FileInTheWay));
    assert_eq!(tree.insert_entry("/t/a", PortalEntry::new("/s/x".to_string())), Err(TreeError::DirectoryExists));
    assert_eq!(tree.insert_entry("/", PortalEntry::new("/s/x".to_string())), Err(TreeError::EmptyPath));
    assert_eq!(tree.insert_entry("/t/a/c", PortalEntry::new("/s/c".to_string())), Ok(()));
}

#[test]
fn claims_report_their_keys() {
    let mut tree = Node::new();
    assert_eq!(tree.check_entry("/t/x", "kx".to_string()), Ok(None));
    assert_eq!(tree.check_entry("/t/x", "other".to_string()), Ok(Some("kx".to_string())));
    assert_eq!(tree.check_entry("/t/d/f", "kf".to_string()), Ok(None));
    assert_eq!(tree.key_at("/t/d"), vec!["kf".to_string()]);
    assert_eq!(tree.key_at("/t/x/y"), vec!["kx".to_string()]);
    assert!(tree.key_at("/t/z").is_empty());
    assert_eq!(tree.key_at("/t"), vec!["kx".to_string(), "kf".to_string()]);
    assert!(matches!(tree.insert_at("/t/x", Leaf::Marked("k".to_string())), Ok(Some(k)) if k == "kx"));
}

#[test]
fn build_tree_reports_the_first_misfit() {
    let e = |s: &str| PortalEntry::new(s.to_string());
    assert!(build_tree(vec![("/t/a".to_string(), e("1")), ("/t/b".to_string(), e("2"))]).is_ok());
    assert_eq!(
        build_tree(vec![("/t/a".to_string(), e("1")), ("/t/a/b".to_string(), e("2"))]).err(),
        Some(TreeError::FileInTheWay)
    );
    assert!(build_tree(vec![]).is_ok());
}

#[test]
fn output_lines() {
    let mut log = OutputLog::new();
    print_dry_create_dir(&mut log, "/t/d");
    print_dry_create_file(&mut log, "/t/f", "/s/f", DeployType::Copy);
    print_dry_remove(&mut log, "/t/old");
    print_managed(&mut log, "/t/m", "/s/m", DeployType::Template);
    print_unmanaged(&mut log, "/t/u");
    print_warn(&mut log, "careful");
    print_ok(&mut log, "fine");
    print_created_dir(&mut log, "/t/n");
    print_created_file(&mut log, "/t/g", "/s/g", DeployType::Symlink);
    print_removed(&mut log, "/t/r");
    print_added(&mut log, "/t/x", "x");
    print_summary(&mut log, "3 entries");
    let lines: Vec<String> = log.lines().iter().map(|l| l.render()).collect();
    assert_eq!(lines[0], "[CREATE] /t/d");
    assert_eq!(lines[1], "[CREATE] /t/f -> /s/f (file)");
    assert_eq!(lines[2], "[REMOVE] /t/old");
    assert_eq!(lines[3], "[MANAGED] /t/m -> /s/m (tmpl)");
    assert_eq!(lines[4], "[UNMANAGED] /t/u");
    assert_eq!(lines[5], "[WARN] careful");
    assert_eq!(lines[6], "[OK] fine");
    assert_eq!(lines[7], "[CREATED] /t/n");
    assert_eq!(lines[8], "[CREATED] /t/g -> /s/g (symlink)");
    assert_eq!(lines[9], "[REMOVED] /t/r");
    assert_eq!(lines[10], "[ADDED] /t/x -> x");
    assert_eq!(lines[11], "[SUMMARY] 3 entries");
    assert!(matches!(log.lines()[5].tag, Tag::Warn));
    assert_eq!(Tag::Done.text(), "[OK]");
    assert_eq!(deploy_type_label(DeployType::Copy), "file");
    assert_eq!(portal_str("a", "b", DeployType::Symlink), "a -> b (symlink)");
}

#[test]
fn deploy_suffixes() {
    let entry = |t, m| DeploymentEntry { source_path: "/s".to_string(), target_path: "/t".to_string(), deploy_type: t, mode: m };
    assert_eq!(format_deploy_suffix(&entry(DeployType::Copy, None)), "[copy]");
    assert_eq!(format_deploy_suffix(&entry(DeployType::Copy, Some(DeployMode(0o644)))), "[copy 644]");
    assert_eq!(format_deploy_suffix(&entry(DeployType::Template, Some(DeployMode(0o7)))), "[template 007]");
    assert_eq!(format_deploy_suffix(&entry(DeployType::Symlink, None)), "[symlink]");
}
