use dotrift::deployment::{choose_target, desired_entries, TargetError};
use dotrift::error::{ConfigError, PathRole};
use dotrift::mode::{DeployMode, DeployType, InvalidMode};
use dotrift::paths::{
    config_path, contains_wildcard, data_path, is_glob, join_path, reject_brace_expansion, state_database_path,
    state_lock_path, strip_prefix_filter_glob, validate_relative, wildcard_prefix,
};
use dotrift::portals::{
    check_portal, directory_entry_target, glob_entry_target, literal_file_target, portal_entry_target, EntryOrigin,
};
use dotrift::rules::{apply_rules, compile_rules, RuleConfig, RuleConfigError};
use dotrift::scan::{find_close, find_open};
use dotrift::targets::{paths_overlap, validate_targets, ResolvedPortal};
use dotrift::text::{decimal, int_decimal, split_chars, trims_to_empty};

fn chars(s: &str) -> Vec<char> {
    s.chars().collect()
}

fn resolved(source: &str, target: &str) -> ResolvedPortal {
    ResolvedPortal { source: source.to_string(), target: target.to_string() }
}

#[test]
fn modes() {
    assert_eq!(DeployMode::parse_text("644").unwrap().bits(), 0o644);
    assert_eq!(DeployMode::parse_text("007").unwrap().bits(), 7);
    assert!(matches!(DeployMode::parse_text("64"), Err(InvalidMode::Text(t)) if t == "64"));
    assert!(matches!(DeployMode::parse_text("648"), Err(InvalidMode::Text(_))));
    assert_eq!(DeployMode::from_int(511).unwrap().bits(), 511);
    assert_eq!(DeployMode::from_int(512), Err(InvalidMode::Number(512)));
    assert_eq!(DeployMode::from_int(-1), Err(InvalidMode::Number(-1)));
    assert_eq!(DeployMode::from_u32(600), Err(InvalidMode::Number(600)));
    assert_eq!(DeployMode(0o755).octal_text(), "755");
    assert_eq!(DeployMode(5).octal_text(), "005");
    let m = DeployMode::parse_text("640").unwrap();
    assert_eq!(DeployMode::parse_text(&m.octal_text()).unwrap(), m);
}

#[test]
fn relative_paths() {
    assert!(validate_relative("a/b", PathRole::Rule).is_ok());
    assert!(validate_relative("./a", PathRole::Rule).is_ok());
    for bad in ["", "/abs", "a//b", "a/../b", "a/./b", ".."] {
        assert!(
            matches!(validate_relative(bad, PathRole::PortalSource), Err(ConfigError::InvalidPath { role: PathRole::PortalSource, value }) if value == bad),
            "{bad}"
        );
    }
    assert!(matches!(
        reject_brace_expansion("a{b,c}", PathRole::PortalTarget),
        Err(ConfigError::BraceExpansion { role: PathRole::PortalTarget, .. })
    ));
    assert!(reject_brace_expansion("abc", PathRole::PortalTarget).is_ok());
    assert!(is_glob("*.txt"));
    assert!(is_glob("a/[bc]"));
    assert!(!is_glob("plain/path"));
    assert!(contains_wildcard("a?"));
}

#[test]
fn path_helpers() {
    assert_eq!(join_path("/a", "b"), "/a/b");
    assert_eq!(join_path("/a/", "b"), "/a/b");
    assert_eq!(join_path("/a", "/b"), "/b");
    assert_eq!(join_path("", "b"), "b");
    assert_eq!(config_path("/src"), "/src/dotrift.toml");
    assert_eq!(data_path("/src"), "/src/dotrift_data.toml");
    assert_eq!(state_database_path("/st"), "/st/state.sqlite");
    assert_eq!(state_lock_path("/st"), "/st/state.lock");
    assert_eq!(strip_prefix_filter_glob("a/b/*.txt"), "a/b");
    assert_eq!(strip_prefix_filter_glob("**/x"), "");
    assert_eq!(wildcard_prefix("config/**/*.toml"), "config");
}

#[test]
fn portals() {
    let p = check_portal("./config/**/*.toml", "./.config").unwrap();
    assert_eq!(p.key(), "config/**/*.toml");
    assert_eq!(p.value(), ".config");
    assert!(p.is_glob());
    assert!(matches!(check_portal("/abs", "x"), Err(ConfigError::InvalidPath { role: PathRole::PortalSource, .. })));
    assert!(matches!(check_portal("x", "a/../b"), Err(ConfigError::InvalidPath { role: PathRole::PortalTarget, .. })));
    assert!(matches!(check_portal("a{b}", "x"), Err(ConfigError::BraceExpansion { role: PathRole::PortalSource, .. })));
    assert!(matches!(check_portal("x", "*.y"), Err(ConfigError::WildcardTarget { value }) if value == "*.y"));
    assert!(matches!(check_portal("[", "x"), Err(ConfigError::InvalidPattern { pattern }) if pattern == "["));
    let lit = check_portal("file1", ".").unwrap();
    assert!(matches!(literal_file_target(&lit), Err(ConfigError::LiteralFileAtRoot { key }) if key == "file1"));
    let lit = check_portal("file1", ".file1").unwrap();
    assert_eq!(literal_file_target(&lit).unwrap(), ".file1");
    let dir = check_portal("dir", ".").unwrap();
    assert_eq!(directory_entry_target(&dir, "sub/f"), "sub/f");
    let dir = check_portal("dir", "out").unwrap();
    assert_eq!(directory_entry_target(&dir, "sub/f"), "out/sub/f");
    let g = check_portal("config/**/*.toml", ".config").unwrap();
    assert_eq!(glob_entry_target(&g, "config/a/b.toml").as_deref(), Some(".config/a/b.toml"));
    assert_eq!(glob_entry_target(&g, "other/b.toml"), None);
    let g = check_portal("*.txt", ".").unwrap();
    assert_eq!(glob_entry_target(&g, "a.txt").as_deref(), Some("a.txt"));
    assert_eq!(glob_entry_target(&g, "d/a.txt"), None);
}

#[test]
fn rules_decorate_entries() {
    assert_eq!(
        RuleConfig::new(Some(DeployType::Symlink), Some(DeployMode(0o600))),
        Err(RuleConfigError::ModeWithSymlink)
    );
    let copy = RuleConfig::new(Some(DeployType::Copy), None).unwrap();
    let secret = RuleConfig::new(None, Some(DeployMode(0o600))).unwrap();
    let rules = compile_rules(&[("./.config/**".to_string(), copy), (".config/secrets/**".to_string(), secret)]).unwrap();
    assert_eq!(rules[0].pattern, ".config/**");
    let (e, dropped) = apply_rules(&resolved("/s/k", ".config/secrets/k"), &rules, "/home/u");
    assert_eq!(e.target_path, "/home/u/.config/secrets/k");
    assert_eq!(e.source_path, "/s/k");
    assert_eq!(e.deploy_type, DeployType::Copy);
    assert_eq!(e.mode, Some(DeployMode(0o600)));
    assert!(!dropped);
    let (e, dropped) = apply_rules(&resolved("/s/f", "file1"), &rules, "/home/u");
    assert_eq!(e.deploy_type, DeployType::Symlink);
    assert_eq!(e.mode, None);
    assert!(!dropped);
    let only_mode = compile_rules(&[("*".to_string(), secret)]).unwrap();
    let (e, dropped) = apply_rules(&resolved("/s/f", "file1"), &only_mode, "/t");
    assert_eq!(e.deploy_type, DeployType::Symlink);
    assert_eq!(e.mode, None);
    assert!(dropped);
    assert!(matches!(compile_rules(&[("[".to_string(), copy)]), Err(ConfigError::InvalidPattern { .. })));
    assert!(matches!(compile_rules(&[("/x".to_string(), copy)]), Err(ConfigError::InvalidPath { role: PathRole::Rule, .. })));
}

#[test]
fn targets_must_be_disjoint() {
    assert!(validate_targets(&[resolved("/s/a", "a"), resolved("/s/b", "b")]).is_ok());
    assert!(matches!(
        validate_targets(&[resolved("/s/a", "x"), resolved("/s/b", "x")]),
        Err(ConfigError::Collision { target, existing, source }) if target == "x" && existing == "/s/a" && source == "/s/b"
    ));
    assert!(matches!(
        validate_targets(&[resolved("/s/a", "d"), resolved("/s/b", "d/f")]),
        Err(ConfigError::StructuralConflict { first, second }) if first == "d" && second == "d/f"
    ));
    assert!(matches!(
        validate_targets(&[resolved("/s/b", "d/f"), resolved("/s/a", "d")]),
        Err(ConfigError::StructuralConflict { first, second }) if first == "d" && second == "d/f/"
    ));
    assert!(matches!(
        validate_targets(&[resolved("/s/a", "x/y/z"), resolved("/s/b", "x/y")]),
        Err(ConfigError::StructuralConflict { first, second }) if first == "x/y" && second == "x/y/z/"
    ));
    assert!(validate_targets(&[resolved("a", "deep/a/b/c"), resolved("b", "deep/d/e")]).is_ok());
    assert!(paths_overlap("/a/b", "/a/b/c"));
    assert!(paths_overlap("/a/b", "/a/b"));
    assert!(!paths_overlap("/a/b", "/a/bc"));
    assert!(!paths_overlap("/a/b/c", "/a/b"));
}

#[test]
fn desired_entries_drop_ignored_and_warn() {
    let mode = RuleConfig::new(None, Some(DeployMode(0o644))).unwrap();
    let rules = compile_rules(&[("a".to_string(), mode)]).unwrap();
    let portals = [resolved("/s/a", "a"), resolved("/s/b", "b"), resolved("/s/c", "a")];
    let (entries, warnings) = desired_entries(&portals, &[false, false, true], &rules, "/t").unwrap();
    assert_eq!(entries.len(), 2);
    assert_eq!(entries[0].target_path, "/t/a");
    assert_eq!(entries[1].target_path, "/t/b");
    assert_eq!(warnings, vec!["a".to_string()]);
    assert!(desired_entries(&portals, &[false, false, false], &rules, "/t").is_err());
}

#[test]
fn choosing_the_target() {
    assert_eq!(choose_target(Some("/o".to_string()), Some("/c".to_string()), Some("/h".to_string())).unwrap(), "/o");
    assert_eq!(choose_target(None, Some("/c".to_string()), Some("/h".to_string())).unwrap(), "/c");
    assert_eq!(choose_target(None, None, Some("/h".to_string())).unwrap(), "/h");
    assert_eq!(choose_target(None, None, None), Err(TargetError::NoHome));
    assert_eq!(choose_target(None, Some("rel".to_string()), None), Err(TargetError::NotAbsolute));
}

#[test]
fn scanning_and_text() {
    let v = chars("ab${x}c}");
    assert_eq!(find_open(&v, 0), 2);
    assert_eq!(find_open(&v, 3), v.len());
    assert_eq!(find_close(&v, 0), 5);
    assert_eq!(find_close(&v, 6), 7);
    assert_eq!(decimal(0), "0");
    assert_eq!(decimal(1234), "1234");
    assert_eq!(int_decimal(-45), "-45");
    assert_eq!(int_decimal(i64::MIN), "-9223372036854775808");
    assert!(trims_to_empty(" \t\n"));
    assert!(!trims_to_empty(" x "));
    let parts = split_chars(&chars("a,,b"), ',');
    assert_eq!(parts, vec![chars("a"), chars(""), chars("b")]);
}

#[test]
fn add_computes_entry_targets() {
    let t = portal_entry_target;
    assert_eq!(t("/s", "/t", "cfg/*.toml", ".config", EntryOrigin::Glob, "/s/cfg/a.toml"), "/t/.config/a.toml");
    assert_eq!(t("/s", "/t", "*.txt", "out", EntryOrigin::Glob, "/s/a.txt"), "/t/out/a.txt");
    assert_eq!(t("/s", "/t", "dir", "out", EntryOrigin::Directory, "/s/dir/sub/f"), "/t/out/sub/f");
    assert_eq!(t("/s", "/t", "./f", "x/./y", EntryOrigin::File, "/s/f"), "/t/x/y");
}

#[test]
fn mode_with_effective_symlink_warns_on_stderr() {
    let copy = RuleConfig::new(Some(DeployType::Copy), Some(DeployMode(0o600))).unwrap();
    let symlink = RuleConfig::new(Some(DeployType::Symlink), None).unwrap();
    let rules = compile_rules(&[("a/*".to_string(), copy), ("a/b".to_string(), symlink)]).unwrap();
    let (entry, dropped) = apply_rules(&resolved("vimrc", "a/b"), &rules, "/tmp/t");
    assert_eq!(entry.deploy_type, DeployType::Symlink);
    assert_eq!(entry.mode, None);
    assert!(dropped);
    assert_eq!(
        format!("{}\n", dotrift::deploy::mode_ignored_warning("a/b")),
        "ignoring `mode` for `a/b`: effective `type` is `symlink`\n"
    );
}

#[test]
fn rule_patterns_that_differ_by_a_leading_dot_slash_share_one_slot() {
    let copy = RuleConfig::new(Some(DeployType::Copy), Some(DeployMode(0o600))).unwrap();
    let template = RuleConfig::new(Some(DeployType::Template), None).unwrap();
    let symlink = RuleConfig::new(Some(DeployType::Symlink), None).unwrap();
    let rules = compile_rules(&[
        ("./a/*".to_string(), copy),
        ("b".to_string(), symlink),
        ("a/*".to_string(), template),
    ])
    .unwrap();
    assert_eq!(rules.len(), 2);
    assert_eq!(rules[0].pattern, "a/*");
    assert_eq!(rules[0].rule, template);
    assert_eq!(rules[1].pattern, "b");
    let (e, _) = apply_rules(&resolved("/s/f", "a/f"), &rules, "/t");
    assert_eq!(e.deploy_type, DeployType::Template);
    assert_eq!(e.mode, None);
}
