use dotrift::collision::{check_new_entries, compile_portal, portal_matches};
use dotrift::editor_args::{expand_arg, expand_args, ExpandError};
use dotrift::portal_config::{
    annotate_key, annotate_portal_key, apply_config_changes, find_portal_cursor, portal_insertion_point, toml_quote,
    PortalAnalysis,
};
use dotrift::tree::Node;

#[test]
fn expand_arg_cases() {
    assert_eq!(expand_arg("{file}", &[("file", "/path/to/config.toml")]).unwrap(), "/path/to/config.toml");
    assert_eq!(expand_arg("+{row}", &[("row", "42")]).unwrap(), "+42");
    assert_eq!(expand_arg("{col}", &[("col", "10")]).unwrap(), "10");
    assert_eq!(expand_arg("-f", &[]).unwrap(), "-f");
    assert_eq!(expand_arg("{{file}}", &[]).unwrap(), "{file}");
    assert_eq!(expand_arg("}}", &[]).unwrap(), "}");
    assert_eq!(expand_arg("a}b", &[]).unwrap(), "a}b");
    assert!(matches!(expand_arg("{foo}", &[("file", "/f")]), Err(ExpandError::Unknown { name }) if name == "foo"));
    assert!(matches!(expand_arg("{file", &[("file", "/f")]), Err(ExpandError::Unclosed { arg }) if arg == "{file"));
}

#[test]
fn expand_args_cases() {
    let args = vec!["{file}".to_string(), "+{row}".to_string(), "+{col}".to_string()];
    assert_eq!(expand_args(&args, &[("file", "/f"), ("row", "3"), ("col", "5")]).unwrap(), vec!["/f", "+3", "+5"]);
    let args = vec!["vim".to_string(), "+{row}".to_string(), "{file}".to_string()];
    assert_eq!(expand_args(&args, &[("file", "/f"), ("row", "1")]).unwrap(), vec!["vim", "+1", "/f"]);
    let args = vec!["ok".to_string(), "{x}".to_string()];
    assert!(expand_args(&args, &[]).is_err());
}

#[test]
fn find_portal_cursor_cases() {
    assert_eq!(find_portal_cursor(""), (1, 1));
    assert_eq!(find_portal_cursor("[rule]\nk = v\n"), (1, 1));
    assert_eq!(find_portal_cursor("[portal]\n"), (2, 1));
    assert_eq!(find_portal_cursor("[portal]\nk = v\n"), (3, 1));
    assert_eq!(find_portal_cursor("[portal]\na = b\nc = d\n"), (4, 1));
    assert_eq!(find_portal_cursor("[portal]\n# note\na = b\n"), (4, 1));
    assert_eq!(find_portal_cursor("[portal]\n\n\na = b\n"), (5, 1));
    assert_eq!(find_portal_cursor("[portal]\na = b\n\n[rule]\n"), (3, 1));
    assert_eq!(find_portal_cursor("[portal]\n\"a\" = b\n"), (3, 1));
    assert_eq!(find_portal_cursor("[ portal ]\na = b\n"), (3, 1));
}

#[test]
fn quoting() {
    assert_eq!(toml_quote("a\"b\\c"), "\"a\\\"b\\\\c\"");
    assert_eq!(annotate_key("plain"), "\"plain\"");
}

#[test]
fn annotate_portal_key_cases() {
    let mut content = "[portal]\nbare = \"x\"\n\"quoted\" = \"x\"\n".to_string();
    assert!(annotate_portal_key(&mut content, "quoted", "# CONFLICT with \"bare\""));
    assert_eq!(content, "[portal]\nbare = \"x\"\n# CONFLICT with \"bare\"\n\"quoted\" = \"x\"\n");
    assert!(annotate_portal_key(&mut content, "bare", "# note"));
    assert_eq!(content, "[portal]\n# note\nbare = \"x\"\n# CONFLICT with \"bare\"\n\"quoted\" = \"x\"\n");
    let mut other = "[rule]\nbare = 1\n".to_string();
    assert!(!annotate_portal_key(&mut other, "bare", "# x"));
    assert_eq!(other, "[rule]\nbare = 1\n");
    let mut after = "[portal]\na = 1\n[rule]\nb = 2\n".to_string();
    assert!(!annotate_portal_key(&mut after, "b", "# x"));
}

#[test]
fn portal_insertion_point_cases() {
    let c: Vec<char> = "[portal]\na = b\n\n# tail\n".chars().collect();
    assert_eq!(portal_insertion_point(&c), "[portal]\na = b\n".len());
    let c: Vec<char> = "[rule]\n".chars().collect();
    assert_eq!(portal_insertion_point(&c), c.len());
    let c: Vec<char> = "[portal]\na = b\n[rule]\nx = y\n".chars().collect();
    assert_eq!(portal_insertion_point(&c), "[portal]\na = b\n".len());
}

fn analysis(missing: &[(&str, &str, bool)], collisions: &[&[&str]]) -> PortalAnalysis {
    PortalAnalysis {
        missing: missing.iter().map(|(a, b, w)| (a.to_string(), b.to_string(), *w)).collect(),
        collisions: collisions.iter().map(|g| g.iter().map(|k| k.to_string()).collect()).collect(),
    }
}

#[test]
fn apply_config_changes_nothing_to_do() {
    assert_eq!(apply_config_changes("[portal]\n", &analysis(&[], &[]), "/target"), None);
}

#[test]
fn apply_config_changes_missing_key_empty_content_creates_portal() {
    let out = apply_config_changes("", &analysis(&[("file", "file", false)], &[]), "/target").unwrap();
    assert_eq!(out, "[portal]\n\"file\" = \"file\"\n");
}

#[test]
fn apply_config_changes_missing_key_appended_to_existing_portal() {
    let out = apply_config_changes(
        "[portal]\n\"existing\" = \"existing\"\n",
        &analysis(&[("file", "file", false)], &[]),
        "/target",
    )
    .unwrap();
    assert_eq!(out, "[portal]\n\"existing\" = \"existing\"\n\"file\" = \"file\"\n");
}

#[test]
fn apply_config_changes_missing_key_with_warning() {
    let out = apply_config_changes("[portal]", &analysis(&[("file", "/absolute/path", true)], &[]), "/target").unwrap();
    assert_eq!(
        out,
        "[portal]\n# WARNING: /absolute/path is outside target directory /target\n\"file\" = \"/absolute/path\"\n"
    );
}

#[test]
fn apply_config_changes_collision_annotates_existing_keys() {
    let out = apply_config_changes(
        "[portal]\nbare = \"x\"\n\"quoted\" = \"x\"\n",
        &analysis(&[], &[&["bare", "quoted"]]),
        "/target",
    )
    .unwrap();
    assert_eq!(out, "[portal]\n# CONFLICT with \"quoted\"\nbare = \"x\"\n# CONFLICT with \"bare\"\n\"quoted\" = \"x\"\n");
}

#[test]
fn apply_config_changes_collision_annotates_three_way() {
    let out = apply_config_changes(
        "[portal]\n\"a\" = \"x\"\n\"b\" = \"x\"\n\"c\" = \"x\"\n",
        &analysis(&[], &[&["a", "b", "c"]]),
        "/target",
    )
    .unwrap();
    assert_eq!(
        out,
        "[portal]\n# CONFLICT with \"b\", \"c\"\n\"a\" = \"x\"\n# CONFLICT with \"a\", \"c\"\n\"b\" = \"x\"\n# CONFLICT with \"a\", \"b\"\n\"c\" = \"x\"\n"
    );
}

#[test]
fn apply_config_changes_collision_on_auto_add_key() {
    let out = apply_config_changes(
        "[portal]\n\"existing\" = \"x\"\n",
        &analysis(&[("new", "new", false)], &[&["existing", "new"]]),
        "/target",
    )
    .unwrap();
    assert_eq!(out, "[portal]\n# CONFLICT with \"new\"\n\"existing\" = \"x\"\n# CONFLICT with \"existing\"\n\"new\" = \"new\"\n");
}

#[test]
fn apply_config_changes_warn_and_collision_on_auto_add_key() {
    let out = apply_config_changes(
        "[portal]\n\"other\" = \"x\"\n",
        &analysis(&[("key", "/outside/path", true)], &[&["key", "other"]]),
        "/target",
    )
    .unwrap();
    assert_eq!(
        out,
        "[portal]\n# CONFLICT with \"key\"\n\"other\" = \"x\"\n# WARNING: /outside/path is outside target directory /target\n# CONFLICT with \"other\"\n\"key\" = \"/outside/path\"\n"
    );
}

#[test]
fn apply_config_changes_keeps_other_sections_and_comments() {
    let out = apply_config_changes(
        "# prefix\n[portal]\n# suffix\n",
        &analysis(&[("key", "key", false)], &[]),
        "/target",
    )
    .unwrap();
    assert_eq!(out, "# prefix\n[portal]\n\"key\" = \"key\"\n# suffix\n");
    let out = apply_config_changes("[map]\nfoo = \"bar\"", &analysis(&[("key", "key", false)], &[]), "/target").unwrap();
    assert_eq!(out, "[map]\nfoo = \"bar\"\n[portal]\n\"key\" = \"key\"\n");
}

fn sorted(mut v: Vec<String>) -> Vec<String> {
    v.sort();
    v
}

fn collisions_of(tree_paths: &[&str], entries: &[(&str, &str)]) -> Vec<(String, Vec<String>)> {
    let mut tree = Node::new();
    for p in tree_paths {
        tree.check_entry(&format!("/t/{p}"), p.to_string()).unwrap();
    }
    let entries: Vec<(String, String)> = entries.iter().map(|(a, b)| (a.to_string(), b.to_string())).collect();
    let groups = check_new_entries(&mut tree, &entries, "/t");
    let mut result = Vec::new();
    for target in ["/t/x", "/t/y", "/t/dir", "/t/file/a", "/t/file/b"] {
        if let Some(keys) = groups.group(target) {
            result.push((target.to_string(), sorted(keys.clone())));
        }
    }
    assert_eq!(result.len(), groups.len());
    result
}

fn owned(pairs: &[(&str, &[&str])]) -> Vec<(String, Vec<String>)> {
    pairs.iter().map(|(t, ks)| (t.to_string(), ks.iter().map(|k| k.to_string()).collect())).collect()
}

#[test]
fn check_new_entries_cases() {
    assert_eq!(collisions_of(&["x"], &[("x", "a")]), owned(&[("/t/x", &["a", "x"])]));
    assert_eq!(collisions_of(&["x"], &[("x", "a"), ("x", "b")]), owned(&[("/t/x", &["a", "b", "x"])]));
    assert_eq!(collisions_of(&["x"], &[("y", "a")]), owned(&[]));
    assert_eq!(collisions_of(&[], &[("x", "a")]), owned(&[]));
    assert_eq!(collisions_of(&["dir/file"], &[("dir", "a"), ("dir", "b")]), owned(&[("/t/dir", &["a", "b", "dir/file"])]));
    assert_eq!(
        collisions_of(&["file"], &[("file/a", "a"), ("file/b", "b")]),
        owned(&[("/t/file/a", &["a", "file"]), ("/t/file/b", &["b", "file"])])
    );
}

fn keys(list: &[&str]) -> Vec<String> {
    list.iter().map(|k| k.to_string()).collect()
}

#[test]
fn portal_matches_cases() {
    let m = |portal: &[&str], dest: &str| portal_matches(dest, &compile_portal(&keys(portal)));
    assert!(!m(&[], "file"));
    assert!(m(&[""], "file"));
    assert!(m(&["dir/file"], "dir/file"));
    assert!(m(&["dir"], "dir/file"));
    assert!(m(&["a"], "a/b/c"));
    assert!(m(&["a/b"], "a/b/c"));
    assert!(m(&["a/b/c"], "a/b/c"));
    assert!(m(&["*"], "file"));
    assert!(m(&["dir/*"], "dir/file"));
    assert!(m(&["**/file"], "a/b/file"));
    assert!(m(&["file1", "file2"], "file1"));
    assert!(m(&["file1", "file2"], "file2"));
    assert!(!m(&["*.txt"], "file"));
    assert!(!m(&["*.txt"], "file.cfg"));
    assert!(!m(&["file1"], "file2"));
    assert!(!m(&["file"], "file2"));
}

#[test]
fn apply_config_changes_missing_key_preserves_other_sections() {
    let out = apply_config_changes(
        "target-directory = \"/foo\"\n\n[portal]\n",
        &analysis(&[("added", "added", false)], &[]),
        "/target",
    );
    assert_eq!(out.as_deref(), Some("target-directory = \"/foo\"\n\n[portal]\n\"added\" = \"added\"\n"));
}

#[test]
fn apply_config_changes_missing_key_inserted_before_trailing_content() {
    let out = apply_config_changes("[portal]\n\n# suffix\n", &analysis(&[("key", "key", false)], &[]), "/target");
    assert_eq!(out.as_deref(), Some("[portal]\n\"key\" = \"key\"\n\n# suffix\n"));
}
