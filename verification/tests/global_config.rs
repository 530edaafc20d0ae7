use dotrift::environment::{
    default_source_dir_from, global_config_path_from, prettify_below, prettify_path, state_dir_from, target_dir_from, EnvError,
    Environment,
};
use dotrift::global::{
    pager_chain, substitute_diff_args, validate_placeholders, ApplySection, DiffArgsError, DiffSection, FileConfig,
    GlobalConfig, PagerCommand, PagerSection, PagerSelection, Placeholder,
};

fn strings(list: &[&str]) -> Vec<String> {
    list.iter().map(|s| s.to_string()).collect()
}

fn config_pager() -> PagerCommand {
    PagerCommand { command: "config-pager".to_string(), args: vec![] }
}

fn picked(sel: PagerSelection) -> String {
    match sel {
        PagerSelection::EnvDotrift(c) => format!("dotrift:{c}"),
        PagerSelection::Config(p) => format!("config:{}", p.command),
        PagerSelection::EnvPager(c) => format!("pager:{c}"),
        PagerSelection::Stdout => "stdout".to_string(),
    }
}

#[test]
fn prefers_dotrift_pager_over_config_and_env() {
    let sel = pager_chain(Some("dotrift-pager".to_string()), None, Some("env-pager".to_string()));
    assert_eq!(picked(sel), "dotrift:dotrift-pager");
}

#[test]
fn prefers_config_over_env_pager() {
    let c = config_pager();
    assert_eq!(picked(pager_chain(None, Some(&c), Some("env-pager".to_string()))), "config:config-pager");
}

#[test]
fn uses_env_pager_when_nothing_else_set() {
    assert_eq!(picked(pager_chain(None, None, Some("env-pager".to_string()))), "pager:env-pager");
}

#[test]
fn blank_dotrift_pager_falls_back_to_config() {
    let c = config_pager();
    assert_eq!(picked(pager_chain(Some("   ".to_string()), Some(&c), None)), "config:config-pager");
}

#[test]
fn skips_empty_strings() {
    assert_eq!(picked(pager_chain(Some("   ".to_string()), None, Some("".to_string()))), "stdout");
}

#[test]
fn falls_back_to_stdout() {
    assert_eq!(picked(pager_chain(None, None, None)), "stdout");
}

#[test]
fn placeholder_names() {
    assert!(matches!(Placeholder::from_name("target"), Some(Placeholder::Target)));
    assert!(matches!(Placeholder::from_name("source-label"), Some(Placeholder::SourceLabel)));
    assert!(Placeholder::from_name("Target").is_none());
}

#[test]
fn validate_placeholders_cases() {
    assert!(validate_placeholders(&strings(&["-u", "${target}", "${source}"])).is_ok());
    assert!(validate_placeholders(&strings(&["--label=${target-label}", "--color"])).is_ok());
    assert!(matches!(
        validate_placeholders(&strings(&["${target"])),
        Err(DiffArgsError::Unterminated { arg }) if arg == "${target"
    ));
    assert!(matches!(
        validate_placeholders(&strings(&["x${nope}y"])),
        Err(DiffArgsError::Unknown { name, arg }) if name == "nope" && arg == "x${nope}y"
    ));
    assert!(matches!(validate_placeholders(&strings(&["${target}"])), Err(DiffArgsError::Unpaired)));
    assert!(matches!(validate_placeholders(&strings(&["${source}", "${source}"])), Err(DiffArgsError::Unpaired)));
}

#[test]
fn substitute_diff_args_cases() {
    let out = substitute_diff_args(&strings(&["-u", "${target}", "${source}"]), "/t/f", "/s/f", "/tmp/r");
    assert_eq!(out, strings(&["-u", "/t/f", "/tmp/r"]));
    let out = substitute_diff_args(&strings(&["--label=${source-label}:${target-label}"]), "/t/f", "/s/f", "/tmp/r");
    assert_eq!(out, strings(&["--label=/s/f:/t/f", "/t/f", "/tmp/r"]));
    let out = substitute_diff_args(&strings(&[]), "/t", "/l", "/s");
    assert_eq!(out, strings(&["/t", "/s"]));
    let out = substitute_diff_args(&strings(&["${source}x${target}"]), "${target}", "/l", "/s");
    assert_eq!(out, strings(&["/sx${target}"]));
}

fn file_config(pager: Option<(&str, &[&str])>, diff: Option<(&str, &[&str])>, replace_identical: bool) -> FileConfig {
    FileConfig {
        pager: pager.map(|(c, a)| PagerSection { command: c.to_string(), args: strings(a) }),
        diff: diff.map(|(c, a)| DiffSection { command: c.to_string(), args: strings(a) }),
        apply: ApplySection { replace_identical },
    }
}

#[test]
fn global_config_from_file() {
    let g = GlobalConfig::from_file(file_config(Some(("less", &["-R"])), Some(("difft", &[])), true)).unwrap();
    assert_eq!(g.pager().unwrap().command, "less");
    assert_eq!(g.pager().unwrap().args, strings(&["-R"]));
    assert_eq!(g.diff().unwrap().command, "difft");
    assert!(g.replace_identical());
    let g = GlobalConfig::from_file(file_config(Some(("  ", &[])), Some((" ", &["${target}"])), false)).unwrap();
    assert!(g.pager().is_none());
    assert!(g.diff().is_none());
    assert!(!g.replace_identical());
    assert!(matches!(
        GlobalConfig::from_file(file_config(None, Some(("diff", &["${target}"])), false)),
        Err(DiffArgsError::Unpaired)
    ));
    let d = GlobalConfig::default();
    assert!(d.pager().is_none() && d.diff().is_none() && !d.replace_identical());
    let p = PagerCommand::from_section(PagerSection { command: "more".to_string(), args: strings(&["-x"]) });
    assert_eq!(p.command, "more");
}

#[test]
fn environment_locations() {
    assert_eq!(state_dir_from(Some("/st".to_string()), Some("/da".to_string())).unwrap(), "/st/dotrift");
    assert_eq!(state_dir_from(None, Some("/da".to_string())).unwrap(), "/da/dotrift");
    assert_eq!(state_dir_from(None, None), Err(EnvError::StateUnset));
    assert_eq!(global_config_path_from(Some("/c".to_string())).unwrap(), "/c/dotrift/config.toml");
    assert_eq!(global_config_path_from(None), Err(EnvError::ConfigHomeUnset));
    assert_eq!(default_source_dir_from(Some("/d".to_string())).unwrap(), "/d/dotfiles");
    assert_eq!(default_source_dir_from(None), Err(EnvError::SourceUnset));
    let env = Environment::test_root("/root1");
    assert_eq!(env.state_dir().unwrap(), "/root1/state");
    assert_eq!(env.registry_dir("/tmp"), "/root1/render-registry/registry");
    assert_eq!(env.global_config_path().unwrap(), "/root1/config-home/dotrift/config.toml");
    let env = Environment::resolve().with_registry_dir("/reg".to_string());
    assert_eq!(env.registry_dir("/tmp"), "/reg");
    assert_eq!(Environment::resolve().registry_dir("/tmp"), "/tmp/dotrift-render/registry");
}

#[test]
fn prettify_below_cases() {
    assert_eq!(prettify_below("/home/u/file1", Some("/home/u")), "~/file1");
    assert_eq!(prettify_below("/home/u/./a/../b", Some("/home/u/")), "~/b");
    assert_eq!(prettify_below("/home/u", Some("/home/u")), "~");
    assert_eq!(prettify_below("/home/user2/x", Some("/home/u")), "/home/user2/x");
    assert_eq!(prettify_below("/a/b", None), "/a/b");
}

#[test]
fn prettify_path_shortens_a_home_relative_path() {
    let home = dirs::home_dir().unwrap();
    let home = prettify_below(home.to_str().unwrap(), None);
    let pretty = prettify_path(&format!("{home}/file1"));
    assert_eq!(pretty, "~/file1");
}

#[test]
fn prettify_path_shortens_the_home_itself_to_a_tilde() {
    let home = dirs::home_dir().unwrap();
    assert_eq!(prettify_path(home.to_str().unwrap()), "~");
}

#[test]
fn prettify_path_keeps_a_path_outside_the_home() {
    let nested = "/nonexistent-root-1/dir1/file1";
    assert_eq!(prettify_path(nested), nested);
}

#[test]
fn paths_normalize_without_the_file_system() {
    assert_eq!(prettify_below("/a/./b/../c", None), "/a/c");
    assert_eq!(prettify_below("/a//b/", None), "/a/b");
    assert_eq!(prettify_below("../x", None), "x");
    assert_eq!(prettify_below("a/..", None), ".");
    assert_eq!(prettify_below("", None), ".");
    assert_eq!(prettify_below("/..", None), "/");
    assert_eq!(prettify_below("/../a", None), "/a");
    assert_eq!(prettify_below("./a/./b", None), "a/b");
    assert_eq!(prettify_below("a/b/../../../c", None), "c");
}

#[test]
fn target_dir_is_the_home_directory() {
    assert_eq!(target_dir_from(Some("/home/u".to_string())), Ok("/home/u".to_string()));
    assert_eq!(target_dir_from(None), Err(EnvError::HomeUnset));
}
