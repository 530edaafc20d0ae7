use dotrift::builtins::values_equal;
use dotrift::data::{DataError, DataFile};
use dotrift::value::Value;

fn s(x: &str) -> Value {
    Value::Str(x.to_string())
}

fn table(pairs: Vec<(&str, Value)>) -> Vec<(String, Value)> {
    pairs.into_iter().map(|(k, v)| (k.to_string(), v)).collect()
}

fn get<'a>(context: &'a [(String, Value)], key: &str) -> Option<&'a Value> {
    context.iter().find(|(k, _)| k == key).map(|(_, v)| v)
}

fn same(context: &[(String, Value)], expected: &[(String, Value)]) -> bool {
    context.len() == expected.len()
        && expected.iter().all(|(k, v)| get(context, k).map_or(false, |w| values_equal(v, w)))
}

fn active(list: &[(&str, i64)]) -> Vec<(String, i64)> {
    list.iter().map(|(n, p)| (n.to_string(), *p)).collect()
}

#[test]
fn context_starts_from_variables_without_active_profiles() {
    let data = DataFile::from_tables(table(vec![("name", s("dotrift"))]), vec![]).unwrap();
    assert!(same(&data.context(&[]), &table(vec![("name", s("dotrift"))])));
}

#[test]
fn context_applies_profiles_in_priority_then_name_order() {
    let data = DataFile::from_tables(
        table(vec![("a", Value::Int(1))]),
        vec![
            ("work".to_string(), table(vec![("a", Value::Int(2)), ("zone", s("work"))])),
            ("home".to_string(), table(vec![("a", Value::Int(3)), ("zone", s("home"))])),
        ],
    )
    .unwrap();
    let context = data.context(&active(&[("work", 1), ("home", 2)]));
    assert!(values_equal(get(&context, "a").unwrap(), &Value::Int(3)));
    assert!(values_equal(get(&context, "zone").unwrap(), &s("home")));
}

#[test]
fn context_tie_breaks_equal_priority_by_name() {
    let data = DataFile::from_tables(
        vec![],
        vec![
            ("work".to_string(), table(vec![("zone", s("work"))])),
            ("home".to_string(), table(vec![("zone", s("home"))])),
        ],
    )
    .unwrap();
    let context = data.context(&active(&[("work", 1), ("home", 1)]));
    assert!(values_equal(get(&context, "zone").unwrap(), &s("work")));
}

#[test]
fn context_ignores_active_profiles_without_definition() {
    let data = DataFile::from_tables(table(vec![("a", Value::Int(1))]), vec![]).unwrap();
    let context = data.context(&active(&[("gone", 1)]));
    assert!(same(&context, &table(vec![("a", Value::Int(1))])));
}

#[test]
fn context_without_active_profiles_contains_only_variables() {
    let data = DataFile::from_tables(table(vec![("str", s("str"))]), vec![]).unwrap();
    assert!(same(&data.context(&[]), &table(vec![("str", s("str"))])));
}

#[test]
fn context_prefers_higher_priority_profile() {
    let data = DataFile::from_tables(
        table(vec![("a", Value::Int(1))]),
        vec![
            ("profile2".to_string(), table(vec![("a", Value::Int(2))])),
            ("profile1".to_string(), table(vec![("a", Value::Int(4)), ("num", Value::Int(1))])),
        ],
    )
    .unwrap();
    let context = data.context(&active(&[("profile2", 1), ("profile1", 2)]));
    assert!(values_equal(get(&context, "a").unwrap(), &Value::Int(4)));
    assert!(values_equal(get(&context, "num").unwrap(), &Value::Int(1)));
}

#[test]
fn context_tie_breaks_equal_priority_profiles_by_name() {
    let data = DataFile::from_tables(
        vec![],
        vec![
            ("profile2".to_string(), table(vec![("num", Value::Int(2))])),
            ("profile1".to_string(), table(vec![("num", Value::Int(1))])),
        ],
    )
    .unwrap();
    let context = data.context(&active(&[("profile2", 1), ("profile1", 1)]));
    assert!(values_equal(get(&context, "num").unwrap(), &Value::Int(2)));
}

#[test]
fn context_ignores_undefined_active_profiles() {
    let data = DataFile::from_tables(table(vec![("a", Value::Int(1))]), vec![]).unwrap();
    let context = data.context(&active(&[("profile3", 1)]));
    assert!(same(&context, &table(vec![("a", Value::Int(1))])));
}

#[test]
fn empty_data_file_has_an_empty_context() {
    let data = DataFile::empty();
    assert!(data.context(&active(&[("p", 1)])).is_empty());
    assert!(data.variable().is_empty());
    assert!(data.profile().is_empty());
}

#[test]
fn from_tables_refuses_bad_tables() {
    assert!(matches!(
        DataFile::from_tables(table(vec![("", Value::Int(1))]), vec![]),
        Err(DataError::EmptyKey { table }) if table == "[variable]"
    ));
    assert!(matches!(
        DataFile::from_tables(vec![], vec![("".to_string(), vec![])]),
        Err(DataError::EmptyProfileName)
    ));
    assert!(matches!(
        DataFile::from_tables(vec![], vec![("p".to_string(), table(vec![("", Value::Int(1))]))]),
        Err(DataError::EmptyKey { table }) if table == "[profile.p]"
    ));
    assert!(matches!(
        DataFile::from_tables(table(vec![("a", Value::Int(1)), ("a", Value::Int(2))]), vec![]),
        Err(DataError::DuplicateKey { key }) if key == "a"
    ));
    assert!(matches!(
        DataFile::from_tables(vec![], vec![("p".to_string(), vec![]), ("p".to_string(), vec![])]),
        Err(DataError::DuplicateProfile { name }) if name == "p"
    ));
}

#[test]
fn profile_listing_marks_active_profiles() {
    let data = DataFile::from_tables(
        vec![],
        vec![
            ("home".to_string(), table(vec![("a", Value::Int(1))])),
            ("work".to_string(), table(vec![("a", Value::Int(2))])),
        ],
    )
    .unwrap();
    assert_eq!(
        data.profile_listing(&active(&[("work", 5), ("ghost", 1)])),
        vec![("home".to_string(), false), ("work".to_string(), true)]
    );
    assert_eq!(
        data.profile_listing(&[]),
        vec![("home".to_string(), false), ("work".to_string(), false)]
    );
    assert!(data.defines_profile("home"));
    assert!(!data.defines_profile("ghost"));
    assert!(!DataFile::empty().defines_profile("home"));
}
