use dotrift::builtins::{call_would_overflow, is_truthy, values_equal, BuiltinFunctions, FuncError, HostInfo};
use dotrift::value::Value;

fn s(x: &str) -> Value {
    Value::Str(x.to_string())
}

fn host() -> HostInfo {
    HostInfo {
        os: "linux".to_string(),
        arch: "x86_64".to_string(),
        home: "/home/u".to_string(),
        vars: vec![("EDITOR".to_string(), "vi".to_string())],
    }
}

fn call(name: &str, args: &[Value]) -> Result<Value, FuncError> {
    BuiltinFunctions::new().call(name, args, &host())
}

fn ok(name: &str, args: &[Value]) -> Value {
    call(name, args).unwrap_or_else(|e| panic!("{name}: {e:?}"))
}

fn same(a: &Value, b: &Value) -> bool {
    values_equal(a, b)
}

#[test]
fn host_functions() {
    assert!(same(&ok("env", &[s("EDITOR"), s("nano")]), &s("vi")));
    assert!(same(&ok("env", &[s("PAGER"), s("less")]), &s("less")));
    assert!(same(&ok("home", &[]), &s("/home/u")));
    assert!(same(&ok("os", &[]), &s("linux")));
    assert!(same(&ok("arch", &[]), &s("x86_64")));
    assert!(matches!(
        call("home", &[s("x")]),
        Err(FuncError::WrongArgCount { name, expected, got: 1 }) if name == "home" && expected == "0"
    ));
}

#[test]
fn text_functions() {
    assert!(same(&ok("join", &[s(", "), s("a"), s("b"), s("c")]), &s("a, b, c")));
    assert!(matches!(
        call("join", &[s(",")]),
        Err(FuncError::WrongArgCount { expected, got: 1, .. }) if expected == "2+"
    ));
    assert!(matches!(
        call("join", &[s(","), s("a"), Value::Int(1)]),
        Err(FuncError::TypeMismatch { arg: Some(2), expected, got }) if expected == "String" && got == "Int"
    ));
    assert!(same(&ok("upper", &[s("abc")]), &s("ABC")));
    assert!(same(&ok("lower", &[s("AbC")]), &s("abc")));
    assert!(same(&ok("trim", &[s("  x y \n")]), &s("x y")));
    assert!(same(&ok("replace", &[s("a-b-c"), s("-"), s("+")]), &s("a+b+c")));
    assert!(same(&ok("starts_with", &[s("dotrift"), s("dot")]), &Value::Bool(true)));
    assert!(same(&ok("ends_with", &[s("dotrift"), s("dot")]), &Value::Bool(false)));
    let parts = ok("split", &[s("a,b,,c"), s(",")]);
    assert!(same(&parts, &Value::List(vec![s("a"), s("b"), s(""), s("c")])));
}

#[test]
fn type_mismatch_names_the_offending_type_twice() {
    assert!(matches!(
        call("upper", &[Value::Int(3)]),
        Err(FuncError::TypeMismatch { arg: Some(0), expected, got }) if expected == "Int" && got == "Int"
    ));
}

#[test]
fn arithmetic() {
    assert!(same(&ok("add", &[Value::Int(1), Value::Int(2), Value::Int(3)]), &Value::Int(6)));
    assert!(same(&ok("mul", &[Value::Int(2), Value::Int(-3)]), &Value::Int(-6)));
    assert!(same(&ok("sub", &[Value::Int(2), Value::Int(5)]), &Value::Int(-3)));
    assert!(same(&ok("div", &[Value::Int(-7), Value::Int(2)]), &Value::Int(-3)));
    assert!(same(&ok("div", &[Value::Int(7), Value::Int(-2)]), &Value::Int(-3)));
    assert!(same(&ok("div", &[Value::Int(i64::MIN), Value::Int(1)]), &Value::Int(i64::MIN)));
    assert!(same(&ok("neg", &[Value::Int(4)]), &Value::Int(-4)));
    assert!(matches!(call("div", &[Value::Int(1), Value::Int(0)]), Err(FuncError::Custom(m)) if m == "division by zero"));
    assert!(matches!(
        call("add", &[Value::Int(1), s("2")]),
        Err(FuncError::TypeMismatch { arg: None, expected, got }) if expected == "Int" && got == "String"
    ));
    assert!(same(&ok("gt", &[Value::Int(3), Value::Int(2)]), &Value::Bool(true)));
    assert!(same(&ok("lte", &[Value::Int(3), Value::Int(2)]), &Value::Bool(false)));
}

#[test]
fn overflow_is_detected_before_the_call() {
    let f = BuiltinFunctions::new();
    let h = host();
    assert!(call_would_overflow("add", &[Value::Int(i64::MAX), Value::Int(1)]));
    assert!(f.try_call("add", &[Value::Int(i64::MAX), Value::Int(1)], &h).is_none());
    assert!(call_would_overflow("neg", &[Value::Int(i64::MIN)]));
    assert!(call_would_overflow("div", &[Value::Int(i64::MIN), Value::Int(-1)]));
    assert!(call_would_overflow("mul", &[Value::Int(i64::MAX), Value::Int(2)]));
    assert!(call_would_overflow("sub", &[Value::Int(i64::MIN), Value::Int(1)]));
    assert!(!call_would_overflow("add", &[Value::Int(1), Value::Int(2)]));
    assert!(!call_would_overflow("add", &[Value::Int(i64::MAX), s("x"), Value::Int(1)]));
    assert!(matches!(f.try_call("add", &[Value::Int(1), Value::Int(2)], &h), Some(Ok(Value::Int(3)))));
}

#[test]
fn logic_and_values() {
    assert!(same(&ok("and", &[Value::Bool(true), Value::Bool(false)]), &Value::Bool(false)));
    assert!(same(&ok("or", &[Value::Bool(false), Value::Bool(true)]), &Value::Bool(true)));
    assert!(same(&ok("not", &[Value::Bool(true)]), &Value::Bool(false)));
    assert!(same(&ok("coalesce", &[s(""), Value::Int(0), s("x")]), &s("x")));
    assert!(same(&ok("coalesce", &[s(""), Value::Int(0)]), &Value::Int(0)));
    assert!(same(&ok("eq", &[Value::Int(1), Value::Int(1)]), &Value::Bool(true)));
    assert!(same(&ok("ne", &[Value::Int(1), s("1")]), &Value::Bool(true)));
    assert!(same(&ok("to_str", &[Value::List(vec![Value::Int(1), Value::Bool(true)])]), &s("[1, true]")));
    assert!(same(
        &ok("to_str", &[Value::Table(vec![("a".to_string(), s("x")), ("b".to_string(), Value::Int(2))])]),
        &s("{a: x, b: 2}")
    ));
    assert!(same(&ok("to_int", &[s("-42")]), &Value::Int(-42)));
    assert!(same(&ok("to_int", &[Value::Bool(true)]), &Value::Int(1)));
    assert!(matches!(call("to_int", &[s("4x")]), Err(FuncError::Custom(m)) if m == "cannot convert \"4x\" to Int"));
    assert!(same(&ok("is_truthy", &[Value::List(vec![])]), &Value::Bool(false)));
    assert!(same(&ok("length", &[s("héllo")]), &Value::Int(6)));
    assert!(same(&ok("length", &[Value::List(vec![Value::Int(1)])]), &Value::Int(1)));
    assert!(is_truthy(&Value::Int(-1)));
    assert!(!is_truthy(&s("")));
}

#[test]
fn collections() {
    let list = Value::List(vec![Value::Int(1), s("b")]);
    assert!(same(&ok("contains", &[list.duplicate(), s("b")]), &Value::Bool(true)));
    assert!(same(&ok("contains", &[s("abc"), s("bc")]), &Value::Bool(true)));
    assert!(same(&ok("first", &[list.duplicate()]), &Value::Int(1)));
    assert!(same(&ok("last", &[list.duplicate()]), &s("b")));
    assert!(matches!(call("first", &[Value::List(vec![])]), Err(FuncError::Custom(m)) if m == "first: empty list"));
    let table = Value::Table(vec![("a".to_string(), Value::Int(1)), ("b".to_string(), Value::Int(2))]);
    assert!(same(&ok("keys", &[table.duplicate()]), &Value::List(vec![s("a"), s("b")])));
    assert!(same(&ok("values", &[table.duplicate()]), &Value::List(vec![Value::Int(1), Value::Int(2)])));
    assert!(same(&ok("contains", &[table.duplicate(), s("b")]), &Value::Bool(true)));
    let e = ok("enumerate", &[Value::List(vec![s("x")])]);
    assert!(same(
        &e,
        &Value::List(vec![Value::Table(vec![("index".to_string(), Value::Int(0)), ("value".to_string(), s("x"))])])
    ));
    assert!(matches!(call("nope", &[]), Err(FuncError::Undefined(n)) if n == "nope"));
}
