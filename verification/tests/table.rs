use brace_hook::value::{Kind, Value};
use brace_hook::{invoke, Error, Hook, Registry};

fn my_hook(a: &str, b: &str) -> String {
    format!("my_hook ({}, {})", a, b)
}

#[test]
fn lib_test_invoke() {
    assert_eq!(
        invoke(my_hook, ("hello", "world")),
        String::from("my_hook (hello, world)")
    );
    assert_eq!(
        my_hook.invoke(("hello", "world")),
        String::from("my_hook (hello, world)")
    );
}

type VHook = fn(Vec<Value>) -> Value;

fn my_hook_erased(args: Vec<Value>) -> Value {
    match (&args[0], &args[1]) {
        (Value::Str(a), Value::Str(b)) => Value::Str(format!("my_hook ({}, {})", a, b)),
        _ => Value::Unit,
    }
}

fn my_hook_2_erased(args: Vec<Value>) -> Value {
    match (&args[0], &args[1]) {
        (Value::Str(a), Value::Str(b)) => Value::Str(format!("my_hook_2 ({}, {})", a, b)),
        _ => Value::Unit,
    }
}

#[test]
fn test_invoke_all() {
    let mut registry: Registry<VHook> = Registry::new();

    registry.insert(
        "not_my_hook",
        vec![Kind::Str, Kind::Str],
        Kind::Str,
        my_hook_erased,
    );
    registry.insert(
        "my_hook",
        vec![Kind::Str, Kind::Str],
        Kind::Str,
        my_hook_erased,
    );
    registry.insert(
        "my_hook",
        vec![Kind::Str, Kind::Str],
        Kind::Str,
        my_hook_2_erased,
    );

    let args = vec![
        Value::Str(String::from("hello")),
        Value::Str(String::from("world")),
    ];

    let res: Vec<Value> = registry.invoke_all("my_hook", &args, Kind::Str).unwrap();

    assert_eq!(res.len(), 2);
    assert_eq!(res[0], Value::Str(String::from("my_hook (hello, world)")));
    assert_eq!(res[1], Value::Str(String::from("my_hook_2 (hello, world)")));

    let res: Result<Vec<Value>, Error> = registry.invoke_all("hook_not_exists", &args, Kind::Str);

    assert!(res.is_err());

    let res: Result<Vec<Value>, Error> = registry.invoke_all("my_hook", &args, Kind::Int);

    assert!(res.is_err());

    let args = vec![
        Value::Str(String::from("hello")),
        Value::Str(String::from("world")),
        Value::Str(String::from("!")),
    ];

    let res: Result<Vec<Value>, Error> = registry.invoke_all("my_hook", &args, Kind::Str);

    assert!(res.is_err());
}
