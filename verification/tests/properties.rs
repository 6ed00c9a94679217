use std::cell::RefCell;

use brace_hook::hook;
use brace_hook::point::HookPoint;
use brace_hook::registry::{Anon, Entry, Record};
use brace_hook::value::{Kind, Value};
use brace_hook::{invoke_all, Error, Registry};

type TagHook = fn() -> &'static str;
type VHook = fn(Vec<Value>) -> Value;

fn tag_a() -> &'static str {
    "a"
}

fn tag_b() -> &'static str {
    "b"
}

fn tag_c() -> &'static str {
    "c"
}

// Weights 300, 0 and 20 with no default dispatch in weight order.
#[test]
fn test_weight_order_scenario() {
    let mut point: HookPoint<TagHook> = HookPoint::new();
    point.insert(tag_a, 300, false);
    point.insert(tag_b, 0, false);
    point.insert(tag_c, 20, false);

    let res = point.invoke(());

    assert_eq!(res, vec!["b", "c", "a"]);
}

// Implementations of equal weight keep their registration order.
#[test]
fn test_equal_weight_stability() {
    let mut point: HookPoint<TagHook> = HookPoint::new();
    point.insert(tag_a, 1, false);
    point.insert(tag_b, 1, false);
    point.insert(tag_c, 0, false);

    let res = point.invoke(());

    assert_eq!(res, vec!["c", "a", "b"]);
}

// A default never runs beside a non-default, wherever it was registered.
#[test]
fn test_default_never_beside_override() {
    let mut point: HookPoint<TagHook> = HookPoint::new();
    point.insert(tag_a, -100, true);
    point.insert(tag_b, 5, false);
    point.insert(tag_c, 0, true);

    let res = point.invoke(());

    assert_eq!(res, vec!["b"]);
}

// With only defaults registered, all of them run, stably ordered.
#[test]
fn test_default_subset_dispatched() {
    let mut point: HookPoint<TagHook> = HookPoint::new();
    point.insert(tag_a, 1, true);
    point.insert(tag_b, 0, true);
    point.insert(tag_c, 1, true);

    let res = point.invoke(());

    assert_eq!(res, vec!["b", "a", "c"]);
}

fn echo(input: &str) -> String {
    format!("default: {}", input)
}

// A point with only an inline default dispatches exactly the default's
// output, for any input.
#[test]
fn test_only_default_scenario() {
    let mut point: HookPoint<fn(&'static str) -> String> = HookPoint::new();
    point.insert(echo, 0, true);

    for input in ["x", "", "hello"] {
        let res = point.invoke((input,));
        assert_eq!(res.len(), 1);
        assert_eq!(res[0], format!("default: {}", input));
    }
}

// A dispatch sequence has a known length and can be consumed from both ends.
#[test]
fn test_dispatch_from_either_end() {
    let mut point: HookPoint<TagHook> = HookPoint::new();
    point.insert(tag_a, 0, false);
    point.insert(tag_b, 1, false);
    point.insert(tag_c, 2, false);

    let mut d = point.with(());

    assert_eq!(d.len(), 3);
    assert_eq!(d.next_back(), Some("c"));
    assert_eq!(d.next(), Some("a"));
    assert_eq!(d.next(), Some("b"));
    assert_eq!(d.len(), 0);
    assert_eq!(d.next(), None);
    assert_eq!(d.next_back(), None);
}

// An empty dispatch is an empty success for every strategy.
#[test]
fn test_empty_dispatch_succeeds() {
    let point: HookPoint<fn() -> Result<i64, String>> = HookPoint::new();

    let mut d = point.with(());
    assert_eq!(hook::invoke(&mut d).len(), 0);

    let mut d = point.with(());
    assert_eq!(hook::try_invoke(&mut d), Ok(Vec::new()));

    let mut d = point.with(());
    assert_eq!(hook::try_exec(&mut d), Ok(()));
}

// The failing implementation's own error comes back unchanged, and nothing
// after it runs; earlier effects are kept.
#[test]
fn test_short_circuit_keeps_earlier_effects() {
    type Step = fn(&RefCell<Vec<&'static str>>) -> Result<(), String>;

    fn step_ok(log: &RefCell<Vec<&'static str>>) -> Result<(), String> {
        log.borrow_mut().push("first");
        Ok(())
    }

    fn step_fail(log: &RefCell<Vec<&'static str>>) -> Result<(), String> {
        log.borrow_mut().push("second");
        Err(String::from("second failed"))
    }

    fn step_late(log: &RefCell<Vec<&'static str>>) -> Result<(), String> {
        log.borrow_mut().push("third");
        Ok(())
    }

    let mut point: HookPoint<Step> = HookPoint::new();
    point.insert(step_ok, 1, false);
    point.insert(step_fail, 2, false);
    point.insert(step_late, 3, false);

    let log: RefCell<Vec<&'static str>> = RefCell::new(Vec::new());

    let mut d = point.with((&log,));
    let res = hook::try_exec(&mut d);

    assert_eq!(res, Err(String::from("second failed")));
    assert_eq!(d.len(), 1);
    assert_eq!(log.into_inner(), vec!["first", "second"]);
}

fn greet_1(args: Vec<Value>) -> Value {
    match &args[0] {
        Value::Str(s) => Value::Str(format!("first: {}", s)),
        _ => Value::Unit,
    }
}

fn greet_2(args: Vec<Value>) -> Value {
    match &args[0] {
        Value::Str(s) => Value::Str(format!("second: {}", s)),
        _ => Value::Unit,
    }
}

fn greet_3(args: Vec<Value>) -> Value {
    match &args[0] {
        Value::Str(s) => Value::Str(format!("third: {}", s)),
        _ => Value::Unit,
    }
}

// Three implementations under one name and shape, registered through both
// channels, all run; registration order is kept within each channel.
#[test]
fn test_hook_key_both_channels() {
    let mut registry: Registry<VHook> = Registry::new();

    registry.insert_record(Record::new("hook", greet_1, vec![Kind::Str], Kind::Str));
    registry.insert_record(Record::new("hook", greet_2, vec![Kind::Str], Kind::Str));
    registry.insert("hook", vec![Kind::Str], Kind::Str, greet_3);

    let args = vec![Value::Str(String::from("hello"))];
    let res = registry.invoke_all("hook", &args, Kind::Str).unwrap();

    assert_eq!(res.len(), 3);
    assert!(res.contains(&Value::Str(String::from("first: hello"))));
    assert!(res.contains(&Value::Str(String::from("second: hello"))));
    assert!(res.contains(&Value::Str(String::from("third: hello"))));

    let first = res
        .iter()
        .position(|v| *v == Value::Str(String::from("first: hello")))
        .unwrap();
    let second = res
        .iter()
        .position(|v| *v == Value::Str(String::from("second: hello")))
        .unwrap();
    assert!(first < second);
}

// The same registrations looked up under a different return shape fail with
// an error, never an empty success.
#[test]
fn test_hook_key_wrong_return_shape() {
    let mut registry: Registry<VHook> = Registry::new();

    registry.insert("hook", vec![Kind::Str], Kind::Str, greet_1);
    registry.insert("hook", vec![Kind::Str], Kind::Str, greet_2);
    registry.insert("hook", vec![Kind::Str], Kind::Str, greet_3);

    let args = vec![Value::Str(String::from("hello"))];
    let res = registry.invoke_all("hook", &args, Kind::Int);

    assert!(res.is_err());
}

// Same argument count but different element kinds is a mismatch.
#[test]
fn test_same_arity_different_kinds_mismatch() {
    let mut registry: Registry<VHook> = Registry::new();

    registry.insert("pair", vec![Kind::Int, Kind::Str], Kind::Str, greet_1);

    let args = vec![
        Value::Str(String::from("a")),
        Value::Str(String::from("b")),
    ];
    let res = registry.invoke_all("pair", &args, Kind::Str);

    assert!(res.is_err());
}

// A lookup against an empty table is an error carrying the lookup's name.
#[test]
fn test_lookup_empty_table() {
    let registry: Registry<VHook> = Registry::new();

    let args = vec![Value::Str(String::from("hello"))];
    let res = invoke_all(&registry, "missing", &args, Kind::Str);

    match res {
        Err(Error::Message(m)) => {
            assert_eq!(m, "No matching hooks found for missing");
        }
        Ok(_) => panic!("lookup of an unregistered name must fail"),
    }
}

// The error constructor and accessor carry the message through unchanged.
#[test]
fn test_error_message_roundtrip() {
    let e = Error::message(String::from("nothing registered"));
    assert_eq!(e.text().as_str(), "nothing registered");
}

// An erased implementation is itself a callable: invoking it forwards to the
// wrapped hook.
#[test]
fn test_anon_is_a_hook() {
    let anon = Anon::new(greet_1 as VHook, vec![Kind::Str], Kind::Str);
    let out = brace_hook::invoke(anon, (vec![Value::Str(String::from("you"))],));
    assert_eq!(out, Value::Str(String::from("first: you")));
}

// A default-constructed entry is empty: dispatching it yields no outputs.
#[test]
fn test_entry_default_is_empty() {
    let entry: Entry<VHook> = Entry::default();
    let args = vec![Value::Str(String::from("x"))];
    assert_eq!(entry.invoke_all(&args, Kind::Str), Vec::new());
}

fn int_answer(_args: Vec<Value>) -> Value {
    Value::Int(41)
}

fn int_answer_2(_args: Vec<Value>) -> Value {
    Value::Int(42)
}

// A standalone entry runs only the implementations whose declared shapes
// equal the requested ones.
#[test]
fn test_entry_filters_by_shape() {
    let mut entry: Entry<VHook> = Entry::new();

    entry.insert(greet_1, vec![Kind::Str], Kind::Str);
    entry.insert(int_answer, vec![Kind::Int], Kind::Int);
    entry.insert_item(Anon::new(int_answer_2, vec![Kind::Int], Kind::Int));

    let args = vec![Value::Int(7)];
    let res = entry.invoke_all(&args, Kind::Int);

    assert_eq!(res, vec![Value::Int(41), Value::Int(42)]);

    let args = vec![Value::Str(String::from("hi"))];
    let res = entry.invoke_all(&args, Kind::Str);

    assert_eq!(res, vec![Value::Str(String::from("first: hi"))]);
}
