use std::cell::RefCell;

use brace_hook::point::HookPoint;

type StrHook = fn(&'static str) -> String;

fn hook_1(input: &str) -> String {
    format!("hook_1: {}", input)
}

fn hook_2(input: &str) -> String {
    format!("hook_2: {}", input)
}

fn hook_3(input: &str) -> String {
    format!("hook_3: {}", input)
}

#[test]
fn test_hook_registration() {
    let mut my_hook: HookPoint<StrHook> = HookPoint::new();
    my_hook.insert(hook_1, 0, false);
    my_hook.insert(hook_2, 0, false);
    my_hook.insert(hook_3, 0, false);

    let res: Vec<String> = my_hook.invoke(("hello",));

    assert_eq!(res.len(), 3);

    assert!(res.contains(&String::from("hook_1: hello")));
    assert!(res.contains(&String::from("hook_2: hello")));
    assert!(res.contains(&String::from("hook_3: hello")));
}

fn empty_1() {}

#[test]
fn test_hook_without_args() {
    let mut empty: HookPoint<fn()> = HookPoint::new();
    empty.insert(empty_1, 1, false);

    assert_eq!(empty.invoke(()).len(), 1);
}

#[test]
fn test_hook_without_impls() {
    let unused: HookPoint<fn()> = HookPoint::new();

    assert_eq!(unused.invoke(()).len(), 0);
}

fn weighted_a() -> &'static str {
    "a"
}

fn weighted_b() -> &'static str {
    "b"
}

fn weighted_c() -> &'static str {
    "c"
}

fn weighted_d() -> &'static str {
    "d"
}

#[test]
fn test_hook_with_weights() {
    let mut weighted: HookPoint<fn() -> &'static str> = HookPoint::new();
    weighted.insert(weighted_a, 300, false);
    weighted.insert(weighted_b, 0, false);
    weighted.insert(weighted_c, 20, false);
    weighted.insert(weighted_d, -50, false);

    let res: Vec<&'static str> = weighted.invoke(());

    assert_eq!(res.len(), 4);
    assert_eq!(res[0], "d");
    assert_eq!(res[1], "b");
    assert_eq!(res[2], "c");
    assert_eq!(res[3], "a");
}

type MutHook = fn(&RefCell<Vec<&'static str>>);

fn mutate_1(items: &RefCell<Vec<&'static str>>) {
    items.borrow_mut().push("mutate 1");
}

fn mutate_2(items: &RefCell<Vec<&'static str>>) {
    items.borrow_mut().push("mutate 2");
}

fn mutate_3(items: &RefCell<Vec<&'static str>>) {
    items.borrow_mut().push("mutate 3");
}

#[test]
fn test_hook_with_mutations() {
    let mut mutate: HookPoint<MutHook> = HookPoint::new();
    mutate.insert(mutate_1, 1, false);
    mutate.insert(mutate_2, 2, false);
    mutate.insert(mutate_3, 3, false);

    let items: RefCell<Vec<&'static str>> = RefCell::new(Vec::new());

    let res = mutate.invoke((&items,));

    assert_eq!(res.len(), 3);

    let items = items.into_inner();

    assert_eq!(items.len(), 3);

    assert_eq!(items[0], "mutate 1");
    assert_eq!(items[1], "mutate 2");
    assert_eq!(items[2], "mutate 3");
}

type PairHook = fn(&'static str, &'static str) -> String;

fn default_hook(a: &str, b: &str) -> String {
    format!("a: {}, b: {}", a, b)
}

#[test]
fn test_hook_with_default() {
    let mut hook_with_default: HookPoint<PairHook> = HookPoint::new();
    hook_with_default.insert(default_hook, 0, true);

    let res = hook_with_default.invoke(("one", "two"));

    assert_eq!(res.len(), 1);
    assert_eq!(res[0], "a: one, b: two");
}

fn hook_with_default_unused_1(a: &str, b: &str) -> String {
    format!("b: {}, a: {}", b, a)
}

#[test]
fn test_hook_with_default_unused() {
    let mut hook_with_default_unused: HookPoint<PairHook> = HookPoint::new();
    hook_with_default_unused.insert(default_hook, 0, true);
    hook_with_default_unused.insert(hook_with_default_unused_1, 0, false);

    let res = hook_with_default_unused.invoke(("one", "two"));

    assert_eq!(res.len(), 1);
    assert_eq!(res[0], "b: two, a: one");
}
