use std::cell::RefCell;

use brace_hook::hook;
use brace_hook::point::HookPoint;

type StrHook = fn(&'static str) -> Result<String, String>;
type MutHook = fn(&RefCell<Vec<&'static str>>) -> Result<(), String>;

fn my_hook_1(input: &str) -> Result<String, String> {
    Ok(format!("my_hook_1: {}", input))
}

fn my_hook_2(input: &str) -> Result<String, String> {
    Ok(format!("my_hook_2: {}", input))
}

#[test]
fn hook_test_invoke() {
    let mut my_hook: HookPoint<StrHook> = HookPoint::new();
    my_hook.insert(my_hook_1, 1, false);
    my_hook.insert(my_hook_2, 2, false);

    let mut d = my_hook.with(("hello",));
    let res = hook::invoke(&mut d);

    assert_eq!(res.len(), 2);
    assert_eq!(res[0], Ok(String::from("my_hook_1: hello")));
    assert_eq!(res[1], Ok(String::from("my_hook_2: hello")));
}

#[test]
fn test_try_invoke_ok() {
    let mut my_hook: HookPoint<StrHook> = HookPoint::new();
    my_hook.insert(my_hook_1, 1, false);
    my_hook.insert(my_hook_2, 2, false);

    let mut d = my_hook.with(("hello",));
    let res = hook::try_invoke(&mut d);

    assert!(res.is_ok());

    let res = res.unwrap();

    assert_eq!(res.len(), 2);
    assert_eq!(res[0], String::from("my_hook_1: hello"));
    assert_eq!(res[1], String::from("my_hook_2: hello"));
}

fn my_bad_hook_1(input: &str) -> Result<String, String> {
    Err(format!("my_bad_hook_1: {}", input))
}

fn my_bad_hook_2(input: &str) -> Result<String, String> {
    Ok(format!("my_bad_hook_2: {}", input))
}

#[test]
fn test_try_invoke_err() {
    let mut my_bad_hook: HookPoint<StrHook> = HookPoint::new();
    my_bad_hook.insert(my_bad_hook_1, 1, false);
    my_bad_hook.insert(my_bad_hook_2, 2, false);

    let mut d = my_bad_hook.with(("hello",));
    let res = hook::try_invoke(&mut d);

    assert!(res.is_err());
    assert_eq!(res, Err(String::from("my_bad_hook_1: hello")));
}

fn my_mut_hook_1(output: &RefCell<Vec<&'static str>>) -> Result<(), String> {
    output.borrow_mut().push("my_mut_hook_1");
    Ok(())
}

fn my_mut_hook_2(output: &RefCell<Vec<&'static str>>) -> Result<(), String> {
    output.borrow_mut().push("my_mut_hook_2");
    Ok(())
}

#[test]
fn test_exec() {
    let mut my_mut_hook: HookPoint<MutHook> = HookPoint::new();
    my_mut_hook.insert(my_mut_hook_1, 1, false);
    my_mut_hook.insert(my_mut_hook_2, 2, false);

    let items: RefCell<Vec<&'static str>> = RefCell::new(Vec::new());

    let mut d = my_mut_hook.with((&items,));
    hook::exec(&mut d);

    let items = items.into_inner();

    assert_eq!(items.len(), 2);
    assert_eq!(items[0], "my_mut_hook_1");
    assert_eq!(items[1], "my_mut_hook_2");
}

#[test]
fn test_try_exec_ok() {
    let mut my_mut_hook: HookPoint<MutHook> = HookPoint::new();
    my_mut_hook.insert(my_mut_hook_1, 1, false);
    my_mut_hook.insert(my_mut_hook_2, 2, false);

    let items: RefCell<Vec<&'static str>> = RefCell::new(Vec::new());

    let mut d = my_mut_hook.with((&items,));
    let res = hook::try_exec(&mut d);

    assert!(res.is_ok());

    let items = items.into_inner();

    assert_eq!(items.len(), 2);
    assert_eq!(items[0], "my_mut_hook_1");
    assert_eq!(items[1], "my_mut_hook_2");
}

fn my_bad_mut_hook_1(output: &RefCell<Vec<&'static str>>) -> Result<(), String> {
    output.borrow_mut().push("my_bad_mut_hook_1");
    Err(String::from("my_bad_mut_hook_1"))
}

fn my_bad_mut_hook_2(output: &RefCell<Vec<&'static str>>) -> Result<(), String> {
    output.borrow_mut().push("my_bad_mut_hook_2");
    Ok(())
}

#[test]
fn test_try_exec_err() {
    let mut my_bad_mut_hook: HookPoint<MutHook> = HookPoint::new();
    my_bad_mut_hook.insert(my_bad_mut_hook_1, 1, false);
    my_bad_mut_hook.insert(my_bad_mut_hook_2, 2, false);

    let items: RefCell<Vec<&'static str>> = RefCell::new(Vec::new());

    let mut d = my_bad_mut_hook.with((&items,));
    let res = hook::try_exec(&mut d);

    assert!(res.is_err());
    assert_eq!(res, Err(String::from("my_bad_mut_hook_1")));

    let items = items.into_inner();

    assert_eq!(items.len(), 1);
    assert_eq!(items[0], "my_bad_mut_hook_1");
}
