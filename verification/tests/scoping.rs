use ego::errors::EgoError;
use ego::scopes::{ScopesStack, Value};

#[test]
fn lookup_finds_innermost_binding() {
    let mut scopes = ScopesStack::new();
    scopes.bind("x", Value::Num(1));
    scopes.push();
    scopes.bind("x", Value::Num(2));
    match scopes.lookup("x") {
        Some(Value::Num(n)) => assert_eq!(n, 2),
        other => panic!("wrong lookup result: {:?}", other),
    }
}

#[test]
fn pop_restores_outer_binding() {
    let mut scopes = ScopesStack::new();
    scopes.bind("x", Value::Num(1));
    scopes.push();
    scopes.bind("x", Value::Num(2));
    scopes.pop().unwrap();
    match scopes.lookup("x") {
        Some(Value::Num(n)) => assert_eq!(n, 1),
        other => panic!("wrong lookup result: {:?}", other),
    }
}

#[test]
fn lookup_of_unbound_name_is_none() {
    let scopes = ScopesStack::new();
    assert!(scopes.lookup("missing").is_none());
}

#[test]
fn popping_the_root_frame_is_refused() {
    let mut scopes = ScopesStack::new();
    let r = scopes.pop();
    assert!(matches!(r, Err(EgoError::ScopeUnderflow)));
    scopes.bind("still", Value::Bool(true));
    assert!(scopes.lookup("still").is_some());
}

#[test]
fn bind_overwrites_in_topmost_frame() {
    let mut scopes = ScopesStack::new();
    scopes.bind("x", Value::Str(String::from("a")));
    scopes.bind("x", Value::Str(String::from("b")));
    match scopes.lookup("x") {
        Some(Value::Str(s)) => assert_eq!(s, "b"),
        other => panic!("wrong lookup result: {:?}", other),
    }
}
