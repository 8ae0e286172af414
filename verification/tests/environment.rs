use luma::value::{Binding, Environment, Import, Value};
use std::rc::Rc;

#[test]
fn lookup_of_an_unbound_name_is_undefined() {
    let env = Environment::new(None);
    assert!(matches!(env.search_for_var("x".to_string()), Value::Undefined));
}

#[test]
fn child_binding_shadows_the_parent() {
    let mut parent = Environment::new(None);
    parent.bind("x".to_string(), Value::Int(1));
    parent.bind("y".to_string(), Value::Int(10));
    let parent = Rc::new(parent);
    {
        let mut child = Environment::new(Some(parent.clone()));
        assert_eq!(child.search_for_var("x".to_string()).serialize(), "1");
        child.bind("x".to_string(), Value::Int(2));
        assert_eq!(child.search_for_var("x".to_string()).serialize(), "2");
        assert_eq!(child.search_for_var("y".to_string()).serialize(), "10");
        assert!(matches!(child.search_for_var("z".to_string()), Value::Undefined));
    }
    assert_eq!(parent.search_for_var("x".to_string()).serialize(), "1");
}

#[test]
fn bind_overwrites_in_place() {
    let mut env = Environment::new(None);
    env.bind("a".to_string(), Value::Int(1));
    env.bind("b".to_string(), Value::Int(2));
    env.bind("a".to_string(), Value::Int(3));
    assert_eq!(env.vars.len(), 2);
    assert_eq!(env.search_for_var("a".to_string()).serialize(), "3");
    assert_eq!(env.search_for_var("b".to_string()).serialize(), "2");
}

#[test]
fn first_of_two_entries_of_one_name_counts() {
    let env = Environment {
        vars: vec![
            Binding { name: "a".to_string(), value: Value::Int(1) },
            Binding { name: "a".to_string(), value: Value::Int(2) },
        ],
        parent: None,
        dependencies: vec![
            Import { alias: "m".to_string(), path: "one.rs".to_string() },
            Import { alias: "m".to_string(), path: "two.rs".to_string() },
        ],
    };
    assert_eq!(env.search_for_var("a".to_string()).serialize(), "1");
    assert_eq!(env.resolve_import(&"m".to_string()), Some("one.rs".to_string()));
}

#[test]
fn imports_are_not_inherited() {
    let mut parent = Environment::new(None);
    parent.import("tool".to_string(), "lib/tool.rs".to_string());
    assert_eq!(parent.resolve_import(&"tool".to_string()), Some("lib/tool.rs".to_string()));
    assert_eq!(parent.resolve_import(&"other".to_string()), None);
    parent.import("tool".to_string(), "lib/tool2.rs".to_string());
    assert_eq!(parent.resolve_import(&"tool".to_string()), Some("lib/tool2.rs".to_string()));
    assert_eq!(parent.dependencies.len(), 1);
    let child = Environment::new(Some(Rc::new(parent)));
    assert_eq!(child.resolve_import(&"tool".to_string()), None);
}

#[test]
fn local_sees_the_scope_itself_only() {
    let mut parent = Environment::new(None);
    parent.bind("x".to_string(), Value::Int(1));
    let mut child = Environment::new(Some(Rc::new(parent)));
    assert!(child.local(&"x".to_string()).is_none());
    child.bind("x".to_string(), Value::Int(5));
    assert_eq!(child.local(&"x".to_string()).unwrap().serialize(), "5");
}

#[test]
fn clone_keeps_bindings_and_imports() {
    let mut env = Environment::new(None);
    env.bind("l".to_string(), Value::List(vec![Value::Int(1), Value::Str("s".to_string())]));
    env.import("m".to_string(), "m.rs".to_string());
    let copy = env.clone();
    assert_eq!(copy.search_for_var("l".to_string()).serialize(), "[1,\"s\"]");
    assert_eq!(copy.resolve_import(&"m".to_string()), Some("m.rs".to_string()));
}
