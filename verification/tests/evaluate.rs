use luma::error::{ErrorKind, Halt, Reply};
use luma::evaluator::{evaluate, Limits};
use luma::generator::ASTGenerator;
use luma::value::{Environment, Value};

const LIMITS: Limits = Limits { depth: 8, steps: 1000 };

fn none() -> Vec<Reply> {
    Vec::new()
}

fn value(text: &str, kind: &str) -> Value {
    evaluate(text, kind, None, &none(), LIMITS).expect("a value")
}

fn failure(r: Result<Value, Halt>) -> (ErrorKind, String, Option<usize>) {
    match r {
        Err(Halt::Failed(e)) => (e.kind, e.text, e.index),
        other => panic!("no failure: {:?}", other),
    }
}

fn program(text: &str) -> Environment {
    let mut generator = ASTGenerator::new(text.to_string(), Environment::new(None));
    generator.load_function_AST().expect("a program");
    generator.environment
}

fn ok(stdout: &str) -> Reply {
    Reply { success: true, stdout: stdout.to_string(), stderr: String::new() }
}

#[test]
fn literals_of_each_type() {
    assert!(matches!(value("42", "int"), Value::Int(42)));
    assert!(matches!(value("-42", "int"), Value::Int(-42)));
    assert_eq!(value("2.50", "float").serialize(), "2.5");
    assert!(matches!(value("true", "bool"), Value::Bool(true)));
    assert!(matches!(value("false", "bool"), Value::Bool(false)));
    assert!(matches!(value("TRUE", "bool"), Value::Undefined));
    assert!(matches!(value("maybe", "bool"), Value::Undefined));
    assert_eq!(value("  hello world ", "str").print_value(), "hello world");
    assert!(matches!(value("anything", "undefined"), Value::Undefined));
    assert!(matches!(value("anything", "none"), Value::Null));
    assert!(matches!(value("anything", "unknown"), Value::Undefined));
    assert!(matches!(value("1", "Int"), Value::Undefined));
    match value("x", "env") {
        Value::EnvironmentRef(e) => {
            assert!(e.vars.is_empty());
            assert!(e.parent.is_none());
            assert!(e.dependencies.is_empty());
        }
        other => panic!("{:?}", other),
    }
}

#[test]
fn malformed_literals_are_type_errors() {
    assert_eq!(failure(evaluate("4x", "int", None, &none(), LIMITS)), (ErrorKind::TypeError, "4x".to_string(), None));
    assert_eq!(failure(evaluate(" 4", "int", None, &none(), LIMITS)).0, ErrorKind::TypeError);
    assert_eq!(failure(evaluate("4.0", "int", None, &none(), LIMITS)).0, ErrorKind::TypeError);
    assert_eq!(failure(evaluate("1.2.3", "float", None, &none(), LIMITS)), (ErrorKind::TypeError, "1.2.3".to_string(), None));
    assert_eq!(failure(evaluate("", "float", None, &none(), LIMITS)).0, ErrorKind::TypeError);
}

#[test]
fn lists_hold_typed_items() {
    assert_eq!(value("1:int, 2:int ,x y:str", "list").serialize(), "[1,2,\"x y\"]");
    assert_eq!(value("", "list").serialize(), "[]");
    assert_eq!(value("   ", "list").serialize(), "[]");
    assert_eq!(value("1:int,2:int:list,3:int", "list").serialize(), "[1,[2],3]");
    assert_eq!(value("a:b:str", "list").serialize(), "[\"a:b\"]");
    assert_eq!(value("if 1:int == 1:int:bool,7:int", "list").serialize(), "[true,7]");
    assert_eq!(
        failure(evaluate("1:int,2", "list", None, &none(), LIMITS)),
        (ErrorKind::ParseError, "2".to_string(), None)
    );
    assert_eq!(failure(evaluate("1:int,,2:int", "list", None, &none(), LIMITS)).0, ErrorKind::ParseError);
    assert_eq!(failure(evaluate("1:int,x:int", "list", None, &none(), LIMITS)).0, ErrorKind::TypeError);
}

#[test]
fn conditions_are_truth_values() {
    assert!(matches!(value("if 1:int < 2:int", "bool"), Value::Bool(true)));
    assert!(matches!(value("if 1:int > 2:int", "bool"), Value::Bool(false)));
    assert!(matches!(value("iffy", "bool"), Value::Undefined));
    assert_eq!(failure(evaluate("if 1", "bool", None, &none(), LIMITS)).0, ErrorKind::ParseError);
}

#[test]
fn variable_comes_before_literal() {
    let mut env = Environment::new(None);
    env.bind("x".to_string(), Value::Int(9));
    env.bind("12".to_string(), Value::Str("twelve".to_string()));
    env.bind("u".to_string(), Value::Undefined);
    let r = evaluate("x", "str", Some(&env), &none(), LIMITS).unwrap();
    assert!(matches!(r, Value::Int(9)));
    let r = evaluate("12", "int", Some(&env), &none(), LIMITS).unwrap();
    assert_eq!(r.print_value(), "twelve");
    let r = evaluate("u", "str", Some(&env), &none(), LIMITS).unwrap();
    assert_eq!(r.print_value(), "u");
    let r = evaluate("y", "str", Some(&env), &none(), LIMITS).unwrap();
    assert_eq!(r.print_value(), "y");
    let r = evaluate(" x", "str", Some(&env), &none(), LIMITS).unwrap();
    assert_eq!(r.print_value(), "x");
}

#[test]
fn call_of_a_function() {
    let env = program("twice: int(a, b) {\nb\n}\nzero: int() {\n7\n}\npick: list(a) {\na\n}\n");
    let r = evaluate("twice(1:int, 2:int)", "int", Some(&env), &none(), LIMITS).unwrap();
    assert!(matches!(r, Value::Int(2)));
    let r = evaluate("mod::twice(1:int,5:int)", "int", Some(&env), &none(), LIMITS).unwrap();
    assert!(matches!(r, Value::Int(5)));
    let r = evaluate("zero()", "int", Some(&env), &none(), LIMITS).unwrap();
    assert!(matches!(r, Value::Int(7)));
    let r = evaluate("zero( )", "int", Some(&env), &none(), LIMITS).unwrap();
    assert!(matches!(r, Value::Int(7)));
    let r = evaluate("pick(2:int:list)", "list", Some(&env), &none(), LIMITS).unwrap();
    assert_eq!(r.serialize(), "[2]");
    let r = evaluate("twice(x:str, [a,b]:str)", "str", Some(&env), &none(), LIMITS).unwrap();
    assert_eq!(r.serialize(), "\"[a,b]\"");
    let r = evaluate("twice(zero():int, twice(3:int,4:int):int)", "int", Some(&env), &none(), LIMITS).unwrap();
    assert!(matches!(r, Value::Int(4)));
}

#[test]
fn callee_sees_the_scope_of_its_caller() {
    let global = program("get: int() {\nhidden\n}\n");
    let mut caller = Environment::new(Some(std::rc::Rc::new(global)));
    caller.bind("hidden".to_string(), Value::Int(31));
    let r = evaluate("get()", "int", Some(&caller), &none(), LIMITS).unwrap();
    assert!(matches!(r, Value::Int(31)));
}

#[test]
fn calls_that_cannot_be_made() {
    let mut env = program("f: int(a) {\na\n}\n");
    env.bind("n".to_string(), Value::Int(1));
    assert_eq!(
        failure(evaluate("g(1:int)", "int", Some(&env), &none(), LIMITS)),
        (ErrorKind::UndefinedReference, "g".to_string(), None)
    );
    assert_eq!(
        failure(evaluate("n(1:int)", "int", Some(&env), &none(), LIMITS)),
        (ErrorKind::NotCallableError, "n".to_string(), None)
    );
    assert_eq!(
        failure(evaluate("f(1:int,2:int)", "int", Some(&env), &none(), LIMITS)),
        (ErrorKind::TypeError, "f(1:int,2:int)".to_string(), None)
    );
    assert_eq!(failure(evaluate("f()", "int", Some(&env), &none(), LIMITS)).0, ErrorKind::TypeError);
    assert_eq!(
        failure(evaluate("f(1)", "int", Some(&env), &none(), LIMITS)),
        (ErrorKind::ParseError, "1".to_string(), None)
    );
    assert_eq!(
        failure(evaluate("f)", "int", Some(&env), &none(), LIMITS)),
        (ErrorKind::ParseError, "f)".to_string(), None)
    );
    assert_eq!(
        failure(evaluate("f(x:int)", "int", Some(&env), &none(), LIMITS)),
        (ErrorKind::TypeError, "x".to_string(), None)
    );
}

#[test]
fn failure_in_a_callee_carries_its_statement() {
    let env = program("bad: int() {\nx: int = 1;\ny: int = oops;\ny\n}\n");
    assert_eq!(
        failure(evaluate("bad()", "int", Some(&env), &none(), LIMITS)),
        (ErrorKind::TypeError, "oops".to_string(), Some(1))
    );
}

#[test]
fn without_a_scope_a_call_is_a_literal() {
    assert_eq!(value("f(1:int)", "str").print_value(), "f(1:int)");
    assert_eq!(failure(evaluate("f(1:int)", "int", None, &none(), LIMITS)).0, ErrorKind::TypeError);
}

#[test]
fn recursion_is_cut_off_at_the_depth() {
    let env = program("down: int() {\ndown()\n}\n");
    let limits = Limits { depth: 5, steps: 10 };
    let (kind, text, index) = failure(evaluate("down()", "int", Some(&env), &none(), limits));
    assert_eq!(kind, ErrorKind::ResourceExhausted);
    assert_eq!(text, "down()");
    assert_eq!(index, Some(0));
    let limits = Limits { depth: 0, steps: 10 };
    assert_eq!(
        failure(evaluate("down()", "int", Some(&env), &none(), limits)),
        (ErrorKind::ResourceExhausted, "down()".to_string(), None)
    );
}

#[test]
fn foreign_call_takes_the_reply() {
    let mut env = Environment::new(None);
    env.import("fn".to_string(), "pkg/fn.rs".to_string());
    let replies = vec![ok("7:int\n")];
    let r = evaluate("#pkg::fn(1:int)", "int", Some(&env), &replies, LIMITS).unwrap();
    assert!(matches!(r, Value::Int(7)));
    let r = evaluate("#fn(1:int)", "int", Some(&env), &replies, LIMITS).unwrap();
    assert!(matches!(r, Value::Int(7)));
    let replies = vec![ok("7:int")];
    let r = evaluate("#pkg::fn(1:int)", "int", Some(&env), &replies, LIMITS).unwrap();
    assert!(matches!(r, Value::Int(7)));
}

#[test]
fn foreign_call_without_a_reply_is_pending() {
    let mut env = Environment::new(None);
    env.import("fn".to_string(), "pkg/fn.rs".to_string());
    env.bind("who".to_string(), Value::Str("ann".to_string()));
    match evaluate("#pkg::fn(1:int, who:str, 2.50:float,a:str,3:int:list)", "int", Some(&env), &none(), LIMITS) {
        Err(Halt::Pending(request)) => {
            assert_eq!(request.path, "pkg/fn.rs");
            assert_eq!(request.args, vec!["1", "\"ann\"", "2.5", "\"a\"", "[3]"]);
        }
        other => panic!("{:?}", other),
    }
    match evaluate("#fn()", "int", Some(&env), &none(), LIMITS) {
        Err(Halt::Pending(request)) => assert!(request.args.is_empty()),
        other => panic!("{:?}", other),
    }
}

#[test]
fn foreign_calls_take_the_replies_in_order() {
    let mut env = Environment::new(None);
    env.import("a".to_string(), "a.rs".to_string());
    env.import("b".to_string(), "b.rs".to_string());
    let text = "#a():int,#b(#a():int):str,#a():int";
    match evaluate(text, "list", Some(&env), &none(), LIMITS) {
        Err(Halt::Pending(request)) => assert_eq!(request.path, "a.rs"),
        other => panic!("{:?}", other),
    }
    let mut replies = vec![ok("1:int")];
    match evaluate(text, "list", Some(&env), &replies, LIMITS) {
        Err(Halt::Pending(request)) => {
            assert_eq!(request.path, "a.rs");
            assert!(request.args.is_empty());
        }
        other => panic!("{:?}", other),
    }
    replies.push(ok("2:int"));
    match evaluate(text, "list", Some(&env), &replies, LIMITS) {
        Err(Halt::Pending(request)) => {
            assert_eq!(request.path, "b.rs");
            assert_eq!(request.args, vec!["2"]);
        }
        other => panic!("{:?}", other),
    }
    replies.push(ok("two:str"));
    replies.push(ok("3:int"));
    let r = evaluate(text, "list", Some(&env), &replies, LIMITS).unwrap();
    assert_eq!(r.serialize(), "[1,\"two\",3]");
}

#[test]
fn foreign_call_of_an_unknown_import() {
    let env = Environment::new(None);
    assert_eq!(
        failure(evaluate("#pkg::fn(1:int)", "int", Some(&env), &none(), LIMITS)),
        (ErrorKind::UndefinedReference, "fn".to_string(), None)
    );
    let mut parent = Environment::new(None);
    parent.import("fn".to_string(), "fn.rs".to_string());
    let child = Environment::new(Some(std::rc::Rc::new(parent)));
    assert_eq!(
        failure(evaluate("#fn()", "int", Some(&child), &none(), LIMITS)).0,
        ErrorKind::UndefinedReference
    );
}

#[test]
fn call_without_the_foreign_mark_is_no_foreign_call() {
    let mut env = Environment::new(None);
    env.import("fn".to_string(), "pkg/fn.rs".to_string());
    let replies = vec![ok("7:int")];
    assert_eq!(
        failure(evaluate("pkg::fn(1:int)", "int", Some(&env), &replies, LIMITS)),
        (ErrorKind::UndefinedReference, "fn".to_string(), None)
    );
}

#[test]
fn failed_program_is_an_external_process_error() {
    let mut env = Environment::new(None);
    env.import("fn".to_string(), "fn.rs".to_string());
    let replies = vec![Reply { success: false, stdout: "7:int".to_string(), stderr: "boom".to_string() }];
    assert_eq!(
        failure(evaluate("#fn()", "int", Some(&env), &replies, LIMITS)),
        (ErrorKind::ExternalProcessError, "boom".to_string(), None)
    );
    for out in ["7", "", "7:int\n8:int", "x:int", "7:number", "1:list"] {
        let replies = vec![ok(out)];
        assert_eq!(
            failure(evaluate("#fn()", "int", Some(&env), &replies, LIMITS)),
            (ErrorKind::ExternalProcessError, out.to_string(), None),
            "{:?}",
            out
        );
    }
}
