use luma::error::{ErrorKind, Halt, Reply};
use luma::evaluator::{Advance, Limits};
use luma::generator::ASTGenerator;
use luma::runner::{jump_to, scan_from, ASTRunner};
use luma::value::{Binding, Environment, Function, Statement, Value, Verb};

const LIMITS: Limits = Limits { depth: 8, steps: 1000 };

fn line(verb: Verb, nouns: &[&str]) -> Statement {
    Statement { verb, nouns: nouns.iter().map(|n| n.to_string()).collect() }
}

fn function(lines: Vec<Statement>) -> Function {
    Function { lines, params: vec![] }
}

fn run(lines: Vec<Statement>) -> Result<Value, Halt> {
    let replies: Vec<Reply> = Vec::new();
    ASTRunner::new(function(lines)).run(Environment::new(None), vec![], &replies, LIMITS)
}

fn failure(r: Result<Value, Halt>) -> (ErrorKind, String, Option<usize>) {
    match r {
        Err(Halt::Failed(e)) => (e.kind, e.text, e.index),
        other => panic!("no failure: {:?}", other),
    }
}

fn chars(s: &str) -> Vec<char> {
    s.chars().collect()
}

#[test]
fn set_then_return() {
    let r = run(vec![
        line(Verb::Assign, &["x", "int", "41"]),
        line(Verb::Assign, &["y", "str", "x"]),
        line(Verb::Return, &["y", "int"]),
        line(Verb::Return, &["0", "int"]),
    ]);
    assert!(matches!(r.unwrap(), Value::Int(41)));
}

#[test]
fn run_past_the_end_is_undefined() {
    assert!(matches!(run(vec![]).unwrap(), Value::Undefined));
    assert!(matches!(run(vec![line(Verb::Assign, &["x", "int", "1"])]).unwrap(), Value::Undefined));
}

#[test]
fn parameters_are_bound_in_the_new_scope() {
    let mut parent = Environment::new(None);
    parent.bind("a".to_string(), Value::Int(1));
    parent.bind("b".to_string(), Value::Int(2));
    let f = function(vec![
        line(Verb::Assign, &["sum", "list", "a:int,b:int"]),
        line(Verb::Return, &["sum", "list"]),
    ]);
    let params = vec![Binding { name: "a".to_string(), value: Value::Int(10) }];
    let replies: Vec<Reply> = Vec::new();
    let r = ASTRunner::new(f).run(parent, params, &replies, LIMITS).unwrap();
    assert_eq!(r.serialize(), "[10,2]");
}

#[test]
fn do_with_false_condition_falls_through() {
    let f = function(vec![
        line(Verb::Do, &["~nowhere", "if 1:int == 2:int"]),
        line(Verb::Return, &["1", "int"]),
    ]);
    let runner = ASTRunner::new(f);
    let mut env = Environment::new(None);
    let replies: Vec<Reply> = Vec::new();
    let (r, used) = runner.step(0, &mut env, &replies, LIMITS, 0);
    assert!(matches!(r, Ok(Advance::Next(1))));
    assert_eq!(used, 0);
    assert!(env.vars.is_empty());
    let f = function(vec![line(Verb::Do, &["*gone", "false"]), line(Verb::Return, &["1", "int"])]);
    assert_eq!(failure(ASTRunner::new(f).run(Environment::new(None), vec![], &replies, LIMITS)).0, ErrorKind::ParseError);
    let f = function(vec![line(Verb::Do, &["*gone", "if false:bool == true:bool"]), line(Verb::Return, &["1", "int"])]);
    let r = ASTRunner::new(f).run(Environment::new(None), vec![], &replies, LIMITS).unwrap();
    assert!(matches!(r, Value::Int(1)));
}

#[test]
fn do_to_a_recorded_marker_jumps_to_its_index() {
    let f = function(vec![
        line(Verb::Assign, &["x", "int", "0"]),
        line(Verb::Mark, &["lbl"]),
        line(Verb::Assign, &["x", "int", "1"]),
        line(Verb::Do, &["~lbl", "true"]),
    ]);
    let runner = ASTRunner::new(f);
    let mut env = Environment::new(None);
    let replies: Vec<Reply> = Vec::new();
    assert!(matches!(runner.step(1, &mut env, &replies, LIMITS, 0).0, Ok(Advance::Next(2))));
    assert_eq!(env.search_for_var("lbl".to_string()).serialize(), "1");
    assert!(matches!(runner.step(3, &mut env, &replies, LIMITS, 0).0, Ok(Advance::Next(1))));
}

#[test]
fn do_to_a_missing_or_non_integer_marker_fails() {
    let f = function(vec![line(Verb::Do, &["~lbl", "true"])]);
    let runner = ASTRunner::new(f);
    let replies: Vec<Reply> = Vec::new();
    let mut env = Environment::new(None);
    match runner.step(0, &mut env, &replies, LIMITS, 0).0 {
        Err(Halt::Failed(e)) => {
            assert_eq!(e.kind, ErrorKind::RuntimeError);
            assert_eq!(e.text, "~lbl");
            assert_eq!(e.index, Some(0));
        }
        other => panic!("{:?}", other),
    }
    env.bind("lbl".to_string(), Value::Str("1".to_string()));
    match runner.step(0, &mut env, &replies, LIMITS, 0).0 {
        Err(Halt::Failed(e)) => assert_eq!(e.kind, ErrorKind::RuntimeError),
        other => panic!("{:?}", other),
    }
    // a binding in a scope around the frame does not count
    let mut parent = Environment::new(None);
    parent.bind("lbl".to_string(), Value::Int(0));
    let mut child = Environment::new(Some(std::rc::Rc::new(parent)));
    match runner.step(0, &mut child, &replies, LIMITS, 0).0 {
        Err(Halt::Failed(e)) => assert_eq!(e.kind, ErrorKind::RuntimeError),
        other => panic!("{:?}", other),
    }
}

#[test]
fn marker_recorded_again_takes_the_new_index() {
    let f = function(vec![
        line(Verb::Assign, &["a", "int", "0"]),
        line(Verb::Assign, &["b", "int", "0"]),
        line(Verb::Mark, &["L"]),
        line(Verb::Assign, &["c", "int", "0"]),
        line(Verb::Assign, &["d", "int", "0"]),
        line(Verb::Mark, &["L"]),
        line(Verb::Do, &["~L", "true"]),
    ]);
    let runner = ASTRunner::new(f);
    let mut env = Environment::new(None);
    let replies: Vec<Reply> = Vec::new();
    assert!(matches!(runner.step(2, &mut env, &replies, LIMITS, 0).0, Ok(Advance::Next(3))));
    assert!(matches!(runner.step(6, &mut env, &replies, LIMITS, 0).0, Ok(Advance::Next(2))));
    assert!(matches!(runner.step(5, &mut env, &replies, LIMITS, 0).0, Ok(Advance::Next(6))));
    assert!(matches!(runner.step(6, &mut env, &replies, LIMITS, 0).0, Ok(Advance::Next(5))));
}

#[test]
fn loop_with_markers_terminates() {
    let text = "main: int() {\n\
        i: int = 0;\n\
        top!\n\
        done if i:int == 1:int?\n\
        i: int = 1;\n\
        ~top if true:bool == true:bool?\n\
        done!\n\
        i\n\
        }\n";
    let mut generator = ASTGenerator::new(text.to_string(), Environment::new(None));
    generator.load_function_AST().unwrap();
    let main = match generator.environment.search_for_var("main".to_string()) {
        Value::FunctionRef(f) => f,
        other => panic!("{:?}", other),
    };
    let replies: Vec<Reply> = Vec::new();
    let r = ASTRunner::new(main).run(generator.environment, vec![], &replies, LIMITS).unwrap();
    assert!(matches!(r, Value::Int(1)));
}

#[test]
fn endless_loop_runs_out_of_steps() {
    let f = function(vec![line(Verb::Mark, &["top"]), line(Verb::Do, &["~top", "true"])]);
    let replies: Vec<Reply> = Vec::new();
    let limits = Limits { depth: 1, steps: 25 };
    let r = ASTRunner::new(f).run(Environment::new(None), vec![], &replies, limits);
    assert_eq!(failure(r), (ErrorKind::ResourceExhausted, String::new(), Some(1)));
}

#[test]
fn forward_jump_counts_statements_that_are_no_markers() {
    let lines = vec![
        line(Verb::Do, &["b", "true"]),
        line(Verb::Mark, &["a"]),
        line(Verb::Assign, &["x", "int", "1"]),
        line(Verb::Mark, &["b"]),
        line(Verb::Return, &["x", "int"]),
    ];
    let env = Environment::new(None);
    assert_eq!(scan_from(&lines, 0, &chars("b")), Some(2));
    assert_eq!(scan_from(&lines, 0, &chars("a")), Some(1));
    assert_eq!(scan_from(&lines, 2, &chars("b")), Some(1));
    assert_eq!(scan_from(&lines, 2, &chars("a")), None);
    assert_eq!(scan_from(&lines, 5, &chars("a")), None);
    assert_eq!(jump_to(&lines, 0, &env, &chars("b")), Ok(2));
    assert_eq!(jump_to(&lines, 2, &env, &chars("b")), Ok(3));
    assert_eq!(jump_to(&lines, 0, &env, &chars("zzz")), Err(ErrorKind::UndefinedReference));
    assert!(matches!(run(lines).unwrap(), Value::Int(1)));
}

#[test]
fn starred_jump_scans_from_the_start_and_adds_to_the_index() {
    let lines = vec![
        line(Verb::Assign, &["x", "int", "1"]),
        line(Verb::Mark, &["*m"]),
        line(Verb::Assign, &["x", "int", "2"]),
        line(Verb::Do, &["*m", "true"]),
        line(Verb::Return, &["x", "int"]),
        line(Verb::Return, &["9", "int"]),
    ];
    let env = Environment::new(None);
    // one statement that is no marker stands before the marker: from 3 the jump leads to 4
    assert_eq!(jump_to(&lines, 3, &env, &chars("*m")), Ok(4));
    assert_eq!(jump_to(&lines, 0, &env, &chars("*m")), Ok(1));
    assert_eq!(jump_to(&lines, 3, &env, &chars("*none")), Err(ErrorKind::UndefinedReference));
    assert!(matches!(run(lines).unwrap(), Value::Int(2)));
}

#[test]
fn jump_beyond_the_end_ends_the_run() {
    let lines = vec![
        line(Verb::Assign, &["far", "int", "100"]),
        line(Verb::Assign, &["back", "int", "-1"]),
        line(Verb::Do, &["~far", "true"]),
        line(Verb::Return, &["1", "int"]),
    ];
    let mut env = Environment::new(None);
    env.bind("far".to_string(), Value::Int(100));
    env.bind("back".to_string(), Value::Int(-1));
    env.bind("last".to_string(), Value::Int(4));
    env.bind("in".to_string(), Value::Int(3));
    assert_eq!(jump_to(&lines, 2, &env, &chars("~far")), Ok(4));
    assert_eq!(jump_to(&lines, 2, &env, &chars("~back")), Ok(4));
    assert_eq!(jump_to(&lines, 2, &env, &chars("~last")), Ok(4));
    assert_eq!(jump_to(&lines, 2, &env, &chars("~in")), Ok(3));
    assert!(matches!(run(lines).unwrap(), Value::Undefined));
}

#[test]
fn statements_with_too_few_nouns_are_parse_errors() {
    for (verb, nouns) in [
        (Verb::Assign, vec!["x", "int"]),
        (Verb::Return, vec!["x"]),
        (Verb::Mark, vec![]),
        (Verb::Do, vec!["x"]),
    ] {
        let r = run(vec![line(Verb::Mark, &["first"]), line(verb, &nouns)]);
        assert_eq!(failure(r), (ErrorKind::ParseError, String::new(), Some(1)));
    }
}

#[test]
fn failure_carries_the_index_of_its_statement() {
    let r = run(vec![
        line(Verb::Assign, &["x", "int", "1"]),
        line(Verb::Assign, &["y", "int", "one"]),
    ]);
    assert_eq!(failure(r), (ErrorKind::TypeError, "one".to_string(), Some(1)));
    let r = run(vec![line(Verb::Return, &["1:int,2", "list"])]);
    assert_eq!(failure(r), (ErrorKind::ParseError, "2".to_string(), Some(0)));
}

#[test]
fn pending_call_in_a_statement() {
    let f = function(vec![
        line(Verb::Assign, &["x", "int", "#tool(1:int)"]),
        line(Verb::Assign, &["y", "int", "#tool(x:int)"]),
        line(Verb::Return, &["x:int,y:int", "list"]),
    ]);
    let runner = ASTRunner::new(f);
    let mut env = Environment::new(None);
    env.import("tool".to_string(), "tool.rs".to_string());
    let mut replies: Vec<Reply> = Vec::new();
    // the frame of a function imports nothing: the call is made through `step` in a
    // scope that holds the import
    match runner.step(0, &mut env, &replies, LIMITS, 0) {
        (Err(Halt::Pending(request)), 0) => {
            assert_eq!(request.path, "tool.rs");
            assert_eq!(request.args, vec!["1"]);
        }
        other => panic!("{:?}", other),
    }
    replies.push(Reply { success: true, stdout: "5:int".to_string(), stderr: String::new() });
    assert!(matches!(runner.step(0, &mut env, &replies, LIMITS, 0), (Ok(Advance::Next(1)), 1)));
    match runner.step(1, &mut env, &replies, LIMITS, 1) {
        (Err(Halt::Pending(request)), 1) => assert_eq!(request.args, vec!["5"]),
        other => panic!("{:?}", other),
    }
    replies.push(Reply { success: true, stdout: "6:int".to_string(), stderr: String::new() });
    assert!(matches!(runner.step(1, &mut env, &replies, LIMITS, 1), (Ok(Advance::Next(2)), 2)));
    match runner.step(2, &mut env, &replies, LIMITS, 2) {
        (Ok(Advance::Finished(v)), 2) => assert_eq!(v.serialize(), "[5,6]"),
        other => panic!("{:?}", other),
    }
    // in the frame of a run nothing is imported
    let r = runner.run(env, vec![], &replies, LIMITS);
    assert_eq!(failure(r), (ErrorKind::UndefinedReference, "tool".to_string(), Some(0)));
}
