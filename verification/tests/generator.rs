use luma::error::ErrorKind;
use luma::generator::{get_file_name, parse_statement, ASTGenerator};
use luma::value::{Environment, Function, Value, Verb};

fn chars(s: &str) -> Vec<char> {
    s.chars().collect()
}

fn load(text: &str) -> Result<Environment, (ErrorKind, String)> {
    let mut generator = ASTGenerator::new(text.to_string(), Environment::new(None));
    match generator.load_function_AST() {
        Ok(()) => Ok(generator.environment),
        Err(e) => Err((e.kind, e.text)),
    }
}

fn function(env: &Environment, name: &str) -> Function {
    match env.search_for_var(name.to_string()) {
        Value::FunctionRef(f) => f,
        other => panic!("{:?}", other),
    }
}

#[test]
fn statement_lines() {
    let s = parse_statement(&chars("x: int = 5;"), &chars("int")).unwrap();
    assert_eq!(s.verb, Verb::Assign);
    assert_eq!(s.nouns, vec!["x", "int", "5"]);
    let s = parse_statement(&chars("flag : bool=if a:int == 1:int;"), &chars("int")).unwrap();
    assert_eq!(s.nouns, vec!["flag", "bool", "if a:int == 1:int"]);
    let s = parse_statement(&chars("top!"), &chars("int")).unwrap();
    assert_eq!(s.verb, Verb::Mark);
    assert_eq!(s.nouns, vec!["top"]);
    let s = parse_statement(&chars("~top if x:int < 3:int?"), &chars("int")).unwrap();
    assert_eq!(s.verb, Verb::Do);
    assert_eq!(s.nouns, vec!["~top", "if x:int < 3:int"]);
    let s = parse_statement(&chars("x"), &chars("str")).unwrap();
    assert_eq!(s.verb, Verb::Return);
    assert_eq!(s.nouns, vec!["x", "str"]);
    let s = parse_statement(&chars("f(1:int)"), &chars("int")).unwrap();
    assert_eq!(s.nouns, vec!["f(1:int)", "int"]);
    for bad in ["x int = 5;", "x: int 5;", "top?", ";"] {
        let e = parse_statement(&chars(bad), &chars("int")).unwrap_err();
        assert_eq!(e.kind, ErrorKind::ParseError);
        assert_eq!(e.text, bad);
    }
}

#[test]
fn function_body_to_function() {
    let (name, value) = ASTGenerator::fn_to_AST(
        "x: int = 1;\n\nloop!\nx\n".to_string(),
        "int".to_string(),
        vec!["a".to_string()],
        "f".to_string(),
    )
    .unwrap();
    assert_eq!(name, "f");
    let expected = "{\"lines\":[{\"verb\":\"Set\",\"nouns\":[\"x\",\"int\",\"1\"]},\
        {\"verb\":\"Mark\",\"nouns\":[\"loop\"]},\
        {\"verb\":\"Return\",\"nouns\":[\"x\",\"int\"]}],\"params\":[\"a\"]}";
    assert_eq!(value.serialize(), expected);
    let e = ASTGenerator::fn_to_AST("x\nbad?\ny: z;\n".to_string(), "int".to_string(), vec![], "f".to_string())
        .unwrap_err();
    assert_eq!((e.kind, e.text), (ErrorKind::ParseError, "bad?".to_string()));
}

#[test]
fn program_with_constants_functions_and_imports() {
    let text = "// a program\n\
        limit: int = 10; // the limit\n\
        name: str =  ann ;\n\
        \n\
        tools/draw.rs!\n\
        C:\\tools\\paint.exe!\n\
        main: int(a, b) {\n\
          x: int = 1; // one\n\
          x\n\
        }\n\
        other: str() {\n\
        }\n\
        last: list  ( p ) {\n\
        p";
    let env = load(text).unwrap();
    assert_eq!(env.search_for_var("limit".to_string()).serialize(), "10");
    assert_eq!(env.search_for_var("name".to_string()).serialize(), "\"ann\"");
    assert_eq!(env.resolve_import(&"draw".to_string()), Some("tools/draw.rs".to_string()));
    assert_eq!(env.resolve_import(&"paint".to_string()), Some("C:\\tools\\paint.exe".to_string()));
    let main = function(&env, "main");
    assert_eq!(main.params, vec!["a", "b"]);
    assert_eq!(main.lines.len(), 2);
    assert_eq!(main.lines[0].nouns, vec!["x", "int", "1"]);
    assert_eq!(main.lines[1].nouns, vec!["x", "int"]);
    let other = function(&env, "other");
    assert!(other.params.is_empty());
    assert!(other.lines.is_empty());
    let last = function(&env, "last");
    assert_eq!(last.params, vec!["p"]);
    assert_eq!(last.lines.len(), 1);
    assert_eq!(last.lines[0].nouns, vec!["p", "list"]);
}

#[test]
fn lines_that_cannot_be_read() {
    assert_eq!(load("x = 1;").unwrap_err(), (ErrorKind::ParseError, "x = 1;".to_string()));
    assert_eq!(load("x: int 1;").unwrap_err(), (ErrorKind::ParseError, "x: int 1;".to_string()));
    assert_eq!(load("x: int = one;").unwrap_err(), (ErrorKind::TypeError, "one".to_string()));
    assert_eq!(load("what").unwrap_err(), (ErrorKind::ParseError, "what".to_string()));
    assert_eq!(load("f int() {\n}").unwrap_err(), (ErrorKind::ParseError, "f int() {".to_string()));
    assert_eq!(load("f: int {\n}").unwrap_err(), (ErrorKind::ParseError, "f: int {".to_string()));
    assert_eq!(load("f: int() {\nx y?\nz?\n}").unwrap_err(), (ErrorKind::ParseError, "z?".to_string()));
    assert_eq!(load("dir/!").unwrap_err(), (ErrorKind::ParseError, "dir/!".to_string()));
    assert!(load("").unwrap().vars.is_empty());
    assert!(load("  \n// only a comment\n").unwrap().vars.is_empty());
}

#[test]
fn file_names_without_extension() {
    assert_eq!(get_file_name("a/b/c.rs"), Some("c".to_string()));
    assert_eq!(get_file_name("c.tar.gz"), Some("c.tar".to_string()));
    assert_eq!(get_file_name("plain"), Some("plain".to_string()));
    assert_eq!(get_file_name(".hidden"), Some(".hidden".to_string()));
    assert_eq!(get_file_name("dir/.hidden.txt"), Some(".hidden".to_string()));
    assert_eq!(get_file_name("C:\\Users\\me\\plan.luma"), Some("plan".to_string()));
    assert_eq!(get_file_name("a/b/"), None);
    assert_eq!(get_file_name(""), None);
    assert_eq!(get_file_name("end."), Some("end".to_string()));
}
