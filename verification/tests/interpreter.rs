use luma::executer::interpreter::{cast_to_type, Interpreter};
use luma::float::Float;
use luma::parser_core::cast::CastTo;
use luma::parser_core::lexer::Lexer;
use luma::parser_core::parser::Parser;
use luma::parser_core::tokenized::Verb;
use luma::parser_core::value::Value;

fn float(text: &str) -> Float {
    let chars: Vec<char> = text.chars().collect();
    Float::parse(&chars).unwrap()
}

fn shown(v: &Value) -> String {
    match v {
        Value::Int(n) => format!("int {}", n),
        Value::Str(s) => format!("str {}", s),
        Value::Char(c) => format!("char {}", c),
        Value::Float(f) => format!("float {}", f.render().into_iter().collect::<String>()),
        Value::VarName(s) => format!("var {}", s),
        Value::Undefined => "undefined".to_string(),
    }
}

fn interpreter(text: &str) -> Interpreter {
    let mut lexer = Lexer::new(text.to_string());
    lexer.run();
    Interpreter::new(Parser::new(lexer).run())
}

fn result(text: &str) -> String {
    let answers: Vec<Float> = Vec::new();
    match interpreter(text).run(&answers) {
        Ok(v) => shown(&v),
        Err(m) => panic!("{:?}", m),
    }
}

#[test]
fn arithmetic_on_integers() {
    assert_eq!(result("1 + 2"), "int 3");
    assert_eq!(result("1 + 2 * 3"), "int 9");
    assert_eq!(result("7 / 2"), "int 3");
    assert_eq!(result("0 - 7 / 2"), "int -3");
    assert_eq!(result("2 - 5"), "int -3");
    assert_eq!(result("2147483647 + 1"), "undefined");
    assert_eq!(result("65536 * 65536"), "undefined");
    assert_eq!(result("1 / 0"), "undefined");
    assert_eq!(result("5"), "int 5");
    assert_eq!(result(""), "undefined");
}

#[test]
fn arithmetic_on_strings_and_characters() {
    assert_eq!(result("\"ab\" + \"cd\""), "str abcd");
    assert_eq!(result("\"ab\" * \"cd\""), "undefined");
    assert_eq!(result("\"n\" + 12"), "str n12");
    assert_eq!(result("'a' + 'b'"), "int 195");
    assert_eq!(result("'b' - 'a'"), "int 1");
    assert_eq!(result("1 + \"2\""), "int 3");
    assert_eq!(result("1 + \"x\""), "undefined");
}

#[test]
fn variables_are_bound_and_looked_up() {
    assert_eq!(result("x = 2;\ny = x * 10;\ny + x"), "int 22");
    assert_eq!(result("x = 1;\nx = x + 1;\nx"), "int 2");
    assert_eq!(result("y"), "undefined");
    assert_eq!(result("x = 1;\nx\nx = 5;"), "int 1");
    let answers: Vec<Float> = Vec::new();
    let mut i = interpreter("a = 4;\nb = a / 2;");
    assert_eq!(shown(&i.run(&answers).unwrap()), "undefined");
    assert_eq!(i.env.len(), 2);
    assert_eq!(i.env[0].name, "a");
    assert_eq!(shown(&i.env[1].value), "int 2");
}

#[test]
fn float_arithmetic_is_asked_for() {
    let mut i = interpreter("x = 1.5 + 2;\nx * 0.5");
    let mut answers: Vec<Float> = Vec::new();
    match i.run(&answers) {
        Err(m) => {
            assert_eq!(m.opp, Verb::Add);
            assert!(m.left.same_number(&float("1.5")));
            assert!(m.right.same_number(&float("2")));
        }
        Ok(v) => panic!("{}", shown(&v)),
    }
    assert!(i.env.is_empty());
    answers.push(float("3.5"));
    match i.run(&answers) {
        Err(m) => {
            assert_eq!(m.opp, Verb::Mult);
            assert!(m.left.same_number(&float("3.5")));
            assert!(m.right.same_number(&float("0.5")));
        }
        Ok(v) => panic!("{}", shown(&v)),
    }
    assert!(i.env.is_empty());
    answers.push(float("1.75"));
    assert_eq!(shown(&i.run(&answers).unwrap()), "float 1.75");
    assert_eq!(i.env.len(), 1);
    let tokens = &interpreter("2.5 - 1.25").ast.statements[0].b;
    match Interpreter::new(luma::parser_core::ast::AST { statements: vec![] })
        .evaluate_expression(tokens, &vec![float("9.5")])
    {
        Ok(v) => assert_eq!(shown(&v), "float 9.5"),
        Err(m) => panic!("{:?}", m),
    }
}

#[test]
fn casts_between_kinds() {
    let cases: Vec<(Value, [&str; 5])> = vec![
        (Value::Int(65), ["int 65", "float 65", "str 65", "char A", "undefined"]),
        (Value::Int(-1), ["int -1", "float -1", "str -1", "none", "undefined"]),
        (Value::Str("12".to_string()), ["int 12", "float 12", "str 12", "none", "undefined"]),
        (Value::Str("x".to_string()), ["none", "none", "str x", "char x", "undefined"]),
        (Value::Str("1.5".to_string()), ["none", "float 1.5", "str 1.5", "none", "undefined"]),
        (Value::Char('a'), ["int 97", "float 97", "str a", "char a", "undefined"]),
        (Value::Float(float("66.9")), ["int 66", "float 66.9", "str 66.9", "char B", "undefined"]),
        (Value::Float(float("-3.5")), ["int -3", "float -3.5", "str -3.5", "char \u{0}", "undefined"]),
        (Value::Float(float("1e30")), ["int 2147483647", "float 1000000000000000000000000000000", "str 1000000000000000000000000000000", "none", "undefined"]),
        (Value::Float(float("55296")), ["int 55296", "float 55296", "str 55296", "none", "undefined"]),
        (Value::VarName("v".to_string()), ["none", "none", "str v", "none", "undefined"]),
        (Value::Undefined, ["none", "none", "none", "none", "undefined"]),
    ];
    for (value, expected) in cases {
        let got = [
            CastTo::<i32>::cast_to(&value),
            CastTo::<Float>::cast_to(&value),
            CastTo::<String>::cast_to(&value),
            CastTo::<char>::cast_to(&value),
            CastTo::<()>::cast_to(&value),
        ];
        for (g, e) in got.iter().zip(expected.iter()) {
            let text = match g {
                Some(v) => shown(v),
                None => "none".to_string(),
            };
            assert_eq!(&text, e, "{}", shown(&value));
        }
    }
    assert_eq!(shown(&cast_to_type(&Value::Str("7".to_string()), &Value::Int(0))), "int 7");
    assert_eq!(shown(&cast_to_type(&Value::Str("x7".to_string()), &Value::Int(0))), "undefined");
    assert_eq!(shown(&cast_to_type(&Value::Int(7), &Value::Str(String::new()))), "str 7");
    assert_eq!(shown(&cast_to_type(&Value::Int(7), &Value::Undefined)), "undefined");
}
