use luma::parser_core::ast::AST_type;
use luma::parser_core::lexer::Lexer;
use luma::parser_core::parser::Parser;
use luma::parser_core::tokenized::{Suffix, Token, Verb};
use luma::parser_core::value::Value;

fn shown(tokens: &[Token]) -> Vec<String> {
    tokens
        .iter()
        .map(|t| match t {
            Token::Verb(v) => format!("{:?}", v),
            Token::Noun(Value::Int(n)) => format!("int {}", n),
            Token::Noun(Value::Str(s)) => format!("str {}", s),
            Token::Noun(Value::Char(c)) => format!("char {}", c),
            Token::Noun(Value::Float(f)) => format!("float {}", f.render().into_iter().collect::<String>()),
            Token::Noun(Value::VarName(s)) => format!("var {}", s),
            Token::Noun(Value::Undefined) => "undefined".to_string(),
        })
        .collect()
}

fn kind(v: Value) -> String {
    match Value::get_type(v) {
        Value::Str(s) => s,
        other => panic!("{:?}", other),
    }
}

#[test]
fn token_texts_are_classified() {
    assert!(matches!(Value::evaluate("12".to_string()), Value::Int(12)));
    assert!(matches!(Value::evaluate("12.0".to_string()), Value::Int(12)));
    assert!(matches!(Value::evaluate("1e2".to_string()), Value::Int(100)));
    assert!(matches!(Value::evaluate("99999999999".to_string()), Value::Int(i32::MAX)));
    assert!(matches!(Value::evaluate("inf".to_string()), Value::Int(i32::MAX)));
    assert_eq!(kind(Value::evaluate("1.5".to_string())), "float");
    assert_eq!(kind(Value::evaluate("nan".to_string())), "float");
    assert!(matches!(Value::evaluate("\"hi there\"".to_string()), Value::Str(s) if s == "hi there"));
    assert!(matches!(Value::evaluate("\"\"".to_string()), Value::Str(s) if s.is_empty()));
    assert!(matches!(Value::evaluate("'c'".to_string()), Value::Char('c')));
    assert!(matches!(Value::evaluate("'cd'".to_string()), Value::Str(s) if s == "cd"));
    assert!(matches!(Value::evaluate("'\u{e9}'".to_string()), Value::Str(s) if s == "\u{e9}"));
    assert!(matches!(Value::evaluate("''".to_string()), Value::Str(s) if s.is_empty()));
    assert!(matches!(Value::evaluate("my_var1".to_string()), Value::VarName(s) if s == "my_var1"));
    assert!(matches!(Value::evaluate("caf\u{e9}".to_string()), Value::VarName(_)));
    assert!(matches!(Value::evaluate("a b".to_string()), Value::Undefined));
    assert!(matches!(Value::evaluate("\"".to_string()), Value::Undefined));
    assert!(matches!(Value::evaluate("a.b".to_string()), Value::Undefined));
    assert_eq!(kind(Value::Int(1)), "int");
    assert_eq!(kind(Value::Str(String::new())), "str");
    assert_eq!(kind(Value::Char('x')), "char");
    assert_eq!(kind(Value::VarName("v".to_string())), "var");
    assert_eq!(kind(Value::Undefined), "undefined");
}

#[test]
fn lexer_reads_lines_of_tokens() {
    let text = "x = 1 + 2.5; // sum\n\n   // nothing\ny = x * 'c' - \"s t\";\nx / y\n";
    let mut lexer = Lexer::new(text.to_string());
    assert!(lexer.tokenized_lines.lines.is_empty());
    lexer.run();
    let lines = &lexer.tokenized_lines.lines;
    assert_eq!(lines.len(), 3);
    assert_eq!(lines[0].suffix, Some(Suffix::Assign));
    assert_eq!(shown(&lines[0].objects), vec!["var x", "Assign", "int 1", "Add", "float 2.5"]);
    assert_eq!(lines[1].suffix, Some(Suffix::Assign));
    assert_eq!(
        shown(&lines[1].objects),
        vec!["var y", "Assign", "var x", "Mult", "char c", "Sub", "str s t"]
    );
    assert_eq!(lines[2].suffix, Some(Suffix::Return));
    assert_eq!(shown(&lines[2].objects), vec!["var x", "Div", "var y"]);
    assert_eq!(lexer.file_contents, text);
}

#[test]
fn lexer_keeps_operations_without_operands() {
    let mut lexer = Lexer::new("+-\n;\n a b ;".to_string());
    lexer.run();
    let lines = &lexer.tokenized_lines.lines;
    assert_eq!(lines.len(), 3);
    assert_eq!(lines[0].objects.iter().filter(|t| matches!(t, Token::Verb(_))).count(), 2);
    assert!(matches!(lines[0].objects[0], Token::Verb(Verb::Add)));
    assert!(matches!(lines[0].objects[1], Token::Verb(Verb::Sub)));
    assert!(lines[1].objects.is_empty());
    assert_eq!(lines[1].suffix, Some(Suffix::Assign));
    assert_eq!(shown(&lines[2].objects), vec!["undefined"]);
}

#[test]
fn parser_makes_statements() {
    let mut lexer = Lexer::new("x = y + 1;\nx * 2\nz;\na = b = c;".to_string());
    lexer.run();
    let parser = Parser::new(lexer);
    let ast = parser.run();
    assert_eq!(ast.statements.len(), 4);
    assert_eq!(ast.statements[0].statement_type, AST_type::Assign);
    assert!(matches!(&ast.statements[0].a, Value::VarName(n) if n == "x"));
    assert_eq!(shown(&ast.statements[0].b), vec!["var y", "Add", "int 1"]);
    assert_eq!(ast.statements[1].statement_type, AST_type::Return);
    assert!(matches!(ast.statements[1].a, Value::Undefined));
    assert_eq!(shown(&ast.statements[1].b), vec!["var x", "Mult", "int 2"]);
    // without an equals sign the last name before the end is the variable
    assert!(matches!(&ast.statements[2].a, Value::VarName(n) if n == "z"));
    assert!(ast.statements[2].b.is_empty());
    assert!(matches!(&ast.statements[3].a, Value::VarName(n) if n == "a"));
    assert_eq!(shown(&ast.statements[3].b), vec!["var b", "var c"]);
}
