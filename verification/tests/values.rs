use luma::order::Order;
use luma::value::{Function, Statement, Value, Verb};

fn whole(n: i32) -> Value {
    Value::Int(n)
}

fn decimal(text: &str) -> Value {
    Value::parse_float(text).expect("a float literal")
}

fn text(s: &str) -> Value {
    Value::Str(s.to_string())
}

#[test]
fn int_equals_float_of_same_number() {
    assert!(whole(3).compare_equals(&decimal("3.0")));
    assert!(decimal("3.0").compare_equals(&whole(3)));
    assert!(!whole(3).compare_equals(&decimal("3.5")));
    assert!(whole(0).compare_equals(&decimal("-0.0")));
    assert!(whole(-120).compare_equals(&decimal("-1.2e2")));
}

#[test]
fn shorter_list_orders_first() {
    let a = Value::List(vec![whole(1), whole(2)]);
    let b = Value::List(vec![whole(1), whole(2), whole(3)]);
    assert_eq!(a.compare_order(&b), Some(Order::Less));
    assert_eq!(b.compare_order(&a), Some(Order::Greater));
}

#[test]
fn lists_of_one_length_order_by_first_difference() {
    let a = Value::List(vec![whole(1), whole(5), whole(0)]);
    let b = Value::List(vec![whole(1), whole(7), whole(-3)]);
    assert_eq!(a.compare_order(&b), Some(Order::Less));
    assert_eq!(b.compare_order(&a), Some(Order::Greater));
    assert_eq!(a.compare_order(&a), Some(Order::Equal));
}

#[test]
fn items_without_order_are_passed_over() {
    let a = Value::List(vec![Value::Null, whole(2)]);
    let b = Value::List(vec![Value::Undefined, whole(1)]);
    assert_eq!(a.compare_order(&b), Some(Order::Greater));
    assert!(!a.compare_equals(&b));
}

#[test]
fn values_of_one_kind_compare_as_that_kind() {
    assert_eq!(whole(-1).compare_order(&whole(4)), Some(Order::Less));
    assert_eq!(text("abc").compare_order(&text("abd")), Some(Order::Less));
    assert_eq!(text("ab").compare_order(&text("abc")), Some(Order::Less));
    assert_eq!(text("b").compare_order(&text("abc")), Some(Order::Greater));
    assert_eq!(Value::Bool(false).compare_order(&Value::Bool(true)), Some(Order::Less));
    assert_eq!(decimal("2.5").compare_order(&whole(2)), Some(Order::Greater));
    assert_eq!(whole(2).compare_order(&decimal("2.5")), Some(Order::Less));
    assert!(text("x").compare_equals(&text("x")));
    assert!(Value::Null.compare_equals(&Value::Null));
    assert!(Value::Undefined.compare_equals(&Value::Undefined));
}

#[test]
fn other_pairs_are_unequal_and_have_no_order() {
    assert!(!whole(1).compare_equals(&text("1")));
    assert!(!Value::Null.compare_equals(&Value::Undefined));
    assert_eq!(whole(1).compare_order(&text("1")), None);
    assert_eq!(Value::Null.compare_order(&Value::Null), None);
    assert_eq!(Value::Bool(true).compare_order(&whole(1)), None);
    let f = Value::FunctionRef(Function { lines: vec![], params: vec![] });
    let g = Value::FunctionRef(Function { lines: vec![], params: vec![] });
    assert!(!f.compare_equals(&g));
}

#[test]
fn print_and_serialize() {
    assert_eq!(whole(-42).print_value(), "-42");
    assert_eq!(whole(0).print_value(), "0");
    assert_eq!(whole(i32::MIN).serialize(), "-2147483648");
    assert_eq!(decimal("1.50").print_value(), "1.5");
    assert_eq!(decimal("1e3").print_value(), "1000");
    assert_eq!(decimal("-0.001").serialize(), "-0.001");
    assert_eq!(text("a b").print_value(), "a b");
    assert_eq!(text("a b").serialize(), "\"a b\"");
    assert_eq!(Value::Bool(true).serialize(), "true");
    assert_eq!(Value::Bool(false).print_value(), "false");
    assert_eq!(Value::Undefined.serialize(), "undefined");
    assert_eq!(Value::Null.serialize(), "null");
    let list = Value::List(vec![whole(1), text("x"), Value::Null]);
    assert_eq!(list.print_value(), "[1, x, null]");
    assert_eq!(list.serialize(), "[1,\"x\",null]");
    assert_eq!(Value::List(vec![]).serialize(), "[]");
    let nested = Value::List(vec![Value::List(vec![whole(1)]), whole(2)]);
    assert_eq!(nested.print_value(), "[[1], 2]");
}

#[test]
fn kinds_have_names() {
    assert_eq!(whole(1).print_type(), "int");
    assert_eq!(decimal("1.5").print_type(), "float");
    assert_eq!(text("").print_type(), "string");
    assert_eq!(Value::Bool(true).print_type(), "bool");
    assert_eq!(Value::List(vec![]).print_type(), "list");
    assert_eq!(Value::Undefined.print_type(), "undefined");
    assert_eq!(Value::Null.print_type(), "null");
    let f = Value::FunctionRef(Function { lines: vec![], params: vec![] });
    assert_eq!(f.print_type(), "ast");
    assert_eq!(f.print_value(), "<ast>");
}

#[test]
fn function_serializes_as_json() {
    let f = Function {
        lines: vec![
            Statement {
                verb: Verb::Assign,
                nouns: vec!["x".to_string(), "str".to_string(), "say \"hi\"\\\n".to_string()],
            },
            Statement { verb: Verb::Mark, nouns: vec!["top".to_string()] },
            Statement { verb: Verb::Do, nouns: vec!["~top".to_string(), "if x:int < 1:int".to_string()] },
            Statement { verb: Verb::Return, nouns: vec!["x".to_string(), "int".to_string()] },
        ],
        params: vec!["a".to_string(), "b\u{1}".to_string()],
    };
    let expected = concat_all(&[
        "{\"lines\":[",
        "{\"verb\":\"Set\",\"nouns\":[\"x\",\"str\",\"say \\\"hi\\\"\\\\\\n\"]},",
        "{\"verb\":\"Mark\",\"nouns\":[\"top\"]},",
        "{\"verb\":\"Do\",\"nouns\":[\"~top\",\"if x:int < 1:int\"]},",
        "{\"verb\":\"Return\",\"nouns\":[\"x\",\"int\"]}",
        "],\"params\":[\"a\",\"b\\u0001\"]}",
    ]);
    assert_eq!(Value::FunctionRef(f).serialize(), expected);
    let empty = Function { lines: vec![], params: vec![] };
    assert_eq!(Value::FunctionRef(empty).serialize(), "{\"lines\":[],\"params\":[]}");
}

fn concat_all(parts: &[&str]) -> String {
    let mut s = String::new();
    for p in parts {
        s.push_str(p);
    }
    s
}

#[test]
fn parse_int_reads_a_sign_and_digits() {
    assert_eq!(Value::parse_int("42").unwrap().serialize(), "42");
    assert_eq!(Value::parse_int("-7").unwrap().serialize(), "-7");
    assert_eq!(Value::parse_int("+7").unwrap().serialize(), "7");
    assert_eq!(Value::parse_int("007").unwrap().serialize(), "7");
    assert_eq!(Value::parse_int("2147483647").unwrap().serialize(), "2147483647");
    assert_eq!(Value::parse_int("-2147483648").unwrap().serialize(), "-2147483648");
    assert!(Value::parse_int("2147483648").is_none());
    assert!(Value::parse_int("-2147483649").is_none());
    assert!(Value::parse_int("99999999999999999999999999999999999999999999").is_none());
    assert!(Value::parse_int("").is_none());
    assert!(Value::parse_int("-").is_none());
    assert!(Value::parse_int(" 1").is_none());
    assert!(Value::parse_int("1.0").is_none());
    assert!(Value::parse_int("1_000").is_none());
}

#[test]
fn parse_bool_reads_any_case() {
    assert!(matches!(Value::parse_bool("true"), Some(Value::Bool(true))));
    assert!(matches!(Value::parse_bool("TRUE"), Some(Value::Bool(true))));
    assert!(matches!(Value::parse_bool("False"), Some(Value::Bool(false))));
    assert!(Value::parse_bool("yes").is_none());
    assert!(Value::parse_bool(" true").is_none());
}

#[test]
fn parse_str_keeps_the_text() {
    assert_eq!(Value::parse_str(" a b ").unwrap().print_value(), " a b ");
}

#[test]
fn parse_reads_the_primitive_types() {
    assert_eq!(Value::parse("12", "int").unwrap().serialize(), "12");
    assert_eq!(Value::parse("1.25", "float").unwrap().serialize(), "1.25");
    assert_eq!(Value::parse("x y", "str").unwrap().serialize(), "\"x y\"");
    assert_eq!(Value::parse("True", "bool").unwrap().serialize(), "true");
    let e = Value::parse("abc", "int").unwrap_err();
    assert_eq!(e.kind, luma::error::ErrorKind::TypeError);
    assert_eq!(e.text, "abc");
    assert_eq!(e.index, None);
    assert!(Value::parse("1", "list").is_err());
    assert!(Value::parse("maybe", "bool").is_err());
    assert!(Value::parse("1.2.3", "float").is_err());
}

#[test]
fn serialized_literal_reads_back() {
    for t in ["0", "-15", "2147483647", "+3"] {
        let v = Value::parse(t, "int").unwrap();
        let again = Value::parse(&v.serialize(), "int").unwrap();
        assert!(again.compare_equals(&v));
    }
    for t in ["0.5", "-12.75", "1e10", "3.", ".25", "-0", "1e-5", "inf", "-Infinity"] {
        let v = Value::parse(t, "float").unwrap();
        let again = Value::parse(&v.serialize(), "float").unwrap();
        assert!(again.compare_equals(&v), "{}", t);
    }
    for t in ["true", "false"] {
        let v = Value::parse(t, "bool").unwrap();
        let again = Value::parse(&v.serialize(), "bool").unwrap();
        assert!(again.compare_equals(&v));
    }
}
