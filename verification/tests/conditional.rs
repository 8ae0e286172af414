use luma::error::{ErrorKind, Halt, Reply};
use luma::evaluator::{check_conditional, Limits};
use luma::value::{Environment, Value};

const LIMITS: Limits = Limits { depth: 16, steps: 1000 };

fn holds(text: &str) -> Result<bool, Halt> {
    let env = Environment::new(None);
    let replies: Vec<Reply> = Vec::new();
    check_conditional(text, Some(&env), &replies, LIMITS)
}

fn holds_in(text: &str, env: &Environment) -> bool {
    let replies: Vec<Reply> = Vec::new();
    check_conditional(text, Some(env), &replies, LIMITS).expect("a condition")
}

fn kind_of(r: Result<bool, Halt>) -> (ErrorKind, String) {
    match r {
        Err(Halt::Failed(e)) => (e.kind, e.text),
        other => panic!("no failure: {:?}", other),
    }
}

#[test]
fn equal_integers() {
    assert_eq!(holds("if 3:int == 3:int").unwrap(), true);
}

#[test]
fn and_of_true_and_false() {
    assert_eq!(holds("if 3:int == 3:int and 1:int > 2:int").unwrap(), false);
}

#[test]
fn not_negates_the_next_comparison() {
    assert_eq!(holds("if not 1:int == 2:int").unwrap(), true);
    assert_eq!(holds("if not 1:int == 1:int").unwrap(), false);
    assert_eq!(holds("if 1:int == 1:int and not 2:int == 3:int").unwrap(), true);
}

#[test]
fn each_comparison() {
    assert!(holds("if 1:int < 2:int").unwrap());
    assert!(!holds("if 2:int < 2:int").unwrap());
    assert!(holds("if 2:int <= 2:int").unwrap());
    assert!(!holds("if 3:int <= 2:int").unwrap());
    assert!(holds("if 3:int > 2:int").unwrap());
    assert!(!holds("if 2:int > 2:int").unwrap());
    assert!(holds("if 2:int >= 2:int").unwrap());
    assert!(!holds("if 1:int >= 2:int").unwrap());
    assert!(holds("if 1.5:float < 2:int").unwrap());
    assert!(holds("if abc:str < abd:str").unwrap());
    assert!(holds("if 3:int == 3.0:float").unwrap());
}

#[test]
fn values_without_order_compare_false() {
    assert!(!holds("if 1:int < a:str").unwrap());
    assert!(!holds("if 1:int <= a:str").unwrap());
    assert!(!holds("if 1:int >= a:str").unwrap());
    assert!(!holds("if 1:int == a:str").unwrap());
    assert!(!holds("if x:none <= x:none").unwrap());
    assert!(holds("if x:none == x:none").unwrap());
}

#[test]
fn combinators_apply_from_left_to_right() {
    assert!(holds("if 1:int == 2:int or 1:int == 1:int").unwrap());
    assert!(!holds("if 1:int == 2:int or 1:int == 3:int").unwrap());
    assert!(holds("if 1:int == 1:int xor 1:int == 2:int").unwrap());
    assert!(!holds("if 1:int == 1:int xor 2:int == 2:int").unwrap());
    // no precedence: (true or true) and false
    assert!(!holds("if 1:int == 1:int or 2:int == 2:int and 1:int == 2:int").unwrap());
    // a comparison without a combinator takes the place of the outcome
    assert!(!holds("if 1:int == 1:int 1:int == 2:int").unwrap());
}

#[test]
fn operands_are_looked_up_first() {
    let mut env = Environment::new(None);
    env.bind("x".to_string(), Value::Int(5));
    env.bind("name".to_string(), Value::Str("ann".to_string()));
    assert!(holds_in("if x:int == 5:int", &env));
    assert!(holds_in("if x:str > 4:int", &env));
    assert!(holds_in("if name:str == ann:str", &env));
}

#[test]
fn left_operand_alone_is_false() {
    assert_eq!(holds("if 1:int").unwrap(), false);
    assert_eq!(holds("if not").unwrap(), false);
}

#[test]
fn unknown_operator_keeps_the_last_result() {
    // `!=` holds `=` and is none of the five comparisons: what follows it is not
    // evaluated, and the last result goes into the outcome again.
    assert_eq!(holds("if 1:int == 1:int and 1:int != 2").unwrap(), true);
    assert_eq!(holds("if 1:int != 1:int").unwrap(), false);
}

#[test]
fn malformed_conditions_are_parse_errors() {
    assert_eq!(kind_of(holds("if ")), (ErrorKind::ParseError, "if ".to_string()));
    assert_eq!(kind_of(holds("if")), (ErrorKind::ParseError, "if".to_string()));
    assert_eq!(kind_of(holds("")).0, ErrorKind::ParseError);
    assert_eq!(kind_of(holds("if 3 == 3:int")), (ErrorKind::ParseError, "3".to_string()));
    assert_eq!(kind_of(holds("if 3:int == 3")), (ErrorKind::ParseError, "3".to_string()));
    assert_eq!(kind_of(holds("if == 3:int")), (ErrorKind::ParseError, "3:int".to_string()));
    assert_eq!(kind_of(holds("if 3:int  == 3:int")), (ErrorKind::ParseError, "".to_string()));
    assert_eq!(kind_of(holds("if x:int == 1:int")), (ErrorKind::TypeError, "x".to_string()));
}

#[test]
fn prefix_is_three_characters_whatever_they_are() {
    assert_eq!(holds("xyz1:int == 1:int").unwrap(), true);
}
