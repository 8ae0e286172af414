use luma::float::Float;
use luma::order::Order;

fn parse(text: &str) -> Option<Float> {
    let chars: Vec<char> = text.chars().collect();
    Float::parse(&chars)
}

fn shown(text: &str) -> String {
    parse(text).expect("a float literal").render().into_iter().collect()
}

fn order(a: &str, b: &str) -> Option<Order> {
    parse(a).unwrap().order(&parse(b).unwrap())
}

#[test]
fn float_text_is_plain_decimal_notation() {
    assert_eq!(shown("3.0"), "3");
    assert_eq!(shown("3.140"), "3.14");
    assert_eq!(shown("003.5"), "3.5");
    assert_eq!(shown(".5"), "0.5");
    assert_eq!(shown("5."), "5");
    assert_eq!(shown("-0.0010"), "-0.001");
    assert_eq!(shown("1e3"), "1000");
    assert_eq!(shown("1.5E2"), "150");
    assert_eq!(shown("12e-1"), "1.2");
    assert_eq!(shown("12e-4"), "0.0012");
    assert_eq!(shown("+7.25e+1"), "72.5");
    assert_eq!(shown("0"), "0");
    assert_eq!(shown("-0"), "-0");
    assert_eq!(shown("0e99999999999999999999999999"), "0");
    assert_eq!(shown("123456789012345678901234567890.5"), "123456789012345678901234567890.5");
}

#[test]
fn float_literal_grammar() {
    for bad in ["", ".", "-", "+", "e5", "1e", "1e+", "1.2.3", "1 ", " 1", "1,5", "0x10", "1e5.0", "--1", "in", "nanx"] {
        assert!(parse(bad).is_none(), "{:?}", bad);
    }
    for good in ["1", "-1", "+1", "1.", ".1", "1.1", "1e5", "1E5", "1e-5", "1.e5", ".1e5", "inf", "INF", "-inf", "+Infinity", "nan", "NaN", "-nan"] {
        assert!(parse(good).is_some(), "{:?}", good);
    }
}

#[test]
fn floats_beyond_the_range_are_infinite_or_zero() {
    assert_eq!(shown("1e309"), "inf");
    assert_eq!(shown("-1e309"), "-inf");
    assert_eq!(shown("1e999999999999999999999999999999999999999999"), "inf");
    assert_eq!(shown("1e308").len(), 309);
    assert_eq!(shown("0.1e310"), "inf");
    assert_eq!(shown("1e-324"), "0.".to_string() + &"0".repeat(323) + "1");
    assert_eq!(shown("1e-325"), "0");
    assert_eq!(shown("-1e-99999999999999999999999999999999999999999"), "-0");
    assert_eq!(shown("inf"), "inf");
    assert_eq!(shown("-infinity"), "-inf");
    assert_eq!(shown("nan"), "NaN");
}

#[test]
fn float_order_is_numeric() {
    assert_eq!(order("1", "2"), Some(Order::Less));
    assert_eq!(order("2", "1"), Some(Order::Greater));
    assert_eq!(order("1.50", "1.5"), Some(Order::Equal));
    assert_eq!(order("9", "10"), Some(Order::Less));
    assert_eq!(order("0.9", "0.10"), Some(Order::Greater));
    assert_eq!(order("1.05", "1.5"), Some(Order::Less));
    assert_eq!(order("-1", "1"), Some(Order::Less));
    assert_eq!(order("-2", "-1"), Some(Order::Less));
    assert_eq!(order("-0.5", "-0.25"), Some(Order::Less));
    assert_eq!(order("0", "-0"), Some(Order::Equal));
    assert_eq!(order("0", "0.0001"), Some(Order::Less));
    assert_eq!(order("-0.0001", "0"), Some(Order::Less));
    assert_eq!(order("1e2", "100"), Some(Order::Equal));
    assert_eq!(order("12e1", "1.2e2"), Some(Order::Equal));
    assert_eq!(order("inf", "1e308"), Some(Order::Greater));
    assert_eq!(order("-inf", "-1e308"), Some(Order::Less));
    assert_eq!(order("inf", "inf"), Some(Order::Equal));
    assert_eq!(order("-inf", "inf"), Some(Order::Less));
    assert_eq!(order("nan", "1"), None);
    assert_eq!(order("1", "nan"), None);
    assert_eq!(order("nan", "nan"), None);
}

#[test]
fn float_of_an_integer() {
    for (n, text) in [(0, "0"), (7, "7"), (-7, "-7"), (100, "100"), (-1200, "-1200"), (i32::MAX, "2147483647"), (i32::MIN, "-2147483648")] {
        let f = Float::from_int(n);
        let shown: String = f.render().into_iter().collect();
        assert_eq!(shown, text);
        assert!(f.same_number(&parse(text).unwrap()));
    }
}

#[test]
fn float_cut_off_at_the_point() {
    for (text, n, whole) in [
        ("0", 0, true),
        ("3.0", 3, true),
        ("3.7", 3, false),
        ("-3.7", -3, false),
        ("0.99", 0, false),
        ("1e3", 1000, true),
        ("2147483647", i32::MAX, true),
        ("2147483648", i32::MAX, true),
        ("-2147483648", i32::MIN, true),
        ("-2147483649.5", i32::MIN, false),
        ("1e300", i32::MAX, true),
        ("inf", i32::MAX, true),
        ("-inf", i32::MIN, true),
        ("nan", 0, false),
    ] {
        let f = parse(text).unwrap();
        assert_eq!(f.truncate(), n, "{}", text);
        assert_eq!(f.whole(), whole, "{}", text);
    }
}

#[test]
fn float_agrees_with_the_machine_on_short_literals() {
    for text in ["0.5", "2.25", "100", "-3.125", "1e3", "12.5e-1", "0.001"] {
        let machine: f64 = text.parse().unwrap();
        assert_eq!(shown(text), format!("{}", machine), "{}", text);
    }
    let pairs = [("0.5", "0.25"), ("-1.5", "2"), ("1e2", "99.9"), ("3", "3.0")];
    for (a, b) in pairs {
        let x: f64 = a.parse().unwrap();
        let y: f64 = b.parse().unwrap();
        let expected = match x.partial_cmp(&y) {
            Some(std::cmp::Ordering::Less) => Some(Order::Less),
            Some(std::cmp::Ordering::Equal) => Some(Order::Equal),
            Some(std::cmp::Ordering::Greater) => Some(Order::Greater),
            None => None,
        };
        assert_eq!(order(a, b), expected);
    }
}
