use vngineer::value::{values_equal, Decimal, VnValue};

fn num(n: i64) -> VnValue {
    VnValue::Number(Decimal::from_integer(n))
}

fn text(s: &str) -> VnValue {
    VnValue::Text(s.to_string())
}

#[test]
fn same_type_of_itself() {
    let values = vec![
        VnValue::Null,
        VnValue::Boolean(true),
        num(3),
        text("a"),
        VnValue::Color(0x11223344),
        VnValue::Array(vec![num(1)]),
        VnValue::Dict(vec![("k".to_string(), num(1))]),
    ];
    for v in &values {
        assert!(v.is_same_type(v));
    }
}

#[test]
fn null_matches_only_null() {
    assert!(VnValue::Null.is_same_type(&VnValue::Null));
    assert!(!VnValue::Null.is_same_type(&VnValue::Boolean(false)));
    assert!(!VnValue::Null.is_same_type(&num(0)));
    assert!(!VnValue::Null.is_same_type(&text("")));
    assert!(!VnValue::Null.is_same_type(&VnValue::Array(vec![])));
    assert!(!num(1).is_same_type(&text("1")));
    assert!(num(1).is_same_type(&num(2)));
}

#[test]
fn accessors_follow_the_tag() {
    assert_eq!(VnValue::Boolean(true).as_boolean(), Some(true));
    assert_eq!(num(5).as_boolean(), None);
    assert_eq!(num(5).as_number().map(|d| d.mantissa()), Some(5));
    assert_eq!(text("hi").as_text(), Some("hi"));
    assert_eq!(text("hi").as_color(), None);
    assert_eq!(VnValue::Color(7).as_color(), Some(7));
    assert_eq!(VnValue::Array(vec![num(1), num(2)]).as_array().map(|a| a.len()), Some(2));
    assert!(VnValue::Dict(vec![]).as_map().is_some());
    assert!(VnValue::Null.is_none());
    assert!(!VnValue::Boolean(false).is_none());
}

#[test]
fn numbers_compare_by_value() {
    let a = Decimal::new(50, 1).unwrap();
    let b = Decimal::from_integer(5);
    assert!(a.same_as(&b));
    assert!(!a.less_than(&b));
    let c = Decimal::new(-125, 2).unwrap();
    assert!(c.less_than(&b));
    assert!(Decimal::new(1, 19).is_none());
    assert!(values_equal(&VnValue::Number(a), &VnValue::Number(b)));
}

#[test]
fn dictionaries_ignore_order() {
    let a = VnValue::Dict(vec![("x".to_string(), num(1)), ("y".to_string(), text("b"))]);
    let b = VnValue::Dict(vec![("y".to_string(), text("b")), ("x".to_string(), num(1))]);
    let c = VnValue::Dict(vec![("y".to_string(), text("c")), ("x".to_string(), num(1))]);
    assert!(a == b);
    assert!(a != c);
    assert!(VnValue::Array(vec![num(1), num(2)]) != VnValue::Array(vec![num(2), num(1)]));
    assert!(VnValue::Array(vec![a.clone()]) == VnValue::Array(vec![b.clone()]));
}
