use libre99::expr::{eval, Symbols};

fn e(s: &str) -> i64 {
    eval(s, &Symbols::new(), 0).unwrap()
}

#[test]
fn left_to_right_no_precedence() {
    assert_eq!(e("4+5*2"), 18);
    assert_eq!(e("7+1/2"), 4);
    assert_eq!(e("2+3*4"), 20);
    assert_eq!(e("-5+2"), -3);
}

#[test]
fn constants() {
    assert_eq!(e(">37AC"), 0x37AC);
    assert_eq!(e("1000"), 1000);
    assert_eq!(e("'AB'"), 0x4142);
    assert_eq!(e("'C'"), 0x43);
    assert_eq!(e("''''"), 0x27);
    assert_eq!(e("''"), 0);
}

#[test]
fn symbols_and_dollar() {
    let mut s = Symbols::new();
    s.insert("INIT".to_string(), 0x0125);
    assert_eq!(eval("INIT+3", &s, 0).unwrap(), 0x0128);
    assert_eq!(eval("$", &s, 0x6010).unwrap(), 0x6010);
    assert!(eval("NOPE", &s, 0).is_err());
}

#[test]
fn division_truncates_toward_zero_and_rejects_zero() {
    assert_eq!(e("-7/2"), -3);
    assert_eq!(e("0-7/2"), -3);
    // A sign applies to the first term only.
    assert!(eval("7/-2", &Symbols::new(), 0).is_err());
    assert!(eval("1/0", &Symbols::new(), 0).is_err());
}

#[test]
fn an_undefined_symbol_is_named_in_the_error() {
    let err = eval("NOPE+1", &Symbols::new(), 0).unwrap_err();
    assert!(err.contains("NOPE"), "{err}");
}

#[test]
fn symbol_table_rebinding_replaces_the_value() {
    let mut s = Symbols::new();
    s.insert("A".to_string(), 1);
    s.insert("A".to_string(), 2);
    assert_eq!(s.get("A"), Some(2));
    assert!(s.contains("A"));
    assert!(!s.contains("B"));
    assert_eq!(s.pairs().len(), 1);
}

#[test]
fn an_appended_operand_applies_to_the_whole_value() {
    let syms = Symbols::new();
    assert_eq!(eval("-7/2", &syms, 0), Ok(-3));
    assert_eq!(eval("2+3*4", &syms, 0), Ok(20));
    assert_eq!(eval("2+3*4-10", &syms, 0), Ok(10));
    assert_eq!(eval("5/0", &syms, 0), Err(String::from("division by zero")));
}
