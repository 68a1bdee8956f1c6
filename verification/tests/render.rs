use terminal_execute::render::{push_decimal, push_flag};

fn decimal(value: u64) -> String {
    let mut out = String::new();
    push_decimal(&mut out, value);
    out
}

#[test]
fn decimal_of_small_numbers() {
    assert_eq!(decimal(0), "0");
    assert_eq!(decimal(7), "7");
    assert_eq!(decimal(9), "9");
    assert_eq!(decimal(10), "10");
    assert_eq!(decimal(99), "99");
    assert_eq!(decimal(100), "100");
    assert_eq!(decimal(1234567890), "1234567890");
}

#[test]
fn decimal_of_largest_number() {
    assert_eq!(decimal(u64::MAX), "18446744073709551615");
}

#[test]
fn decimal_agrees_with_display() {
    let mut value: u64 = 1;
    for _ in 0..64 {
        assert_eq!(decimal(value), value.to_string());
        assert_eq!(decimal(value - 1), (value - 1).to_string());
        value = value.wrapping_mul(3).wrapping_add(7);
    }
}

#[test]
fn decimal_is_appended_to_what_is_there() {
    let mut out = String::from("code ");
    push_decimal(&mut out, 42);
    push_decimal(&mut out, 0);
    assert_eq!(out, "code 420");
}

#[test]
fn flag_is_spelled_out() {
    let mut out = String::from("alive: ");
    push_flag(&mut out, true);
    out.push(' ');
    push_flag(&mut out, false);
    assert_eq!(out, "alive: true false");
}
