use find_all::decimal::{push_decimal, to_decimal};

#[test]
fn to_decimal_of_single_digits() {
    let expected = ["0", "1", "2", "3", "4", "5", "6", "7", "8", "9"];
    for (n, text) in expected.iter().enumerate() {
        assert_eq!(to_decimal(n), *text);
    }
}

#[test]
fn to_decimal_of_longer_numbers() {
    assert_eq!(to_decimal(10), "10");
    assert_eq!(to_decimal(99), "99");
    assert_eq!(to_decimal(100), "100");
    assert_eq!(to_decimal(1203), "1203");
    assert_eq!(to_decimal(9876543210), "9876543210");
}

#[test]
fn to_decimal_of_the_largest_number() {
    assert_eq!(to_decimal(usize::MAX), usize::MAX.to_string());
}

#[test]
fn to_decimal_agrees_with_std() {
    for n in 0..2000usize {
        assert_eq!(to_decimal(n), n.to_string());
    }
}

#[test]
fn push_decimal_appends() {
    let mut out = String::from("line ");
    push_decimal(&mut out, 42);
    assert_eq!(out, "line 42");
    push_decimal(&mut out, 0);
    assert_eq!(out, "line 420");
}
