use hashbench::args::parse_number;
use hashbench::text::push_decimal;

fn decimal(n: u64) -> String {
    let mut text = String::new();
    push_decimal(&mut text, n);
    text
}

#[test]
fn decimal_of_single_digits() {
    assert_eq!(decimal(0), "0");
    assert_eq!(decimal(7), "7");
    assert_eq!(decimal(9), "9");
}

#[test]
fn decimal_of_longer_numbers() {
    assert_eq!(decimal(10), "10");
    assert_eq!(decimal(42), "42");
    assert_eq!(decimal(1005), "1005");
    assert_eq!(decimal(u64::MAX), "18446744073709551615");
}

#[test]
fn decimal_is_appended_to_what_is_there() {
    let mut text = String::from("cost ");
    push_decimal(&mut text, 12);
    push_decimal(&mut text, 0);
    assert_eq!(text, "cost 120");
}

#[test]
fn written_numbers_read_back() {
    assert_eq!(parse_number(decimal(0).as_bytes()), Some(0));
    assert_eq!(parse_number(decimal(15).as_bytes()), Some(15));
    assert_eq!(parse_number(decimal(600_000).as_bytes()), Some(600_000));
    assert_eq!(parse_number(decimal(u32::MAX as u64).as_bytes()), Some(u32::MAX));
    assert_eq!(parse_number(decimal(u32::MAX as u64 + 1).as_bytes()), None);
}
