use signal_interpreter::text::{
    chars_of, hex_digit_char, push_decimal, push_hex_bytes, push_hex_fixed, push_signed_decimal,
};

#[test]
fn decimal_notation() {
    let mut s = String::new();
    push_decimal(&mut s, 0);
    assert_eq!(s, "0");
    let mut s = String::from("n=");
    push_decimal(&mut s, 1234567890123);
    assert_eq!(s, "n=1234567890123");
    let mut s = String::new();
    push_decimal(&mut s, u64::MAX);
    assert_eq!(s, u64::MAX.to_string());
}

#[test]
fn signed_notation() {
    let mut s = String::new();
    push_signed_decimal(&mut s, -1000);
    assert_eq!(s, "-1000");
    let mut s = String::new();
    push_signed_decimal(&mut s, i64::MIN);
    assert_eq!(s, i64::MIN.to_string());
    let mut s = String::new();
    push_signed_decimal(&mut s, 38000);
    assert_eq!(s, "38000");
}

#[test]
fn hex_notation() {
    let mut s = String::new();
    push_hex_fixed(&mut s, 0x4840D6, 6);
    assert_eq!(s, "4840D6");
    let mut s = String::new();
    push_hex_fixed(&mut s, 0xA, 6);
    assert_eq!(s, "00000A");
    let mut s = String::new();
    push_hex_bytes(&mut s, &[0x00, 0x0F, 0xF0, 0xAB]);
    assert_eq!(s, "00 0F F0 AB");
    assert_eq!(hex_digit_char(11), 'B');
    assert_eq!(chars_of("ab\u{e9}"), vec!['a', 'b', '\u{e9}']);
}
