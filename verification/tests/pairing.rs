use spielab::pairing::validate_pin;

#[test]
fn pin_accepts_leading_zero_and_rejects_unicode_or_whitespace() {
    assert!(validate_pin("0123").is_ok());
    for value in ["", "123", "12345", "１２３４", "12 3", "1234\n"] {
        assert!(validate_pin(value).is_err());
    }
}
