use vdb::expr::{parse, Expr};

#[test]
fn test_num() {
    assert_eq!(Ok(Expr::Num(42)), parse("42"));
    assert_eq!(Ok(Expr::Num(0xcc)), parse("0xcc"));
    assert_eq!(Ok(Expr::Num(493)), parse("0755"));
}

#[test]
fn test_ident() {
    assert_eq!(Ok(Expr::Ident("foo".to_string())), parse("foo"));
}

#[test]
fn test_empty_expr() {
    assert_eq!(Ok(Expr::Empty), parse("   "));
}

#[test]
fn test_bare_hex_prefix() {
    assert_eq!(Err("Invalid number \"0x\".".to_string()), parse("0x"));
}

#[test]
fn test_bad_digits() {
    assert_eq!(Err("Invalid number \"0x5g\".".to_string()), parse("0x5g"));
    assert_eq!(Err("Invalid number \"089\".".to_string()), parse("089"));
    assert_eq!(Err("Invalid number \"12ab\".".to_string()), parse("12ab"));
}

#[test]
fn test_signed_after_radix_prefix() {
    assert_eq!(Ok(Expr::Num(-5)), parse("0x-5"));
    assert_eq!(Ok(Expr::Num(7)), parse("0+7"));
}

#[test]
fn test_negative_is_ident() {
    // A bare leading minus never opens a numeric literal.
    assert_eq!(Ok(Expr::Ident("-5".to_string())), parse("-5"));
}

#[test]
fn test_overflow_rejected() {
    assert_eq!(
        Err("Invalid number \"99999999999999999999\".".to_string()),
        parse("99999999999999999999")
    );
    // The extreme 64-bit values themselves are fine.
    assert_eq!(Ok(Expr::Num(i64::MAX)), parse("9223372036854775807"));
    assert_eq!(Ok(Expr::Num(i64::MIN)), parse("0x-8000000000000000"));
}

#[test]
fn test_trimmed() {
    assert_eq!(Ok(Expr::Num(42)), parse("  42\t"));
}
