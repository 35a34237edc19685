use rust_enum_derive::{extract, get_num, DeriveError, Dialect};

#[test]
fn hex_literal_is_read_in_base_sixteen() {
    assert_eq!(get_num("0x10"), Ok(16));
    assert_eq!(get_num("0xff"), Ok(255));
    assert_eq!(get_num("0xFF"), Ok(255));
    assert_eq!(get_num("0x7FFFFFFF"), Ok(i32::MAX));
}

#[test]
fn decimal_literal_is_read_in_base_ten() {
    assert_eq!(get_num("0"), Ok(0));
    assert_eq!(get_num("10"), Ok(10));
    assert_eq!(get_num("2147483647"), Ok(i32::MAX));
}

#[test]
fn shift_literal_shifts_left() {
    assert_eq!(get_num("4<<2"), Ok(16));
    assert_eq!(get_num("4 << 2"), Ok(16));
    assert_eq!(get_num("1<<0"), Ok(1));
    assert_eq!(get_num("1<<31"), Ok(i32::MIN));
    assert_eq!(get_num("3<<31"), Ok(i32::MIN));
}

#[test]
fn malformed_literals_are_rejected() {
    assert_eq!(get_num("abc"), Err(DeriveError::MalformedLiteral(String::from("abc"))));
    assert_eq!(get_num("12abc"), Err(DeriveError::MalformedLiteral(String::from("12abc"))));
    assert_eq!(get_num("ff"), Err(DeriveError::MalformedLiteral(String::from("ff"))));
    assert_eq!(get_num("0x"), Err(DeriveError::MalformedLiteral(String::from("0x"))));
    assert_eq!(get_num("0xg"), Err(DeriveError::MalformedLiteral(String::from("0xg"))));
    assert_eq!(get_num(""), Err(DeriveError::MalformedLiteral(String::from(""))));
    assert_eq!(get_num("-1"), Err(DeriveError::MalformedLiteral(String::from("-1"))));
    assert_eq!(get_num("<<2"), Err(DeriveError::MalformedLiteral(String::from("<<2"))));
    assert_eq!(get_num("4<<"), Err(DeriveError::MalformedLiteral(String::from("4<<"))));
    assert_eq!(get_num("4<2"), Err(DeriveError::MalformedLiteral(String::from("4<2"))));
}

#[test]
fn literals_that_do_not_fit_are_rejected() {
    assert_eq!(get_num("2147483648"), Err(DeriveError::MalformedLiteral(String::from("2147483648"))));
    assert_eq!(get_num("0x80000000"), Err(DeriveError::MalformedLiteral(String::from("0x80000000"))));
    assert_eq!(get_num("99999999999999999999"), Err(DeriveError::MalformedLiteral(String::from("99999999999999999999"))));
    assert_eq!(get_num("1<<32"), Err(DeriveError::MalformedLiteral(String::from("1<<32"))));
    assert_eq!(get_num("2147483648<<1"), Err(DeriveError::MalformedLiteral(String::from("2147483648<<1"))));
}

#[test]
fn malformed_literal_in_input_names_the_token() {
    match extract("X = abc,", Dialect::EnumStyle) {
        Err(DeriveError::MalformedLiteral(t)) => assert_eq!(t, "abc"),
        other => panic!("unexpected {:?}", other),
    }
    match extract("#define A B", Dialect::DefineStyle) {
        Err(DeriveError::MalformedLiteral(t)) => assert_eq!(t, "B"),
        other => panic!("unexpected {:?}", other),
    }
}
