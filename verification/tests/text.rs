use binary_tree_formatter::text::{
    push_decimal, push_repeated, push_signed_decimal, repeat_char, repeat_text, Printable,
};

#[test]
fn numerals_of_u32() {
    assert_eq!(0u32.to_text(), "0");
    assert_eq!(7u32.to_text(), "7");
    assert_eq!(10u32.to_text(), "10");
    assert_eq!(42u32.to_text(), "42");
    assert_eq!(1000u32.to_text(), "1000");
    assert_eq!(u32::MAX.to_text(), "4294967295");
}

#[test]
fn numerals_of_u64_and_usize() {
    assert_eq!(0u64.to_text(), "0");
    assert_eq!(u64::MAX.to_text(), "18446744073709551615");
    assert_eq!(0usize.to_text(), "0");
    assert_eq!(905usize.to_text(), "905");
}

#[test]
fn numerals_agree_with_the_standard_library() {
    for n in 0..2000u32 {
        assert_eq!(n.to_text(), n.to_string());
    }
}

#[test]
fn push_decimal_appends() {
    let mut out = String::from("n = ");
    push_decimal(&mut out, 120);
    assert_eq!(out, "n = 120");
    push_decimal(&mut out, 0);
    assert_eq!(out, "n = 1200");
}

#[test]
fn push_repeated_appends() {
    let mut out = String::from("a");
    push_repeated(&mut out, '-', 3);
    assert_eq!(out, "a---");
    push_repeated(&mut out, '+', 0);
    assert_eq!(out, "a---");
}

#[test]
fn repeat_char_values() {
    assert_eq!(repeat_char(' ', 0), "");
    assert_eq!(repeat_char(' ', 4), "    ");
    assert_eq!(repeat_char('0', 2), "00");
}

#[test]
fn repeat_text_values() {
    assert_eq!(repeat_text("ab", 0), "");
    assert_eq!(repeat_text("ab", 1), "ab");
    assert_eq!(repeat_text("ab", 3), "ababab");
    assert_eq!(repeat_text("", 5), "");
    assert_eq!(repeat_text("  ", 3), "      ");
}

#[test]
fn numerals_of_the_other_unsigned_types() {
    assert_eq!(0u8.to_text(), "0");
    assert_eq!(u8::MAX.to_text(), "255");
    assert_eq!(u16::MAX.to_text(), "65535");
    assert_eq!(usize::MAX.to_text(), usize::MAX.to_string());
    assert_eq!(u128::MAX.to_text(), "340282366920938463463374607431768211455");
}

#[test]
fn numerals_of_signed_types() {
    assert_eq!(0i32.to_text(), "0");
    assert_eq!(7i32.to_text(), "7");
    assert_eq!((-7i32).to_text(), "-7");
    assert_eq!((-120i64).to_text(), "-120");
    assert_eq!(i8::MIN.to_text(), "-128");
    assert_eq!(i8::MAX.to_text(), "127");
    assert_eq!(i16::MIN.to_text(), "-32768");
    assert_eq!(i32::MIN.to_text(), "-2147483648");
    assert_eq!(i32::MAX.to_text(), "2147483647");
    assert_eq!(i64::MIN.to_text(), "-9223372036854775808");
    assert_eq!(isize::MIN.to_text(), isize::MIN.to_string());
    assert_eq!(i128::MIN.to_text(), "-170141183460469231731687303715884105728");
    assert_eq!(i128::MAX.to_text(), "170141183460469231731687303715884105727");
}

#[test]
fn signed_numerals_agree_with_the_standard_library() {
    for n in -2000i32..2000 {
        assert_eq!(n.to_text(), n.to_string());
    }
    for n in i8::MIN..=i8::MAX {
        assert_eq!(n.to_text(), n.to_string());
    }
}

#[test]
fn push_signed_decimal_appends() {
    let mut out = String::from("n = ");
    push_signed_decimal(&mut out, -45);
    assert_eq!(out, "n = -45");
    push_signed_decimal(&mut out, 6);
    assert_eq!(out, "n = -456");
    push_signed_decimal(&mut out, 0);
    assert_eq!(out, "n = -4560");
}
