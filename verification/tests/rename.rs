use protocol_core::intermediate::{convert_ident, IdentStyle};

#[test]
fn test_convert_ident_pascal_letter() {
    assert_eq!(&convert_ident("x", IdentStyle::Pascal), "X");
}

#[test]
fn test_convert_ident_pascal_word() {
    assert_eq!(&convert_ident("test", IdentStyle::Pascal), "Test");
}

#[test]
fn test_convert_ident_pascal_words() {
    assert_eq!(&convert_ident("this_is_a_test", IdentStyle::Pascal), "ThisIsATest");
}

#[test]
fn test_convert_ident_camel_letter() {
    assert_eq!(&convert_ident("x", IdentStyle::Camel), "x");
}

#[test]
fn test_convert_ident_camel_word() {
    assert_eq!(&convert_ident("test", IdentStyle::Camel), "test");
}

#[test]
fn test_convert_ident_camel_words() {
    assert_eq!(&convert_ident("this_is_a_test", IdentStyle::Camel), "thisIsATest");
}

#[test]
fn test_convert_ident_underscore() {
    assert_eq!(&convert_ident("this_is_a_test", IdentStyle::Underscore), "this_is_a_test");
}

#[test]
fn convert_ident_unicode_uppercase() {
    assert_eq!(&convert_ident("foo_bar", IdentStyle::Pascal), "FooBar");
    assert_eq!(&convert_ident("a_b_c", IdentStyle::Camel), "aBC");
}
