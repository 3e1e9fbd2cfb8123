use turbopuffer_apigen::codegen::shared::{lower_camel_case, snake_to_camel_case};

#[test]
fn lower_camel_case_lowers_the_leading_run() {
    assert_eq!(lower_camel_case("FooBar"), "fooBar");
    assert_eq!(lower_camel_case("HTTPStatus"), "httpstatus");
    assert_eq!(lower_camel_case("ABc"), "abc");
    assert_eq!(lower_camel_case("already"), "already");
    assert_eq!(lower_camel_case(""), "");
    assert_eq!(lower_camel_case("A1B"), "a1B");
}

#[test]
fn snake_to_camel_case_capitalizes_segments() {
    assert_eq!(snake_to_camel_case("foo_bar"), "FooBar");
    assert_eq!(snake_to_camel_case("$and"), "And");
    assert_eq!(snake_to_camel_case("$$a_b_c"), "ABC");
    assert_eq!(snake_to_camel_case("a__b"), "AB");
    assert_eq!(snake_to_camel_case("a$b"), "A$b");
    assert_eq!(snake_to_camel_case(""), "");
}
