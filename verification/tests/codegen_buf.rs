use turbopuffer_apigen::util::codegen_buf::CodegenBuf;

#[test]
fn new_buffer_is_empty() {
    assert_eq!(CodegenBuf::new().into_string(), "");
    assert_eq!(CodegenBuf::default().into_string(), "");
}

#[test]
fn write_appends_directly() {
    let mut buf = CodegenBuf::new();
    buf.indent();
    buf.write("a");
    buf.write("b");
    assert_eq!(buf.into_string(), "ab");
}

#[test]
fn writeln_indents_by_four_spaces() {
    let mut buf = CodegenBuf::new();
    buf.writeln("top");
    buf.indent();
    buf.writeln("one");
    buf.indent();
    buf.writeln("two");
    buf.unindent();
    buf.unindent();
    buf.writeln("");
    assert_eq!(buf.into_string(), "top\n    one\n        two\n\n");
}

#[test]
fn start_and_end_line() {
    let mut buf = CodegenBuf::with_indent("\t");
    buf.indent();
    buf.indent();
    buf.start_line();
    buf.write("x");
    buf.end_line();
    assert_eq!(buf.into_string(), "\t\tx\n");
}

#[test]
fn write_block_wraps_in_braces() {
    let mut buf = CodegenBuf::new();
    let r = buf.write_block("fn f()", |buf| {
        buf.writeln("body();");
        buf.write_block("", |buf| buf.writeln("inner();"));
        7
    });
    assert_eq!(r, 7);
    buf.writeln("after");
    assert_eq!(
        buf.into_string(),
        "fn f() {\n    body();\n    {\n        inner();\n    }\n}\nafter\n"
    );
}

#[test]
fn open_and_close_block() {
    let mut buf = CodegenBuf::with_indent("  ");
    buf.open_block("struct");
    buf.writeln("x int");
    buf.close_block();
    assert_eq!(buf.into_string(), "struct {\n  x int\n}\n");
}

#[test]
fn clone_keeps_text_and_depth() {
    let mut buf = CodegenBuf::new();
    buf.indent();
    buf.writeln("a");
    let mut copy = buf.clone();
    copy.writeln("b");
    assert_eq!(buf.into_string(), "    a\n");
    assert_eq!(copy.into_string(), "    a\n    b\n");
}
