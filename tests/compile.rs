use jack_compiler::pipeline::{compile, CompilerError};
use jack_compiler::symbols::CompileError;

fn ok(src: &str) -> String {
    match compile(src) {
        Ok(s) => s,
        Err(e) => panic!("compilation failed: {:?}", e),
    }
}

#[test]
fn empty_function_returns_zero() {
    let out = ok("class Main { function void main() { return; } }");
    assert_eq!(out, "function Main.main 0\npush constant 0\nreturn\n");
}

#[test]
fn method_reads_field_through_this() {
    let out = ok("class P { field int x; method int getX() { return x; } }");
    assert_eq!(
        out,
        "function P.getX 0\npush argument 0\npop pointer 0\npush this 0\nreturn\n"
    );
}

#[test]
fn class_function_call_has_no_receiver() {
    let out = ok("class Main { function void main() { do Foo.bar(1,2); return; } }");
    assert_eq!(
        out,
        "function Main.main 0\npush constant 1\npush constant 2\ncall Foo.bar 2\npop temp 0\npush constant 0\nreturn\n"
    );
}

#[test]
fn array_store_goes_through_that() {
    let out = ok(
        "class Main { function void main() { var Array arr; var int i; let arr[i] = 5; return; } }",
    );
    assert_eq!(
        out,
        "function Main.main 2\npush local 1\npush local 0\nadd\npush constant 5\npop temp 0\npop pointer 1\npush temp 0\npop that 0\npush constant 0\nreturn\n"
    );
}

#[test]
fn keyword_constants() {
    let out = ok(
        "class Main { method void m() { var boolean b; let b = true; let b = false; let b = null; let b = this; return; } }",
    );
    assert_eq!(
        out,
        "function Main.m 1\npush argument 0\npop pointer 0\npush constant 1\nneg\npop local 0\npush constant 0\npop local 0\npush constant 0\npop local 0\npush pointer 0\npop local 0\npush constant 0\nreturn\n"
    );
}

#[test]
fn field_and_static_offsets_are_separate() {
    let out = ok(
        "class C { field int a, b; static int s; field int c; static int t; method int get() { let t = c; return s; } }",
    );
    assert_eq!(
        out,
        "function C.get 0\npush argument 0\npop pointer 0\npush this 2\npop static 1\npush static 0\nreturn\n"
    );
}

#[test]
fn method_parameters_start_after_this() {
    let out = ok("class C { method int id(int y, int z) { return z; } function int f(int y, int z) { return y; } }");
    assert_eq!(
        out,
        "function C.id 0\npush argument 0\npop pointer 0\npush argument 2\nreturn\nfunction C.f 0\npush argument 0\nreturn\n"
    );
}

#[test]
fn if_labels_are_unique_across_subroutines() {
    let out = ok(
        "class C { function void f() { if (true) { return; } else { return; } return; } function void g() { if (false) { return; } return; } }",
    );
    assert_eq!(
        out,
        "function C.f 0\npush constant 1\nneg\nnot\nif-goto IF_END1\npush constant 0\nreturn\ngoto ELSE_END1\nlabel IF_END1\npush constant 0\nreturn\nlabel ELSE_END1\npush constant 0\nreturn\n\
function C.g 0\npush constant 0\nnot\nif-goto IF_END2\npush constant 0\nreturn\ngoto ELSE_END2\nlabel IF_END2\nlabel ELSE_END2\npush constant 0\nreturn\n"
    );
}

#[test]
fn nested_ifs_get_distinct_labels() {
    let out = ok("class C { function void f() { if (true) { if (false) { return; } } return; } }");
    assert!(out.contains("if-goto IF_END1\n"));
    assert!(out.contains("if-goto IF_END2\n"));
    assert_eq!(out.matches("label IF_END1\n").count(), 1);
    assert_eq!(out.matches("label IF_END2\n").count(), 1);
    // the inner statement is numbered first
    let inner = out.find("push constant 0\nnot\nif-goto IF_END1").unwrap();
    let outer = out.find("if-goto IF_END2").unwrap();
    assert!(outer < inner);
}

#[test]
fn while_loop_layout() {
    let out = ok("class C { function void f() { var int x; while (x < 3) { let x = x + 1; } return; } }");
    assert_eq!(
        out,
        "function C.f 1\nlabel WHILE_START1\npush local 0\npush constant 3\nlt\nnot\nif-goto WHILE_END1\npush local 0\npush constant 1\nadd\npop local 0\ngoto WHILE_START1\nlabel WHILE_END1\npush constant 0\nreturn\n"
    );
}

#[test]
fn operators_apply_left_to_right() {
    let out = ok("class C { function int f() { return 1 + 2 * 3 - 4 / 2; } }");
    assert_eq!(
        out,
        "function C.f 0\npush constant 1\npush constant 2\nadd\npush constant 3\ncall Math.multiply 2\npush constant 4\nsub\npush constant 2\ncall Math.divide 2\nreturn\n"
    );
}

#[test]
fn remaining_operators() {
    let out = ok("class C { function boolean f(int a) { return (a & 1) | (a > 2) = (a < 3); } }");
    assert_eq!(
        out,
        "function C.f 0\npush argument 0\npush constant 1\nand\npush argument 0\npush constant 2\ngt\nor\npush argument 0\npush constant 3\nlt\neq\nreturn\n"
    );
}

#[test]
fn unary_operators() {
    let out = ok("class C { function int f(int a) { return -a + ~a; } }");
    assert_eq!(
        out,
        "function C.f 0\npush argument 0\nneg\npush argument 0\nnot\nadd\nreturn\n"
    );
}

#[test]
fn string_constant_is_built_by_characters() {
    let out = ok("class C { function void f() { do Output.printString(\"Hi\"); return; } }");
    assert_eq!(
        out,
        "function C.f 0\npush constant 2\ncall String.new 1\npush constant 72\ncall String.appendChar 2\npush constant 105\ncall String.appendChar 2\ncall Output.printString 1\npop temp 0\npush constant 0\nreturn\n"
    );
}

#[test]
fn method_call_on_variable_passes_receiver() {
    let out = ok("class C { function void f() { var Point p; do p.move(3, 4); return; } }");
    assert_eq!(
        out,
        "function C.f 1\npush local 0\npush constant 3\npush constant 4\ncall Point.move 3\npop temp 0\npush constant 0\nreturn\n"
    );
}

#[test]
fn call_on_self_passes_this() {
    let out = ok("class C { method void f() { do draw(7); return; } method int g() { return size(); } }");
    assert_eq!(
        out,
        "function C.f 0\npush argument 0\npop pointer 0\npush pointer 0\npush constant 7\ncall C.draw 2\npop temp 0\npush constant 0\nreturn\n\
function C.g 0\npush argument 0\npop pointer 0\npush pointer 0\ncall C.size 1\nreturn\n"
    );
}

#[test]
fn constructor_allocates_fields() {
    let out = ok("class P { field int x, y; static int n; constructor P new() { return this; } }");
    assert_eq!(
        out,
        "function P.new 0\npush constant 2\ncall Memory.alloc 1\npop pointer 0\npush pointer 0\nreturn\n"
    );
}

#[test]
fn array_read() {
    let out = ok("class C { function int f(Array a) { return a[2]; } }");
    assert_eq!(
        out,
        "function C.f 0\npush constant 2\npush argument 0\nadd\npop pointer 1\npush that 0\nreturn\n"
    );
}

#[test]
fn unresolved_name_is_an_error() {
    assert_eq!(
        compile("class C { function int f() { return y; } }"),
        Err(CompilerError::Compile(CompileError::UnresolvedSymbol))
    );
}

#[test]
fn method_call_on_int_is_an_error() {
    assert_eq!(
        compile("class C { function void f() { var int n; do n.run(); return; } }"),
        Err(CompilerError::Compile(CompileError::NotAnObject))
    );
}

#[test]
fn duplicate_declaration_is_an_error() {
    assert_eq!(
        compile("class C { function void f() { var int a, a; return; } }"),
        Err(CompilerError::Compile(CompileError::DuplicateDeclaration))
    );
}

#[test]
fn integer_constant_pushes_its_value() {
    let out = ok("class C { function int f() { return 007 + 0 + 000 + 120; } }");
    assert_eq!(
        out,
        "function C.f 0\npush constant 7\npush constant 0\nadd\npush constant 0\nadd\npush constant 120\nadd\nreturn\n"
    );
}
