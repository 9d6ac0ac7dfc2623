use walc::codegen::lambda::code::{single, CodeBuilder};
use walc::codegen::lambda::number::NumberGenerator;
use walc::codegen::lambda::{
    abs, apply, bit, let_in, rec, select, var, Expr, LetExprBuilder,
};
use walc::codegen::text::{dec_name, dec_string, hex_lower_name, hex_upper_name, str_eq};

#[test]
fn renders_application_with_space_between_names_only() {
    let e = apply(var("f"), vec![var("x"), var("y")]);
    assert_eq!(e.to_text(), "((f x)y)");
}

#[test]
fn renders_nested_abstractions() {
    let e = abs(&["x", "y"], var("x"));
    assert_eq!(e.to_text(), "[x[y x]]");
}

#[test]
fn renders_let_as_applied_abstraction() {
    let e = let_in("x", var("v"), var("x"));
    assert_eq!(e.to_text(), "([x x]v)");
}

#[test]
fn select_applies_the_bit_to_both_branches() {
    let e = select(bit(true), var("a"), var("b"));
    assert_eq!(e.to_text(), "((1 a)b)");
}

#[test]
fn rec_applies_a_function_to_itself() {
    assert_eq!(rec(var("f")).to_text(), "(f f)");
}

#[test]
fn let_builder_nests_definitions_in_order() {
    let mut b = LetExprBuilder::new();
    b.def("a", var("x"));
    b.def("b", var("a"));
    let e = b.build_in(var("b"));
    assert_eq!(e.to_text(), "([a([b b]a)]x)");
}

#[test]
fn duplicate_keeps_the_expression() {
    let e = apply(var("f"), vec![abs(&["x"], var("x"))]);
    assert_eq!(e.duplicate().to_text(), e.to_text());
}

#[test]
fn number_names() {
    assert_eq!(dec_name("addr", 12), "addr12");
    assert_eq!(hex_lower_name("p", 255), "pff");
    assert_eq!(hex_upper_name(255, "b"), "FFb");
    assert_eq!(dec_string(0), "0");
    assert!(str_eq("walc", "walc"));
    assert!(!str_eq("walc", "wasm"));
}

#[test]
fn constants_are_named_by_their_hexadecimal_value() {
    let mut g = NumberGenerator::new();
    assert_eq!(g.i32_const(5).to_text(), "5i");
    assert_eq!(g.byte_const(0).to_text(), "0b");
    assert_eq!(g.byte_const(0xab).to_text(), "ABb");
    assert_eq!(g.id_const(0x1f).to_text(), "1Fx");
    assert_eq!(g.i64_const(255).to_text(), "FFI");
}

#[test]
fn constants_are_defined_once_in_increasing_order() {
    let mut g = NumberGenerator::new();
    g.byte_const(3);
    g.byte_const(1);
    g.byte_const(3);
    let mut b = LetExprBuilder::new();
    g.generate(&mut b);
    let text = b.build_in(var("z")).to_text();
    // Each byte is defined once, the smaller first
    assert_eq!(text.matches("[3b").count(), 1);
    assert_eq!(text.matches("[1b").count(), 1);
    assert!(text.find("[1b").unwrap() < text.find("[3b").unwrap());
}

#[test]
fn labels_are_numbered_from_zero() {
    let mut code = CodeBuilder::new();
    let l0 = code.make_label();
    let l1 = code.make_label();
    assert_eq!(l0.to_text(), "_0");
    assert_eq!(l1.to_text(), "_1");
    assert_ne!(l0.to_text(), l1.to_text());
}

#[test]
fn code_chain_binds_labels_to_what_follows_them() {
    let mut code = CodeBuilder::new();
    let label = code.make_label();
    code.push(var("A"));
    code.push_label(label);
    code.push(var("B"));
    assert_eq!(code.build().to_text(), "([_0(A _0)](B _))");
}

#[test]
fn single_instruction_code() {
    assert_eq!(single(var("Exit")).to_text(), "(Exit _)");
}

#[test]
fn empty_code_is_unreachable() {
    let code = CodeBuilder::new();
    let e: Expr = code.build();
    assert_eq!(e.to_text(), "_");
}
