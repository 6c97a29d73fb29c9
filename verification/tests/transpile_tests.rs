use lutc::ast::Parser;
use lutc::tokenizer::tokenize;
use lutc::transpile::transpile;

fn compile(src: &str) -> String {
    let tokens = tokenize(src.to_string()).expect("tokenization should succeed");
    let ast = Parser::new(tokens).get_ast().expect("parse should succeed");
    transpile(ast)
}

#[test]
fn binary_expression_renders_parenthesized_infix() {
    assert_eq!(compile("2*3+4"), "((2*3)+4)\n");
}

#[test]
fn unary_expression_renders_parenthesized_prefix() {
    assert_eq!(compile("~5"), "(~5)\n");
}

#[test]
fn leaves_pass_through_unchanged() {
    assert_eq!(compile("12.5"), "12.5\n");
    assert_eq!(compile("'x'"), "x\n");
}

#[test]
fn statements_render_in_order_with_newlines() {
    assert_eq!(compile("1 2 3"), "1\n2\n3\n");
}

#[test]
fn function_declaration_renders_target_skeleton() {
    let out = compile("func main() { 1+1 }");
    assert_eq!(out, "\nfn main () {\n    (1+1)\n\n}\n\n");
    assert!(out.contains("main"));
    assert!(out.contains("()"));
    assert!(out.contains("(1+1)"));
}

#[test]
fn parenthesized_source_renders_like_plain_source() {
    assert_eq!(compile("(1+2)"), compile("1+2"));
}
