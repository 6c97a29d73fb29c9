use lutc::ast::{AstType, BinaryOp, FunctionDeclaration, Parser, Program, StructuralError, UnaryOp};
use lutc::tokenizer::tokenize;

fn parse(src: &str) -> Result<AstType, StructuralError> {
    let tokens = tokenize(src.to_string()).expect("tokenization should succeed");
    Parser::new(tokens).get_ast()
}

fn num(text: &str) -> AstType {
    AstType::Number(text.to_string())
}

fn binop(left: AstType, op: &str, right: AstType) -> AstType {
    AstType::BinaryOp(Box::new(BinaryOp {
        left,
        op: op.to_string(),
        right,
    }))
}

fn program(body: Vec<AstType>) -> AstType {
    AstType::Program(Box::new(Program { body }))
}

#[test]
fn multiplication_binds_tighter_on_the_left() {
    let ast = parse("2*3+4").unwrap();
    let expected = program(vec![binop(binop(num("2"), "*", num("3")), "+", num("4"))]);
    assert_eq!(ast, expected);
}

#[test]
fn multiplication_binds_tighter_on_the_right() {
    let ast = parse("2+3*4").unwrap();
    let expected = program(vec![binop(num("2"), "+", binop(num("3"), "*", num("4")))]);
    assert_eq!(ast, expected);
}

#[test]
fn addition_chains_fold_left() {
    let ast = parse("1+2+3").unwrap();
    let expected = program(vec![binop(binop(num("1"), "+", num("2")), "+", num("3"))]);
    assert_eq!(ast, expected);
}

#[test]
fn multiplication_chains_fold_left() {
    let ast = parse("8/4/2").unwrap();
    let expected = program(vec![binop(binop(num("8"), "/", num("4")), "/", num("2"))]);
    assert_eq!(ast, expected);
}

#[test]
fn parentheses_elide_without_changing_shape() {
    assert_eq!(parse("(1+2)").unwrap(), parse("1+2").unwrap());
}

#[test]
fn unterminated_parenthesis_is_fatal() {
    assert_eq!(parse("(1+2"), Err(StructuralError::ExpectedClosedParen));
}

#[test]
fn get_ast_twice_returns_identical_trees() {
    let tokens = tokenize("2*3+4".to_string()).unwrap();
    let mut parser = Parser::new(tokens);
    let first = parser.get_ast();
    let second = parser.get_ast();
    assert!(first.is_ok());
    assert_eq!(first, second);
}

#[test]
fn unary_tilde() {
    let ast = parse("~5").unwrap();
    let expected = program(vec![AstType::UnaryOp(Box::new(UnaryOp {
        op: "~".to_string(),
        value: num("5"),
    }))]);
    assert_eq!(ast, expected);
}

#[test]
fn unary_minus() {
    let ast = parse("-5").unwrap();
    let expected = program(vec![AstType::UnaryOp(Box::new(UnaryOp {
        op: "-".to_string(),
        value: num("5"),
    }))]);
    assert_eq!(ast, expected);
}

#[test]
fn char_literal_is_primary() {
    let ast = parse("'a'").unwrap();
    assert_eq!(ast, program(vec![AstType::Char("a".to_string())]));
}

#[test]
fn empty_source_is_empty_program() {
    assert_eq!(parse("").unwrap(), program(vec![]));
}

#[test]
fn function_declaration_tree() {
    let ast = parse("func main() { 1+1 }").unwrap();
    let expected = program(vec![AstType::FunctionDeclaration(Box::new(
        FunctionDeclaration {
            name: "main".to_string(),
            body: vec![binop(num("1"), "+", num("1"))],
        },
    ))]);
    assert_eq!(ast, expected);
}

#[test]
fn function_without_name_is_fatal() {
    assert_eq!(parse("func ()"), Err(StructuralError::ExpectedIdent));
}

#[test]
fn function_without_open_paren_is_fatal() {
    assert_eq!(parse("func main)"), Err(StructuralError::ExpectedOpenParen));
}

#[test]
fn function_without_closed_paren_is_fatal() {
    assert_eq!(
        parse("func main(}"),
        Err(StructuralError::ExpectedClosedParen)
    );
}

#[test]
fn function_without_open_brace_is_fatal() {
    assert_eq!(
        parse("func main() 1"),
        Err(StructuralError::ExpectedOpenBrace)
    );
}

#[test]
fn unterminated_block_is_fatal() {
    assert_eq!(
        parse("func main() {"),
        Err(StructuralError::ExpectedClosedBrace)
    );
}

#[test]
fn unexpected_leading_token_is_fatal() {
    assert_eq!(parse("*"), Err(StructuralError::UnknownToken));
}
