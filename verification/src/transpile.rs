//! Code emission: a structural pretty-printer that renders each tree node as
//! target-language text, one rendering rule per node kind. No semantic
//! transformation occurs; stored text passes through unchanged.

use crate::ast::{ast_view, asts_view, lemma_asts_view_props};
use crate::ast::{AstModel, AstType, BinaryOp, FunctionDeclaration, Program, UnaryOp};
use vstd::prelude::*;
use vstd::string::StringExecFns;

verus! {

broadcast use vstd::seq::group_seq_axioms, vstd::std_specs::vec::group_vec_axioms;

/// The rendering of one node: program bodies concatenate their statements,
/// leaves pass their stored text through unchanged, operations render as
/// parenthesized prefix or infix text, and a function declaration renders as
/// a target-language skeleton around its body.
pub open spec fn spec_eval(ast: AstModel) -> Seq<char>
    decreases ast,
{
    match ast {
        AstModel::Program(body) => spec_eval_body(body),
        AstModel::Char(v) => v,
        AstModel::Number(v) => v,
        AstModel::UnaryOp(op, value) => "("@ + op + spec_eval(*value) + ")"@,
        AstModel::BinaryOp(op, left, right) => "("@ + spec_eval(*left) + op + spec_eval(*right)
            + ")"@,
        AstModel::Ident(v) => v,
        AstModel::FunctionDeclaration(name, body) => "\nfn "@ + name + " () {\n    "@
            + spec_eval_body(body) + "\n}\n"@,
    }
}

/// The rendering of a sequence of statements, each followed by a newline, in
/// order.
pub open spec fn spec_eval_body(body: Seq<AstModel>) -> Seq<char>
    decreases body,
{
    if body.len() == 0 {
        Seq::empty()
    } else {
        spec_eval(body[0]) + "\n"@ + spec_eval_body(body.drop_first())
    }
}

/// Renders the tree as target text.
pub fn transpile(program: AstType) -> (r: String)
    ensures
        r@ == spec_eval(program@),
{
    return eval(program);
}

/// Renders one node as target text.
pub fn eval(ast: AstType) -> (r: String)
    ensures
        r@ == spec_eval(ast@),
{
    return eval_ast(&ast);
}

fn eval_ast(ast: &AstType) -> (r: String)
    ensures
        r@ == spec_eval(ast@),
    decreases ast,
{
    match ast {
        AstType::Program(v) => eval_program(v),
        AstType::Char(v) => v.clone(),
        AstType::Number(v) => v.clone(),
        AstType::UnaryOp(v) => eval_unary_op(v),
        AstType::BinaryOp(v) => eval_binary_op(v),
        AstType::Ident(v) => v.clone(),
        AstType::FunctionDeclaration(v) => eval_function_declare(v),
    }
}

fn eval_function_declare(func: &FunctionDeclaration) -> (r: String)
    ensures
        r@ == spec_eval(AstModel::FunctionDeclaration(func.name@, asts_view(func.body@))),
    decreases func,
{
    let mut s = "\nfn ".to_owned();
    s.append(func.name.as_str());
    s.append(" () {\n    ");
    let body = eval_body(&func.body);
    s.append(body.as_str());
    s.append("\n}\n");
    return s;
}

fn eval_binary_op(op: &BinaryOp) -> (r: String)
    ensures
        r@ == spec_eval(
            AstModel::BinaryOp(op.op@, Box::new(ast_view(op.left)), Box::new(ast_view(op.right))),
        ),
    decreases op,
{
    let mut s = "(".to_owned();
    let left = eval_ast(&op.left);
    s.append(left.as_str());
    s.append(op.op.as_str());
    let right = eval_ast(&op.right);
    s.append(right.as_str());
    s.append(")");
    return s;
}

fn eval_unary_op(op: &UnaryOp) -> (r: String)
    ensures
        r@ == spec_eval(AstModel::UnaryOp(op.op@, Box::new(ast_view(op.value)))),
    decreases op,
{
    let mut s = "(".to_owned();
    s.append(op.op.as_str());
    let value = eval_ast(&op.value);
    s.append(value.as_str());
    s.append(")");
    return s;
}

fn eval_program(program: &Program) -> (r: String)
    ensures
        r@ == spec_eval_body(asts_view(program.body@)),
    decreases program,
{
    return eval_body(&program.body);
}

fn eval_body(vec: &Vec<AstType>) -> (r: String)
    ensures
        r@ == spec_eval_body(asts_view(vec@)),
    decreases vec,
{
    let mut s = String::new();
    let mut k: usize = 0;
    proof {
        assert(vec@.skip(0) =~= vec@);
        assert(s@ + spec_eval_body(asts_view(vec@)) =~= spec_eval_body(asts_view(vec@)));
    }
    while k < vec.len()
        invariant
            0 <= k <= vec@.len(),
            spec_eval_body(asts_view(vec@)) == s@ + spec_eval_body(
                asts_view(vec@.skip(k as int)),
            ),
        decreases vec@.len() - k,
    {
        let piece = eval_ast(&vec[k]);
        s.append(piece.as_str());
        s.append("\n");
        proof {
            lemma_asts_view_props(vec@.skip(k as int));
            lemma_asts_view_props(vec@.skip(k + 1 as int));
            assert(vec@.skip(k as int)[0] == vec@[k as int]);
            assert(vec@.skip(k as int).drop_first() =~= vec@.skip(k + 1 as int));
            let av = asts_view(vec@.skip(k as int));
            assert(av.drop_first() =~= asts_view(vec@.skip(k + 1 as int)));
            assert(spec_eval_body(asts_view(vec@)) =~= s@ + spec_eval_body(
                asts_view(vec@.skip(k + 1 as int)),
            ));
        }
        k = k + 1;
    }
    proof {
        assert(vec@.skip(vec@.len() as int).len() == 0);
        assert(s@ =~= spec_eval_body(asts_view(vec@)));
    }
    return s;
}

} // verus!
