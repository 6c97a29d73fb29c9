//! Syntactic analysis: a recursive-descent parser with explicit precedence
//! levels that consumes the token sequence destructively from the front and
//! builds a single-rooted abstract syntax tree.
//!
//! Precedence, tightest to loosest: unary (`~`, unary `-`), then
//! multiplicative (`* / %`), then additive (`+ -`). Chains of operators at
//! one level fold left-associatively. Parenthesized expressions reset
//! precedence.

use crate::tokenizer::{Token, TokenModel};
use vstd::prelude::*;

verus! {

broadcast use vstd::seq::group_seq_axioms, vstd::std_specs::vec::group_vec_axioms;

/// The root node: an ordered sequence of top-level statements.
#[derive(Debug, PartialEq)]
pub struct Program {
    pub body: Vec<AstType>,
}

/// A binary operation: left child, operator text, right child.
#[derive(Debug, PartialEq)]
pub struct BinaryOp {
    pub left: AstType,
    pub op: String,
    pub right: AstType,
}

/// A unary operation: operator text and one child expression.
#[derive(Debug, PartialEq)]
pub struct UnaryOp {
    pub op: String,
    pub value: AstType,
}

/// A function declaration: name and ordered body statements.
#[derive(Debug, PartialEq)]
pub struct FunctionDeclaration {
    pub name: String,
    pub body: Vec<AstType>,
}

/// A node of the abstract syntax tree. Composite nodes exclusively own
/// their children: the tree has no sharing and no cycles.
#[derive(Debug, PartialEq)]
pub enum AstType {
    Program(Box<Program>),
    Number(String),
    BinaryOp(Box<BinaryOp>),
    UnaryOp(Box<UnaryOp>),
    Char(String),
    Ident(String),
    FunctionDeclaration(Box<FunctionDeclaration>),
}

/// The mathematical value of a tree node, with all text as sequences of
/// characters.
pub ghost enum AstModel {
    Program(Seq<AstModel>),
    Number(Seq<char>),
    BinaryOp(Seq<char>, Box<AstModel>, Box<AstModel>),
    UnaryOp(Seq<char>, Box<AstModel>),
    Char(Seq<char>),
    Ident(Seq<char>),
    FunctionDeclaration(Seq<char>, Seq<AstModel>),
}

/// The model of a tree node.
pub open spec fn ast_view(ast: AstType) -> AstModel
    decreases ast,
{
    match ast {
        AstType::Program(p) => AstModel::Program(asts_view(p.body@)),
        AstType::Number(s) => AstModel::Number(s@),
        AstType::BinaryOp(b) => AstModel::BinaryOp(
            b.op@,
            Box::new(ast_view(b.left)),
            Box::new(ast_view(b.right)),
        ),
        AstType::UnaryOp(u) => AstModel::UnaryOp(u.op@, Box::new(ast_view(u.value))),
        AstType::Char(s) => AstModel::Char(s@),
        AstType::Ident(s) => AstModel::Ident(s@),
        AstType::FunctionDeclaration(f) => AstModel::FunctionDeclaration(
            f.name@,
            asts_view(f.body@),
        ),
    }
}

/// The models of a sequence of tree nodes, in order.
pub open spec fn asts_view(s: Seq<AstType>) -> Seq<AstModel>
    decreases s,
{
    if s.len() == 0 {
        Seq::empty()
    } else {
        seq![ast_view(s[0])] + asts_view(s.drop_first())
    }
}

/// Length and elements of a modelled node sequence.
pub proof fn lemma_asts_view_props(s: Seq<AstType>)
    ensures
        asts_view(s).len() == s.len(),
        forall|i: int| 0 <= i < s.len() ==> asts_view(s)[i] == ast_view(s[i]),
    decreases s.len(),
{
    if s.len() > 0 {
        lemma_asts_view_props(s.drop_first());
    }
}

impl View for AstType {
    type V = AstModel;

    open spec fn view(&self) -> AstModel {
        ast_view(*self)
    }
}

/// A fatal structural error of the parser; every one aborts the compilation
/// of the source unit.
#[derive(Debug, PartialEq, Eq, Clone, Copy)]
pub enum StructuralError {
    /// A function declaration without its name.
    ExpectedIdent,
    /// A function declaration without its opening parenthesis.
    ExpectedOpenParen,
    /// A function declaration without its closing parenthesis, or an
    /// unmatched parenthesis in a primary expression.
    ExpectedClosedParen,
    /// A function declaration without its opening brace.
    ExpectedOpenBrace,
    /// End of input before the closing brace of a block.
    ExpectedClosedBrace,
    /// A token no primary expression starts with.
    UnknownToken,
}

/// The operator text of a math-operator token.
pub open spec fn math_op_text(c: char) -> Seq<char> {
    if c == '+' {
        "+"@
    } else if c == '-' {
        "-"@
    } else if c == '*' {
        "*"@
    } else if c == '/' {
        "/"@
    } else {
        "%"@
    }
}

/// Parse of a primary expression: a character literal, a numeric literal, or
/// a parenthesized expression; any other leading token is fatal.
pub open spec fn spec_parse_primary(ts: Seq<TokenModel>) -> Result<
    (AstModel, Seq<TokenModel>),
    StructuralError,
>
    decreases ts.len(), 1int,
{
    if ts.len() == 0 {
        Err(StructuralError::UnknownToken)
    } else {
        match ts[0] {
            TokenModel::Char(c) => Ok((AstModel::Char(c), ts.drop_first())),
            TokenModel::Number(s) => Ok((AstModel::Number(s), ts.drop_first())),
            TokenModel::OpenParen => match spec_parse_expr(ts.drop_first()) {
                Ok((v, rest)) => if rest.len() > 0 && rest[0] == TokenModel::ClosedParen {
                    Ok((v, rest.drop_first()))
                } else {
                    Err(StructuralError::ExpectedClosedParen)
                },
                Err(e) => Err(e),
            },
            _ => Err(StructuralError::UnknownToken),
        }
    }
}

/// Parse of a unary expression: `~` or unary `-` applied to a primary
/// expression, or a primary expression alone.
pub open spec fn spec_parse_unary(ts: Seq<TokenModel>) -> Result<
    (AstModel, Seq<TokenModel>),
    StructuralError,
>
    decreases ts.len(), 2int,
{
    if ts.len() > 0 && ts[0] == TokenModel::BinaryOperator("~"@) {
        match spec_parse_primary(ts.drop_first()) {
            Ok((v, rest)) => Ok((AstModel::UnaryOp("~"@, Box::new(v)), rest)),
            Err(e) => Err(e),
        }
    } else if ts.len() > 0 && ts[0] == TokenModel::MathOperator('-') {
        match spec_parse_primary(ts.drop_first()) {
            Ok((v, rest)) => Ok((AstModel::UnaryOp("-"@, Box::new(v)), rest)),
            Err(e) => Err(e),
        }
    } else {
        spec_parse_primary(ts)
    }
}

/// Left-associative folding of further `* / %` operands onto `left`.
pub open spec fn spec_parse_mult_rest(left: AstModel, ts: Seq<TokenModel>) -> Result<
    (AstModel, Seq<TokenModel>),
    StructuralError,
>
    decreases ts.len(), 0int,
{
    if ts.len() > 0 && (ts[0] == TokenModel::MathOperator('*') || ts[0]
        == TokenModel::MathOperator('/') || ts[0] == TokenModel::MathOperator('%')) {
        let c = ts[0]->MathOperator_0;
        match spec_parse_unary(ts.drop_first()) {
            Ok((right, rest)) => if rest.len() < ts.len() {
                spec_parse_mult_rest(
                    AstModel::BinaryOp(math_op_text(c), Box::new(left), Box::new(right)),
                    rest,
                )
            } else {
                // an operand parse always consumes at least one token
                Ok((left, ts))
            },
            Err(e) => Err(e),
        }
    } else {
        Ok((left, ts))
    }
}

/// Parse of a multiplicative expression: a unary expression followed by a
/// left-associative chain of `* / %` operands.
pub open spec fn spec_parse_mult(ts: Seq<TokenModel>) -> Result<
    (AstModel, Seq<TokenModel>),
    StructuralError,
>
    decreases ts.len(), 3int,
{
    match spec_parse_unary(ts) {
        Ok((left, rest)) => if rest.len() < ts.len() {
            spec_parse_mult_rest(left, rest)
        } else {
            // an operand parse always consumes at least one token
            Ok((left, rest))
        },
        Err(e) => Err(e),
    }
}

/// Left-associative folding of further `+ -` operands onto `left`.
pub open spec fn spec_parse_add_rest(left: AstModel, ts: Seq<TokenModel>) -> Result<
    (AstModel, Seq<TokenModel>),
    StructuralError,
>
    decreases ts.len(), 0int,
{
    if ts.len() > 0 && (ts[0] == TokenModel::MathOperator('+') || ts[0]
        == TokenModel::MathOperator('-')) {
        let c = ts[0]->MathOperator_0;
        match spec_parse_mult(ts.drop_first()) {
            Ok((right, rest)) => if rest.len() < ts.len() {
                spec_parse_add_rest(
                    AstModel::BinaryOp(math_op_text(c), Box::new(left), Box::new(right)),
                    rest,
                )
            } else {
                // an operand parse always consumes at least one token
                Ok((left, ts))
            },
            Err(e) => Err(e),
        }
    } else {
        Ok((left, ts))
    }
}

/// Parse of an additive expression: a multiplicative expression followed by
/// a left-associative chain of `+ -` operands.
pub open spec fn spec_parse_add(ts: Seq<TokenModel>) -> Result<
    (AstModel, Seq<TokenModel>),
    StructuralError,
>
    decreases ts.len(), 4int,
{
    match spec_parse_mult(ts) {
        Ok((left, rest)) => if rest.len() < ts.len() {
            spec_parse_add_rest(left, rest)
        } else {
            // an operand parse always consumes at least one token
            Ok((left, rest))
        },
        Err(e) => Err(e),
    }
}

/// Parse of an expression: the loosest level is additive.
pub open spec fn spec_parse_expr(ts: Seq<TokenModel>) -> Result<
    (AstModel, Seq<TokenModel>),
    StructuralError,
>
    decreases ts.len(), 5int,
{
    spec_parse_add(ts)
}

/// Parse of a statement: a function declaration, or an expression.
pub open spec fn spec_parse_stmt(ts: Seq<TokenModel>) -> Result<
    (AstModel, Seq<TokenModel>),
    StructuralError,
>
    decreases ts.len(), 6int,
{
    if ts.len() > 0 && ts[0] == TokenModel::FunctionDeclaration {
        if ts.len() < 2 {
            Err(StructuralError::ExpectedIdent)
        } else {
            match ts[1] {
                TokenModel::Ident(name) => if ts.len() < 3 || ts[2] != TokenModel::OpenParen {
                    Err(StructuralError::ExpectedOpenParen)
                } else if ts.len() < 4 || ts[3] != TokenModel::ClosedParen {
                    Err(StructuralError::ExpectedClosedParen)
                } else if ts.len() < 5 || ts[4] != TokenModel::OpenBrace {
                    Err(StructuralError::ExpectedOpenBrace)
                } else {
                    match spec_parse_block(ts.skip(5)) {
                        Ok((body, rest)) => Ok(
                            (AstModel::FunctionDeclaration(name, body), rest),
                        ),
                        Err(e) => Err(e),
                    }
                },
                _ => Err(StructuralError::ExpectedIdent),
            }
        }
    } else {
        spec_parse_expr(ts)
    }
}

/// Parse of a brace-delimited body: statements until the matching closing
/// brace, which is consumed; end of input first is fatal.
pub open spec fn spec_parse_block(ts: Seq<TokenModel>) -> Result<
    (Seq<AstModel>, Seq<TokenModel>),
    StructuralError,
>
    decreases ts.len(), 7int,
{
    if ts.len() == 0 || ts[0] == TokenModel::EOF {
        Err(StructuralError::ExpectedClosedBrace)
    } else if ts[0] == TokenModel::ClosedBrace {
        Ok((Seq::empty(), ts.drop_first()))
    } else {
        match spec_parse_stmt(ts) {
            Ok((node, rest)) => if rest.len() < ts.len() {
                match spec_parse_block(rest) {
                    Ok((nodes, rest2)) => Ok((seq![node] + nodes, rest2)),
                    Err(e) => Err(e),
                }
            } else {
                // a statement parse always consumes at least one token
                Err(StructuralError::ExpectedClosedBrace)
            },
            Err(e) => Err(e),
        }
    }
}

/// Parse of a whole program: statements until the end-of-input marker, which
/// is left in place.
pub open spec fn spec_parse_program(ts: Seq<TokenModel>) -> Result<
    (Seq<AstModel>, Seq<TokenModel>),
    StructuralError,
>
    decreases ts.len(), 7int,
{
    if ts.len() == 0 || ts[0] == TokenModel::EOF {
        Ok((Seq::empty(), ts))
    } else {
        match spec_parse_stmt(ts) {
            Ok((node, rest)) => if rest.len() < ts.len() {
                match spec_parse_program(rest) {
                    Ok((nodes, rest2)) => Ok((seq![node] + nodes, rest2)),
                    Err(e) => Err(e),
                }
            } else {
                // a statement parse always consumes at least one token
                Err(StructuralError::UnknownToken)
            },
            Err(e) => Err(e),
        }
    }
}

/// The abstract state of a parser: its remaining tokens and its cached tree.
pub ghost struct ParserModel {
    pub tokens: Seq<TokenModel>,
    pub ast: Option<AstModel>,
}

/// Result of tree retrieval from a parser state: the cached tree when one
/// exists, else the parse of the remaining tokens wrapped in the program
/// root.
pub open spec fn spec_get_ast(tokens: Seq<TokenModel>, cache: Option<AstModel>) -> Result<
    AstModel,
    StructuralError,
> {
    match cache {
        Some(a) => Ok(a),
        None => match spec_parse_program(tokens) {
            Ok((body, rest)) => Ok(AstModel::Program(body)),
            Err(e) => Err(e),
        },
    }
}

/// Retrieving the tree twice from the same parser yields structurally
/// identical trees: a successful retrieval caches its tree, and a retrieval
/// from a parser whose cache holds that tree returns it unchanged, whatever
/// the token state has become.
pub proof fn lemma_get_ast_idempotent(
    tokens1: Seq<TokenModel>,
    cache: Option<AstModel>,
    tokens2: Seq<TokenModel>,
    a: AstModel,
)
    requires
        spec_get_ast(tokens1, cache) == Ok::<AstModel, StructuralError>(a),
    ensures
        spec_get_ast(tokens2, Some(a)) == Ok::<AstModel, StructuralError>(a),
{
}

/// Parentheses elide without altering the contained expression's shape: a
/// parse of an expression followed by a closing parenthesis, wrapped in an
/// opening parenthesis, parses as a primary expression to the very same
/// tree, with both parentheses consumed.
pub proof fn lemma_paren_elision(ts: Seq<TokenModel>, a: AstModel, rest: Seq<TokenModel>)
    requires
        spec_parse_expr(ts) == Ok::<(AstModel, Seq<TokenModel>), StructuralError>((a, rest)),
        rest.len() > 0,
        rest[0] == TokenModel::ClosedParen,
    ensures
        spec_parse_primary(seq![TokenModel::OpenParen] + ts) == Ok::<
            (AstModel, Seq<TokenModel>),
            StructuralError,
        >((a, rest.drop_first())),
{
    let wrapped = seq![TokenModel::OpenParen] + ts;
    assert(wrapped[0] == TokenModel::OpenParen);
    assert(wrapped.drop_first() =~= ts);
}

/// The recursive-descent parser: the remaining token sequence, consumed
/// front to back, and the tree cached by the first successful retrieval.
pub struct Parser {
    ast: Option<AstType>,
    tokens: Vec<Token>,
}

impl View for Parser {
    type V = ParserModel;

    closed spec fn view(&self) -> ParserModel {
        ParserModel {
            tokens: self.tokens.deep_view(),
            ast: match self.ast {
                Some(a) => Some(ast_view(a)),
                None => None,
            },
        }
    }
}

/// A structurally identical copy of a tree node.
fn deep_copy(ast: &AstType) -> (r: AstType)
    ensures
        r@ == ast@,
    decreases ast,
{
    match ast {
        AstType::Program(p) => AstType::Program(
            Box::new(Program { body: deep_copy_body(&p.body) }),
        ),
        AstType::Number(s) => AstType::Number(s.clone()),
        AstType::BinaryOp(b) => AstType::BinaryOp(
            Box::new(
                BinaryOp { left: deep_copy(&b.left), op: b.op.clone(), right: deep_copy(&b.right) },
            ),
        ),
        AstType::UnaryOp(u) => AstType::UnaryOp(
            Box::new(UnaryOp { op: u.op.clone(), value: deep_copy(&u.value) }),
        ),
        AstType::Char(s) => AstType::Char(s.clone()),
        AstType::Ident(s) => AstType::Ident(s.clone()),
        AstType::FunctionDeclaration(f) => AstType::FunctionDeclaration(
            Box::new(FunctionDeclaration { name: f.name.clone(), body: deep_copy_body(&f.body) }),
        ),
    }
}

/// A structurally identical copy of a sequence of tree nodes.
fn deep_copy_body(v: &Vec<AstType>) -> (r: Vec<AstType>)
    ensures
        asts_view(r@) == asts_view(v@),
    decreases v,
{
    let mut r: Vec<AstType> = Vec::new();
    let mut k: usize = 0;
    while k < v.len()
        invariant
            0 <= k <= v@.len(),
            r@.len() == k,
            forall|j: int| 0 <= j < k ==> ast_view(r@[j]) == ast_view(v@[j]),
        decreases v@.len() - k,
    {
        r.push(deep_copy(&v[k]));
        k = k + 1;
    }
    proof {
        lemma_asts_view_props(r@);
        lemma_asts_view_props(v@);
        assert(asts_view(r@) =~= asts_view(v@));
    }
    r
}

impl Parser {
    /// A parser over the given token sequence, with nothing parsed yet.
    pub fn new(tokens: Vec<Token>) -> (p: Self)
        ensures
            p@.tokens == tokens.deep_view(),
            p@.ast is None,
    {
        return Self { tokens, ast: None };
    }

    /// The front token, which must exist.
    fn at(&self) -> (t: &Token)
        requires
            self@.tokens.len() > 0,
        ensures
            t@ == self@.tokens[0],
    {
        return &self.tokens[0];
    }

    /// Removes and returns the front token.
    fn eat(&mut self) -> (t: Token)
        requires
            old(self)@.tokens.len() > 0,
        ensures
            t@ == old(self)@.tokens[0],
            final(self)@.tokens == old(self)@.tokens.drop_first(),
            final(self)@.ast == old(self)@.ast,
    {
        let t = self.tokens.remove(0);
        proof {
            assert(self.tokens.deep_view() =~= old(self).tokens.deep_view().drop_first());
        }
        return t;
    }

    /// Whether the front token exists and is not the end-of-input marker.
    fn not_eof(&self) -> (r: bool)
        ensures
            r == (self@.tokens.len() > 0 && self@.tokens[0] != TokenModel::EOF),
    {
        if self.tokens.len() == 0 {
            return false;
        }
        return match self.at() {
            Token::EOF => false,
            _ => true,
        };
    }

    /// Retrieves the abstract syntax tree: the tree cached by an earlier
    /// successful retrieval, or else the parse of the remaining tokens. A
    /// successful parse is cached, so repeated retrieval returns a
    /// structurally identical tree without re-parsing.
    pub fn get_ast(&mut self) -> (r: Result<AstType, StructuralError>)
        ensures
            match spec_get_ast(old(self)@.tokens, old(self)@.ast) {
                Ok(a) => r matches Ok(t) && t@ == a && final(self)@.ast == Some(a),
                Err(e) => r == Err::<AstType, StructuralError>(e) && final(self)@.ast is None,
            },
    {
        if let Some(v) = &self.ast {
            let copy = deep_copy(v);
            return Ok(copy);
        }
        let body = match self.parse_program() {
            Ok(b) => b,
            Err(e) => {
                return Err(e);
            }
        };
        let r = AstType::Program(Box::new(Program { body }));
        self.ast = Some(deep_copy(&r));
        return Ok(r);
    }

    /// Statements until the end-of-input marker, which is left in place.
    fn parse_program(&mut self) -> (r: Result<Vec<AstType>, StructuralError>)
        ensures
            final(self)@.ast == old(self)@.ast,
            final(self)@.tokens.len() <= old(self)@.tokens.len(),
            match spec_parse_program(old(self)@.tokens) {
                Ok(p) => r matches Ok(v) && asts_view(v@) == p.0 && final(self)@.tokens == p.1,
                Err(e) => r == Err::<Vec<AstType>, StructuralError>(e),
            },
        decreases self@.tokens.len(), 7int,
    {
        if !self.not_eof() {
            return Ok(Vec::new());
        }
        let node = match self.parse_stmt() {
            Ok(n) => n,
            Err(e) => {
                return Err(e);
            }
        };
        let mut rest = match self.parse_program() {
            Ok(v) => v,
            Err(e) => {
                return Err(e);
            }
        };
        let ghost rest_s = rest@;
        let mut out: Vec<AstType> = Vec::new();
        out.push(node);
        out.append(&mut rest);
        proof {
            lemma_asts_view_props(out@);
            lemma_asts_view_props(rest_s);
            match spec_parse_program(old(self)@.tokens) {
                Ok(p) => {
                    assert(asts_view(out@) =~= p.0);
                }
                Err(_) => {}
            }
        }
        return Ok(out);
    }

    /// Statements until the matching closing brace, which is consumed.
    fn parse_block(&mut self) -> (r: Result<Vec<AstType>, StructuralError>)
        ensures
            final(self)@.ast == old(self)@.ast,
            final(self)@.tokens.len() <= old(self)@.tokens.len(),
            match spec_parse_block(old(self)@.tokens) {
                Ok(p) => r matches Ok(v) && asts_view(v@) == p.0 && final(self)@.tokens == p.1
                    && final(self)@.tokens.len() < old(self)@.tokens.len(),
                Err(e) => r == Err::<Vec<AstType>, StructuralError>(e),
            },
        decreases self@.tokens.len(), 7int,
    {
        if !self.not_eof() {
            return Err(StructuralError::ExpectedClosedBrace);
        }
        let done = match self.at() {
            Token::ClosedBrace => true,
            _ => false,
        };
        if done {
            let _ = self.eat();
            return Ok(Vec::new());
        }
        let node = match self.parse_stmt() {
            Ok(n) => n,
            Err(e) => {
                return Err(e);
            }
        };
        let mut rest = match self.parse_block() {
            Ok(v) => v,
            Err(e) => {
                return Err(e);
            }
        };
        let ghost rest_s = rest@;
        let mut out: Vec<AstType> = Vec::new();
        out.push(node);
        out.append(&mut rest);
        proof {
            lemma_asts_view_props(out@);
            lemma_asts_view_props(rest_s);
            match spec_parse_block(old(self)@.tokens) {
                Ok(p) => {
                    assert(asts_view(out@) =~= p.0);
                }
                Err(_) => {}
            }
        }
        return Ok(out);
    }

    /// A function declaration, or an expression.
    fn parse_stmt(&mut self) -> (r: Result<AstType, StructuralError>)
        ensures
            final(self)@.ast == old(self)@.ast,
            final(self)@.tokens.len() <= old(self)@.tokens.len(),
            match spec_parse_stmt(old(self)@.tokens) {
                Ok(p) => r matches Ok(t) && t@ == p.0 && final(self)@.tokens == p.1 && final(self)@.tokens.len() < old(self)@.tokens.len(),
                Err(e) => r == Err::<AstType, StructuralError>(e),
            },
        decreases self@.tokens.len(), 6int,
    {
        if self.tokens.len() == 0 {
            return self.parse_expr();
        }
        let is_func = match self.at() {
            Token::FunctionDeclaration => true,
            _ => false,
        };
        if !is_func {
            return self.parse_expr();
        }
        let ghost ts = old(self)@.tokens;
        let _ = self.eat();
        proof {
            assert(self@.tokens =~= ts.skip(1));
        }
        if self.tokens.len() == 0 {
            return Err(StructuralError::ExpectedIdent);
        }
        let name = match self.eat() {
            Token::Ident(n) => n,
            _ => {
                return Err(StructuralError::ExpectedIdent);
            }
        };
        proof {
            assert(ts.skip(1)[0] == ts[1]);
            assert(self@.tokens =~= ts.skip(2));
        }
        if self.tokens.len() == 0 {
            return Err(StructuralError::ExpectedOpenParen);
        }
        match self.eat() {
            Token::OpenParen => {}
            _ => {
                return Err(StructuralError::ExpectedOpenParen);
            }
        }
        proof {
            assert(ts.skip(2)[0] == ts[2]);
            assert(self@.tokens =~= ts.skip(3));
        }
        if self.tokens.len() == 0 {
            return Err(StructuralError::ExpectedClosedParen);
        }
        match self.eat() {
            Token::ClosedParen => {}
            _ => {
                return Err(StructuralError::ExpectedClosedParen);
            }
        }
        proof {
            assert(ts.skip(3)[0] == ts[3]);
            assert(self@.tokens =~= ts.skip(4));
        }
        if self.tokens.len() == 0 {
            return Err(StructuralError::ExpectedOpenBrace);
        }
        match self.eat() {
            Token::OpenBrace => {}
            _ => {
                return Err(StructuralError::ExpectedOpenBrace);
            }
        }
        proof {
            assert(ts.skip(4)[0] == ts[4]);
            assert(self@.tokens =~= ts.skip(5));
        }
        let body = match self.parse_block() {
            Ok(v) => v,
            Err(e) => {
                return Err(e);
            }
        };
        return Ok(AstType::FunctionDeclaration(Box::new(FunctionDeclaration { name, body })));
    }

    /// An expression: the loosest level is additive.
    fn parse_expr(&mut self) -> (r: Result<AstType, StructuralError>)
        ensures
            final(self)@.ast == old(self)@.ast,
            final(self)@.tokens.len() <= old(self)@.tokens.len(),
            match spec_parse_expr(old(self)@.tokens) {
                Ok(p) => r matches Ok(t) && t@ == p.0 && final(self)@.tokens == p.1 && final(self)@.tokens.len() < old(self)@.tokens.len(),
                Err(e) => r == Err::<AstType, StructuralError>(e),
            },
        decreases self@.tokens.len(), 5int,
    {
        return self.parse_add_binary_expr();
    }

    /// A multiplicative expression followed by a left-associative chain of
    /// `+ -` operands.
    fn parse_add_binary_expr(&mut self) -> (r: Result<AstType, StructuralError>)
        ensures
            final(self)@.ast == old(self)@.ast,
            final(self)@.tokens.len() <= old(self)@.tokens.len(),
            match spec_parse_add(old(self)@.tokens) {
                Ok(p) => r matches Ok(t) && t@ == p.0 && final(self)@.tokens == p.1 && final(self)@.tokens.len() < old(self)@.tokens.len(),
                Err(e) => r == Err::<AstType, StructuralError>(e),
            },
        decreases self@.tokens.len(), 4int,
    {
        let left = match self.parse_mult_binary_expr() {
            Ok(t) => t,
            Err(e) => {
                return Err(e);
            }
        };
        return self.parse_add_rest(left);
    }

    /// Folds further `+ -` operands onto `left`, left-associatively.
    fn parse_add_rest(&mut self, left: AstType) -> (r: Result<AstType, StructuralError>)
        ensures
            final(self)@.ast == old(self)@.ast,
            final(self)@.tokens.len() <= old(self)@.tokens.len(),
            match spec_parse_add_rest(left@, old(self)@.tokens) {
                Ok(p) => r matches Ok(t) && t@ == p.0 && final(self)@.tokens == p.1,
                Err(e) => r == Err::<AstType, StructuralError>(e),
            },
        decreases self@.tokens.len(), 0int,
    {
        if self.tokens.len() == 0 {
            return Ok(left);
        }
        let c = match self.at() {
            Token::MathOperator(c) => {
                if *c == '+' || *c == '-' {
                    Some(*c)
                } else {
                    None
                }
            }
            _ => None,
        };
        let c = match c {
            Some(c) => c,
            None => {
                return Ok(left);
            }
        };
        let _ = self.eat();
        let right = match self.parse_mult_binary_expr() {
            Ok(t) => t,
            Err(e) => {
                return Err(e);
            }
        };
        let op = if c == '+' {
            "+".to_owned()
        } else {
            "-".to_owned()
        };
        let folded = AstType::BinaryOp(Box::new(BinaryOp { left, op, right }));
        return self.parse_add_rest(folded);
    }

    /// A unary expression followed by a left-associative chain of `* / %`
    /// operands.
    fn parse_mult_binary_expr(&mut self) -> (r: Result<AstType, StructuralError>)
        ensures
            final(self)@.ast == old(self)@.ast,
            final(self)@.tokens.len() <= old(self)@.tokens.len(),
            match spec_parse_mult(old(self)@.tokens) {
                Ok(p) => r matches Ok(t) && t@ == p.0 && final(self)@.tokens == p.1 && final(self)@.tokens.len() < old(self)@.tokens.len(),
                Err(e) => r == Err::<AstType, StructuralError>(e),
            },
        decreases self@.tokens.len(), 3int,
    {
        let left = match self.parse_unary_expr() {
            Ok(t) => t,
            Err(e) => {
                return Err(e);
            }
        };
        return self.parse_mult_rest(left);
    }

    /// Folds further `* / %` operands onto `left`, left-associatively.
    fn parse_mult_rest(&mut self, left: AstType) -> (r: Result<AstType, StructuralError>)
        ensures
            final(self)@.ast == old(self)@.ast,
            final(self)@.tokens.len() <= old(self)@.tokens.len(),
            match spec_parse_mult_rest(left@, old(self)@.tokens) {
                Ok(p) => r matches Ok(t) && t@ == p.0 && final(self)@.tokens == p.1,
                Err(e) => r == Err::<AstType, StructuralError>(e),
            },
        decreases self@.tokens.len(), 0int,
    {
        if self.tokens.len() == 0 {
            return Ok(left);
        }
        let c = match self.at() {
            Token::MathOperator(c) => {
                if *c == '*' || *c == '/' || *c == '%' {
                    Some(*c)
                } else {
                    None
                }
            }
            _ => None,
        };
        let c = match c {
            Some(c) => c,
            None => {
                return Ok(left);
            }
        };
        let _ = self.eat();
        let right = match self.parse_unary_expr() {
            Ok(t) => t,
            Err(e) => {
                return Err(e);
            }
        };
        let op = if c == '*' {
            "*".to_owned()
        } else if c == '/' {
            "/".to_owned()
        } else {
            "%".to_owned()
        };
        let folded = AstType::BinaryOp(Box::new(BinaryOp { left, op, right }));
        return self.parse_mult_rest(folded);
    }

    /// `~` or unary `-` applied to a primary expression, or a primary
    /// expression alone.
    fn parse_unary_expr(&mut self) -> (r: Result<AstType, StructuralError>)
        ensures
            final(self)@.ast == old(self)@.ast,
            final(self)@.tokens.len() <= old(self)@.tokens.len(),
            match spec_parse_unary(old(self)@.tokens) {
                Ok(p) => r matches Ok(t) && t@ == p.0 && final(self)@.tokens == p.1 && final(self)@.tokens.len() < old(self)@.tokens.len(),
                Err(e) => r == Err::<AstType, StructuralError>(e),
            },
        decreases self@.tokens.len(), 2int,
    {
        if self.tokens.len() == 0 {
            return self.parse_primary_expr();
        }
        let is_tilde = match self.at() {
            Token::BinaryOperator(s) => *s == "~".to_owned(),
            _ => false,
        };
        if is_tilde {
            let _ = self.eat();
            let value = match self.parse_primary_expr() {
                Ok(t) => t,
                Err(e) => {
                    return Err(e);
                }
            };
            return Ok(AstType::UnaryOp(Box::new(UnaryOp { op: "~".to_owned(), value })));
        }
        let is_minus = match self.at() {
            Token::MathOperator(c) => *c == '-',
            _ => false,
        };
        if is_minus {
            let _ = self.eat();
            let value = match self.parse_primary_expr() {
                Ok(t) => t,
                Err(e) => {
                    return Err(e);
                }
            };
            return Ok(AstType::UnaryOp(Box::new(UnaryOp { op: "-".to_owned(), value })));
        }
        return self.parse_primary_expr();
    }

    /// A character literal, a numeric literal, or a parenthesized
    /// expression.
    fn parse_primary_expr(&mut self) -> (r: Result<AstType, StructuralError>)
        ensures
            final(self)@.ast == old(self)@.ast,
            final(self)@.tokens.len() <= old(self)@.tokens.len(),
            match spec_parse_primary(old(self)@.tokens) {
                Ok(p) => r matches Ok(t) && t@ == p.0 && final(self)@.tokens == p.1 && final(self)@.tokens.len() < old(self)@.tokens.len(),
                Err(e) => r == Err::<AstType, StructuralError>(e),
            },
        decreases self@.tokens.len(), 1int,
    {
        if self.tokens.len() == 0 {
            return Err(StructuralError::UnknownToken);
        }
        match self.eat() {
            Token::Char(c) => Ok(AstType::Char(c)),
            Token::Number(s) => Ok(AstType::Number(s)),
            Token::OpenParen => {
                let value = match self.parse_expr() {
                    Ok(t) => t,
                    Err(e) => {
                        return Err(e);
                    }
                };
                if self.tokens.len() == 0 {
                    return Err(StructuralError::ExpectedClosedParen);
                }
                match self.eat() {
                    Token::ClosedParen => Ok(value),
                    _ => Err(StructuralError::ExpectedClosedParen),
                }
            }
            _ => Err(StructuralError::UnknownToken),
        }
    }
}

} // verus!
