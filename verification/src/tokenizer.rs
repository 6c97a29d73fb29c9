//! Lexical analysis: a single left-to-right scan that turns source text into
//! an ordered sequence of tokens terminated by an end-of-input marker.
//!
//! Character classification is over the ASCII classes: whitespace, digits,
//! letters and underscore, and ASCII punctuation. Any other character is
//! skipped silently with the cursor advancing by one.

use vstd::prelude::*;
use vstd::string::StrSliceExecFns;

verus! {

/// One lexical unit of the source language.
#[derive(Debug, PartialEq, Eq)]
pub enum Token {
    /// One of `+ - * / %`.
    MathOperator(char),
    /// One of `~ ^ & | >> <<`, stored as text.
    BinaryOperator(String),
    OpenParen,
    ClosedParen,
    OpenBrace,
    ClosedBrace,
    Ident(String),
    /// Variable-declaration marker; `true` means constant, `false` mutable.
    VarDeclaration(bool),
    FunctionDeclaration,
    /// String literal text with escape pairs preserved literally.
    Str(String),
    /// Character literal text: one raw character or one backslash-escape pair.
    Char(String),
    /// Raw numeric text, with at most one decimal point.
    Number(String),
    Dot,
    EOF,
}

/// The mathematical value of a token: the same tag with its text as a
/// sequence of characters.
pub ghost enum TokenModel {
    MathOperator(char),
    BinaryOperator(Seq<char>),
    OpenParen,
    ClosedParen,
    OpenBrace,
    ClosedBrace,
    Ident(Seq<char>),
    VarDeclaration(bool),
    FunctionDeclaration,
    Str(Seq<char>),
    Char(Seq<char>),
    Number(Seq<char>),
    Dot,
    EOF,
}

impl View for Token {
    type V = TokenModel;

    open spec fn view(&self) -> TokenModel {
        match self {
            Token::MathOperator(c) => TokenModel::MathOperator(*c),
            Token::BinaryOperator(s) => TokenModel::BinaryOperator(s@),
            Token::OpenParen => TokenModel::OpenParen,
            Token::ClosedParen => TokenModel::ClosedParen,
            Token::OpenBrace => TokenModel::OpenBrace,
            Token::ClosedBrace => TokenModel::ClosedBrace,
            Token::Ident(s) => TokenModel::Ident(s@),
            Token::VarDeclaration(b) => TokenModel::VarDeclaration(*b),
            Token::FunctionDeclaration => TokenModel::FunctionDeclaration,
            Token::Str(s) => TokenModel::Str(s@),
            Token::Char(s) => TokenModel::Char(s@),
            Token::Number(s) => TokenModel::Number(s@),
            Token::Dot => TokenModel::Dot,
            Token::EOF => TokenModel::EOF,
        }
    }
}

impl DeepView for Token {
    type V = TokenModel;

    open spec fn deep_view(&self) -> TokenModel {
        self.view()
    }
}

/// A fatal lexical error; every one aborts the compilation of the source unit.
#[derive(Debug, PartialEq, Eq, Clone, Copy)]
pub enum LexicalError {
    /// A numeric literal with a second decimal point.
    MalformedNumber,
    /// A punctuation sequence the symbol trie cannot resolve.
    UnknownSymbol,
    /// A string literal that reaches end of input before its closing quote.
    UnterminatedString,
    /// A character literal that reaches end of input before its closing quote.
    UnterminatedChar,
    /// A character literal that is empty or whose closing quote is missing.
    MalformedChar,
}

impl Token {
    /// The short tag name of the token kind.
    pub fn to_str(&self) -> (r: &str)
        ensures
            r@ == spec_token_name(self@),
    {
        match self {
            Token::MathOperator(_) => "Math",
            Token::OpenParen => "(",
            Token::ClosedParen => ")",
            Token::Ident(_) => "Ident",
            Token::VarDeclaration(_) => "Var",
            Token::FunctionDeclaration => "Function",
            Token::Str(_) => "String",
            Token::Char(_) => "Char",
            Token::Number(_) => "Number",
            Token::BinaryOperator(_) => "Binary",
            Token::OpenBrace => "{",
            Token::ClosedBrace => "}",
            Token::EOF => "EOF",
            Token::Dot => ".",
        }
    }
}

/// The tag name of each token kind.
pub open spec fn spec_token_name(t: TokenModel) -> Seq<char> {
    match t {
        TokenModel::MathOperator(_) => "Math"@,
        TokenModel::OpenParen => "("@,
        TokenModel::ClosedParen => ")"@,
        TokenModel::Ident(_) => "Ident"@,
        TokenModel::VarDeclaration(_) => "Var"@,
        TokenModel::FunctionDeclaration => "Function"@,
        TokenModel::Str(_) => "String"@,
        TokenModel::Char(_) => "Char"@,
        TokenModel::Number(_) => "Number"@,
        TokenModel::BinaryOperator(_) => "Binary"@,
        TokenModel::OpenBrace => "{"@,
        TokenModel::ClosedBrace => "}"@,
        TokenModel::EOF => "EOF"@,
        TokenModel::Dot => "."@,
    }
}

/// Whitespace: the ASCII whitespace characters.
pub open spec fn is_space_char(c: char) -> bool {
    c == ' ' || c == '\t' || c == '\n' || c == '\r' || c == '\u{b}' || c == '\u{c}'
}

/// A decimal digit.
pub open spec fn is_digit_char(c: char) -> bool {
    '0' <= c && c <= '9'
}

/// A character that may start an identifier run: a letter or underscore.
pub open spec fn is_word_start_char(c: char) -> bool {
    ('a' <= c && c <= 'z') || ('A' <= c && c <= 'Z') || c == '_'
}

/// A character that may continue an identifier run.
pub open spec fn is_word_char(c: char) -> bool {
    is_word_start_char(c) || is_digit_char(c)
}

/// ASCII punctuation, the class resolved through the symbol trie.
pub open spec fn is_punct_char(c: char) -> bool {
    ('!' <= c && c <= '/') || (':' <= c && c <= '@') || ('[' <= c && c <= '`')
        || ('{' <= c && c <= '~')
}

fn space_char(c: char) -> (r: bool)
    ensures
        r == is_space_char(c),
{
    c == ' ' || c == '\t' || c == '\n' || c == '\r' || c == '\u{b}' || c == '\u{c}'
}

fn digit_char(c: char) -> (r: bool)
    ensures
        r == is_digit_char(c),
{
    '0' <= c && c <= '9'
}

fn word_start_char(c: char) -> (r: bool)
    ensures
        r == is_word_start_char(c),
{
    ('a' <= c && c <= 'z') || ('A' <= c && c <= 'Z') || c == '_'
}

fn word_char(c: char) -> (r: bool)
    ensures
        r == is_word_char(c),
{
    word_start_char(c) || digit_char(c)
}

fn punct_char(c: char) -> (r: bool)
    ensures
        r == is_punct_char(c),
{
    ('!' <= c && c <= '/') || (':' <= c && c <= '@') || ('[' <= c && c <= '`')
        || ('{' <= c && c <= '~')
}

/// `p` occurs in `s` starting at position `i`.
pub open spec fn contains_at(s: Seq<char>, p: Seq<char>, i: int) -> bool {
    0 <= i && i + p.len() <= s.len() && s.subrange(i, i + p.len()) == p
}

/// `p` occurs somewhere in `s`.
pub open spec fn contains_substr(s: Seq<char>, p: Seq<char>) -> bool {
    exists|i: int| contains_at(s, p, i)
}

/// Relies on `regex::Regex::new` and `regex::Regex::is_match`: the pattern
/// `f(?:un(?:c(?:tion)?)?|n)` is valid, so `new` returns `Ok`, and `is_match`
/// reports whether a match of it starts anywhere in the text. The pattern
/// matches exactly the spellings `fn`, `fun`, `func` and `function`, and the
/// longer three all begin with `fun`, so a match anywhere is an occurrence of
/// `fun` or of `fn`.
#[verifier::external_body]
fn matches_function_keyword(s: &str) -> (r: bool)
    ensures
        r == (contains_substr(s@, "fun"@) || contains_substr(s@, "fn"@)),
{
    let re = regex::Regex::new(r"f(?:un(?:c(?:tion)?)?|n)").unwrap();
    re.is_match(s)
}

/// Classification of a collected identifier run: function-declaration
/// spellings first, then the variable-declaration keywords, then a plain
/// identifier.
pub open spec fn spec_keyword(w: Seq<char>) -> TokenModel {
    if contains_substr(w, "fun"@) || contains_substr(w, "fn"@) {
        TokenModel::FunctionDeclaration
    } else if w == "let"@ {
        TokenModel::VarDeclaration(false)
    } else if w == "const"@ {
        TokenModel::VarDeclaration(true)
    } else {
        TokenModel::Ident(w)
    }
}

fn keyword(word: String) -> (r: Token)
    ensures
        r@ == spec_keyword(word@),
{
    if matches_function_keyword(word.as_str()) {
        Token::FunctionDeclaration
    } else if word == "let".to_owned() {
        Token::VarDeclaration(false)
    } else if word == "const".to_owned() {
        Token::VarDeclaration(true)
    } else {
        Token::Ident(word)
    }
}

/// Length of the numeric run at the front of `rest`: characters are consumed
/// while they are digits or a decimal point, and a second decimal point is a
/// fatal lexical error. The run may end at end of input.
pub open spec fn spec_number_len(rest: Seq<char>, seen_dot: bool) -> Result<int, LexicalError>
    decreases rest.len(),
{
    if rest.len() == 0 {
        Ok(0)
    } else if is_digit_char(rest[0]) {
        match spec_number_len(rest.drop_first(), seen_dot) {
            Ok(m) => Ok(m + 1),
            Err(e) => Err(e),
        }
    } else if rest[0] == '.' {
        if seen_dot {
            Err(LexicalError::MalformedNumber)
        } else {
            match spec_number_len(rest.drop_first(), true) {
                Ok(m) => Ok(m + 1),
                Err(e) => Err(e),
            }
        }
    } else {
        Ok(0)
    }
}

/// The numeric run is never longer than the input, and it is non-empty when
/// the input begins with a digit or a decimal point.
pub proof fn lemma_number_len_bounds(rest: Seq<char>, seen_dot: bool)
    ensures
        spec_number_len(rest, seen_dot) matches Ok(m) ==> 0 <= m <= rest.len(),
        rest.len() > 0 && (is_digit_char(rest[0]) || rest[0] == '.') ==> (spec_number_len(
            rest,
            seen_dot,
        ) matches Ok(m) ==> 1 <= m),
    decreases rest.len(),
{
    if rest.len() > 0 {
        lemma_number_len_bounds(rest.drop_first(), seen_dot);
        lemma_number_len_bounds(rest.drop_first(), true);
    }
}

fn scan_number(s: &str, n: usize, i: usize, seen_dot: bool) -> (r: Result<usize, LexicalError>)
    requires
        n == s@.len(),
        i <= n,
    ensures
        match spec_number_len(s@.skip(i as int), seen_dot) {
            Ok(m) => r matches Ok(u) && u == m && i + m <= n,
            Err(e) => r == Err::<usize, LexicalError>(e),
        },
    decreases n - i,
{
    proof {
        lemma_number_len_bounds(s@.skip(i as int), seen_dot);
    }
    if i == n {
        return Ok(0);
    }
    let c = s.get_char(i);
    proof {
        assert(s@.skip(i as int)[0] == c);
        assert(s@.skip(i as int).drop_first() =~= s@.skip(i + 1 as int));
    }
    if digit_char(c) {
        match scan_number(s, n, i + 1, seen_dot) {
            Ok(m) => Ok(m + 1),
            Err(e) => Err(e),
        }
    } else if c == '.' {
        if seen_dot {
            Err(LexicalError::MalformedNumber)
        } else {
            match scan_number(s, n, i + 1, true) {
                Ok(m) => Ok(m + 1),
                Err(e) => Err(e),
            }
        }
    } else {
        Ok(0)
    }
}

/// Length of the identifier run at the front of `rest`: letters, digits and
/// underscores.
pub open spec fn spec_word_len(rest: Seq<char>) -> int
    decreases rest.len(),
{
    if rest.len() > 0 && is_word_char(rest[0]) {
        1 + spec_word_len(rest.drop_first())
    } else {
        0
    }
}

/// The identifier run is never longer than the input, and it is non-empty
/// when the input begins with a word character.
pub proof fn lemma_word_len_bounds(rest: Seq<char>)
    ensures
        0 <= spec_word_len(rest) <= rest.len(),
        rest.len() > 0 && is_word_char(rest[0]) ==> 1 <= spec_word_len(rest),
    decreases rest.len(),
{
    if rest.len() > 0 {
        lemma_word_len_bounds(rest.drop_first());
    }
}

fn scan_word(s: &str, n: usize, i: usize) -> (r: usize)
    requires
        n == s@.len(),
        i <= n,
    ensures
        r == spec_word_len(s@.skip(i as int)),
        i + r <= n,
    decreases n - i,
{
    proof {
        lemma_word_len_bounds(s@.skip(i as int));
    }
    if i == n {
        return 0;
    }
    let c = s.get_char(i);
    proof {
        assert(s@.skip(i as int)[0] == c);
        assert(s@.skip(i as int).drop_first() =~= s@.skip(i + 1 as int));
    }
    if word_char(c) {
        1 + scan_word(s, n, i + 1)
    } else {
        0
    }
}

/// Length of the string-literal scan that follows an opening quote,
/// including the closing quote. A backslash copies itself and the following
/// character verbatim; reaching end of input is a fatal lexical error.
pub open spec fn spec_string_len(rest: Seq<char>) -> Result<int, LexicalError>
    decreases rest.len(),
{
    if rest.len() == 0 {
        Err(LexicalError::UnterminatedString)
    } else if rest[0] == '\\' {
        if rest.len() == 1 {
            Err(LexicalError::UnterminatedString)
        } else {
            match spec_string_len(rest.skip(2)) {
                Ok(m) => Ok(m + 2),
                Err(e) => Err(e),
            }
        }
    } else if rest[0] == '"' {
        Ok(1)
    } else {
        match spec_string_len(rest.drop_first()) {
            Ok(m) => Ok(m + 1),
            Err(e) => Err(e),
        }
    }
}

/// A completed string-literal scan consumed at least its closing quote and
/// no more than the input.
pub proof fn lemma_string_len_bounds(rest: Seq<char>)
    ensures
        spec_string_len(rest) matches Ok(m) ==> 1 <= m <= rest.len(),
    decreases rest.len(),
{
    if rest.len() > 1 {
        lemma_string_len_bounds(rest.skip(2));
    }
    if rest.len() > 0 {
        lemma_string_len_bounds(rest.drop_first());
    }
}

fn scan_string(s: &str, n: usize, i: usize) -> (r: Result<usize, LexicalError>)
    requires
        n == s@.len(),
        i <= n,
    ensures
        match spec_string_len(s@.skip(i as int)) {
            Ok(m) => r matches Ok(u) && u == m && i + m <= n,
            Err(e) => r == Err::<usize, LexicalError>(e),
        },
    decreases n - i,
{
    proof {
        lemma_string_len_bounds(s@.skip(i as int));
    }
    if i == n {
        return Err(LexicalError::UnterminatedString);
    }
    let c = s.get_char(i);
    proof {
        assert(s@.skip(i as int)[0] == c);
        assert(s@.skip(i as int).drop_first() =~= s@.skip(i + 1 as int));
    }
    if c == '\\' {
        if i + 1 == n {
            Err(LexicalError::UnterminatedString)
        } else {
            proof {
                assert(s@.skip(i as int).skip(2) =~= s@.skip(i + 2 as int));
            }
            match scan_string(s, n, i + 2) {
                Ok(m) => Ok(m + 2),
                Err(e) => Err(e),
            }
        }
    } else if c == '"' {
        Ok(1)
    } else {
        match scan_string(s, n, i + 1) {
            Ok(m) => Ok(m + 1),
            Err(e) => Err(e),
        }
    }
}

/// Length of the character-literal scan that follows an opening quote,
/// including the closing quote: exactly one raw character or one
/// backslash-escape pair, then the mandatory closing quote.
pub open spec fn spec_char_lit_len(rest: Seq<char>) -> Result<int, LexicalError> {
    if rest.len() == 0 {
        Err(LexicalError::UnterminatedChar)
    } else if rest[0] == '\'' {
        Err(LexicalError::MalformedChar)
    } else if rest[0] == '\\' {
        if rest.len() < 3 {
            Err(LexicalError::UnterminatedChar)
        } else if rest[2] == '\'' {
            Ok(3)
        } else {
            Err(LexicalError::MalformedChar)
        }
    } else {
        if rest.len() < 2 {
            Err(LexicalError::UnterminatedChar)
        } else if rest[1] == '\'' {
            Ok(2)
        } else {
            Err(LexicalError::MalformedChar)
        }
    }
}

/// A node of the symbol trie: either a resolved symbol, or a table of
/// single-character continuations with an optional fallback symbol.
pub enum Trie {
    Leaf(String),
    Branch(Vec<(char, Trie)>, Option<String>),
}

/// First entry of `children` from position `k` on whose character is `c`.
pub open spec fn spec_lookup(children: Seq<(char, Trie)>, c: char, k: int) -> Option<Trie>
    decreases children.len() - k,
{
    if k < 0 || k >= children.len() {
        None
    } else if children[k].0 == c {
        Some(children[k].1)
    } else {
        spec_lookup(children, c, k + 1)
    }
}

/// The walk of the symbol trie from `node` over the remaining characters:
/// the resolved symbol text and the number of characters consumed. A leaf
/// resolves at once; a branch consumes one character to enter the matching
/// child, and falls back to its own fallback symbol, consuming nothing, when
/// no child matches or the child fails to resolve.
pub open spec fn spec_resolve(node: Trie, rest: Seq<char>) -> Option<(Seq<char>, int)>
    decreases rest.len(),
{
    match node {
        Trie::Leaf(s) => Some((s@, 0)),
        Trie::Branch(children, fallback) => {
            let fall = match fallback {
                Some(d) => Some((d@, 0int)),
                None => None,
            };
            if rest.len() > 0 {
                match spec_lookup(children@, rest[0], 0) {
                    Some(child) => match spec_resolve(child, rest.drop_first()) {
                        Some((sym, m)) => Some((sym, m + 1)),
                        None => fall,
                    },
                    None => fall,
                }
            } else {
                fall
            }
        }
    }
}

fn lookup<'a>(children: &'a Vec<(char, Trie)>, c: char) -> (r: Option<&'a Trie>)
    ensures
        match spec_lookup(children@, c, 0) {
            Some(t) => r matches Some(p) && *p == t,
            None => r is None,
        },
{
    let mut k: usize = 0;
    while k < children.len()
        invariant
            0 <= k <= children@.len(),
            spec_lookup(children@, c, 0) == spec_lookup(children@, c, k as int),
        decreases children@.len() - k,
    {
        if children[k].0 == c {
            return Some(&children[k].1);
        }
        k = k + 1;
    }
    None
}

fn resolve(node: &Trie, s: &str, n: usize, i: usize) -> (r: Option<(String, usize)>)
    requires
        n == s@.len(),
        i <= n,
    ensures
        match spec_resolve(*node, s@.skip(i as int)) {
            Some(p) => r matches Some(q) && q.0@ == p.0 && q.1 == i + p.1 && i + p.1 <= n,
            None => r is None,
        },
    decreases n - i,
{
    match node {
        Trie::Leaf(text) => Some((text.clone(), i)),
        Trie::Branch(children, fallback) => {
            if i < n {
                let c = s.get_char(i);
                proof {
                    assert(s@.skip(i as int)[0] == c);
                    assert(s@.skip(i as int).drop_first() =~= s@.skip(i + 1 as int));
                }
                match lookup(children, c) {
                    Some(child) => match resolve(child, s, n, i + 1) {
                        Some(p) => Some(p),
                        None => match fallback {
                            Some(d) => Some((d.clone(), i)),
                            None => None,
                        },
                    },
                    None => match fallback {
                        Some(d) => Some((d.clone(), i)),
                        None => None,
                    },
                }
            } else {
                match fallback {
                    Some(d) => Some((d.clone(), i)),
                    None => None,
                }
            }
        }
    }
}

/// A character that resolves as a complete one-character symbol.
pub open spec fn is_single_symbol_char(c: char) -> bool {
    c == '(' || c == ')' || c == '{' || c == '}' || c == '.' || c == '+' || c == '-' || c == '/'
        || c == '*' || c == '%' || c == '~' || c == '^' || c == '&' || c == '|' || c == '"' || c
        == '\''
}

/// Resolution of a punctuation symbol at the front of `rest`, as the symbol
/// trie performs it: the symbol text and the number of characters consumed.
/// `>` and `<` extend only to `>>` and `<<`; a lone `>` or `<`, and any
/// punctuation character outside the table, fails to resolve.
pub open spec fn spec_symbol(rest: Seq<char>) -> Option<(Seq<char>, int)> {
    if rest.len() == 0 {
        None
    } else if is_single_symbol_char(rest[0]) {
        Some((seq![rest[0]], 1int))
    } else if rest[0] == '>' || rest[0] == '<' {
        if rest.len() >= 2 && rest[1] == rest[0] {
            Some((seq![rest[0], rest[1]], 2int))
        } else {
            None
        }
    } else {
        None
    }
}

/// The symbol table: every one-character symbol is a leaf, and `>` and `<`
/// are branches whose only continuation is a second `>` or `<`. No node has
/// a fallback symbol, so a partial match fails to resolve.
fn symbols() -> (t: Trie)
    ensures
        forall|rest: Seq<char>| #[trigger] spec_resolve(t, rest) == spec_symbol(rest),
{
    let mut top: Vec<(char, Trie)> = Vec::new();
    top.push(('(', Trie::Leaf("(".to_owned())));
    top.push((')', Trie::Leaf(")".to_owned())));
    top.push(('{', Trie::Leaf("{".to_owned())));
    top.push(('}', Trie::Leaf("}".to_owned())));
    top.push(('.', Trie::Leaf(".".to_owned())));
    top.push(('+', Trie::Leaf("+".to_owned())));
    top.push(('-', Trie::Leaf("-".to_owned())));
    top.push(('/', Trie::Leaf("/".to_owned())));
    top.push(('*', Trie::Leaf("*".to_owned())));
    top.push(('%', Trie::Leaf("%".to_owned())));
    top.push(('~', Trie::Leaf("~".to_owned())));
    top.push(('^', Trie::Leaf("^".to_owned())));
    top.push(('&', Trie::Leaf("&".to_owned())));
    top.push(('|', Trie::Leaf("|".to_owned())));
    top.push(('"', Trie::Leaf("\"".to_owned())));
    top.push(('\'', Trie::Leaf("'".to_owned())));
    let mut gt: Vec<(char, Trie)> = Vec::new();
    gt.push(('>', Trie::Leaf(">>".to_owned())));
    top.push(('>', Trie::Branch(gt, None)));
    let mut lt: Vec<(char, Trie)> = Vec::new();
    lt.push(('<', Trie::Leaf("<<".to_owned())));
    top.push(('<', Trie::Branch(lt, None)));
    let t = Trie::Branch(top, None);
    proof {
        assert forall|rest: Seq<char>| #[trigger] spec_resolve(t, rest) == spec_symbol(rest) by {
            reveal_with_fuel(spec_lookup, 21);
            reveal_with_fuel(spec_resolve, 4);
            reveal_strlit("(");
            reveal_strlit(")");
            reveal_strlit("{");
            reveal_strlit("}");
            reveal_strlit(".");
            reveal_strlit("+");
            reveal_strlit("-");
            reveal_strlit("/");
            reveal_strlit("*");
            reveal_strlit("%");
            reveal_strlit("~");
            reveal_strlit("^");
            reveal_strlit("&");
            reveal_strlit("|");
            reveal_strlit("\"");
            reveal_strlit("'");
            reveal_strlit(">>");
            reveal_strlit("<<");
            if rest.len() > 0 {
                let c = rest[0];
                let inner = rest.drop_first();
                if c == '(' {
                    assert("("@ =~= seq![c]);
                }
                if c == ')' {
                    assert(")"@ =~= seq![c]);
                }
                if c == '{' {
                    assert("{"@ =~= seq![c]);
                }
                if c == '}' {
                    assert("}"@ =~= seq![c]);
                }
                if c == '.' {
                    assert("."@ =~= seq![c]);
                }
                if c == '+' {
                    assert("+"@ =~= seq![c]);
                }
                if c == '-' {
                    assert("-"@ =~= seq![c]);
                }
                if c == '/' {
                    assert("/"@ =~= seq![c]);
                }
                if c == '*' {
                    assert("*"@ =~= seq![c]);
                }
                if c == '%' {
                    assert("%"@ =~= seq![c]);
                }
                if c == '~' {
                    assert("~"@ =~= seq![c]);
                }
                if c == '^' {
                    assert("^"@ =~= seq![c]);
                }
                if c == '&' {
                    assert("&"@ =~= seq![c]);
                }
                if c == '|' {
                    assert("|"@ =~= seq![c]);
                }
                if c == '"' {
                    assert("\""@ =~= seq![c]);
                }
                if c == '\'' {
                    assert("'"@ =~= seq![c]);
                }
                if c == '>' || c == '<' {
                    if inner.len() > 0 && inner[0] == c {
                        assert(rest.len() >= 2 && rest[1] == c);
                        if c == '>' {
                            assert(">>"@ =~= seq![c, c]);
                        }
                        if c == '<' {
                            assert("<<"@ =~= seq![c, c]);
                        }
                    }
                }
            }
        }
    }
    t
}

/// The token that a resolved symbol text other than the two quotes maps to:
/// parentheses, braces and the dot to their own tokens, the five math
/// operators to math-operator tokens, and the bitwise operators to
/// binary-operator tokens that keep the symbol text.
pub open spec fn spec_symbol_token(sym: Seq<char>) -> Option<TokenModel> {
    if sym.len() == 1 {
        let c = sym[0];
        if c == '(' {
            Some(TokenModel::OpenParen)
        } else if c == ')' {
            Some(TokenModel::ClosedParen)
        } else if c == '{' {
            Some(TokenModel::OpenBrace)
        } else if c == '}' {
            Some(TokenModel::ClosedBrace)
        } else if c == '.' {
            Some(TokenModel::Dot)
        } else if c == '+' || c == '-' || c == '/' || c == '*' || c == '%' {
            Some(TokenModel::MathOperator(c))
        } else if c == '~' || c == '^' || c == '&' || c == '|' {
            Some(TokenModel::BinaryOperator(sym))
        } else {
            None
        }
    } else if sym.len() == 2 && (sym[0] == '>' || sym[0] == '<') && sym[1] == sym[0] {
        Some(TokenModel::BinaryOperator(sym))
    } else {
        None
    }
}

fn symbol_token(sym: String) -> (r: Option<Token>)
    ensures
        match spec_symbol_token(sym@) {
            Some(tm) => r matches Some(t) && t@ == tm,
            None => r is None,
        },
{
    let st = sym.as_str();
    let len = st.unicode_len();
    if len == 1 {
        let c = st.get_char(0);
        match c {
            '(' => Some(Token::OpenParen),
            ')' => Some(Token::ClosedParen),
            '{' => Some(Token::OpenBrace),
            '}' => Some(Token::ClosedBrace),
            '.' => Some(Token::Dot),
            '+' | '-' | '/' | '*' | '%' => Some(Token::MathOperator(c)),
            '~' | '^' | '&' | '|' => Some(Token::BinaryOperator(sym)),
            _ => None,
        }
    } else if len == 2 {
        let c0 = st.get_char(0);
        let c1 = st.get_char(1);
        if (c0 == '>' || c0 == '<') && c1 == c0 {
            Some(Token::BinaryOperator(sym))
        } else {
            None
        }
    } else {
        None
    }
}

fn scan_char_lit(s: &str, n: usize, i: usize) -> (r: Result<usize, LexicalError>)
    requires
        n == s@.len(),
        i <= n,
    ensures
        match spec_char_lit_len(s@.skip(i as int)) {
            Ok(m) => r matches Ok(u) && u == m && i + m <= n,
            Err(e) => r == Err::<usize, LexicalError>(e),
        },
{
    if i == n {
        return Err(LexicalError::UnterminatedChar);
    }
    let c = s.get_char(i);
    proof {
        assert(s@.skip(i as int)[0] == c);
    }
    if c == '\'' {
        Err(LexicalError::MalformedChar)
    } else if c == '\\' {
        if n - i < 3 {
            Err(LexicalError::UnterminatedChar)
        } else {
            let q = s.get_char(i + 2);
            proof {
                assert(s@.skip(i as int)[2] == q);
            }
            if q == '\'' {
                Ok(3)
            } else {
                Err(LexicalError::MalformedChar)
            }
        }
    } else {
        if n - i < 2 {
            Err(LexicalError::UnterminatedChar)
        } else {
            let q = s.get_char(i + 1);
            proof {
                assert(s@.skip(i as int)[1] == q);
            }
            if q == '\'' {
                Ok(2)
            } else {
                Err(LexicalError::MalformedChar)
            }
        }
    }
}

/// The token sequence of the remaining input: whitespace is skipped, a digit
/// starts a numeric run, a letter or underscore starts an identifier run
/// classified by keyword lookup, ASCII punctuation is resolved through the
/// symbol trie (the two quotes starting their literal sub-scans), any other
/// character is skipped silently, and end of input yields the end-of-input
/// marker.
pub open spec fn spec_tokenize(rest: Seq<char>) -> Result<Seq<TokenModel>, LexicalError>
    decreases rest.len(),
{
    if rest.len() == 0 {
        Ok(seq![TokenModel::EOF])
    } else {
        let c = rest[0];
        if is_space_char(c) {
            match spec_tokenize(rest.drop_first()) {
                Ok(ts) => Ok(ts),
                Err(e) => Err(e),
            }
        } else if is_digit_char(c) {
            match spec_number_len(rest, false) {
                Ok(m) => if 1 <= m <= rest.len() {
                    match spec_tokenize(rest.skip(m)) {
                        Ok(ts) => Ok(seq![TokenModel::Number(rest.take(m))] + ts),
                        Err(e) => Err(e),
                    }
                } else {
                    // the numeric run always covers the leading digit and
                    // never runs past the input
                    Err(LexicalError::MalformedNumber)
                },
                Err(e) => Err(e),
            }
        } else if is_word_start_char(c) {
            let m = spec_word_len(rest);
            if 1 <= m <= rest.len() {
                match spec_tokenize(rest.skip(m)) {
                    Ok(ts) => Ok(seq![spec_keyword(rest.take(m))] + ts),
                    Err(e) => Err(e),
                }
            } else {
                // the identifier run always covers the leading character and
                // never runs past the input
                Err(LexicalError::UnknownSymbol)
            }
        } else if is_punct_char(c) {
            match spec_symbol(rest) {
                None => Err(LexicalError::UnknownSymbol),
                Some((sym, k)) => if 1 <= k <= rest.len() {
                    if sym.len() == 1 && sym[0] == '"' {
                        match spec_string_len(rest.skip(k)) {
                            Ok(m) => if 1 <= m <= rest.len() - k {
                                match spec_tokenize(rest.skip(k + m)) {
                                    Ok(ts) => Ok(
                                        seq![TokenModel::Str(rest.skip(k).take(m - 1))] + ts,
                                    ),
                                    Err(e) => Err(e),
                                }
                            } else {
                                // the literal scan always covers its closing
                                // quote and never runs past the input
                                Err(LexicalError::UnterminatedString)
                            },
                            Err(e) => Err(e),
                        }
                    } else if sym.len() == 1 && sym[0] == '\'' {
                        match spec_char_lit_len(rest.skip(k)) {
                            Ok(m) => if 1 <= m <= rest.len() - k {
                                match spec_tokenize(rest.skip(k + m)) {
                                    Ok(ts) => Ok(
                                        seq![TokenModel::Char(rest.skip(k).take(m - 1))] + ts,
                                    ),
                                    Err(e) => Err(e),
                                }
                            } else {
                                // the literal scan always covers its closing
                                // quote and never runs past the input
                                Err(LexicalError::UnterminatedChar)
                            },
                            Err(e) => Err(e),
                        }
                    } else {
                        match spec_symbol_token(sym) {
                            Some(tm) => match spec_tokenize(rest.skip(k)) {
                                Ok(ts) => Ok(seq![tm] + ts),
                                Err(e) => Err(e),
                            },
                            None => Err(LexicalError::UnknownSymbol),
                        }
                    }
                } else {
                    // the resolver always consumes at least one character and
                    // never runs past the input
                    Err(LexicalError::UnknownSymbol)
                },
            }
        } else {
            // any other character class is skipped silently
            match spec_tokenize(rest.drop_first()) {
                Ok(ts) => Ok(ts),
                Err(e) => Err(e),
            }
        }
    }
}

#[verifier::rlimit(100)]
fn scan(s: &str, n: usize, i: usize, trie: &Trie, out: &mut Vec<Token>) -> (r: Result<
    (),
    LexicalError,
>)
    requires
        n == s@.len(),
        i <= n,
        forall|rest: Seq<char>| #[trigger] spec_resolve(*trie, rest) == spec_symbol(rest),
    ensures
        match spec_tokenize(s@.skip(i as int)) {
            Ok(ts) => r matches Ok(u) && final(out).deep_view() == old(out).deep_view() + ts,
            Err(e) => r == Err::<(), LexicalError>(e),
        },
    decreases n - i,
{
    let ghost rest = s@.skip(i as int);
    if i == n {
        out.push(Token::EOF);
        proof {
            assert(out.deep_view() =~= old(out).deep_view() + seq![TokenModel::EOF]);
        }
        return Ok(());
    }
    let c = s.get_char(i);
    proof {
        assert(rest[0] == c);
        assert(rest.drop_first() =~= s@.skip(i + 1 as int));
    }
    if space_char(c) {
        scan(s, n, i + 1, trie, out)
    } else if digit_char(c) {
        proof {
            assert(rest.skip(0) =~= rest);
        }
        match scan_number(s, n, i, false) {
            Err(e) => Err(e),
            Ok(m) => {
                proof {
                    lemma_number_len_bounds(rest, false);
                    assert(rest.skip(m as int) =~= s@.skip(i + m as int));
                    assert(rest.take(m as int) =~= s@.subrange(i as int, i + m as int));
                }
                let text = s.substring_char(i, i + m).to_owned();
                let ghost dv0 = out.deep_view();
                out.push(Token::Number(text));
                proof {
                    assert(out.deep_view() =~= dv0 + seq![TokenModel::Number(rest.take(m as int))]);
                }
                let tail = scan(s, n, i + m, trie, out);
                proof {
                    match spec_tokenize(s@.skip(i + m as int)) {
                        Ok(ts) => {
                            assert(out.deep_view() =~= dv0 + (seq![
                                TokenModel::Number(rest.take(m as int)),
                            ] + ts));
                        }
                        Err(_) => {}
                    }
                }
                tail
            }
        }
    } else if word_start_char(c) {
        proof {
            assert(rest.skip(0) =~= rest);
        }
        let m = scan_word(s, n, i);
        proof {
            lemma_word_len_bounds(rest);
            assert(rest.skip(m as int) =~= s@.skip(i + m as int));
            assert(rest.take(m as int) =~= s@.subrange(i as int, i + m as int));
        }
        let word = s.substring_char(i, i + m).to_owned();
        let tok = keyword(word);
        let ghost dv0 = out.deep_view();
        out.push(tok);
        proof {
            assert(out.deep_view() =~= dv0 + seq![spec_keyword(rest.take(m as int))]);
        }
        let tail = scan(s, n, i + m, trie, out);
        proof {
            match spec_tokenize(s@.skip(i + m as int)) {
                Ok(ts) => {
                    assert(out.deep_view() =~= dv0 + (seq![spec_keyword(rest.take(m as int))]
                        + ts));
                }
                Err(_) => {}
            }
        }
        tail
    } else if punct_char(c) {
        match resolve(trie, s, n, i) {
            None => Err(LexicalError::UnknownSymbol),
            Some((sym, j)) => {
                let slen = sym.as_str().unicode_len();
                let first = if slen > 0 {
                    sym.as_str().get_char(0)
                } else {
                    ' '
                };
                let ghost k = j - i;
                proof {
                    assert(spec_symbol(rest) matches Some(p) && p.0 == sym@ && p.1 == k);
                    assert(rest.skip(k) =~= s@.skip(j as int));
                }
                if slen == 1 && first == '"' {
                    match scan_string(s, n, j) {
                        Err(e) => Err(e),
                        Ok(m) => {
                            proof {
                                lemma_string_len_bounds(s@.skip(j as int));
                                assert(rest.skip(k + m) =~= s@.skip(j + m as int));
                                assert(rest.skip(k).take(m - 1 as int) =~= s@.subrange(
                                    j as int,
                                    j + m - 1 as int,
                                ));
                            }
                            let text = s.substring_char(j, j + m - 1).to_owned();
                            let ghost dv0 = out.deep_view();
                            out.push(Token::Str(text));
                            proof {
                                assert(out.deep_view() =~= dv0 + seq![
                                    TokenModel::Str(rest.skip(k).take(m - 1 as int)),
                                ]);
                            }
                            let tail = scan(s, n, j + m, trie, out);
                            proof {
                                match spec_tokenize(s@.skip(j + m as int)) {
                                    Ok(ts) => {
                                        assert(out.deep_view() =~= dv0 + (seq![
                                            TokenModel::Str(rest.skip(k).take(m - 1 as int)),
                                        ] + ts));
                                    }
                                    Err(_) => {}
                                }
                            }
                            tail
                        }
                    }
                } else if slen == 1 && first == '\'' {
                    match scan_char_lit(s, n, j) {
                        Err(e) => Err(e),
                        Ok(m) => {
                            proof {
                                assert(rest.skip(k + m) =~= s@.skip(j + m as int));
                                assert(rest.skip(k).take(m - 1 as int) =~= s@.subrange(
                                    j as int,
                                    j + m - 1 as int,
                                ));
                            }
                            let text = s.substring_char(j, j + m - 1).to_owned();
                            let ghost dv0 = out.deep_view();
                            out.push(Token::Char(text));
                            proof {
                                assert(out.deep_view() =~= dv0 + seq![
                                    TokenModel::Char(rest.skip(k).take(m - 1 as int)),
                                ]);
                            }
                            let tail = scan(s, n, j + m, trie, out);
                            proof {
                                match spec_tokenize(s@.skip(j + m as int)) {
                                    Ok(ts) => {
                                        assert(out.deep_view() =~= dv0 + (seq![
                                            TokenModel::Char(rest.skip(k).take(m - 1 as int)),
                                        ] + ts));
                                    }
                                    Err(_) => {}
                                }
                            }
                            tail
                        }
                    }
                } else {
                    match symbol_token(sym) {
                        None => Err(LexicalError::UnknownSymbol),
                        Some(tok) => {
                            let ghost tm = tok@;
                            let ghost dv0 = out.deep_view();
                            out.push(tok);
                            proof {
                                assert(out.deep_view() =~= dv0 + seq![tm]);
                            }
                            let tail = scan(s, n, j, trie, out);
                            proof {
                                match spec_tokenize(s@.skip(j as int)) {
                                    Ok(ts) => {
                                        assert(out.deep_view() =~= dv0 + (seq![tm] + ts));
                                    }
                                    Err(_) => {}
                                }
                            }
                            tail
                        }
                    }
                }
            }
        }
    } else {
        scan(s, n, i + 1, trie, out)
    }
}

/// Lexical analysis of a whole source text: the ordered token sequence
/// terminated by the end-of-input marker, or the first fatal lexical error.
pub fn tokenize(code: String) -> (r: Result<Vec<Token>, LexicalError>)
    ensures
        match spec_tokenize(code@) {
            Ok(ts) => r matches Ok(v) && v.deep_view() == ts,
            Err(e) => r == Err::<Vec<Token>, LexicalError>(e),
        },
{
    let n = code.as_str().unicode_len();
    let trie = symbols();
    let mut tokens: Vec<Token> = Vec::new();
    proof {
        assert(code@.skip(0) =~= code@);
        assert(tokens.deep_view() =~= Seq::<TokenModel>::empty());
    }
    match scan(code.as_str(), n, 0, &trie, &mut tokens) {
        Ok(_) => {
            proof {
                match spec_tokenize(code@) {
                    Ok(ts) => {
                        assert(tokens.deep_view() =~= ts);
                    }
                    Err(_) => {}
                }
            }
            Ok(tokens)
        }
        Err(e) => Err(e),
    }
}

/// A numeric run over digit-or-dot text with at most one dot covers all of
/// it without error.
proof fn lemma_number_len_full(rest: Seq<char>, seen_dot: bool)
    requires
        forall|i: int| 0 <= i < rest.len() ==> is_digit_char(#[trigger] rest[i]) || rest[i] == '.',
        forall|i: int, j: int| 0 <= i < j < rest.len() ==> !(rest[i] == '.' && rest[j] == '.'),
        seen_dot ==> forall|i: int| 0 <= i < rest.len() ==> !(#[trigger] rest[i] == '.'),
    ensures
        spec_number_len(rest, seen_dot) == Ok::<int, LexicalError>(rest.len() as int),
    decreases rest.len(),
{
    if rest.len() > 0 {
        if is_digit_char(rest[0]) {
            lemma_number_len_full(rest.drop_first(), seen_dot);
        } else {
            lemma_number_len_full(rest.drop_first(), true);
        }
    }
}

/// Tokenizing valid numeric text, digits with at most one decimal point and
/// led by a digit, yields exactly one number token holding that text,
/// followed by the end-of-input marker.
pub proof fn lemma_tokenize_numeric(text: Seq<char>)
    requires
        text.len() > 0,
        is_digit_char(text[0]),
        forall|i: int| 0 <= i < text.len() ==> is_digit_char(#[trigger] text[i]) || text[i] == '.',
        forall|i: int, j: int| 0 <= i < j < text.len() ==> !(text[i] == '.' && text[j] == '.'),
    ensures
        spec_tokenize(text) == Ok::<Seq<TokenModel>, LexicalError>(
            seq![TokenModel::Number(text), TokenModel::EOF],
        ),
{
    reveal_with_fuel(spec_tokenize, 2);
    lemma_number_len_full(text, false);
    assert(text.skip(text.len() as int).len() == 0);
    assert(spec_tokenize(text.skip(text.len() as int)) == Ok::<Seq<TokenModel>, LexicalError>(
        seq![TokenModel::EOF],
    ));
    assert(text.take(text.len() as int) =~= text);
    assert(seq![TokenModel::Number(text)] + seq![TokenModel::EOF] =~= seq![
        TokenModel::Number(text),
        TokenModel::EOF,
    ]);
}

/// Tokenizing input that consists solely of whitespace yields exactly the
/// end-of-input marker.
pub proof fn lemma_tokenize_whitespace(text: Seq<char>)
    requires
        forall|i: int| 0 <= i < text.len() ==> is_space_char(#[trigger] text[i]),
    ensures
        spec_tokenize(text) == Ok::<Seq<TokenModel>, LexicalError>(seq![TokenModel::EOF]),
    decreases text.len(),
{
    if text.len() > 0 {
        lemma_tokenize_whitespace(text.drop_first());
    }
}

} // verus!
