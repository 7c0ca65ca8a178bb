//! The grammar as spec functions over the token stream: what the parser builds
//! from each position, or the error it stops with.
//!
//! Each function takes the stream and the index of the token where its
//! construct starts, and gives the node with the index of the construct's last
//! token. Where a definition compares indices that a nested parse has just
//! returned (`i <= j < toks.len()`), the comparison always holds: the bounds
//! lemmas below prove that a successful parse ends at or after its start and
//! inside the stream. The comparisons are there so that each definition
//! visibly terminates; the parser never meets the other branch.
use vstd::prelude::*;
use crate::ast::{expr_token, InfixOperator, PrefixOperator};
use crate::lexer::{lemma_scan_progress, scan, skip_ws};
use crate::token::{classify_word, literal_of};
use crate::token::SpecToken;

verus! {

/// Binding power, weakest first.
#[derive(Debug, Clone, Copy, PartialEq, Eq, Structural)]
pub enum Precedence {
    Lowest,
    Equals,
    LessGreater,
    Sum,
    Product,
    Prefix,
    Call,
}

impl Precedence {
    pub open spec fn rank(self) -> int {
        match self {
            Precedence::Lowest => 0,
            Precedence::Equals => 1,
            Precedence::LessGreater => 2,
            Precedence::Sum => 3,
            Precedence::Product => 4,
            Precedence::Prefix => 5,
            Precedence::Call => 6,
        }
    }

    pub fn level(&self) -> (r: u8)
        ensures
            r as int == self.rank(),
    {
        match self {
            Precedence::Lowest => 0,
            Precedence::Equals => 1,
            Precedence::LessGreater => 2,
            Precedence::Sum => 3,
            Precedence::Product => 4,
            Precedence::Prefix => 5,
            Precedence::Call => 6,
        }
    }
}

/// The token class a parser required and did not find.
#[derive(Debug, Clone, Copy, PartialEq, Eq, Structural)]
pub enum Expected {
    Identifier,
    Assign,
    LParen,
    RParen,
    LCurly,
    RCurly,
}

/// Model of a parse error.
pub enum SpecError {
    UnexpectedPrefixToken(SpecToken),
    UnexpectedTokenExpected(Expected, SpecToken),
}

/// Model of an expression node; each node keeps the token that introduced it.
pub enum SpecExpr {
    Identifier(SpecToken),
    IntegerLiteral(SpecToken),
    Boolean(SpecToken),
    Prefix(SpecToken, PrefixOperator, Box<SpecExpr>),
    Infix(SpecToken, Box<SpecExpr>, InfixOperator, Box<SpecExpr>),
    /// Condition, consequence block, optional alternative block.
    If(SpecToken, Box<SpecExpr>, Seq<SpecStmt>, Option<Seq<SpecStmt>>),
    /// Parameters and body.
    FunctionLiteral(SpecToken, Seq<SpecToken>, Seq<SpecStmt>),
    /// Callee and arguments; the token is the `(`.
    Call(SpecToken, Box<SpecExpr>, Seq<SpecExpr>),
}

/// Model of a statement node.
pub enum SpecStmt {
    Let(SpecToken, SpecToken, SpecExpr),
    Return(SpecToken, SpecExpr),
    Expression(SpecToken, SpecExpr),
    Block(SpecToken, Seq<SpecStmt>),
}

/// All tokens that scanning `s` from index `i` yields, ending with the first `Eof`.
pub open spec fn tokens_from(s: Seq<char>, i: int) -> Seq<SpecToken>
    decreases s.len() - i,
{
    let (t, j) = scan(s, i);
    if !(t is Eof) && i < j <= s.len() {
        seq![t] + tokens_from(s, j)
    } else {
        seq![SpecToken::Eof]
    }
}

/// One step of the stream: the scanned token, then the stream from where it ended.
pub proof fn lemma_tokens_step(s: Seq<char>, i: int)
    requires
        0 <= i <= s.len(),
    ensures
        scan(s, i).0 is Eof ==> tokens_from(s, i) == seq![SpecToken::Eof],
        !(scan(s, i).0 is Eof) ==> tokens_from(s, i) == seq![scan(s, i).0] + tokens_from(s, scan(s, i).1),
{
    lemma_scan_progress(s, i);
}

/// A scanned stream ends with its only `Eof`.
pub proof fn lemma_tokens_valid(s: Seq<char>, i: int)
    requires
        0 <= i <= s.len(),
    ensures
        valid_stream(tokens_from(s, i)),
    decreases s.len() - i,
{
    lemma_scan_progress(s, i);
    let (t, j) = scan(s, i);
    if !(t is Eof) {
        lemma_tokens_valid(s, j);
        let rest = tokens_from(s, j);
        let all = tokens_from(s, i);
        assert(all == seq![t] + rest);
        assert forall|k: int| 0 <= k < all.len() - 1 implies !(#[trigger] all[k] is Eof) by {
            if k > 0 {
                assert(all[k] == rest[k - 1]);
            }
        }
    }
}

/// The token stream of a whole source text.
pub open spec fn tokens_of(s: Seq<char>) -> Seq<SpecToken> {
    tokens_from(s, 0)
}

/// A stream that ends with its only `Eof`.
pub open spec fn valid_stream(toks: Seq<SpecToken>) -> bool {
    &&& toks.len() >= 1
    &&& toks.last() is Eof
    &&& forall|k: int| 0 <= k < toks.len() - 1 ==> !(#[trigger] toks[k] is Eof)
}

/// The token at `i`; past the end of the stream, `Eof`.
pub open spec fn at(toks: Seq<SpecToken>, i: int) -> SpecToken {
    if 0 <= i < toks.len() {
        toks[i]
    } else {
        SpecToken::Eof
    }
}

pub open spec fn infix_precedence(t: SpecToken) -> Precedence {
    match t {
        SpecToken::Equal | SpecToken::NotEqual => Precedence::Equals,
        SpecToken::LessThan | SpecToken::GreaterThan => Precedence::LessGreater,
        SpecToken::Plus | SpecToken::Minus => Precedence::Sum,
        SpecToken::Asterisk | SpecToken::Slash => Precedence::Product,
        SpecToken::LParen => Precedence::Call,
        _ => Precedence::Lowest,
    }
}

pub open spec fn infix_operator(t: SpecToken) -> Option<InfixOperator> {
    match t {
        SpecToken::Plus => Some(InfixOperator::Plus),
        SpecToken::Minus => Some(InfixOperator::Minus),
        SpecToken::Asterisk => Some(InfixOperator::Multiply),
        SpecToken::Slash => Some(InfixOperator::Divide),
        SpecToken::Equal => Some(InfixOperator::Equal),
        SpecToken::NotEqual => Some(InfixOperator::NotEqual),
        SpecToken::LessThan => Some(InfixOperator::LessThan),
        SpecToken::GreaterThan => Some(InfixOperator::GreaterThan),
        _ => None,
    }
}

pub open spec fn prefix_operator(t: SpecToken) -> Option<PrefixOperator> {
    match t {
        SpecToken::Bang => Some(PrefixOperator::Not),
        SpecToken::Minus => Some(PrefixOperator::Minus),
        _ => None,
    }
}

/// Whether some prefix rule starts an expression at `t`.
pub open spec fn starts_expression(t: SpecToken) -> bool {
    match t {
        SpecToken::Identifier(_) | SpecToken::Integer(_) | SpecToken::True | SpecToken::False
        | SpecToken::Bang | SpecToken::Minus | SpecToken::LParen | SpecToken::If
        | SpecToken::Function => true,
        _ => false,
    }
}

/// The expression that starts at `i` and binds operators tighter than `min`,
/// with the index of its last token.
pub open spec fn parse_expr(toks: Seq<SpecToken>, i: int, min: int) -> Result<(SpecExpr, int), SpecError>
    decreases toks.len() - i, 3int,
{
    match parse_prefix(toks, i) {
        Ok((left, j)) => if i <= j < toks.len() {
            parse_infix_chain(toks, left, j, min)
        } else {
            Ok((left, j))
        },
        Err(e) => Err(e),
    }
}

/// The operand at `i`, dispatched on its first token.
pub open spec fn parse_prefix(toks: Seq<SpecToken>, i: int) -> Result<(SpecExpr, int), SpecError>
    decreases toks.len() - i, 2int,
{
    let t = at(toks, i);
    match t {
        SpecToken::Identifier(_) => Ok((SpecExpr::Identifier(t), i)),
        SpecToken::Integer(_) => Ok((SpecExpr::IntegerLiteral(t), i)),
        SpecToken::True | SpecToken::False => Ok((SpecExpr::Boolean(t), i)),
        SpecToken::Bang | SpecToken::Minus => parse_prefix_expression(toks, i),
        SpecToken::LParen => parse_grouped(toks, i),
        SpecToken::If => parse_if(toks, i),
        SpecToken::Function => parse_function_literal(toks, i),
        _ => Err(SpecError::UnexpectedPrefixToken(t)),
    }
}

/// A prefix operator at `i` applied to the operand after it, which binds at `Prefix`.
pub open spec fn parse_prefix_expression(toks: Seq<SpecToken>, i: int) -> Result<(SpecExpr, int), SpecError>
    decreases toks.len() - i, 1int,
{
    let t = at(toks, i);
    match prefix_operator(t) {
        Some(op) => match parse_expr(toks, i + 1, Precedence::Prefix.rank()) {
            Ok((right, j)) => Ok((SpecExpr::Prefix(t, op, Box::new(right)), j)),
            Err(e) => Err(e),
        },
        None => Err(SpecError::UnexpectedPrefixToken(t)),
    }
}

/// A parenthesised expression at `i`: the inner expression itself.
pub open spec fn parse_grouped(toks: Seq<SpecToken>, i: int) -> Result<(SpecExpr, int), SpecError>
    decreases toks.len() - i, 1int,
{
    if i < toks.len() {
        match parse_expr(toks, i + 1, Precedence::Lowest.rank()) {
            Ok((e, j)) => if at(toks, j + 1) is RParen {
                Ok((e, j + 1))
            } else {
                Err(SpecError::UnexpectedTokenExpected(Expected::RParen, at(toks, j + 1)))
            },
            Err(e) => Err(e),
        }
    } else {
        Err(SpecError::UnexpectedPrefixToken(SpecToken::Eof))
    }
}

/// Folds infix operators and calls onto `left` (whose last token is at `j`)
/// while the next token binds tighter than `min`; equal binding power groups
/// to the left. (An operand always ends after its operator: the comparisons of
/// indices always hold, and keep the definition well-founded.)
pub open spec fn parse_infix_chain(toks: Seq<SpecToken>, left: SpecExpr, j: int, min: int) -> Result<(SpecExpr, int), SpecError>
    decreases toks.len() - j, 0int,
{
    let t = at(toks, j + 1);
    if !(infix_precedence(t).rank() > min && 0 <= j) {
        Ok((left, j))
    } else if t is LParen {
        match parse_call_arguments(toks, j + 1) {
            Ok((args, k)) => if j < k < toks.len() {
                parse_infix_chain(toks, SpecExpr::Call(t, Box::new(left), args), k, min)
            } else {
                Ok((left, j))
            },
            Err(e) => Err(e),
        }
    } else if infix_operator(t) is Some {
        match parse_expr(toks, j + 2, infix_precedence(t).rank()) {
            Ok((right, k)) => if j < k < toks.len() {
                parse_infix_chain(
                    toks,
                    SpecExpr::Infix(t, Box::new(left), infix_operator(t)->Some_0, Box::new(right)),
                    k,
                    min,
                )
            } else {
                Ok((left, j))
            },
            Err(e) => Err(e),
        }
    } else {
        Ok((left, j))
    }
}

/// Arguments of a call whose `(` is at `i`, with the index of the `)`.
pub open spec fn parse_call_arguments(toks: Seq<SpecToken>, i: int) -> Result<(Seq<SpecExpr>, int), SpecError>
    decreases toks.len() - i, 5int,
{
    if at(toks, i + 1) is RParen {
        Ok((seq![], i + 1))
    } else if 0 <= i < toks.len() {
        parse_argument_list(toks, i + 1)
    } else {
        Err(SpecError::UnexpectedTokenExpected(Expected::RParen, at(toks, i + 1)))
    }
}

/// Comma-separated expressions from `i` up to a `)`.
pub open spec fn parse_argument_list(toks: Seq<SpecToken>, i: int) -> Result<(Seq<SpecExpr>, int), SpecError>
    decreases toks.len() - i, 4int,
{
    match parse_expr(toks, i, Precedence::Lowest.rank()) {
        Ok((a, j)) => if !(i <= j < toks.len()) {
            Ok((seq![a], j))
        } else if at(toks, j + 1) is Comma {
            match parse_argument_list(toks, j + 2) {
                Ok((rest, k)) => Ok((seq![a] + rest, k)),
                Err(e) => Err(e),
            }
        } else if at(toks, j + 1) is RParen {
            Ok((seq![a], j + 1))
        } else {
            Err(SpecError::UnexpectedTokenExpected(Expected::RParen, at(toks, j + 1)))
        },
        Err(e) => Err(e),
    }
}

/// Parameters of a function literal whose `(` is at `i`, with the index of the `)`.
pub open spec fn parse_parameters(toks: Seq<SpecToken>, i: int) -> Result<(Seq<SpecToken>, int), SpecError> {
    if at(toks, i + 1) is RParen {
        Ok((seq![], i + 1))
    } else {
        parse_parameter_list(toks, i + 1)
    }
}

/// Comma-separated identifiers from `i` up to a `)`.
pub open spec fn parse_parameter_list(toks: Seq<SpecToken>, i: int) -> Result<(Seq<SpecToken>, int), SpecError>
    decreases toks.len() - i,
{
    let t = at(toks, i);
    if !(t is Identifier) {
        Err(SpecError::UnexpectedTokenExpected(Expected::Identifier, t))
    } else if at(toks, i + 1) is Comma {
        match parse_parameter_list(toks, i + 2) {
            Ok((rest, k)) => Ok((seq![t] + rest, k)),
            Err(e) => Err(e),
        }
    } else if at(toks, i + 1) is RParen {
        Ok((seq![t], i + 1))
    } else {
        Err(SpecError::UnexpectedTokenExpected(Expected::RParen, at(toks, i + 1)))
    }
}

/// The statements of a block whose `{` is at `i`, with the index of the `}`.
pub open spec fn parse_block(toks: Seq<SpecToken>, i: int) -> Result<(Seq<SpecStmt>, int), SpecError>
    decreases toks.len() - i, 1int,
{
    if 0 <= i < toks.len() {
        parse_block_statements(toks, i + 1)
    } else {
        Err(SpecError::UnexpectedTokenExpected(Expected::LCurly, at(toks, i)))
    }
}

/// Statements from `i` up to a `}`.
pub open spec fn parse_block_statements(toks: Seq<SpecToken>, i: int) -> Result<(Seq<SpecStmt>, int), SpecError>
    decreases toks.len() - i, 7int,
{
    let t = at(toks, i);
    if t is RCurly {
        Ok((seq![], i))
    } else if t is Eof {
        Err(SpecError::UnexpectedTokenExpected(Expected::RCurly, t))
    } else {
        match parse_statement(toks, i) {
            Ok((s, j)) => if i <= j < toks.len() {
                match parse_block_statements(toks, j + 1) {
                    Ok((rest, k)) => Ok((seq![s] + rest, k)),
                    Err(e) => Err(e),
                }
            } else {
                Ok((seq![s], j))
            },
            Err(e) => Err(e),
        }
    }
}

/// `if (<condition>) { ... }`, optionally followed by `else { ... }`.
pub open spec fn parse_if(toks: Seq<SpecToken>, i: int) -> Result<(SpecExpr, int), SpecError>
    decreases toks.len() - i, 1int,
{
    let t = at(toks, i);
    if !(at(toks, i + 1) is LParen) {
        Err(SpecError::UnexpectedTokenExpected(Expected::LParen, at(toks, i + 1)))
    } else {
        match parse_expr(toks, i + 2, Precedence::Lowest.rank()) {
            Ok((c, j)) => if !(at(toks, j + 1) is RParen) {
                Err(SpecError::UnexpectedTokenExpected(Expected::RParen, at(toks, j + 1)))
            } else if !(at(toks, j + 2) is LCurly) {
                Err(SpecError::UnexpectedTokenExpected(Expected::LCurly, at(toks, j + 2)))
            } else if i < j {
                match parse_block(toks, j + 2) {
                    Ok((cons, k)) => if !(at(toks, k + 1) is Else) {
                        Ok((SpecExpr::If(t, Box::new(c), cons, None), k))
                    } else if !(at(toks, k + 2) is LCurly) {
                        Err(SpecError::UnexpectedTokenExpected(Expected::LCurly, at(toks, k + 2)))
                    } else if j < k {
                        match parse_block(toks, k + 2) {
                            Ok((alt, m)) => Ok((SpecExpr::If(t, Box::new(c), cons, Some(alt)), m)),
                            Err(e) => Err(e),
                        }
                    } else {
                        Ok((SpecExpr::If(t, Box::new(c), cons, None), k))
                    },
                    Err(e) => Err(e),
                }
            } else {
                Ok((c, j))
            },
            Err(e) => Err(e),
        }
    }
}

/// `fn (<parameters>) { ... }`.
pub open spec fn parse_function_literal(toks: Seq<SpecToken>, i: int) -> Result<(SpecExpr, int), SpecError>
    decreases toks.len() - i, 1int,
{
    let t = at(toks, i);
    if !(at(toks, i + 1) is LParen) {
        Err(SpecError::UnexpectedTokenExpected(Expected::LParen, at(toks, i + 1)))
    } else {
        match parse_parameters(toks, i + 1) {
            Ok((ps, j)) => if !(at(toks, j + 1) is LCurly) {
                Err(SpecError::UnexpectedTokenExpected(Expected::LCurly, at(toks, j + 1)))
            } else if i < j {
                match parse_block(toks, j + 1) {
                    Ok((body, k)) => Ok((SpecExpr::FunctionLiteral(t, ps, body), k)),
                    Err(e) => Err(e),
                }
            } else {
                Err(SpecError::UnexpectedPrefixToken(t))
            },
            Err(e) => Err(e),
        }
    }
}

/// Last token of a statement whose expression ends at `j`: a following
/// semicolon belongs to it, and none is required.
pub open spec fn statement_end(toks: Seq<SpecToken>, j: int) -> int {
    if at(toks, j + 1) is Semicolon {
        j + 1
    } else {
        j
    }
}

pub open spec fn parse_expression_statement(toks: Seq<SpecToken>, i: int) -> Result<(SpecStmt, int), SpecError>
    decreases toks.len() - i, 5int,
{
    match parse_expr(toks, i, Precedence::Lowest.rank()) {
        Ok((e, j)) => Ok((SpecStmt::Expression(at(toks, i), e), statement_end(toks, j))),
        Err(e) => Err(e),
    }
}

/// `let <identifier> = <expression>`, with an optional semicolon.
pub open spec fn parse_let_statement(toks: Seq<SpecToken>, i: int) -> Result<(SpecStmt, int), SpecError>
    decreases toks.len() - i, 5int,
{
    let name = at(toks, i + 1);
    if !(name is Identifier) {
        Err(SpecError::UnexpectedTokenExpected(Expected::Identifier, name))
    } else if !(at(toks, i + 2) is Assign) {
        Err(SpecError::UnexpectedTokenExpected(Expected::Assign, at(toks, i + 2)))
    } else {
        match parse_expr(toks, i + 3, Precedence::Lowest.rank()) {
            Ok((v, j)) => Ok((SpecStmt::Let(at(toks, i), name, v), statement_end(toks, j))),
            Err(e) => Err(e),
        }
    }
}

/// `return <expression>`, with an optional semicolon.
pub open spec fn parse_return_statement(toks: Seq<SpecToken>, i: int) -> Result<(SpecStmt, int), SpecError>
    decreases toks.len() - i, 5int,
{
    if !(at(toks, i) is Return) {
        Err(SpecError::UnexpectedPrefixToken(at(toks, i)))
    } else {
        match parse_expr(toks, i + 1, Precedence::Lowest.rank()) {
            Ok((v, j)) => Ok((SpecStmt::Return(at(toks, i), v), statement_end(toks, j))),
            Err(e) => Err(e),
        }
    }
}

/// A block standing as a statement.
pub open spec fn parse_block_statement(toks: Seq<SpecToken>, i: int) -> Result<(SpecStmt, int), SpecError>
    decreases toks.len() - i, 5int,
{
    match parse_block(toks, i) {
        Ok((stmts, k)) => Ok((SpecStmt::Block(at(toks, i), stmts), k)),
        Err(e) => Err(e),
    }
}

pub open spec fn parse_statement(toks: Seq<SpecToken>, i: int) -> Result<(SpecStmt, int), SpecError>
    decreases toks.len() - i, 6int,
{
    match at(toks, i) {
        SpecToken::Let => parse_let_statement(toks, i),
        SpecToken::Return => parse_return_statement(toks, i),
        SpecToken::LCurly => parse_block_statement(toks, i),
        _ => parse_expression_statement(toks, i),
    }
}

/// The statements from `i` up to `Eof`, or the first error.
pub open spec fn parse_statements(toks: Seq<SpecToken>, i: int) -> Result<Seq<SpecStmt>, SpecError>
    decreases toks.len() - i,
{
    if at(toks, i) is Eof {
        Ok(seq![])
    } else {
        match parse_statement(toks, i) {
            Ok((s, j)) => if i <= j < toks.len() {
                match parse_statements(toks, j + 1) {
                    Ok(rest) => Ok(seq![s] + rest),
                    Err(e) => Err(e),
                }
            } else {
                Ok(seq![s])
            },
            Err(e) => Err(e),
        }
    }
}

/// The program that a source text parses to.
pub open spec fn parse_source(s: Seq<char>) -> Result<Seq<SpecStmt>, SpecError> {
    parse_statements(tokens_of(s), 0)
}

/// A token that carries text spells exactly the source characters it was read
/// from, and the leaf node that the parser builds from it, wherever the token
/// stands in a stream, keeps that token and so gives back the same text.
pub proof fn law_literal_preserved(s: Seq<char>, i: int, toks: Seq<SpecToken>, k: int)
    requires
        0 <= i <= s.len(),
        scan(s, i).0 is Identifier || scan(s, i).0 is Integer,
        at(toks, k) == scan(s, i).0,
    ensures
        literal_of(scan(s, i).0) == s.subrange(skip_ws(s, i), scan(s, i).1),
        parse_prefix(toks, k) is Ok,
        parse_prefix(toks, k)->Ok_0.0 == (if scan(s, i).0 is Identifier {
            SpecExpr::Identifier(scan(s, i).0)
        } else {
            SpecExpr::IntegerLiteral(scan(s, i).0)
        }),
        literal_of(expr_token(parse_prefix(toks, k)->Ok_0.0)) == s.subrange(skip_ws(s, i), scan(s, i).1),
{
    let j = skip_ws(s, i);
    if j < s.len() {
        let w = s.subrange(j, crate::lexer::word_end(s, j));
        if classify_word(w) is Identifier {
            assert(classify_word(w) == SpecToken::Identifier(w));
        }
    }
}

/// Only `!` and `-` are prefix operators; a token that no prefix rule
/// accepts fails the expression with `UnexpectedPrefixToken` naming it,
/// at every binding power.
pub proof fn law_prefix_exclusive(toks: Seq<SpecToken>, i: int, min: int)
    ensures
        prefix_operator(at(toks, i)) is Some <==> (at(toks, i) is Bang || at(toks, i) is Minus),
        !starts_expression(at(toks, i)) ==> parse_expr(toks, i, min) == Err::<(SpecExpr, int), SpecError>(
            SpecError::UnexpectedPrefixToken(at(toks, i)),
        ),
        prefix_operator(at(toks, i)) is None ==> parse_prefix_expression(toks, i) == Err::<(SpecExpr, int), SpecError>(
            SpecError::UnexpectedPrefixToken(at(toks, i)),
        ),
{
}

/// A successful parse ends at or after where it started, inside the stream.
proof fn lemma_expr_bounds(toks: Seq<SpecToken>, i: int, min: int)
    requires
        parse_expr(toks, i, min) is Ok,
    ensures
        i <= parse_expr(toks, i, min)->Ok_0.1 < toks.len(),
    decreases toks.len() - i, 3int,
{
    lemma_prefix_bounds(toks, i);
    let (left, j) = parse_prefix(toks, i)->Ok_0;
    lemma_chain_bounds(toks, left, j, min);
}

proof fn lemma_prefix_bounds(toks: Seq<SpecToken>, i: int)
    requires
        parse_prefix(toks, i) is Ok,
    ensures
        i <= parse_prefix(toks, i)->Ok_0.1 < toks.len(),
    decreases toks.len() - i, 2int,
{
    let t = at(toks, i);
    if t is Bang || t is Minus {
        lemma_expr_bounds(toks, i + 1, Precedence::Prefix.rank());
    } else if t is LParen {
        lemma_expr_bounds(toks, i + 1, Precedence::Lowest.rank());
    } else if t is If {
        lemma_if_bounds(toks, i);
    } else if t is Function {
        lemma_function_bounds(toks, i);
    }
}

proof fn lemma_if_bounds(toks: Seq<SpecToken>, i: int)
    requires
        parse_if(toks, i) is Ok,
    ensures
        i < parse_if(toks, i)->Ok_0.1 < toks.len(),
    decreases toks.len() - i, 1int,
{
    lemma_expr_bounds(toks, i + 2, Precedence::Lowest.rank());
    let j = parse_expr(toks, i + 2, Precedence::Lowest.rank())->Ok_0.1;
    if i < j && at(toks, j + 1) is RParen && at(toks, j + 2) is LCurly {
        lemma_block_bounds(toks, j + 2);
        let k = parse_block(toks, j + 2)->Ok_0.1;
        if at(toks, k + 1) is Else && at(toks, k + 2) is LCurly && j < k {
            lemma_block_bounds(toks, k + 2);
        }
    }
}

proof fn lemma_function_bounds(toks: Seq<SpecToken>, i: int)
    requires
        parse_function_literal(toks, i) is Ok,
    ensures
        i < parse_function_literal(toks, i)->Ok_0.1 < toks.len(),
    decreases toks.len() - i, 1int,
{
    lemma_parameters_bounds(toks, i + 1);
    let j = parse_parameters(toks, i + 1)->Ok_0.1;
    lemma_block_bounds(toks, j + 1);
}

proof fn lemma_parameter_list_bounds(toks: Seq<SpecToken>, i: int)
    requires
        parse_parameter_list(toks, i) is Ok,
    ensures
        i < parse_parameter_list(toks, i)->Ok_0.1 < toks.len(),
    decreases toks.len() - i,
{
    if at(toks, i + 1) is Comma {
        lemma_parameter_list_bounds(toks, i + 2);
    }
}

proof fn lemma_parameters_bounds(toks: Seq<SpecToken>, i: int)
    requires
        parse_parameters(toks, i) is Ok,
    ensures
        i < parse_parameters(toks, i)->Ok_0.1 < toks.len(),
{
    if !(at(toks, i + 1) is RParen) {
        lemma_parameter_list_bounds(toks, i + 1);
    }
}

proof fn lemma_block_bounds(toks: Seq<SpecToken>, i: int)
    requires
        parse_block(toks, i) is Ok,
    ensures
        i < parse_block(toks, i)->Ok_0.1 < toks.len(),
    decreases toks.len() - i, 1int,
{
    lemma_block_statements_bounds(toks, i + 1);
}

proof fn lemma_block_statements_bounds(toks: Seq<SpecToken>, i: int)
    requires
        parse_block_statements(toks, i) is Ok,
    ensures
        i <= parse_block_statements(toks, i)->Ok_0.1 < toks.len(),
    decreases toks.len() - i, 7int,
{
    let t = at(toks, i);
    if !(t is RCurly) && !(t is Eof) {
        lemma_statement_bounds(toks, i);
        let j = parse_statement(toks, i)->Ok_0.1;
        lemma_block_statements_bounds(toks, j + 1);
    }
}

proof fn lemma_statement_bounds(toks: Seq<SpecToken>, i: int)
    requires
        parse_statement(toks, i) is Ok,
    ensures
        i <= parse_statement(toks, i)->Ok_0.1 < toks.len(),
    decreases toks.len() - i, 6int,
{
    let t = at(toks, i);
    if t is Let {
        lemma_expr_bounds(toks, i + 3, Precedence::Lowest.rank());
    } else if t is Return {
        lemma_expr_bounds(toks, i + 1, Precedence::Lowest.rank());
    } else if t is LCurly {
        lemma_block_bounds(toks, i);
    } else {
        lemma_expr_bounds(toks, i, Precedence::Lowest.rank());
    }
}

proof fn lemma_call_arguments_bounds(toks: Seq<SpecToken>, i: int)
    requires
        parse_call_arguments(toks, i) is Ok,
    ensures
        i < parse_call_arguments(toks, i)->Ok_0.1 < toks.len(),
    decreases toks.len() - i, 5int,
{
    if !(at(toks, i + 1) is RParen) {
        lemma_argument_list_bounds(toks, i + 1);
    }
}

proof fn lemma_argument_list_bounds(toks: Seq<SpecToken>, i: int)
    requires
        parse_argument_list(toks, i) is Ok,
    ensures
        i <= parse_argument_list(toks, i)->Ok_0.1 < toks.len(),
    decreases toks.len() - i, 4int,
{
    lemma_expr_bounds(toks, i, Precedence::Lowest.rank());
    let j = parse_expr(toks, i, Precedence::Lowest.rank())->Ok_0.1;
    if at(toks, j + 1) is Comma {
        lemma_argument_list_bounds(toks, j + 2);
    }
}

proof fn lemma_chain_bounds(toks: Seq<SpecToken>, left: SpecExpr, j: int, min: int)
    requires
        parse_infix_chain(toks, left, j, min) is Ok,
        0 <= j < toks.len(),
    ensures
        j <= parse_infix_chain(toks, left, j, min)->Ok_0.1 < toks.len(),
    decreases toks.len() - j, 0int,
{
    let t = at(toks, j + 1);
    if infix_precedence(t).rank() > min {
        if t is LParen {
            let (args, k) = parse_call_arguments(toks, j + 1)->Ok_0;
            if j < k < toks.len() {
                lemma_chain_bounds(toks, SpecExpr::Call(t, Box::new(left), args), k, min);
            }
        } else if infix_operator(t) is Some {
            let (right, k) = parse_expr(toks, j + 2, infix_precedence(t).rank())->Ok_0;
            if j < k < toks.len() {
                lemma_chain_bounds(
                    toks,
                    SpecExpr::Infix(t, Box::new(left), infix_operator(t)->Some_0, Box::new(right)),
                    k,
                    min,
                );
            }
        }
    }
}

/// `t1` and `t2` hold the same tokens from `lo` through `hi`.
pub open spec fn agree(t1: Seq<SpecToken>, t2: Seq<SpecToken>, lo: int, hi: int) -> bool {
    forall|k: int| lo <= k <= hi ==> #[trigger] at(t1, k) == at(t2, k)
}

/// A token that ends an expression whatever stands before it: no infix rule
/// takes it, and it is no `else`.
pub open spec fn ends_expression(t: SpecToken) -> bool {
    infix_precedence(t) is Lowest && !(t is Else)
}

/// At `k` both streams hold the same token, or tokens that both end an expression.
pub open spec fn same_stop(t1: Seq<SpecToken>, t2: Seq<SpecToken>, k: int) -> bool {
    at(t1, k) == at(t2, k) || (ends_expression(at(t1, k)) && ends_expression(at(t2, k)))
}

/// An expression parses the same in any stream that holds its tokens and,
/// after them, a token that ends it the same way.
proof fn lemma_expr_stable(t1: Seq<SpecToken>, t2: Seq<SpecToken>, i: int, min: int)
    requires
        parse_expr(t1, i, min) is Ok,
        agree(t1, t2, i, parse_expr(t1, i, min)->Ok_0.1),
        same_stop(t1, t2, parse_expr(t1, i, min)->Ok_0.1 + 1),
        t1.len() <= t2.len(),
    ensures
        parse_expr(t2, i, min) == parse_expr(t1, i, min),
    decreases t1.len() - i, 3int,
{
    lemma_prefix_bounds(t1, i);
    let (left, j1) = parse_prefix(t1, i)->Ok_0;
    lemma_chain_bounds(t1, left, j1, min);
    lemma_prefix_stable(t1, t2, i);
    lemma_chain_stable(t1, t2, left, j1, min);
}

proof fn lemma_prefix_stable(t1: Seq<SpecToken>, t2: Seq<SpecToken>, i: int)
    requires
        parse_prefix(t1, i) is Ok,
        agree(t1, t2, i, parse_prefix(t1, i)->Ok_0.1),
        same_stop(t1, t2, parse_prefix(t1, i)->Ok_0.1 + 1),
        t1.len() <= t2.len(),
    ensures
        parse_prefix(t2, i) == parse_prefix(t1, i),
    decreases t1.len() - i, 2int,
{
    lemma_prefix_bounds(t1, i);
    let t = at(t1, i);
    assert(at(t2, i) == t);
    if t is Bang || t is Minus {
        lemma_expr_bounds(t1, i + 1, Precedence::Prefix.rank());
        lemma_expr_stable(t1, t2, i + 1, Precedence::Prefix.rank());
    } else if t is LParen {
        lemma_expr_bounds(t1, i + 1, Precedence::Lowest.rank());
        let j = parse_expr(t1, i + 1, Precedence::Lowest.rank())->Ok_0.1;
        assert(at(t1, j + 1) == at(t2, j + 1));
        lemma_expr_stable(t1, t2, i + 1, Precedence::Lowest.rank());
    } else if t is If {
        lemma_if_stable(t1, t2, i);
    } else if t is Function {
        lemma_function_stable(t1, t2, i);
    }
}

proof fn lemma_if_stable(t1: Seq<SpecToken>, t2: Seq<SpecToken>, i: int)
    requires
        parse_if(t1, i) is Ok,
        agree(t1, t2, i, parse_if(t1, i)->Ok_0.1),
        same_stop(t1, t2, parse_if(t1, i)->Ok_0.1 + 1),
        t1.len() <= t2.len(),
    ensures
        parse_if(t2, i) == parse_if(t1, i),
    decreases t1.len() - i, 1int,
{
    lemma_if_bounds(t1, i);
    let r = parse_if(t1, i)->Ok_0.1;
    assert(at(t1, i + 1) == at(t2, i + 1));
    lemma_expr_bounds(t1, i + 2, Precedence::Lowest.rank());
    let j = parse_expr(t1, i + 2, Precedence::Lowest.rank())->Ok_0.1;
    if i < j && at(t1, j + 1) is RParen && at(t1, j + 2) is LCurly {
        lemma_block_bounds(t1, j + 2);
        let k = parse_block(t1, j + 2)->Ok_0.1;
        if at(t1, k + 1) is Else {
            lemma_block_bounds(t1, k + 2);
            assert(r == parse_block(t1, k + 2)->Ok_0.1);
        } else {
            assert(r == k);
        }
        assert(at(t1, j + 1) == at(t2, j + 1));
        assert(at(t1, j + 2) == at(t2, j + 2));
        lemma_expr_stable(t1, t2, i + 2, Precedence::Lowest.rank());
        lemma_block_stable(t1, t2, j + 2);
        if at(t1, k + 1) is Else {
            assert(at(t1, k + 1) == at(t2, k + 1));
            assert(at(t1, k + 2) == at(t2, k + 2));
            if at(t1, k + 2) is LCurly && j < k {
                lemma_block_bounds(t1, k + 2);
                lemma_block_stable(t1, t2, k + 2);
            }
        }
    } else {
        assert(at(t1, j + 1) == at(t2, j + 1));
        lemma_expr_stable(t1, t2, i + 2, Precedence::Lowest.rank());
    }
}

proof fn lemma_function_stable(t1: Seq<SpecToken>, t2: Seq<SpecToken>, i: int)
    requires
        parse_function_literal(t1, i) is Ok,
        agree(t1, t2, i, parse_function_literal(t1, i)->Ok_0.1),
        t1.len() <= t2.len(),
    ensures
        parse_function_literal(t2, i) == parse_function_literal(t1, i),
    decreases t1.len() - i, 1int,
{
    lemma_function_bounds(t1, i);
    assert(at(t1, i + 1) == at(t2, i + 1));
    lemma_parameters_bounds(t1, i + 1);
    let j = parse_parameters(t1, i + 1)->Ok_0.1;
    lemma_block_bounds(t1, j + 1);
    assert(parse_function_literal(t1, i)->Ok_0.1 == parse_block(t1, j + 1)->Ok_0.1);
    lemma_parameters_stable(t1, t2, i + 1);
    assert(at(t1, j + 1) == at(t2, j + 1));
    lemma_block_stable(t1, t2, j + 1);
}

proof fn lemma_parameter_list_stable(t1: Seq<SpecToken>, t2: Seq<SpecToken>, i: int)
    requires
        parse_parameter_list(t1, i) is Ok,
        agree(t1, t2, i, parse_parameter_list(t1, i)->Ok_0.1),
    ensures
        parse_parameter_list(t2, i) == parse_parameter_list(t1, i),
    decreases t1.len() - i,
{
    lemma_parameter_list_bounds(t1, i);
    assert(at(t1, i) == at(t2, i));
    assert(at(t1, i + 1) == at(t2, i + 1));
    if at(t1, i + 1) is Comma {
        lemma_parameter_list_bounds(t1, i + 2);
        lemma_parameter_list_stable(t1, t2, i + 2);
    }
}

proof fn lemma_parameters_stable(t1: Seq<SpecToken>, t2: Seq<SpecToken>, i: int)
    requires
        parse_parameters(t1, i) is Ok,
        agree(t1, t2, i, parse_parameters(t1, i)->Ok_0.1),
    ensures
        parse_parameters(t2, i) == parse_parameters(t1, i),
{
    lemma_parameters_bounds(t1, i);
    assert(at(t1, i + 1) == at(t2, i + 1));
    if !(at(t1, i + 1) is RParen) {
        lemma_parameter_list_stable(t1, t2, i + 1);
    }
}

proof fn lemma_block_stable(t1: Seq<SpecToken>, t2: Seq<SpecToken>, i: int)
    requires
        parse_block(t1, i) is Ok,
        agree(t1, t2, i, parse_block(t1, i)->Ok_0.1),
        t1.len() <= t2.len(),
    ensures
        parse_block(t2, i) == parse_block(t1, i),
    decreases t1.len() - i, 1int,
{
    lemma_block_bounds(t1, i);
    lemma_block_statements_stable(t1, t2, i + 1);
}

proof fn lemma_block_statements_stable(t1: Seq<SpecToken>, t2: Seq<SpecToken>, i: int)
    requires
        parse_block_statements(t1, i) is Ok,
        agree(t1, t2, i, parse_block_statements(t1, i)->Ok_0.1),
        t1.len() <= t2.len(),
    ensures
        parse_block_statements(t2, i) == parse_block_statements(t1, i),
    decreases t1.len() - i, 7int,
{
    lemma_block_statements_bounds(t1, i);
    let t = at(t1, i);
    assert(at(t2, i) == t);
    if !(t is RCurly) && !(t is Eof) {
        lemma_statement_bounds(t1, i);
        let j = parse_statement(t1, i)->Ok_0.1;
        lemma_block_statements_bounds(t1, j + 1);
        lemma_statement_stable(t1, t2, i);
        lemma_block_statements_stable(t1, t2, j + 1);
    }
}

proof fn lemma_statement_stable(t1: Seq<SpecToken>, t2: Seq<SpecToken>, i: int)
    requires
        parse_statement(t1, i) is Ok,
        agree(t1, t2, i, parse_statement(t1, i)->Ok_0.1 + 1),
        t1.len() <= t2.len(),
    ensures
        parse_statement(t2, i) == parse_statement(t1, i),
    decreases t1.len() - i, 6int,
{
    lemma_statement_bounds(t1, i);
    let t = at(t1, i);
    assert(at(t2, i) == t);
    if t is Let {
        lemma_expr_bounds(t1, i + 3, Precedence::Lowest.rank());
        let j = parse_expr(t1, i + 3, Precedence::Lowest.rank())->Ok_0.1;
        assert(parse_statement(t1, i)->Ok_0.1 >= j);
        assert(at(t1, i + 1) == at(t2, i + 1));
        assert(at(t1, i + 2) == at(t2, i + 2));
        assert(at(t1, j + 1) == at(t2, j + 1));
        lemma_expr_stable(t1, t2, i + 3, Precedence::Lowest.rank());
    } else if t is Return {
        lemma_expr_bounds(t1, i + 1, Precedence::Lowest.rank());
        let j = parse_expr(t1, i + 1, Precedence::Lowest.rank())->Ok_0.1;
        assert(at(t1, j + 1) == at(t2, j + 1));
        lemma_expr_stable(t1, t2, i + 1, Precedence::Lowest.rank());
    } else if t is LCurly {
        lemma_block_stable(t1, t2, i);
    } else {
        lemma_expr_bounds(t1, i, Precedence::Lowest.rank());
        let j = parse_expr(t1, i, Precedence::Lowest.rank())->Ok_0.1;
        assert(at(t1, j + 1) == at(t2, j + 1));
        lemma_expr_stable(t1, t2, i, Precedence::Lowest.rank());
    }
}

proof fn lemma_call_arguments_stable(t1: Seq<SpecToken>, t2: Seq<SpecToken>, i: int)
    requires
        parse_call_arguments(t1, i) is Ok,
        agree(t1, t2, i, parse_call_arguments(t1, i)->Ok_0.1),
        t1.len() <= t2.len(),
    ensures
        parse_call_arguments(t2, i) == parse_call_arguments(t1, i),
    decreases t1.len() - i, 5int,
{
    lemma_call_arguments_bounds(t1, i);
    assert(at(t1, i + 1) == at(t2, i + 1));
    if !(at(t1, i + 1) is RParen) {
        lemma_argument_list_stable(t1, t2, i + 1);
    }
}

proof fn lemma_argument_list_stable(t1: Seq<SpecToken>, t2: Seq<SpecToken>, i: int)
    requires
        parse_argument_list(t1, i) is Ok,
        agree(t1, t2, i, parse_argument_list(t1, i)->Ok_0.1),
        t1.len() <= t2.len(),
    ensures
        parse_argument_list(t2, i) == parse_argument_list(t1, i),
    decreases t1.len() - i, 4int,
{
    lemma_argument_list_bounds(t1, i);
    lemma_expr_bounds(t1, i, Precedence::Lowest.rank());
    let j = parse_expr(t1, i, Precedence::Lowest.rank())->Ok_0.1;
    if at(t1, j + 1) is Comma {
        lemma_argument_list_bounds(t1, j + 2);
        assert(parse_argument_list(t1, i)->Ok_0.1 == parse_argument_list(t1, j + 2)->Ok_0.1);
    } else {
        assert(parse_argument_list(t1, i)->Ok_0.1 == j + 1);
    }
    assert(at(t1, j + 1) == at(t2, j + 1));
    lemma_expr_stable(t1, t2, i, Precedence::Lowest.rank());
    if at(t1, j + 1) is Comma {
        lemma_argument_list_stable(t1, t2, j + 2);
    }
}

proof fn lemma_chain_stable(t1: Seq<SpecToken>, t2: Seq<SpecToken>, left: SpecExpr, j: int, min: int)
    requires
        parse_infix_chain(t1, left, j, min) is Ok,
        0 <= j < t1.len(),
        agree(t1, t2, j + 1, parse_infix_chain(t1, left, j, min)->Ok_0.1),
        same_stop(t1, t2, parse_infix_chain(t1, left, j, min)->Ok_0.1 + 1),
        t1.len() <= t2.len(),
    ensures
        parse_infix_chain(t2, left, j, min) == parse_infix_chain(t1, left, j, min),
    decreases t1.len() - j, 0int,
{
    lemma_chain_bounds(t1, left, j, min);
    let r = parse_infix_chain(t1, left, j, min)->Ok_0.1;
    let t = at(t1, j + 1);
    if infix_precedence(t).rank() > min && (t is LParen || infix_operator(t) is Some) {
        assert(at(t2, j + 1) == t);
        if t is LParen {
            lemma_call_arguments_bounds(t1, j + 1);
            let (args, k) = parse_call_arguments(t1, j + 1)->Ok_0;
            let next = SpecExpr::Call(t, Box::new(left), args);
            lemma_chain_bounds(t1, next, k, min);
            lemma_call_arguments_stable(t1, t2, j + 1);
            lemma_chain_stable(t1, t2, next, k, min);
        } else {
            let p = infix_precedence(t).rank();
            let (right, k) = parse_expr(t1, j + 2, p)->Ok_0;
            lemma_expr_bounds(t1, j + 2, p);
            let next = SpecExpr::Infix(t, Box::new(left), infix_operator(t)->Some_0, Box::new(right));
            lemma_chain_bounds(t1, next, k, min);
            if k < r {
                assert(at(t1, k + 1) == at(t2, k + 1));
            }
            lemma_expr_stable(t1, t2, j + 2, p);
            lemma_chain_stable(t1, t2, next, k, min);
        }
    }
}

/// A semicolon after an expression statement is optional: where the
/// expression runs to the end of the input, the program parses to the same
/// single statement with a semicolon after it and without one.
pub proof fn law_semicolon_optional(body: Seq<SpecToken>)
    requires
        body.len() >= 1,
        forall|k: int| 0 <= k < body.len() ==> !(#[trigger] body[k] is Eof),
        !(body[0] is Let),
        !(body[0] is Return),
        parse_expr(body.push(SpecToken::Eof), 0, Precedence::Lowest.rank()) is Ok,
        parse_expr(body.push(SpecToken::Eof), 0, Precedence::Lowest.rank())->Ok_0.1 == body.len() - 1,
    ensures
        parse_statements(body.push(SpecToken::Eof), 0) is Ok,
        parse_statements(body.push(SpecToken::Eof), 0)->Ok_0.len() == 1,
        parse_statements(body.push(SpecToken::Semicolon).push(SpecToken::Eof), 0) == parse_statements(
            body.push(SpecToken::Eof),
            0,
        ),
{
    let t1 = body.push(SpecToken::Eof);
    let t2 = body.push(SpecToken::Semicolon).push(SpecToken::Eof);
    let j = body.len() - 1;
    assert(agree(t1, t2, 0, j));
    assert(at(t1, j + 1) == SpecToken::Eof);
    assert(at(t2, j + 1) == SpecToken::Semicolon);
    lemma_expr_stable(t1, t2, 0, Precedence::Lowest.rank());
    assert(at(t1, 0) == at(t2, 0));
    assert(at(t1, j + 1) is Eof);
    assert(at(t2, j + 2) is Eof);
    let e = parse_expr(t1, 0, Precedence::Lowest.rank())->Ok_0.0;
    let st = SpecStmt::Expression(at(t1, 0), e);
    assert(parse_statement(t1, 0) == Ok::<(SpecStmt, int), SpecError>((st, j)));
    assert(parse_statement(t2, 0) == Ok::<(SpecStmt, int), SpecError>((st, j + 1)));
    assert(parse_statements(t1, j + 1) == Ok::<Seq<SpecStmt>, SpecError>(seq![]));
    assert(parse_statements(t2, j + 2) == Ok::<Seq<SpecStmt>, SpecError>(seq![]));
    assert(seq![st] + Seq::<SpecStmt>::empty() =~= seq![st]);
}

} // verus!
