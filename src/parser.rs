//! The Pratt parser: pulls tokens from the lexer with one token of lookahead
//! and builds expressions by binding power.
use vstd::prelude::*;
use crate::ast::{
    exprs_model, stmts_model, tokens_model, BlockStatement, CallExpression, Expression,
    ExpressionStatement, FunctionLiteral, IfExpression, InfixExpression, InfixOperator,
    LetStatement, PrefixExpression, ReturnStatement, Statement,
};
use crate::grammar::{
    at, infix_operator, infix_precedence, lemma_tokens_step, lemma_tokens_valid, parse_expr,
    parse_argument_list, parse_block, parse_block_statements, parse_call_arguments,
    parse_function_literal, parse_if, parse_parameter_list, parse_parameters,
    parse_grouped, parse_infix_chain, parse_let_statement, parse_prefix, parse_return_statement,
    parse_statement, statement_end, tokens_from, valid_stream, Expected, Precedence, SpecError, SpecExpr, SpecStmt,
};
use crate::lexer::Lexer;
use crate::token::{literal_of, SpecToken, Token};
use vstd::string::StringExecFns;

verus! {

/// Why parsing stopped.
#[derive(Debug, Clone, Copy)]
pub enum ParseError<'a> {
    /// No expression can start with this token.
    UnexpectedPrefixToken(Token<'a>),
    /// A required token class was absent; the token found instead.
    UnexpectedTokenExpected(Expected, Token<'a>),
}

impl<'a> View for ParseError<'a> {
    type V = SpecError;

    open spec fn view(&self) -> SpecError {
        match *self {
            ParseError::UnexpectedPrefixToken(t) => SpecError::UnexpectedPrefixToken(t@),
            ParseError::UnexpectedTokenExpected(x, t) => SpecError::UnexpectedTokenExpected(x, t@),
        }
    }
}

/// The parse of an expression agrees with the grammar: same tree and cursor
/// on its last token, or the same error.
pub open spec fn expression_outcome(
    spec: Result<(SpecExpr, int), SpecError>,
    r: Result<Expression, ParseError>,
    index: int,
) -> bool {
    match spec {
        Ok((e, j)) => r is Ok && r->Ok_0.model() == e && index == j,
        Err(e) => r is Err && r->Err_0@ == e,
    }
}

/// The same for a statement.
pub open spec fn statement_outcome(
    spec: Result<(SpecStmt, int), SpecError>,
    r: Result<Statement, ParseError>,
    index: int,
) -> bool {
    match spec {
        Ok((s, j)) => r is Ok && r->Ok_0.model() == s && index == j,
        Err(e) => r is Err && r->Err_0@ == e,
    }
}

/// Where the rest of the stream starts for the lexer, with the cursor at `i`.
pub open spec fn lexer_start(toks: Seq<SpecToken>, i: int) -> int {
    if i + 2 < toks.len() {
        i + 2
    } else {
        toks.len() - 1
    }
}

/// Cursor after one step: on by one, or staying on the final `Eof`.
pub open spec fn advance(toks: Seq<SpecToken>, i: int) -> int {
    if i + 1 < toks.len() {
        i + 1
    } else {
        i
    }
}

/// Parser state: the current and the next token, and the errors recorded so far.
pub struct Parser<'a> {
    lexer: Lexer<'a>,
    current_token: Token<'a>,
    peek_token: Token<'a>,
    errors: Vec<ParseError<'a>>,
    stream: Ghost<Seq<SpecToken>>,
    index: Ghost<int>,
}

impl<'a> Parser<'a> {
    /// The whole token stream of the parser's source, from where it started.
    pub closed spec fn stream(&self) -> Seq<SpecToken> {
        self.stream@
    }

    /// Position of the current token in the stream.
    pub closed spec fn index(&self) -> int {
        self.index@
    }

    pub closed spec fn errors_model(&self) -> Seq<SpecError> {
        self.errors@.map_values(|e: ParseError<'a>| e@)
    }

    pub open spec fn current(&self) -> SpecToken {
        at(self.stream(), self.index())
    }

    pub open spec fn peek(&self) -> SpecToken {
        at(self.stream(), self.index() + 1)
    }

    /// Same stream and same recorded errors as `other`.
    pub open spec fn continues(&self, other: &Parser<'a>) -> bool {
        &&& self.stream() == other.stream()
        &&& self.errors_model() == other.errors_model()
    }

    pub closed spec fn wf(&self) -> bool {
        &&& self.lexer.wf()
        &&& valid_stream(self.stream@)
        &&& 0 <= self.index@ < self.stream@.len()
        &&& self.current_token@ == self.stream@[self.index@]
        &&& self.peek_token@ == at(self.stream@, self.index@ + 1)
        &&& tokens_from(self.lexer.chars(), self.lexer.pos()) == self.stream@.subrange(
            lexer_start(self.stream@, self.index@),
            self.stream@.len() as int,
        )
    }

    /// Facts of a well-formed parser: the stream ends in its only `Eof`, and
    /// the cursor stands inside it.
    pub proof fn lemma_wf(&self)
        requires
            self.wf(),
        ensures
            valid_stream(self.stream()),
            0 <= self.index() < self.stream().len(),
            self.current() is Eof <==> self.index() == self.stream().len() - 1,
    {
    }

    /// A parser over the tokens that `lexer` has still to give.
    pub fn new(lexer: Lexer<'a>) -> (r: Parser<'a>)
        requires
            lexer.wf(),
        ensures
            r.wf(),
            r.stream() == tokens_from(lexer.chars(), lexer.pos()),
            r.index() == 0,
            r.errors_model() == Seq::<SpecError>::empty(),
    {
        let ghost s = lexer.chars();
        let ghost pos0 = lexer.pos();
        let ghost toks = tokens_from(s, pos0);
        proof {
            lexer.lemma_bounds();
            lemma_tokens_valid(s, pos0);
            lemma_tokens_step(s, pos0);
        }
        let mut lexer = lexer;
        let current_token = lexer.next_token();
        let ghost pos1 = lexer.pos();
        proof {
            lemma_tokens_step(s, pos1);
        }
        let peek_token = lexer.next_token();
        let ghost pos2 = lexer.pos();
        proof {
            if !(current_token@ is Eof) {
                if !(peek_token@ is Eof) {
                    lemma_tokens_valid(s, pos2);
                    assert(toks.subrange(2, toks.len() as int) =~= tokens_from(s, pos2));
                } else {
                    assert(toks.subrange(1, toks.len() as int) =~= tokens_from(s, pos2));
                }
            } else {
                assert(toks.subrange(0, toks.len() as int) =~= tokens_from(s, pos2));
            }
        }
        let errors: Vec<ParseError<'a>> = Vec::new();
        let r = Parser {
            lexer,
            current_token,
            peek_token,
            errors,
            stream: Ghost(toks),
            index: Ghost(0),
        };
        assert(r.errors_model() =~= Seq::<SpecError>::empty());
        r
    }

    /// Shifts the next token into the current one and pulls a fresh next token.
    pub fn next_token(&mut self)
        requires
            old(self).wf(),
        ensures
            final(self).wf(),
            final(self).continues(old(self)),
            final(self).index() == advance(old(self).stream(), old(self).index()),
    {
        let ghost s = self.lexer.chars();
        let ghost p = self.lexer.pos();
        let ghost toks = self.stream@;
        let ghost i = self.index@;
        let ghost st = lexer_start(toks, i);
        proof {
            self.lexer.lemma_bounds();
            lemma_tokens_step(s, p);
        }
        self.current_token = self.peek_token;
        self.peek_token = self.lexer.next_token();
        self.index = Ghost(advance(toks, i));
        proof {
            let ni = advance(toks, i);
            let rest = toks.subrange(st, toks.len() as int);
            assert(rest[0] == toks[st]);
            if !(self.peek_token@ is Eof) {
                assert(toks[st] != SpecToken::Eof);
                assert(st < toks.len() - 1);
                assert(lexer_start(toks, ni) == st + 1);
                assert(toks.subrange(st + 1, toks.len() as int) =~= rest.subrange(1, rest.len() as int));
                assert(tokens_from(s, p) == seq![self.peek_token@] + tokens_from(s, self.lexer.pos()));
                assert(tokens_from(s, self.lexer.pos()) =~= rest.subrange(1, rest.len() as int));
            } else {
                assert(st == toks.len() - 1);
                assert(lexer_start(toks, ni) == toks.len() - 1);
            }
        }
    }

    /// The current token.
    pub fn current_token(&self) -> (r: Token<'a>)
        requires
            self.wf(),
        ensures
            r@ == self.current(),
    {
        self.current_token
    }

    /// Whether the next token is `t`; nothing is consumed.
    pub fn peek_is(&self, t: Token) -> (r: bool)
        requires
            self.wf(),
        ensures
            r == (self.peek() == t@),
    {
        self.peek_token.same_as(&t)
    }

    /// The errors recorded so far, oldest first.
    pub fn errors(&self) -> (r: &Vec<ParseError<'a>>)
        ensures
            r@.map_values(|e: ParseError<'a>| e@) == self.errors_model(),
    {
        &self.errors
    }

    pub(crate) fn record_error(&mut self, e: ParseError<'a>)
        requires
            old(self).wf(),
        ensures
            final(self).wf(),
            final(self).stream() == old(self).stream(),
            final(self).index() == old(self).index(),
            final(self).errors_model() == old(self).errors_model().push(e@),
    {
        self.errors.push(e);
        proof {
            assert(self.errors_model() =~= old(self).errors_model().push(e@));
        }
    }
}


/// Binding power of `t` as an infix operator; `Lowest` for any other token.
pub fn precedence_of(t: &Token) -> (r: Precedence)
    ensures
        r == infix_precedence(t@),
{
    match t {
        Token::Equal | Token::NotEqual => Precedence::Equals,
        Token::LessThan | Token::GreaterThan => Precedence::LessGreater,
        Token::Plus | Token::Minus => Precedence::Sum,
        Token::Asterisk | Token::Slash => Precedence::Product,
        Token::LParen => Precedence::Call,
        _ => Precedence::Lowest,
    }
}

/// The infix operator that `t` stands for, if any.
pub fn infix_operator_of(t: &Token) -> (r: Option<InfixOperator>)
    ensures
        r == infix_operator(t@),
{
    match t {
        Token::Plus => Some(InfixOperator::Plus),
        Token::Minus => Some(InfixOperator::Minus),
        Token::Asterisk => Some(InfixOperator::Multiply),
        Token::Slash => Some(InfixOperator::Divide),
        Token::Equal => Some(InfixOperator::Equal),
        Token::NotEqual => Some(InfixOperator::NotEqual),
        Token::LessThan => Some(InfixOperator::LessThan),
        Token::GreaterThan => Some(InfixOperator::GreaterThan),
        _ => None,
    }
}

impl<'a> Parser<'a> {
    /// Parses the expression at the cursor, folding in infix operators that
    /// bind tighter than `min`. On success the cursor rests on its last token.
    /// A token that cannot start an expression fails with `UnexpectedPrefixToken`.
    pub fn parse_expression(&mut self, min: Precedence) -> (r: Result<Expression<'a>, ParseError<'a>>)
        requires
            old(self).wf(),
        ensures
            final(self).wf(),
            final(self).continues(old(self)),
            old(self).index() <= final(self).index(),
            r is Ok ==> final(self).index() < final(self).stream().len() - 1,
            expression_outcome(parse_expr(old(self).stream(), old(self).index(), min.rank()), r, final(self).index()),
        decreases old(self).stream().len() - old(self).index(), 3int,
    {
        let ghost toks = self.stream();
        let ghost i0 = self.index();
        let mut left = match self.parse_prefix() {
            Ok(e) => e,
            Err(e) => return Err(e),
        };
        loop
            invariant
                self.wf(),
                self.continues(old(self)),
                toks == self.stream(),
                toks == old(self).stream(),
                i0 == old(self).index(),
                i0 <= self.index() < toks.len() - 1,
                parse_expr(toks, i0, min.rank()) == parse_infix_chain(toks, left.model(), self.index(), min.rank()),
            decreases toks.len() - self.index(),
        {
            proof { self.lemma_wf(); }
            let t = self.peek_token;
            let p = precedence_of(&t);
            if p.level() <= min.level() {
                return Ok(left);
            }
            let ghost j = self.index();
            if let Token::LParen = t {
                self.next_token();
                let arguments = match self.parse_call_arguments() {
                    Ok(a) => a,
                    Err(e) => return Err(e),
                };
                left = Expression::Call(CallExpression { token: t, function: Box::new(left), arguments });
            } else {
                let op = match infix_operator_of(&t) {
                    Some(op) => op,
                    None => return Ok(left),
                };
                assert(!(toks[j + 1] is Eof));
                self.next_token();
                self.next_token();
                let right = match self.parse_expression(p) {
                    Ok(e) => e,
                    Err(e) => return Err(e),
                };
                left = Expression::Infix(InfixExpression::new(t, left, op, right));
            }
        }
    }

    /// The operand at the cursor, dispatched on the current token.
    fn parse_prefix(&mut self) -> (r: Result<Expression<'a>, ParseError<'a>>)
        requires
            old(self).wf(),
        ensures
            final(self).wf(),
            final(self).continues(old(self)),
            old(self).index() <= final(self).index(),
            r is Ok ==> final(self).index() < final(self).stream().len() - 1,
            expression_outcome(parse_prefix(old(self).stream(), old(self).index()), r, final(self).index()),
        decreases old(self).stream().len() - old(self).index(), 2int,
    {
        proof { self.lemma_wf(); }
        let t = self.current_token;
        match t {
            Token::Identifier(_) => Ok(Expression::Identifier(t)),
            Token::Integer(_) => Ok(Expression::IntegerLiteral(t)),
            Token::True | Token::False => Ok(Expression::Boolean(t)),
            Token::Bang | Token::Minus => match PrefixExpression::parse(self, &Precedence::Prefix) {
                Ok(p) => Ok(Expression::Prefix(p)),
                Err(e) => Err(e),
            },
            Token::LParen => self.parse_grouped(),
            Token::If => self.parse_if(),
            Token::Function => self.parse_function_literal(),
            _ => Err(ParseError::UnexpectedPrefixToken(t)),
        }
    }

    /// `( <expression> )`: the inner expression, with the cursor on the `)`.
    fn parse_grouped(&mut self) -> (r: Result<Expression<'a>, ParseError<'a>>)
        requires
            old(self).wf(),
            old(self).current() is LParen,
        ensures
            final(self).wf(),
            final(self).continues(old(self)),
            old(self).index() <= final(self).index(),
            r is Ok ==> final(self).index() < final(self).stream().len() - 1,
            expression_outcome(parse_grouped(old(self).stream(), old(self).index()), r, final(self).index()),
        decreases old(self).stream().len() - old(self).index(), 1int,
    {
        proof { self.lemma_wf(); }
        self.next_token();
        let e = match self.parse_expression(Precedence::Lowest) {
            Ok(e) => e,
            Err(e) => return Err(e),
        };
        proof { self.lemma_wf(); }
        if self.peek_is(Token::RParen) {
            self.next_token();
            Ok(e)
        } else {
            Err(ParseError::UnexpectedTokenExpected(Expected::RParen, self.peek_token))
        }
    }

    /// Gives up with `UnexpectedPrefixToken` for the token `t`.
    pub fn unexpected_prefix_error(&self, t: Token<'a>) -> (r: ParseError<'a>)
        ensures
            r@ == SpecError::UnexpectedPrefixToken(t@),
    {
        ParseError::UnexpectedPrefixToken(t)
    }
}

impl<'a> Parser<'a> {
    /// Steps onto a following semicolon, if there is one.
    fn skip_semicolon(&mut self)
        requires
            old(self).wf(),
            old(self).index() < old(self).stream().len() - 1,
        ensures
            final(self).wf(),
            final(self).continues(old(self)),
            final(self).index() == statement_end(old(self).stream(), old(self).index()),
            final(self).index() < final(self).stream().len() - 1,
    {
        proof { self.lemma_wf(); }
        if self.peek_is(Token::Semicolon) {
            self.next_token();
        }
    }

    /// `let <identifier> = <expression>`, with the cursor on `let`.
    fn parse_let_statement(&mut self) -> (r: Result<LetStatement<'a>, ParseError<'a>>)
        requires
            old(self).wf(),
            old(self).current() is Let,
        ensures
            final(self).wf(),
            final(self).continues(old(self)),
            old(self).index() <= final(self).index(),
            r is Ok ==> final(self).index() < final(self).stream().len() - 1,
            statement_outcome(
                parse_let_statement(old(self).stream(), old(self).index()),
                match r {
                    Ok(s) => Ok(Statement::Let(s)),
                    Err(e) => Err(e),
                },
                final(self).index(),
            ),
        decreases old(self).stream().len() - old(self).index(), 5int,
    {
        proof { self.lemma_wf(); }
        let token = self.current_token;
        let name = self.peek_token;
        if !matches!(name, Token::Identifier(_)) {
            return Err(ParseError::UnexpectedTokenExpected(Expected::Identifier, name));
        }
        self.next_token();
        proof { self.lemma_wf(); }
        if !matches!(self.peek_token, Token::Assign) {
            return Err(ParseError::UnexpectedTokenExpected(Expected::Assign, self.peek_token));
        }
        self.next_token();
        self.next_token();
        let value = match self.parse_expression(Precedence::Lowest) {
            Ok(e) => e,
            Err(e) => return Err(e),
        };
        self.skip_semicolon();
        Ok(LetStatement { token, name, value })
    }

    /// `return <expression>`, with the cursor on `return`.
    fn parse_return_statement(&mut self) -> (r: Result<ReturnStatement<'a>, ParseError<'a>>)
        requires
            old(self).wf(),
            old(self).current() is Return,
        ensures
            final(self).wf(),
            final(self).continues(old(self)),
            old(self).index() <= final(self).index(),
            r is Ok ==> final(self).index() < final(self).stream().len() - 1,
            statement_outcome(
                parse_return_statement(old(self).stream(), old(self).index()),
                match r {
                    Ok(s) => Ok(Statement::Return(s)),
                    Err(e) => Err(e),
                },
                final(self).index(),
            ),
        decreases old(self).stream().len() - old(self).index(), 5int,
    {
        proof { self.lemma_wf(); }
        let token = self.current_token;
        self.next_token();
        let value = match self.parse_expression(Precedence::Lowest) {
            Ok(e) => e,
            Err(e) => return Err(e),
        };
        self.skip_semicolon();
        Ok(ReturnStatement { token, value })
    }

    /// The statement at the cursor, chosen by its first token; on success the
    /// cursor rests on its last token.
    pub fn parse_statement(&mut self) -> (r: Result<Statement<'a>, ParseError<'a>>)
        requires
            old(self).wf(),
        ensures
            final(self).wf(),
            final(self).continues(old(self)),
            old(self).index() <= final(self).index(),
            r is Ok ==> final(self).index() < final(self).stream().len() - 1,
            statement_outcome(parse_statement(old(self).stream(), old(self).index()), r, final(self).index()),
        decreases old(self).stream().len() - old(self).index(), 6int,
    {
        proof { self.lemma_wf(); }
        match self.current_token {
            Token::Let => match self.parse_let_statement() {
                Ok(s) => Ok(Statement::Let(s)),
                Err(e) => Err(e),
            },
            Token::Return => match self.parse_return_statement() {
                Ok(s) => Ok(Statement::Return(s)),
                Err(e) => Err(e),
            },
            Token::LCurly => match self.parse_block() {
                Ok(b) => Ok(Statement::Block(b)),
                Err(e) => Err(e),
            },
            _ => match ExpressionStatement::parse(self) {
                Ok(s) => Ok(Statement::Expression(s)),
                Err(e) => Err(e),
            },
        }
    }
}

/// The words for a required token class.
pub open spec fn expected_text(x: Expected) -> Seq<char> {
    match x {
        Expected::Identifier => seq!['i', 'd', 'e', 'n', 't', 'i', 'f', 'i', 'e', 'r'],
        Expected::Assign => seq!['='],
        Expected::LParen => seq!['('],
        Expected::RParen => seq![')'],
        Expected::LCurly => seq!['{'],
        Expected::RCurly => seq!['}'],
    }
}

/// Diagnostic text of an error; it names the offending token's lexeme.
pub open spec fn error_text(e: SpecError) -> Seq<char> {
    match e {
        SpecError::UnexpectedPrefixToken(t) => seq![
            'n', 'o', ' ', 'p', 'r', 'e', 'f', 'i', 'x', ' ', 'p', 'a', 'r', 's', 'e', ' ', 'f',
            'u', 'n', 'c', 't', 'i', 'o', 'n', ' ', 'f', 'o', 'r', ' ',
        ] + literal_of(t),
        SpecError::UnexpectedTokenExpected(x, t) => seq!['e', 'x', 'p', 'e', 'c', 't', 'e', 'd', ' ']
            + expected_text(x) + seq![',', ' ', 'g', 'o', 't', ' '] + literal_of(t),
    }
}

impl<'a> ParseError<'a> {
    /// A message that names the token parsing stopped at, e.g.
    /// `no prefix parse function for *`.
    pub fn message(&self) -> (r: String)
        ensures
            r@ == error_text(self@),
    {
        proof {
            reveal_strlit("no prefix parse function for ");
            reveal_strlit("expected ");
            reveal_strlit(", got ");
            reveal_strlit("identifier");
            reveal_strlit("=");
            reveal_strlit(")");
            reveal_strlit("(");
            reveal_strlit("{");
            reveal_strlit("}");
        }
        match self {
            ParseError::UnexpectedPrefixToken(t) => {
                let mut out = String::from_str("no prefix parse function for ");
                out.append(t.literal());
                out
            },
            ParseError::UnexpectedTokenExpected(x, t) => {
                let mut out = String::from_str("expected ");
                out.append(
                    match x {
                        Expected::Identifier => "identifier",
                        Expected::Assign => "=",
                        Expected::LParen => "(",
                        Expected::RParen => ")",
                        Expected::LCurly => "{",
                        Expected::RCurly => "}",
                    },
                );
                out.append(", got ");
                out.append(t.literal());
                proof {
                    assert(out@ =~= error_text(self@));
                }
                out
            },
        }
    }
}

/// `done` followed by the items of `rest`, or the error of `rest`.
pub open spec fn prepend_items<T>(done: Seq<T>, rest: Result<(Seq<T>, int), SpecError>) -> Result<(Seq<T>, int), SpecError> {
    match rest {
        Ok((r, k)) => Ok((done + r, k)),
        Err(e) => Err(e),
    }
}

impl<'a> Parser<'a> {
    /// Arguments of a call, with the cursor on its `(`; on success the cursor
    /// rests on the closing `)`.
    fn parse_call_arguments(&mut self) -> (r: Result<Vec<Expression<'a>>, ParseError<'a>>)
        requires
            old(self).wf(),
            old(self).current() is LParen,
        ensures
            final(self).wf(),
            final(self).continues(old(self)),
            old(self).index() <= final(self).index(),
            r is Ok ==> final(self).index() < final(self).stream().len() - 1,
            match parse_call_arguments(old(self).stream(), old(self).index()) {
                Ok((a, k)) => r is Ok && exprs_model(r->Ok_0@) == a && final(self).index() == k,
                Err(e) => r is Err && r->Err_0@ == e,
            },
        decreases old(self).stream().len() - old(self).index(), 5int,
    {
        proof { self.lemma_wf(); }
        let ghost toks = self.stream();
        let ghost i0 = self.index();
        if self.peek_is(Token::RParen) {
            self.next_token();
            let none: Vec<Expression<'a>> = Vec::new();
            return Ok(none);
        }
        self.next_token();
        let mut args: Vec<Expression<'a>> = Vec::new();
        proof {
            match parse_argument_list(toks, i0 + 1) {
                Ok((rest, k)) => assert(Seq::<SpecExpr>::empty() + rest =~= rest),
                Err(_) => {},
            }
        }
        loop
            invariant
                self.wf(),
                self.continues(old(self)),
                toks == self.stream(),
                toks == old(self).stream(),
                i0 == old(self).index(),
                i0 < self.index() < toks.len(),
                parse_call_arguments(toks, i0) == prepend_items(exprs_model(args@), parse_argument_list(toks, self.index())),
            decreases toks.len() - self.index(),
        {
            let ghost start = self.index();
            let a = match self.parse_expression(Precedence::Lowest) {
                Ok(e) => e,
                Err(e) => return Err(e),
            };
            let ghost done = exprs_model(args@);
            let ghost prior = args@;
            let ghost m = a.model();
            args.push(a);
            proof {
                self.lemma_wf();
                assert(args@.drop_last() =~= prior);
                assert(exprs_model(args@) == done.push(m));
            }
            if self.peek_is(Token::Comma) {
                self.next_token();
                self.next_token();
                proof {
                    match parse_argument_list(toks, self.index()) {
                        Ok((rest, k)) => assert(done + (seq![m] + rest) =~= done.push(m) + rest),
                        Err(_) => {},
                    }
                }
            } else if self.peek_is(Token::RParen) {
                self.next_token();
                proof {
                    assert(done + seq![m] =~= done.push(m));
                }
                return Ok(args);
            } else {
                return Err(ParseError::UnexpectedTokenExpected(Expected::RParen, self.peek_token));
            }
        }
    }

    /// Parameters of a function literal, with the cursor on its `(`; on
    /// success the cursor rests on the closing `)`.
    fn parse_parameters(&mut self) -> (r: Result<Vec<Token<'a>>, ParseError<'a>>)
        requires
            old(self).wf(),
            old(self).current() is LParen,
        ensures
            final(self).wf(),
            final(self).continues(old(self)),
            old(self).index() <= final(self).index(),
            r is Ok ==> final(self).index() < final(self).stream().len() - 1,
            match parse_parameters(old(self).stream(), old(self).index()) {
                Ok((ps, k)) => r is Ok && tokens_model(r->Ok_0@) == ps && final(self).index() == k,
                Err(e) => r is Err && r->Err_0@ == e,
            },
    {
        proof { self.lemma_wf(); }
        let ghost toks = self.stream();
        let ghost i0 = self.index();
        if self.peek_is(Token::RParen) {
            self.next_token();
            let none: Vec<Token<'a>> = Vec::new();
            proof {
                assert(tokens_model(none@) =~= Seq::<SpecToken>::empty());
            }
            return Ok(none);
        }
        self.next_token();
        let mut ps: Vec<Token<'a>> = Vec::new();
        proof {
            assert(tokens_model(ps@) =~= Seq::<SpecToken>::empty());
            match parse_parameter_list(toks, i0 + 1) {
                Ok((rest, k)) => assert(Seq::<SpecToken>::empty() + rest =~= rest),
                Err(_) => {},
            }
        }
        loop
            invariant
                self.wf(),
                self.continues(old(self)),
                toks == self.stream(),
                toks == old(self).stream(),
                i0 == old(self).index(),
                i0 < self.index() < toks.len(),
                parse_parameters(toks, i0) == prepend_items(tokens_model(ps@), parse_parameter_list(toks, self.index())),
            decreases toks.len() - self.index(),
        {
            proof { self.lemma_wf(); }
            let t = self.current_token;
            if !matches!(t, Token::Identifier(_)) {
                return Err(ParseError::UnexpectedTokenExpected(Expected::Identifier, t));
            }
            let ghost done = tokens_model(ps@);
            ps.push(t);
            proof {
                assert(tokens_model(ps@) =~= done.push(t@));
            }
            if self.peek_is(Token::Comma) {
                self.next_token();
                self.next_token();
                proof {
                    match parse_parameter_list(toks, self.index()) {
                        Ok((rest, k)) => assert(done + (seq![t@] + rest) =~= done.push(t@) + rest),
                        Err(_) => {},
                    }
                }
            } else if self.peek_is(Token::RParen) {
                self.next_token();
                proof {
                    assert(done + seq![t@] =~= done.push(t@));
                }
                return Ok(ps);
            } else {
                return Err(ParseError::UnexpectedTokenExpected(Expected::RParen, self.peek_token));
            }
        }
    }

    /// `{ <statements> }`, with the cursor on the `{`; on success the cursor
    /// rests on the `}`. Input that ends first fails, expecting `}`.
    fn parse_block(&mut self) -> (r: Result<BlockStatement<'a>, ParseError<'a>>)
        requires
            old(self).wf(),
            old(self).current() is LCurly,
        ensures
            final(self).wf(),
            final(self).continues(old(self)),
            old(self).index() <= final(self).index(),
            r is Ok ==> final(self).index() < final(self).stream().len() - 1,
            match parse_block(old(self).stream(), old(self).index()) {
                Ok((stmts, k)) => r is Ok && stmts_model(r->Ok_0.statements@) == stmts
                    && r->Ok_0.token@ == old(self).current() && final(self).index() == k,
                Err(e) => r is Err && r->Err_0@ == e,
            },
        decreases old(self).stream().len() - old(self).index(), 1int,
    {
        proof { self.lemma_wf(); }
        let ghost toks = self.stream();
        let ghost i0 = self.index();
        let token = self.current_token;
        self.next_token();
        let mut statements: Vec<Statement<'a>> = Vec::new();
        proof {
            match parse_block_statements(toks, i0 + 1) {
                Ok((rest, k)) => assert(Seq::<SpecStmt>::empty() + rest =~= rest),
                Err(_) => {},
            }
        }
        loop
            invariant
                self.wf(),
                self.continues(old(self)),
                toks == self.stream(),
                toks == old(self).stream(),
                i0 == old(self).index(),
                token@ == at(toks, i0),
                i0 < self.index() < toks.len(),
                parse_block(toks, i0) == prepend_items(stmts_model(statements@), parse_block_statements(toks, self.index())),
            decreases toks.len() - self.index(),
        {
            proof { self.lemma_wf(); }
            let t = self.current_token;
            if let Token::RCurly = t {
                proof {
                    assert(stmts_model(statements@) + Seq::<SpecStmt>::empty() =~= stmts_model(statements@));
                }
                return Ok(BlockStatement { token, statements });
            }
            if let Token::Eof = t {
                return Err(ParseError::UnexpectedTokenExpected(Expected::RCurly, t));
            }
            let st = match self.parse_statement() {
                Ok(st) => st,
                Err(e) => return Err(e),
            };
            let ghost done = stmts_model(statements@);
            let ghost prior = statements@;
            let ghost m = st.model();
            statements.push(st);
            proof {
                assert(statements@.drop_last() =~= prior);
                assert(stmts_model(statements@) == done.push(m));
            }
            self.next_token();
            proof {
                match parse_block_statements(toks, self.index()) {
                    Ok((rest, k)) => assert(done + (seq![m] + rest) =~= done.push(m) + rest),
                    Err(_) => {},
                }
            }
        }
    }

    /// `if (<condition>) { ... } else { ... }`, the `else` part optional, with
    /// the cursor on `if`; on success the cursor rests on the last `}`.
    fn parse_if(&mut self) -> (r: Result<Expression<'a>, ParseError<'a>>)
        requires
            old(self).wf(),
            old(self).current() is If,
        ensures
            final(self).wf(),
            final(self).continues(old(self)),
            old(self).index() <= final(self).index(),
            r is Ok ==> final(self).index() < final(self).stream().len() - 1,
            expression_outcome(parse_if(old(self).stream(), old(self).index()), r, final(self).index()),
        decreases old(self).stream().len() - old(self).index(), 1int,
    {
        proof { self.lemma_wf(); }
        let token = self.current_token;
        if !self.peek_is(Token::LParen) {
            return Err(ParseError::UnexpectedTokenExpected(Expected::LParen, self.peek_token));
        }
        self.next_token();
        self.next_token();
        let condition = match self.parse_expression(Precedence::Lowest) {
            Ok(e) => e,
            Err(e) => return Err(e),
        };
        proof { self.lemma_wf(); }
        if !self.peek_is(Token::RParen) {
            return Err(ParseError::UnexpectedTokenExpected(Expected::RParen, self.peek_token));
        }
        self.next_token();
        proof { self.lemma_wf(); }
        if !self.peek_is(Token::LCurly) {
            return Err(ParseError::UnexpectedTokenExpected(Expected::LCurly, self.peek_token));
        }
        self.next_token();
        let consequence = match self.parse_block() {
            Ok(b) => b,
            Err(e) => return Err(e),
        };
        proof { self.lemma_wf(); }
        if self.peek_is(Token::Else) {
            self.next_token();
            proof { self.lemma_wf(); }
            if !self.peek_is(Token::LCurly) {
                return Err(ParseError::UnexpectedTokenExpected(Expected::LCurly, self.peek_token));
            }
            self.next_token();
            let alternative = match self.parse_block() {
                Ok(b) => b,
                Err(e) => return Err(e),
            };
            Ok(Expression::If(IfExpression {
                token,
                condition: Box::new(condition),
                consequence,
                alternative: Some(alternative),
            }))
        } else {
            Ok(Expression::If(IfExpression { token, condition: Box::new(condition), consequence, alternative: None }))
        }
    }

    /// `fn (<parameters>) { ... }`, with the cursor on `fn`; on success the
    /// cursor rests on the closing `}`.
    fn parse_function_literal(&mut self) -> (r: Result<Expression<'a>, ParseError<'a>>)
        requires
            old(self).wf(),
            old(self).current() is Function,
        ensures
            final(self).wf(),
            final(self).continues(old(self)),
            old(self).index() <= final(self).index(),
            r is Ok ==> final(self).index() < final(self).stream().len() - 1,
            expression_outcome(parse_function_literal(old(self).stream(), old(self).index()), r, final(self).index()),
        decreases old(self).stream().len() - old(self).index(), 1int,
    {
        proof { self.lemma_wf(); }
        let token = self.current_token;
        if !self.peek_is(Token::LParen) {
            return Err(ParseError::UnexpectedTokenExpected(Expected::LParen, self.peek_token));
        }
        self.next_token();
        let parameters = match self.parse_parameters() {
            Ok(ps) => ps,
            Err(e) => return Err(e),
        };
        proof { self.lemma_wf(); }
        if !self.peek_is(Token::LCurly) {
            return Err(ParseError::UnexpectedTokenExpected(Expected::LCurly, self.peek_token));
        }
        self.next_token();
        let body = match self.parse_block() {
            Ok(b) => b,
            Err(e) => return Err(e),
        };
        Ok(Expression::Function(FunctionLiteral { token, parameters, body }))
    }
}

} // verus!
