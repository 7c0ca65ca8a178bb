//! Syntax tree nodes.
use vstd::prelude::*;
use crate::grammar::{
    parse_expression_statement, parse_prefix_expression, parse_source, parse_statements, Precedence, SpecError,
    SpecExpr, SpecStmt,
};
use crate::lexer::Lexer;
use crate::parser::{ParseError, Parser};
use crate::token::{literal_of, SpecToken, Token};
use vstd::string::StringExecFns;

verus! {

/// Operator of a prefix expression: `!` or `-`.
#[derive(Debug, Clone, Copy, PartialEq, Eq, Structural)]
pub enum PrefixOperator {
    Not,
    Minus,
}

/// Operator of an infix expression.
#[derive(Debug, Clone, Copy, PartialEq, Eq, Structural)]
pub enum InfixOperator {
    Plus,
    Minus,
    Multiply,
    Divide,
    Equal,
    NotEqual,
    LessThan,
    GreaterThan,
}


/// `done` followed by the statements of `rest`, or the error of `rest`.
pub open spec fn prepend(done: Seq<SpecStmt>, rest: Result<Seq<SpecStmt>, SpecError>) -> Result<Seq<SpecStmt>, SpecError> {
    match rest {
        Ok(r) => Ok(done + r),
        Err(e) => Err(e),
    }
}

/// `<operator><right>`.
#[derive(Debug)]
pub struct PrefixExpression<'a> {
    pub token: Token<'a>,
    pub operator: PrefixOperator,
    pub right: Box<Expression<'a>>,
}

/// `<left> <operator> <right>`.
#[derive(Debug)]
pub struct InfixExpression<'a> {
    pub token: Token<'a>,
    pub left: Box<Expression<'a>>,
    pub operator: InfixOperator,
    pub right: Box<Expression<'a>>,
}

/// An expression; each variant keeps the token that introduced it.
#[derive(Debug)]
pub enum Expression<'a> {
    Identifier(Token<'a>),
    IntegerLiteral(Token<'a>),
    Boolean(Token<'a>),
    Prefix(PrefixExpression<'a>),
    Infix(InfixExpression<'a>),
    If(IfExpression<'a>),
    Function(FunctionLiteral<'a>),
    Call(CallExpression<'a>),
}

/// `{ <statements> }`.
#[derive(Debug)]
pub struct BlockStatement<'a> {
    pub token: Token<'a>,
    pub statements: Vec<Statement<'a>>,
}

/// `if (<condition>) <consequence> else <alternative>`.
#[derive(Debug)]
pub struct IfExpression<'a> {
    pub token: Token<'a>,
    pub condition: Box<Expression<'a>>,
    pub consequence: BlockStatement<'a>,
    pub alternative: Option<BlockStatement<'a>>,
}

/// `fn (<parameters>) <body>`.
#[derive(Debug)]
pub struct FunctionLiteral<'a> {
    pub token: Token<'a>,
    pub parameters: Vec<Token<'a>>,
    pub body: BlockStatement<'a>,
}

/// `<function>(<arguments>)`; the token is the `(`.
#[derive(Debug)]
pub struct CallExpression<'a> {
    pub token: Token<'a>,
    pub function: Box<Expression<'a>>,
    pub arguments: Vec<Expression<'a>>,
}

/// Models of a sequence of statements, in order.
pub open spec fn stmts_model<'a>(s: Seq<Statement<'a>>) -> Seq<SpecStmt>
    decreases s,
{
    if s.len() == 0 {
        Seq::<SpecStmt>::empty()
    } else {
        stmts_model(s.drop_last()).push(s.last().model())
    }
}

/// Models of a sequence of expressions, in order.
pub open spec fn exprs_model<'a>(s: Seq<Expression<'a>>) -> Seq<SpecExpr>
    decreases s,
{
    if s.len() == 0 {
        Seq::<SpecExpr>::empty()
    } else {
        exprs_model(s.drop_last()).push(s.last().model())
    }
}

/// Models of a sequence of tokens.
pub open spec fn tokens_model<'a>(s: Seq<Token<'a>>) -> Seq<SpecToken> {
    s.map_values(|t: Token<'a>| t@)
}

impl<'a> Expression<'a> {
    pub open spec fn model(&self) -> SpecExpr
        decreases self,
    {
        match self {
            Expression::Identifier(t) => SpecExpr::Identifier(t@),
            Expression::IntegerLiteral(t) => SpecExpr::IntegerLiteral(t@),
            Expression::Boolean(t) => SpecExpr::Boolean(t@),
            Expression::Prefix(p) => SpecExpr::Prefix(p.token@, p.operator, Box::new(p.right.model())),
            Expression::Infix(x) => SpecExpr::Infix(
                x.token@,
                Box::new(x.left.model()),
                x.operator,
                Box::new(x.right.model()),
            ),
            Expression::If(x) => SpecExpr::If(
                x.token@,
                Box::new(x.condition.model()),
                stmts_model(x.consequence.statements@),
                match &x.alternative {
                    Some(b) => Some(stmts_model(b.statements@)),
                    None => None,
                },
            ),
            Expression::Function(f) => SpecExpr::FunctionLiteral(
                f.token@,
                tokens_model(f.parameters@),
                stmts_model(f.body.statements@),
            ),
            Expression::Call(c) => SpecExpr::Call(c.token@, Box::new(c.function.model()), exprs_model(c.arguments@)),
        }
    }
}

impl<'a> PrefixExpression<'a> {
    /// A prefix expression; the operator is taken as given, not checked against the token.
    pub fn new(token: Token<'a>, operator: PrefixOperator, right: Expression<'a>) -> (r: PrefixExpression<'a>)
        ensures
            r.token == token,
            r.operator == operator,
            *r.right == right,
    {
        PrefixExpression { token, operator, right: Box::new(right) }
    }

    /// Parses `!` or `-` at the cursor and its operand, which binds at `Prefix`.
    /// Any other current token fails with `UnexpectedPrefixToken`.
    pub fn parse(parser: &mut Parser<'a>, _precedence: &Precedence) -> (r: Result<PrefixExpression<'a>, ParseError<'a>>)
        requires
            old(parser).wf(),
        ensures
            final(parser).wf(),
            final(parser).continues(old(parser)),
            old(parser).index() <= final(parser).index(),
            r is Ok ==> final(parser).index() < final(parser).stream().len() - 1,
            match parse_prefix_expression(old(parser).stream(), old(parser).index()) {
                Ok((e, j)) => r is Ok && e == SpecExpr::Prefix(
                    r->Ok_0.token@,
                    r->Ok_0.operator,
                    Box::new(r->Ok_0.right.model()),
                ) && final(parser).index() == j,
                Err(e) => r is Err && r->Err_0@ == e,
            },
        decreases old(parser).stream().len() - old(parser).index(), 1int,
    {
        proof { parser.lemma_wf(); }
        let token = parser.current_token();
        let operator = match token {
            Token::Bang => PrefixOperator::Not,
            Token::Minus => PrefixOperator::Minus,
            _ => return Err(parser.unexpected_prefix_error(token)),
        };
        parser.next_token();
        let right = match parser.parse_expression(Precedence::Prefix) {
            Ok(e) => e,
            Err(e) => return Err(e),
        };
        Ok(PrefixExpression::new(token, operator, right))
    }
}

impl<'a> InfixExpression<'a> {
    pub fn new(token: Token<'a>, left: Expression<'a>, operator: InfixOperator, right: Expression<'a>) -> (r: InfixExpression<'a>)
        ensures
            r.token == token,
            *r.left == left,
            r.operator == operator,
            *r.right == right,
    {
        InfixExpression { token, left: Box::new(left), operator, right: Box::new(right) }
    }
}

/// `let <name> = <value>`.
#[derive(Debug)]
pub struct LetStatement<'a> {
    pub token: Token<'a>,
    pub name: Token<'a>,
    pub value: Expression<'a>,
}

/// `return <value>`.
#[derive(Debug)]
pub struct ReturnStatement<'a> {
    pub token: Token<'a>,
    pub value: Expression<'a>,
}

/// An expression standing as a statement.
#[derive(Debug)]
pub struct ExpressionStatement<'a> {
    pub token: Token<'a>,
    pub expression: Expression<'a>,
}

impl<'a> ExpressionStatement<'a> {
    pub fn new(token: Token<'a>, expression: Expression<'a>) -> (r: ExpressionStatement<'a>)
        ensures
            r.token == token,
            r.expression == expression,
    {
        ExpressionStatement { token, expression }
    }

    /// An expression at `Lowest` binding power, then an optional semicolon.
    pub fn parse(parser: &mut Parser<'a>) -> (r: Result<ExpressionStatement<'a>, ParseError<'a>>)
        requires
            old(parser).wf(),
        ensures
            final(parser).wf(),
            final(parser).continues(old(parser)),
            old(parser).index() <= final(parser).index(),
            r is Ok ==> final(parser).index() < final(parser).stream().len() - 1,
            match parse_expression_statement(old(parser).stream(), old(parser).index()) {
                Ok((s, j)) => r is Ok && s == SpecStmt::Expression(
                    r->Ok_0.token@,
                    r->Ok_0.expression.model(),
                ) && final(parser).index() == j,
                Err(e) => r is Err && r->Err_0@ == e,
            },
        decreases old(parser).stream().len() - old(parser).index(), 5int,
    {
        let token = parser.current_token();
        let expression = match parser.parse_expression(Precedence::Lowest) {
            Ok(e) => e,
            Err(e) => return Err(e),
        };
        proof { parser.lemma_wf(); }
        if parser.peek_is(Token::Semicolon) {
            parser.next_token();
        }
        Ok(ExpressionStatement::new(token, expression))
    }
}

#[derive(Debug)]
pub enum Statement<'a> {
    Let(LetStatement<'a>),
    Return(ReturnStatement<'a>),
    Expression(ExpressionStatement<'a>),
    Block(BlockStatement<'a>),
}

impl<'a> Statement<'a> {
    pub open spec fn model(&self) -> SpecStmt
        decreases self,
    {
        match self {
            Statement::Let(s) => SpecStmt::Let(s.token@, s.name@, s.value.model()),
            Statement::Return(s) => SpecStmt::Return(s.token@, s.value.model()),
            Statement::Expression(s) => SpecStmt::Expression(s.token@, s.expression.model()),
            Statement::Block(b) => SpecStmt::Block(b.token@, stmts_model(b.statements@)),
        }
    }
}

/// A parsed program: its statements in source order.
#[derive(Debug)]
pub struct Program<'a> {
    pub statements: Vec<Statement<'a>>,
}

impl<'a> Program<'a> {
    pub open spec fn model(&self) -> Seq<SpecStmt> {
        self.statements@.map_values(|s: Statement<'a>| s.model())
    }

    /// Lexes and parses a whole source text.
    pub fn parse_source(source: &'a str) -> (r: Result<Program<'a>, ParseError<'a>>)
        ensures
            match parse_source(source@) {
                Ok(stmts) => r is Ok && r->Ok_0.model() == stmts,
                Err(e) => r is Err && r->Err_0@ == e,
            },
    {
        let mut parser = Parser::new(Lexer::new(source));
        Program::parse(&mut parser)
    }

    /// Parses statements until `Eof`. The first error ends the parse; it is
    /// returned and also recorded in the parser.
    pub fn parse(parser: &mut Parser<'a>) -> (r: Result<Program<'a>, ParseError<'a>>)
        requires
            old(parser).wf(),
        ensures
            final(parser).wf(),
            final(parser).stream() == old(parser).stream(),
            match parse_statements(old(parser).stream(), old(parser).index()) {
                Ok(stmts) => r is Ok && r->Ok_0.model() == stmts
                    && final(parser).errors_model() == old(parser).errors_model(),
                Err(e) => r is Err && r->Err_0@ == e
                    && final(parser).errors_model() == old(parser).errors_model().push(e),
            },
    {
        let ghost toks = parser.stream();
        let ghost i0 = parser.index();
        let mut statements: Vec<Statement<'a>> = Vec::new();
        proof { parser.lemma_wf(); }
        while !matches!(parser.current_token(), Token::Eof)
            invariant
                parser.wf(),
                parser.continues(old(parser)),
                toks == old(parser).stream(),
                i0 == old(parser).index(),
                i0 <= parser.index(),
                parse_statements(toks, i0) == prepend(
                    statements@.map_values(|s: Statement<'a>| s.model()),
                    parse_statements(toks, parser.index()),
                ),
            decreases toks.len() - parser.index(),
        {
            proof { parser.lemma_wf(); }
            let ghost done = statements@.map_values(|s: Statement<'a>| s.model());
            match parser.parse_statement() {
                Ok(st) => {
                    let ghost m = st.model();
                    statements.push(st);
                    proof {
                        assert(statements@.map_values(|s: Statement<'a>| s.model()) =~= done.push(m));
                        match parse_statements(toks, parser.index() + 1) {
                            Ok(rest) => assert(done.push(m) + rest =~= done + (seq![m] + rest)),
                            Err(_) => {},
                        }
                    }
                },
                Err(e) => {
                    parser.record_error(e);
                    return Err(e);
                },
            }
            parser.next_token();
        }
        proof {
            let done = statements@.map_values(|s: Statement<'a>| s.model());
            assert(done + Seq::<SpecStmt>::empty() =~= done);
        }
        Ok(Program { statements })
    }
}

impl PrefixOperator {
    pub open spec fn spec_literal(self) -> Seq<char> {
        match self {
            PrefixOperator::Not => seq!['!'],
            PrefixOperator::Minus => seq!['-'],
        }
    }

    fn text(&self) -> (r: &'static str)
        ensures
            r@ == self.spec_literal(),
    {
        proof {
            reveal_strlit("!");
            reveal_strlit("-");
        }
        match self {
            PrefixOperator::Not => "!",
            PrefixOperator::Minus => "-",
        }
    }

    /// `!` or `-`.
    pub fn token_literal(&self) -> (r: String)
        ensures
            r@ == self.spec_literal(),
    {
        String::from_str(self.text())
    }
}

impl InfixOperator {
    pub open spec fn spec_literal(self) -> Seq<char> {
        match self {
            InfixOperator::Plus => seq!['+'],
            InfixOperator::Minus => seq!['-'],
            InfixOperator::Multiply => seq!['*'],
            InfixOperator::Divide => seq!['/'],
            InfixOperator::Equal => seq!['=', '='],
            InfixOperator::NotEqual => seq!['!', '='],
            InfixOperator::LessThan => seq!['<'],
            InfixOperator::GreaterThan => seq!['>'],
        }
    }

    fn text(&self) -> (r: &'static str)
        ensures
            r@ == self.spec_literal(),
    {
        proof {
            reveal_strlit("+");
            reveal_strlit("-");
            reveal_strlit("*");
            reveal_strlit("/");
            reveal_strlit("==");
            assert("=="@ =~= seq!['=', '=']);
            reveal_strlit("!=");
            assert("!="@ =~= seq!['!', '=']);
            reveal_strlit("<");
            reveal_strlit(">");
        }
        match self {
            InfixOperator::Plus => "+",
            InfixOperator::Minus => "-",
            InfixOperator::Multiply => "*",
            InfixOperator::Divide => "/",
            InfixOperator::Equal => "==",
            InfixOperator::NotEqual => "!=",
            InfixOperator::LessThan => "<",
            InfixOperator::GreaterThan => ">",
        }
    }

    /// The operator's spelling.
    pub fn token_literal(&self) -> (r: String)
        ensures
            r@ == self.spec_literal(),
    {
        String::from_str(self.text())
    }
}

/// The token that introduced an expression node.
pub open spec fn expr_token(e: SpecExpr) -> SpecToken {
    match e {
        SpecExpr::Identifier(t) => t,
        SpecExpr::IntegerLiteral(t) => t,
        SpecExpr::Boolean(t) => t,
        SpecExpr::Prefix(t, _, _) => t,
        SpecExpr::Infix(t, _, _, _) => t,
        SpecExpr::If(t, _, _, _) => t,
        SpecExpr::FunctionLiteral(t, _, _) => t,
        SpecExpr::Call(t, _, _) => t,
    }
}

/// Canonical text of an expression: leaves as their lexeme, every operator
/// application wrapped in parentheses, infix operators set off by spaces.
pub open spec fn expr_text(e: SpecExpr) -> Seq<char>
    decreases e,
{
    match e {
        SpecExpr::Prefix(_, op, right) => seq!['('] + op.spec_literal() + expr_text(*right) + seq![')'],
        SpecExpr::Infix(_, left, op, right) => seq!['('] + expr_text(*left) + seq![' '] + op.spec_literal()
            + seq![' '] + expr_text(*right) + seq![')'],
        SpecExpr::If(t, c, cons, alt) => literal_of(t) + expr_text(*c) + seq![' '] + program_text(cons)
            + match alt {
            Some(a) => seq!['e', 'l', 's', 'e', ' '] + program_text(a),
            None => Seq::<char>::empty(),
        },
        SpecExpr::FunctionLiteral(t, ps, body) => literal_of(t) + seq!['('] + params_text(ps) + seq![')', ' ']
            + program_text(body),
        SpecExpr::Call(_, f, args) => expr_text(*f) + seq!['('] + args_text(args) + seq![')'],
        _ => literal_of(expr_token(e)),
    }
}

/// Texts of expressions joined by `, `.
pub open spec fn args_text(s: Seq<SpecExpr>) -> Seq<char>
    decreases s,
{
    if s.len() == 0 {
        Seq::<char>::empty()
    } else if s.len() == 1 {
        expr_text(s[0])
    } else {
        args_text(s.drop_last()) + seq![',', ' '] + expr_text(s.last())
    }
}

/// Lexemes of parameters joined by `, `.
pub open spec fn params_text(s: Seq<SpecToken>) -> Seq<char>
    decreases s.len(),
{
    if s.len() == 0 {
        Seq::<char>::empty()
    } else if s.len() == 1 {
        literal_of(s[0])
    } else {
        params_text(s.drop_last()) + seq![',', ' '] + literal_of(s.last())
    }
}

/// Canonical text of a statement: `let <name> = <value>;`, `return <value>;`,
/// the text of the expression, or a block in braces.
pub open spec fn stmt_text(st: SpecStmt) -> Seq<char>
    decreases st,
{
    match st {
        SpecStmt::Let(t, name, v) => literal_of(t) + seq![' '] + literal_of(name) + seq![' ', '=', ' ']
            + expr_text(v) + seq![';'],
        SpecStmt::Return(t, v) => literal_of(t) + seq![' '] + expr_text(v) + seq![';'],
        SpecStmt::Expression(_, e) => expr_text(e),
        SpecStmt::Block(_, stmts) => seq!['{'] + program_text(stmts) + seq!['}'],
    }
}

/// Canonical text of a sequence of statements, one after the other.
pub open spec fn program_text(stmts: Seq<SpecStmt>) -> Seq<char>
    decreases stmts,
{
    if stmts.len() == 0 {
        Seq::<char>::empty()
    } else {
        program_text(stmts.drop_last()) + stmt_text(stmts.last())
    }
}

impl<'a> Expression<'a> {
    /// The lexeme of the token that introduced this node.
    pub fn token_literal(&self) -> (r: String)
        ensures
            r@ == literal_of(expr_token(self.model())),
    {
        match self {
            Expression::Identifier(t) => Token::lookup_literal(t),
            Expression::IntegerLiteral(t) => Token::lookup_literal(t),
            Expression::Boolean(t) => Token::lookup_literal(t),
            Expression::Prefix(p) => p.token_literal(),
            Expression::Infix(x) => Token::lookup_literal(&x.token),
            Expression::If(x) => Token::lookup_literal(&x.token),
            Expression::Function(f) => Token::lookup_literal(&f.token),
            Expression::Call(c) => Token::lookup_literal(&c.token),
        }
    }

    /// Appends the canonical text of this expression to `out`.
    #[verifier::rlimit(60)]
    pub fn write_to(&self, out: &mut String)
        ensures
            final(out)@ == old(out)@ + expr_text(self.model()),
        decreases self,
    {
        proof {
            reveal_strlit("(");
            reveal_strlit(")");
            reveal_strlit(" ");
        }
        match self {
            Expression::Prefix(p) => {
                out.append("(");
                out.append(p.operator.text());
                p.right.write_to(out);
                out.append(")");
            },
            Expression::Infix(x) => {
                out.append("(");
                x.left.write_to(out);
                out.append(" ");
                out.append(x.operator.text());
                out.append(" ");
                x.right.write_to(out);
                out.append(")");
            },
            Expression::Identifier(t) => out.append(t.literal()),
            Expression::IntegerLiteral(t) => out.append(t.literal()),
            Expression::Boolean(t) => out.append(t.literal()),
            Expression::If(x) => {
                proof {
                    reveal_strlit("else ");
                    assert("else "@ =~= seq!['e', 'l', 's', 'e', ' ']);
                }
                out.append(x.token.literal());
                x.condition.write_to(out);
                out.append(" ");
                x.consequence.write_to(out);
                let ghost mid = out@;
                match &x.alternative {
                    Some(b) => {
                        out.append("else ");
                        b.write_to(out);
                    },
                    None => {
                        assert(out@ =~= mid + Seq::<char>::empty());
                    },
                }
            },
            Expression::Function(f) => {
                out.append(f.token.literal());
                out.append("(");
                write_parameters(&f.parameters, out);
                proof {
                    reveal_strlit(") ");
                    assert(") "@ =~= seq![')', ' ']);
                }
                out.append(") ");
                f.body.write_to(out);
            },
            Expression::Call(c) => {
                c.function.write_to(out);
                out.append("(");
                write_arguments(&c.arguments, out);
                out.append(")");
            },
        }
        proof {
            assert(final(out)@ =~= old(out)@ + expr_text(self.model()));
        }
    }

    /// The canonical, fully parenthesised text of this expression, e.g. `(-15)`.
    pub fn to_string(&self) -> (r: String)
        ensures
            r@ == expr_text(self.model()),
    {
        let mut out = String::new();
        self.write_to(&mut out);
        out
    }
}

impl<'a> PrefixExpression<'a> {
    /// The canonical text, e.g. `(-15)`.
    pub fn to_string(&self) -> (r: String)
        ensures
            r@ == seq!['('] + self.operator.spec_literal() + expr_text(self.right.model()) + seq![')'],
    {
        proof {
            reveal_strlit("(");
            reveal_strlit(")");
        }
        let mut out = String::from_str("(");
        out.append(self.operator.text());
        self.right.write_to(&mut out);
        out.append(")");
        out
    }

    /// The lexeme of the operator token.
    pub fn token_literal(&self) -> (r: String)
        ensures
            r@ == literal_of(self.token@),
    {
        Token::lookup_literal(&self.token)
    }
}

impl<'a> ExpressionStatement<'a> {
    /// The canonical text of the expression.
    pub fn to_string(&self) -> (r: String)
        ensures
            r@ == expr_text(self.expression.model()),
    {
        self.expression.to_string()
    }

    /// The lexeme of the statement's first token.
    pub fn token_literal(&self) -> (r: String)
        ensures
            r@ == literal_of(self.token@),
    {
        Token::lookup_literal(&self.token)
    }
}

impl<'a> Statement<'a> {
    /// The lexeme of the statement's first token.
    pub fn token_literal(&self) -> (r: String)
        ensures
            r@ == literal_of(
                match self.model() {
                    SpecStmt::Let(t, _, _) => t,
                    SpecStmt::Return(t, _) => t,
                    SpecStmt::Expression(t, _) => t,
                    SpecStmt::Block(t, _) => t,
                },
            ),
    {
        match self {
            Statement::Let(s) => Token::lookup_literal(&s.token),
            Statement::Return(s) => Token::lookup_literal(&s.token),
            Statement::Expression(s) => s.token_literal(),
            Statement::Block(b) => Token::lookup_literal(&b.token),
        }
    }

    /// Appends the canonical text of this statement to `out`.
    pub fn write_to(&self, out: &mut String)
        ensures
            final(out)@ == old(out)@ + stmt_text(self.model()),
        decreases self,
    {
        proof {
            reveal_strlit(" ");
            reveal_strlit(" = ");
            assert(" = "@ =~= seq![' ', '=', ' ']);
            reveal_strlit(";");
        }
        match self {
            Statement::Let(s) => {
                out.append(s.token.literal());
                out.append(" ");
                out.append(s.name.literal());
                out.append(" = ");
                s.value.write_to(out);
                out.append(";");
            },
            Statement::Return(s) => {
                out.append(s.token.literal());
                out.append(" ");
                s.value.write_to(out);
                out.append(";");
            },
            Statement::Expression(s) => s.expression.write_to(out),
            Statement::Block(b) => {
                proof {
                    reveal_strlit("{");
                    reveal_strlit("}");
                }
                out.append("{");
                b.write_to(out);
                out.append("}");
            },
        }
        proof {
            assert(final(out)@ =~= old(out)@ + stmt_text(self.model()));
        }
    }

    /// The canonical text of this statement.
    pub fn to_string(&self) -> (r: String)
        ensures
            r@ == stmt_text(self.model()),
    {
        let mut out = String::new();
        self.write_to(&mut out);
        out
    }
}

impl<'a> Program<'a> {
    /// The canonical text of all statements, in order.
    pub fn to_string(&self) -> (r: String)
        ensures
            r@ == program_text(self.model()),
    {
        let mut out = String::new();
        let mut i: usize = 0;
        while i < self.statements.len()
            invariant
                i <= self.statements@.len(),
                out@ == program_text(self.model().take(i as int)),
            decreases self.statements@.len() - i,
        {
            proof {
                assert(self.model().take(i + 1).drop_last() =~= self.model().take(i as int));
            }
            self.statements[i].write_to(&mut out);
            i = i + 1;
        }
        proof {
            assert(self.model().take(i as int) =~= self.model());
        }
        out
    }
}

impl<'a> BlockStatement<'a> {
    /// Appends the texts of the block's statements, one after the other.
    pub fn write_to(&self, out: &mut String)
        ensures
            final(out)@ == old(out)@ + program_text(stmts_model(self.statements@)),
        decreases self,
    {
        let mut k: usize = 0;
        while k < self.statements.len()
            invariant
                k <= self.statements@.len(),
                out@ == old(out)@ + program_text(stmts_model(self.statements@.take(k as int))),
            decreases self.statements@.len() - k,
        {
            let ghost before = out@;
            proof {
                assert(self.statements@.take(k + 1).drop_last() =~= self.statements@.take(k as int));
                assert(decreases_to!(self => self.statements@[k as int]));
            }
            self.statements[k].write_to(out);
            proof {
                let done = stmts_model(self.statements@.take(k as int));
                let m = self.statements@[k as int].model();
                assert(stmts_model(self.statements@.take(k + 1)) == done.push(m));
                assert(done.push(m).drop_last() =~= done);
                assert(program_text(done.push(m)) == program_text(done) + stmt_text(m));
                assert(out@ =~= old(out)@ + program_text(done.push(m)));
            }
            k = k + 1;
        }
        proof {
            assert(self.statements@.take(k as int) =~= self.statements@);
        }
    }
}

/// Appends the lexemes of `ps`, joined by `, `.
fn write_parameters(ps: &Vec<Token>, out: &mut String)
    ensures
        final(out)@ == old(out)@ + params_text(tokens_model(ps@)),
{
    proof {
        reveal_strlit(", ");
        assert(", "@ =~= seq![',', ' ']);
    }
    let mut k: usize = 0;
    while k < ps.len()
        invariant
            k <= ps@.len(),
            out@ == old(out)@ + params_text(tokens_model(ps@.take(k as int))),
        decreases ps@.len() - k,
    {
        let ghost done = tokens_model(ps@.take(k as int));
        proof {
            assert(tokens_model(ps@.take(k + 1)) =~= done.push(ps@[k as int]@));
            assert(done.push(ps@[k as int]@).drop_last() =~= done);
        }
        let ghost before = out@;
        proof {
            reveal_strlit(", ");
            assert(", "@ =~= seq![',', ' ']);
        }
        if k > 0 {
            out.append(", ");
        }
        let ghost between = out@;
        out.append(ps[k].literal());
        proof {
            let x = ps@[k as int]@;
            if k == 0 {
                assert(done.push(x) =~= seq![x]);
                assert(params_text(done.push(x)) == literal_of(x));
                assert(between == before);
            } else {
                assert(between == before + seq![',', ' ']);
                assert(params_text(done.push(x)) == params_text(done) + seq![',', ' '] + literal_of(x));
            }
            assert(out@ =~= old(out)@ + params_text(tokens_model(ps@.take(k + 1))));
        }
        k = k + 1;
    }
    proof {
        assert(ps@.take(k as int) =~= ps@);
    }
}

/// Appends the texts of `args`, joined by `, `.
fn write_arguments(args: &Vec<Expression>, out: &mut String)
    ensures
        final(out)@ == old(out)@ + args_text(exprs_model(args@)),
    decreases args,
{
    proof {
        reveal_strlit(", ");
        assert(", "@ =~= seq![',', ' ']);
    }
    let mut k: usize = 0;
    while k < args.len()
        invariant
            k <= args@.len(),
            out@ == old(out)@ + args_text(exprs_model(args@.take(k as int))),
        decreases args@.len() - k,
    {
        let ghost done = exprs_model(args@.take(k as int));
        let ghost m = args@[k as int].model();
        proof {
            assert(args@.take(k + 1).drop_last() =~= args@.take(k as int));
            assert(exprs_model(args@.take(k + 1)) == done.push(m));
            assert(done.push(m).drop_last() =~= done);
            assert(decreases_to!(args => args@[k as int]));
        }
        let ghost before = out@;
        proof {
            reveal_strlit(", ");
            assert(", "@ =~= seq![',', ' ']);
        }
        if k > 0 {
            out.append(", ");
        }
        let ghost between = out@;
        args[k].write_to(out);
        proof {
            if k == 0 {
                assert(done.len() == 0);
                assert(done.push(m) =~= seq![m]);
                assert(args_text(done.push(m)) == expr_text(m));
                assert(between == before);
            } else {
                assert(between == before + seq![',', ' ']);
                assert(args_text(done.push(m)) == args_text(done) + seq![',', ' '] + expr_text(m));
            }
            assert(out@ =~= old(out)@ + args_text(exprs_model(args@.take(k + 1))));
        }
        k = k + 1;
    }
    proof {
        assert(args@.take(k as int) =~= args@);
    }
}

} // verus!
