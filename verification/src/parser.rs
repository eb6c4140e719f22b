//! The parser: from tokens to statements.
use vstd::prelude::*;
use vstd::string::StringExecFns;
use crate::error::{diagnostic, report};
use crate::grammar::{
    any_kind_at, complaint, expect, failure, following, is_operator, kind_at, next_boundary,
    operator_at, parsable, parse_assignment, parse_binary, parse_binary_rest, parse_block,
    parse_declaration, parse_expression, parse_expression_statement, parse_operand,
    parse_primary, parse_print_statement, parse_program, parse_statement, parse_terminated,
    parse_unary, parse_var_declaration, synchronized, Parsed, Program,
};
use crate::scanner::{symbol, texts, Token, TokenType};
use crate::value::{display_text, Value};

verus! {

/// Where a token stands, as a diagnostic says it.
pub open spec fn token_place(token: Token) -> Seq<char> {
    if token.type_ == TokenType::Eof {
        " at end"@
    } else {
        " at '"@ + token.lexeme@ + "'"@
    }
}

/// The diagnostic for `message` at `token`.
pub fn token_error(token: &Token, message: &String) -> (r: String)
    ensures
        r@ == diagnostic(token.line as nat, token_place(*token), message@),
{
    if token.type_ == TokenType::Eof {
        report(token.line, " at end", message.as_str())
    } else {
        let mut place = String::from_str(" at '");
        place.append(token.lexeme.as_str());
        place.append("'");
        report(token.line, place.as_str(), message.as_str())
    }
}

/// A statement.
#[derive(Debug)]
pub enum Stmt {
    Block(Vec<Stmt>),
    Expression(Expr),
    Print(Expr),
    Var(Token, Option<Expr>),
}

/// An expression. Operators and names are kept as the tokens that they were
/// read from.
#[derive(Debug)]
pub enum Expr {
    Binary(Box<Expr>, Token, Box<Expr>),
    Grouping(Box<Expr>),
    Literal(Value),
    Unary(Token, Box<Expr>),
    Variable(Token),
    Assign(Token, Box<Expr>),
}

/// The text of an expression in parentheses.
pub open spec fn grouped(inner: Seq<char>) -> Seq<char> {
    "(group "@ + inner + ")"@
}

/// The text of a unary expression: the operator before its operand.
pub open spec fn prefixed(operator: Seq<char>, operand: Seq<char>) -> Seq<char> {
    "("@ + operator + " "@ + operand + ")"@
}

/// The text of a binary expression: the operator before its operands.
pub open spec fn infixed(operator: Seq<char>, left: Seq<char>, right: Seq<char>) -> Seq<char> {
    "("@ + operator + " "@ + left + " "@ + right + ")"@
}

/// The text of an assignment.
pub open spec fn assignment_text(name: Seq<char>, value: Seq<char>) -> Seq<char> {
    name + " = "@ + value
}

/// `text` is the text of `expr`, fully parenthesized, with the operator of
/// each operation put first. Numbers read as `show` renders them.
pub open spec fn prints<S: Fn(u64) -> String>(show: &S, expr: Expr, text: Seq<char>) -> bool
    decreases expr, 1nat,
{
    match expr {
        Expr::Literal(value) => display_text(show, value@, text),
        Expr::Variable(name) => text == name.lexeme@,
        _ => prints_compound(show, expr, text),
    }
}

/// `text` is the text of `expr`, an expression that holds others.
pub open spec fn prints_compound<S: Fn(u64) -> String>(
    show: &S,
    expr: Expr,
    text: Seq<char>,
) -> bool
    decreases expr, 0nat,
{
    if expr is Grouping {
        exists|inner: Seq<char>|
            prints(show, *expr->Grouping_0, inner) && text == #[trigger] grouped(inner)
    } else if expr is Unary {
        exists|operand: Seq<char>|
            prints(show, *expr->Unary_1, operand) && text == #[trigger] prefixed(
                symbol(expr->Unary_0.type_),
                operand,
            )
    } else if expr is Binary {
        exists|left: Seq<char>, right: Seq<char>|
            {
                &&& prints(show, *expr->Binary_0, left)
                &&& prints(show, *expr->Binary_2, right)
                &&& text == #[trigger] infixed(symbol(expr->Binary_1.type_), left, right)
            }
    } else if expr is Assign {
        exists|value: Seq<char>|
            prints(show, *expr->Assign_1, value) && text == #[trigger] assignment_text(
                expr->Assign_0.lexeme@,
                value,
            )
    } else {
        false
    }
}

impl Expr {
    /// The text of the expression, fully parenthesized, with the operator of
    /// each operation put first.
    pub fn to_string<S: Fn(u64) -> String>(&self, show: &S) -> (r: String)
        requires
            forall|bits: u64| show.requires((bits,)),
        ensures
            prints(show, *self, r@),
        decreases self,
    {
        match self {
            Expr::Binary(left, operator, right) => {
                let left_text = left.to_string(show);
                let right_text = right.to_string(show);
                let mut r = String::from_str("(");
                r.append(operator.type_.to_string().as_str());
                r.append(" ");
                r.append(left_text.as_str());
                r.append(" ");
                r.append(right_text.as_str());
                r.append(")");
                assert(r@ =~= infixed(symbol(operator.type_), left_text@, right_text@));
                assert(prints_compound(show, *self, r@));
                r
            },
            Expr::Grouping(inner_expr) => {
                let inner = inner_expr.to_string(show);
                let mut r = String::from_str("(group ");
                r.append(inner.as_str());
                r.append(")");
                assert(r@ =~= grouped(inner@));
                assert(prints_compound(show, *self, r@));
                r
            },
            Expr::Literal(value) => value.to_display_string(show),
            Expr::Unary(operator, inner_expr) => {
                let inner = inner_expr.to_string(show);
                let mut r = String::from_str("(");
                r.append(operator.type_.to_string().as_str());
                r.append(" ");
                r.append(inner.as_str());
                r.append(")");
                assert(r@ =~= prefixed(symbol(operator.type_), inner@));
                assert(prints_compound(show, *self, r@));
                r
            },
            Expr::Variable(name_token) => name_token.lexeme.clone(),
            Expr::Assign(name_token, expr) => {
                let value = expr.to_string(show);
                let mut r = name_token.lexeme.clone();
                r.append(" = ");
                r.append(value.as_str());
                assert(r@ =~= assignment_text(name_token.lexeme@, value@));
                assert(prints_compound(show, *self, r@));
                r
            },
        }
    }
}

/// What a `Stmt` stands for: a block holds a sequence of statements.
pub enum StmtView {
    Block(Seq<StmtView>),
    Expression(Expr),
    Print(Expr),
    Var(Token, Option<Expr>),
}

/// What a statement stands for.
pub open spec fn stmt_view(statement: Stmt) -> StmtView
    decreases statement,
{
    match statement {
        Stmt::Block(statements) => StmtView::Block(
            Seq::new(
                statements@.len(),
                |i: int|
                    if 0 <= i < statements@.len() {
                        stmt_view(statements@[i])
                    } else {
                        StmtView::Block(Seq::empty())
                    },
            ),
        ),
        Stmt::Expression(expr) => StmtView::Expression(expr),
        Stmt::Print(expr) => StmtView::Print(expr),
        Stmt::Var(name, initializer) => StmtView::Var(name, initializer),
    }
}

impl View for Stmt {
    type V = StmtView;

    open spec fn view(&self) -> StmtView {
        stmt_view(*self)
    }
}

/// The views of a sequence of statements.
pub open spec fn stmt_views(statements: Seq<Stmt>) -> Seq<StmtView> {
    Seq::new(statements.len(), |i: int| statements[i]@)
}

/// Why a statement could not be parsed.
#[derive(Debug, Clone, Copy, PartialEq, Eq, Structural)]
pub enum ParserError {
    /// No expression begins at the token.
    UnmatchedPrimary,
    /// A token that the grammar asks for is not there.
    UnexpectedTokenError,
    /// The left side of `=` is not a variable.
    InvalidAssignment,
}

/// A parser: the tokens, how far they have been read, and the diagnostics so far.
pub struct Parser {
    tokens: Vec<Token>,
    current: usize,
    diagnostics: Vec<String>,
}

/// What a `Parser` stands for.
pub struct ParserView {
    /// The tokens.
    pub tokens: Seq<Token>,
    /// The position of the next token to read.
    pub current: int,
    /// The diagnostics so far.
    pub diagnostics: Seq<Seq<char>>,
}

impl View for Parser {
    type V = ParserView;

    closed spec fn view(&self) -> ParserView {
        ParserView {
            tokens: self.tokens@,
            current: self.current as int,
            diagnostics: texts(self.diagnostics@),
        }
    }
}

/// The view of what a production for a statement gave.
pub open spec fn stmt_result(r: Result<Stmt, ParserError>) -> Result<StmtView, ParserError> {
    match r {
        Ok(statement) => Ok(statement@),
        Err(error) => Err(error),
    }
}

/// The view of what a production for a sequence of statements gave.
pub open spec fn statements_result(r: Result<Vec<Stmt>, ParserError>) -> Result<
    Seq<StmtView>,
    ParserError,
> {
    match r {
        Ok(statements) => Ok(stmt_views(statements@)),
        Err(error) => Err(error),
    }
}

/// `after` is `before` once a production was parsed: the position is the one
/// where the production ends, and its diagnostics were added.
pub open spec fn parsed_as<T>(before: ParserView, after: ParserView, parsed: Parsed<T>) -> bool {
    &&& after.tokens == before.tokens
    &&& after.current == parsed.next
    &&& after.diagnostics == before.diagnostics + parsed.reports
}

impl Parser {
    /// The tokens can be parsed and the position lies among them.
    pub open spec fn wf(&self) -> bool {
        &&& parsable(self@.tokens)
        &&& 0 <= self@.current < self@.tokens.len()
    }

    /// A parser at the first of `tokens`.
    pub fn new(tokens: Vec<Token>) -> (parser: Parser)
        ensures
            parser@ == (ParserView { tokens: tokens@, current: 0, diagnostics: Seq::empty() }),
    {
        let parser = Parser { tokens, current: 0, diagnostics: Vec::new() };
        assert(texts(parser.diagnostics@) =~= Seq::empty());
        parser
    }

    /// The diagnostics so far.
    pub fn diagnostics(&self) -> (r: &Vec<String>)
        ensures
            texts(r@) == self@.diagnostics,
    {
        &self.diagnostics
    }

    /// Whether the parser can parse its tokens.
    pub fn can_parse(&self) -> (r: bool)
        ensures
            r == self.wf(),
    {
        let n = self.tokens.len();
        if n == 0 || self.current >= n {
            return false;
        }
        if self.tokens[n - 1].type_ != TokenType::Eof {
            return false;
        }
        let mut i: usize = 0;
        while i < n
            invariant
                n == self.tokens.len(),
                i <= n,
                forall|k: int|
                    0 <= k < i && ((#[trigger] self.tokens@[k]).type_ == TokenType::Number
                        || self.tokens@[k].type_ == TokenType::String)
                        ==> self.tokens@[k].literal is Some,
            decreases n - i,
        {
            let kind = self.tokens[i].type_;
            if (kind == TokenType::Number || kind == TokenType::String)
                && self.tokens[i].literal.is_none() {
                return false;
            }
            i += 1;
        }
        true
    }

    /// Whether the token at the position ends the text.
    spec fn is_at_end_spec(&self) -> bool {
        self.tokens@[self.current as int].type_ == TokenType::Eof
    }

    fn is_at_end(&self) -> (r: bool)
        requires
            self.wf(),
        ensures
            r == (self.tokens@[self.current as int].type_ == TokenType::Eof),
    {
        self.tokens[self.current].type_ == TokenType::Eof
    }

    fn peek(&self) -> (token: Token)
        requires
            self.wf(),
        ensures
            token == self.tokens@[self.current as int],
    {
        self.tokens[self.current].clone()
    }

    fn previous(&self) -> (token: Token)
        requires
            self.wf(),
            self.current >= 1,
        ensures
            token == self.tokens@[self.current - 1],
    {
        self.tokens[self.current - 1].clone()
    }

    fn check(&self, type_: &TokenType) -> (r: bool)
        requires
            self.wf(),
        ensures
            r == kind_at(self.tokens@, self.current as int, *type_),
    {
        if self.is_at_end() {
            return false;
        }
        self.tokens[self.current].type_ == *type_
    }

    fn advance(&mut self) -> (token: Token)
        requires
            old(self).wf(),
            old(self).current >= 1 || old(self).tokens@[old(self).current as int].type_
                != TokenType::Eof,
        ensures
            final(self).wf(),
            final(self).tokens == old(self).tokens,
            final(self).diagnostics == old(self).diagnostics,
            final(self).current == old(self).current + if old(self).is_at_end_spec() {
                0int
            } else {
                1int
            },
            token == final(self).tokens@[final(self).current - 1],
    {
        if !self.is_at_end() {
            assert(self.tokens@.last().type_ == TokenType::Eof);
            assert(self.current + 1 < self.tokens.len());
            self.current += 1
        }
        self.previous()
    }

    fn match_(&mut self, token_types: &Vec<TokenType>) -> (r: bool)
        requires
            old(self).wf(),
        ensures
            final(self).wf(),
            final(self).tokens == old(self).tokens,
            final(self).diagnostics == old(self).diagnostics,
            r == any_kind_at(old(self).tokens@, old(self).current as int, token_types@),
            final(self).current == old(self).current + if r {
                1int
            } else {
                0int
            },
    {
        let mut i: usize = 0;
        while i < token_types.len()
            invariant
                self.wf(),
                *self == *old(self),
                i <= token_types.len(),
                forall|k: int|
                    0 <= k < i ==> !kind_at(self.tokens@, self.current as int, token_types@[k]),
            decreases token_types.len() - i,
        {
            if self.check(&token_types[i]) {
                self.advance();
                return true;
            }
            i += 1;
        }
        false
    }

    fn consume(&mut self, type_: &TokenType, message: String) -> (r: Result<Token, ParserError>)
        requires
            old(self).wf(),
        ensures
            final(self).wf(),
            r == expect(old(self)@.tokens, old(self)@.current, *type_, message@).result,
            parsed_as(
                old(self)@,
                final(self)@,
                expect(old(self)@.tokens, old(self)@.current, *type_, message@),
            ),
    {
        if self.check(type_) {
            let token = self.advance();
            assert(self@.diagnostics =~= old(self)@.diagnostics + Seq::empty());
            return Ok(token);
        }
        let line = self.error(&self.peek(), &message);
        self.diagnostics.push(line);
        assert(self@.diagnostics =~= old(self)@.diagnostics + seq![
            complaint(old(self)@.tokens, old(self)@.current, message@),
        ]);
        Err(ParserError::UnexpectedTokenError)
    }

    fn error(&self, token: &Token, message: &String) -> (r: String)
        ensures
            r@ == diagnostic(token.line as nat, token_place(*token), message@),
    {
        token_error(token, message)
    }

    /// Parses every declaration up to the end of the text. After one that
    /// fails the parser goes on with the next, so that `diagnostics` tells of
    /// every error in the text. Returns the statements, or the error of the
    /// first declaration that failed.
    #[verifier::rlimit(50)]
    pub fn parse(&mut self) -> (r: Result<Vec<Stmt>, ParserError>)
        requires
            old(self).wf(),
        ensures
            final(self).wf(),
            parsed_program(
                old(self)@,
                final(self)@,
                parse_program(old(self)@.tokens, old(self)@.current),
            ),
            statements_result(r) == parse_program(old(self)@.tokens, old(self)@.current).outcome(),
    {
        let mut statements: Vec<Stmt> = Vec::new();
        let mut failure: Option<ParserError> = None;
        let ghost ts = self.tokens@;
        let ghost begin = self@;
        let ghost total = parse_program(ts, self.current as int);
        let ghost mut reports: Seq<Seq<char>> = Seq::empty();
        assert(self@.diagnostics =~= begin.diagnostics + reports);
        assert(reports + total.reports =~= total.reports);
        assert(stmt_views(statements@) =~= Seq::empty());
        assert(stmt_views(statements@) + total.statements =~= total.statements);

        while !self.is_at_end()
            invariant
                self.wf(),
                self.tokens@ == ts,
                begin == old(self)@,
                ts == old(self).tokens@,
                total == parse_program(ts, old(self).current as int),
                self@.diagnostics == begin.diagnostics + reports,
                total.next == parse_program(ts, self.current as int).next,
                total.reports == reports + parse_program(ts, self.current as int).reports,
                total.statements == stmt_views(statements@) + parse_program(
                    ts,
                    self.current as int,
                ).statements,
                total.error == if failure is Some {
                    failure
                } else {
                    parse_program(ts, self.current as int).error
                },
            decreases self.tokens.len() - self.current,
        {
            let ghost p = self.current as int;
            let ghost first = parse_declaration(ts, p);
            let ghost rest = parse_program(ts, first.next);
            let ghost before_statements = stmt_views(statements@);
            let ghost middle = self@.diagnostics;
            let result = self.declaration();
            proof {
                program_step(ts, p);
                concatenation_associates(begin.diagnostics, reports, first.reports);
                concatenation_associates(reports, first.reports, rest.reports);
                reports = reports + first.reports;
            }
            match result {
                Ok(statement) => {
                    statements.push(statement);
                    proof {
                        assert(stmt_views(statements@) =~= before_statements.push(statement@));
                        assert(before_statements.push(statement@) =~= before_statements
                            + seq![statement@]);
                        concatenation_associates(
                            before_statements,
                            seq![statement@],
                            rest.statements,
                        );
                    }
                },
                Err(error) => {
                    if failure.is_none() {
                        failure = Some(error);
                    }
                },
            }
        }
        proof {
            assert(reports + Seq::<Seq<char>>::empty() =~= reports);
            assert(stmt_views(statements@) + Seq::<StmtView>::empty() =~= stmt_views(
                statements@,
            ));
        }
        match failure {
            Some(error) => Err(error),
            None => Ok(statements),
        }
    }

    /// Whether `self` is `before` after a production that gave `r` was read
    /// as `parsed` says.
    spec fn made<T>(&self, before: &Parser, r: Result<T, ParserError>, parsed: Parsed<T>) -> bool {
        &&& self.wf()
        &&& r == parsed.result
        &&& parsed_as(before@, self@, parsed)
        &&& self.current >= before.current
        &&& r is Ok ==> self.current > before.current
    }

    #[verifier::rlimit(50)]
    fn primary(&mut self) -> (r: Result<Expr, ParserError>)
        requires
            old(self).wf(),
        ensures
            final(self).made(old(self), r, parse_primary(old(self)@.tokens, old(self)@.current)),
        decreases old(self).tokens.len() - old(self).current, 0nat,
    {
        let ghost ts = self.tokens@;
        let ghost p = self.current as int;
        assert(self@.diagnostics =~= self@.diagnostics + Seq::empty());
        let kinds = vec![TokenType::False];
        assert(kinds@[0] == TokenType::False);
        if self.match_(&kinds) {
            return Ok(Expr::Literal(Value::Bool(false)));
        }
        let kinds = vec![TokenType::True];
        assert(kinds@[0] == TokenType::True);
        if self.match_(&kinds) {
            return Ok(Expr::Literal(Value::Bool(true)));
        }
        let kinds = vec![TokenType::Nil];
        assert(kinds@[0] == TokenType::Nil);
        if self.match_(&kinds) {
            return Ok(Expr::Literal(Value::Nil));
        }
        let kinds = vec![TokenType::Number, TokenType::String];
        assert(kinds@[0] == TokenType::Number && kinds@[1] == TokenType::String);
        if self.match_(&kinds) {
            return Ok(Expr::Literal(self.previous().literal.unwrap()));
        }
        let kinds = vec![TokenType::Identifier];
        assert(kinds@[0] == TokenType::Identifier);
        if self.match_(&kinds) {
            return Ok(Expr::Variable(self.previous()));
        }
        let kinds = vec![TokenType::LeftParen];
        assert(kinds@[0] == TokenType::LeftParen);
        if self.match_(&kinds) {
            return self.grouping();
        }
        let line = self.error(&self.peek(), &String::from_str("Expect expression"));
        self.diagnostics.push(line);
        assert(self@.diagnostics =~= old(self)@.diagnostics + seq![
            complaint(ts, p, "Expect expression"@),
        ]);
        Err(ParserError::UnmatchedPrimary)
    }

    /// The rest of an expression in parentheses, after `(`.
    #[verifier::rlimit(50)]
    fn grouping(&mut self) -> (r: Result<Expr, ParserError>)
        requires
            old(self).wf(),
            kind_at(old(self).tokens@, old(self).current - 1, TokenType::LeftParen),
        ensures
            final(self).wf(),
            r == parse_primary(old(self)@.tokens, old(self)@.current - 1).result,
            parsed_as(
                old(self)@,
                final(self)@,
                parse_primary(old(self)@.tokens, old(self)@.current - 1),
            ),
            final(self).current >= old(self).current,
        decreases old(self).tokens.len() - old(self).current, 15nat,
    {
        let ghost ts = self.tokens@;
        let ghost p = self.current as int;
        let ghost inner = parse_expression(ts, p);
        let ghost close = expect(
            ts,
            inner.next,
            TokenType::RightParen,
            "Expect ')' after expression"@,
        );
        let expr = match self.expression() {
            Ok(expr) => expr,
            Err(error) => {
                return Err(error);
            },
        };
        let result = self.consume(
            &TokenType::RightParen,
            String::from_str("Expect ')' after expression"),
        );
        assert(self@.diagnostics =~= old(self)@.diagnostics + (inner.reports + close.reports));
        match result {
            Ok(_) => Ok(Expr::Grouping(Box::new(expr))),
            Err(error) => Err(error),
        }
    }

    fn unary(&mut self) -> (r: Result<Expr, ParserError>)
        requires
            old(self).wf(),
        ensures
            final(self).made(old(self), r, parse_unary(old(self)@.tokens, old(self)@.current)),
        decreases old(self).tokens.len() - old(self).current, 1nat,
    {
        let tokens = vec![TokenType::Bang, TokenType::Minus];
        if self.match_(&tokens) {
            let operator = self.previous();
            let right = self.unary();
            return match right {
                Ok(expr) => Ok(Expr::Unary(operator, Box::new(expr))),
                Err(error) => Err(error),
            };
        }
        self.primary()
    }

    fn expression(&mut self) -> (r: Result<Expr, ParserError>)
        requires
            old(self).wf(),
        ensures
            final(self).made(old(self), r, parse_expression(old(self)@.tokens, old(self)@.current)),
        decreases old(self).tokens.len() - old(self).current, 14nat,
    {
        self.assignment()
    }

    #[verifier::rlimit(50)]
    fn assignment(&mut self) -> (r: Result<Expr, ParserError>)
        requires
            old(self).wf(),
        ensures
            final(self).made(old(self), r, parse_assignment(old(self)@.tokens, old(self)@.current)),
        decreases old(self).tokens.len() - old(self).current, 13nat,
    {
        let ghost ts = self.tokens@;
        let ghost p = self.current as int;
        let ghost left = parse_binary(ts, p, 3);
        let expr = match self.equality() {
            Ok(expr) => expr,
            Err(error) => {
                return Err(error);
            },
        };
        let kinds = vec![TokenType::Equal];
        assert(kinds@[0] == TokenType::Equal);
        if self.match_(&kinds) {
            let equals = self.previous();
            let ghost value = parse_assignment(ts, left.next + 1);
            let value_expr = match self.assignment() {
                Ok(value_expr) => value_expr,
                Err(error) => {
                    assert(self@.diagnostics =~= old(self)@.diagnostics + (left.reports
                        + value.reports));
                    return Err(error);
                },
            };
            return match expr {
                Expr::Variable(name_token) => {
                    assert(self@.diagnostics =~= old(self)@.diagnostics + (left.reports
                        + value.reports));
                    Ok(Expr::Assign(name_token, Box::new(value_expr)))
                },
                _ => {
                    let ghost middle = self@.diagnostics;
                    assert(middle =~= old(self)@.diagnostics + (left.reports + value.reports));
                    let line = self.error(&equals, &String::from_str("Invalid assignment target"));
                    self.diagnostics.push(line);
                    assert(self@.diagnostics =~= middle.push(line@));
                    assert(self@.diagnostics =~= old(self)@.diagnostics + (left.reports
                        + value.reports + seq![
                        complaint(ts, left.next, "Invalid assignment target"@),
                    ]));
                    Err(ParserError::InvalidAssignment)
                },
            };
        }
        Ok(expr)
    }

    fn equality(&mut self) -> (r: Result<Expr, ParserError>)
        requires
            old(self).wf(),
        ensures
            final(self).made(old(self), r, parse_binary(old(self)@.tokens, old(self)@.current, 3)),
        decreases old(self).tokens.len() - old(self).current, 12nat,
    {
        let ghost before = self@;
        let ghost first = parse_operand(before.tokens, before.current, 3);
        let left = self.comparison();
        let ghost middle = self@;
        let tokens = vec![TokenType::BangEqual, TokenType::EqualEqual];
        proof {
            assert(tokens@[0] == TokenType::BangEqual && tokens@[1] == TokenType::EqualEqual);
            assert forall|k: TokenType| is_operator(3, k) <==> tokens@.contains(k) by {}
        }
        let r = self.fold_left(3, left, &tokens);
        proof {
            if first.result is Ok {
                let rest = parse_binary_rest(
                    before.tokens,
                    first.result.unwrap(),
                    first.next,
                    3,
                );
                assert(self@.diagnostics =~= before.diagnostics + (first.reports
                    + rest.reports));
            }
        }
        r
    }

    fn comparison(&mut self) -> (r: Result<Expr, ParserError>)
        requires
            old(self).wf(),
        ensures
            final(self).made(old(self), r, parse_binary(old(self)@.tokens, old(self)@.current, 2)),
        decreases old(self).tokens.len() - old(self).current, 9nat,
    {
        let ghost before = self@;
        let ghost first = parse_operand(before.tokens, before.current, 2);
        let left = self.addition();
        let ghost middle = self@;
        let tokens = vec![
            TokenType::Greater,
            TokenType::GreaterEqual,
            TokenType::Less,
            TokenType::LessEqual,
        ];
        proof {
            assert(tokens@[0] == TokenType::Greater && tokens@[1] == TokenType::GreaterEqual
                && tokens@[2] == TokenType::Less && tokens@[3] == TokenType::LessEqual);
            assert forall|k: TokenType| is_operator(2, k) <==> tokens@.contains(k) by {}
        }
        let r = self.fold_left(2, left, &tokens);
        proof {
            if first.result is Ok {
                let rest = parse_binary_rest(
                    before.tokens,
                    first.result.unwrap(),
                    first.next,
                    2,
                );
                assert(self@.diagnostics =~= before.diagnostics + (first.reports
                    + rest.reports));
            }
        }
        r
    }

    fn addition(&mut self) -> (r: Result<Expr, ParserError>)
        requires
            old(self).wf(),
        ensures
            final(self).made(old(self), r, parse_binary(old(self)@.tokens, old(self)@.current, 1)),
        decreases old(self).tokens.len() - old(self).current, 6nat,
    {
        let ghost before = self@;
        let ghost first = parse_operand(before.tokens, before.current, 1);
        let left = self.multiplication();
        let ghost middle = self@;
        let tokens = vec![TokenType::Minus, TokenType::Plus];
        proof {
            assert(tokens@[0] == TokenType::Minus && tokens@[1] == TokenType::Plus);
            assert forall|k: TokenType| is_operator(1, k) <==> tokens@.contains(k) by {}
        }
        let r = self.fold_left(1, left, &tokens);
        proof {
            if first.result is Ok {
                let rest = parse_binary_rest(
                    before.tokens,
                    first.result.unwrap(),
                    first.next,
                    1,
                );
                assert(self@.diagnostics =~= before.diagnostics + (first.reports
                    + rest.reports));
            }
        }
        r
    }

    fn multiplication(&mut self) -> (r: Result<Expr, ParserError>)
        requires
            old(self).wf(),
        ensures
            final(self).made(old(self), r, parse_binary(old(self)@.tokens, old(self)@.current, 0)),
        decreases old(self).tokens.len() - old(self).current, 3nat,
    {
        let ghost before = self@;
        let ghost first = parse_operand(before.tokens, before.current, 0);
        let left = self.unary();
        let ghost middle = self@;
        let tokens = vec![TokenType::Slash, TokenType::Star];
        proof {
            assert(tokens@[0] == TokenType::Slash && tokens@[1] == TokenType::Star);
            assert forall|k: TokenType| is_operator(0, k) <==> tokens@.contains(k) by {}
        }
        let r = self.fold_left(0, left, &tokens);
        proof {
            if first.result is Ok {
                let rest = parse_binary_rest(
                    before.tokens,
                    first.result.unwrap(),
                    first.next,
                    0,
                );
                assert(self@.diagnostics =~= before.diagnostics + (first.reports
                    + rest.reports));
            }
        }
        r
    }

    /// An operand of a binary level.
    fn operand(&mut self, level: u8) -> (r: Result<Expr, ParserError>)
        requires
            old(self).wf(),
            level <= 3,
        ensures
            final(self).made(
                old(self),
                r,
                parse_operand(old(self)@.tokens, old(self)@.current, level as nat),
            ),
        decreases old(self).tokens.len() - old(self).current, 3 * level + 2,
    {
        if level == 0 {
            self.unary()
        } else if level == 1 {
            self.multiplication()
        } else if level == 2 {
            self.addition()
        } else {
            self.comparison()
        }
    }

    /// Reads what follows the first operand of a binary level, whose
    /// operators are `operators`: each operator with its operand, folded into
    /// the left side.
    #[verifier::rlimit(50)]
    fn fold_left(&mut self, level: u8, first: Result<Expr, ParserError>, operators: &Vec<
        TokenType,
    >) -> (r: Result<Expr, ParserError>)
        requires
            old(self).wf(),
            level <= 3,
            forall|k: TokenType| is_operator(level as nat, k) <==> operators@.contains(k),
        ensures
            final(self).wf(),
            final(self).tokens@ == old(self).tokens@,
            final(self).current >= old(self).current,
            match first {
                Ok(left) => {
                    let rest = parse_binary_rest(
                        old(self)@.tokens,
                        left,
                        old(self)@.current,
                        level as nat,
                    );
                    r == rest.result && parsed_as(old(self)@, final(self)@, rest)
                },
                Err(error) => r == first && final(self)@ == old(self)@,
            },
        decreases old(self).tokens.len() - old(self).current, 3 * level + 1,
    {
        let mut expr = match first {
            Ok(expr) => expr,
            Err(error) => {
                return Err(error);
            },
        };
        let ghost ts = self.tokens@;
        let ghost begin = self@;
        let ghost initial = expr;
        let ghost total = parse_binary_rest(ts, expr, self.current as int, level as nat);
        let ghost mut reports: Seq<Seq<char>> = Seq::empty();
        assert(following(reports, total) == total) by {
            assert(reports + total.reports =~= total.reports);
        }
        assert(self@.diagnostics =~= begin.diagnostics + reports);
        loop
            invariant_except_break
                self.wf(),
                self.tokens@ == ts,
                ts == old(self).tokens@,
                begin == old(self)@,
                first == Ok::<Expr, ParserError>(initial),
                total == parse_binary_rest(ts, initial, old(self).current as int, level as nat),
                level <= 3,
                forall|k: TokenType| is_operator(level as nat, k) <==> operators@.contains(k),
                self.current >= old(self).current,
                self@.diagnostics == begin.diagnostics + reports,
                total == following(
                    reports,
                    parse_binary_rest(ts, expr, self.current as int, level as nat),
                ),
            ensures
                self.wf(),
                self.tokens@ == ts,
                self.current >= old(self).current,
                parsed_as(begin, self@, total),
                total.result == Ok::<Expr, ParserError>(expr),
            decreases self.tokens.len() - self.current,
        {
            let ghost p = self.current as int;
            let ghost left = expr;
            proof {
                assert(any_kind_at(ts, p, operators@) == operator_at(ts, p, level as nat)) by {
                    if operator_at(ts, p, level as nat) {
                        let k = ts[p].type_;
                        assert(operators@.contains(k));
                        let i = choose|i: int| 0 <= i < operators@.len() && operators@[i] == k;
                        assert(kind_at(ts, p, operators@[i]));
                    }
                }
            }
            if !self.match_(operators) {
                assert(reports + Seq::<Seq<char>>::empty() =~= reports);
                break ;
            }
            let operator = self.previous();
            let ghost right = parse_operand(ts, p + 1, level as nat);
            match self.operand(level) {
                Ok(right_expr) => {
                    expr = Expr::Binary(Box::new(expr), operator, Box::new(right_expr));
                    proof {
                        let rest = parse_binary_rest(ts, expr, right.next, level as nat);
                        assert(reports + (right.reports + rest.reports) =~= (reports
                            + right.reports) + rest.reports);
                        assert(self@.diagnostics =~= begin.diagnostics + (reports
                            + right.reports));
                        reports = reports + right.reports;
                    }
                },
                Err(error) => {
                    assert(self@.diagnostics =~= begin.diagnostics + (reports + right.reports));
                    return Err(error);
                },
            }
        }
        Ok(expr)
    }

    /// Drops tokens up to the next place where a statement may begin.
    fn synchronize(&mut self)
        requires
            old(self).wf(),
            old(self).current >= 1 || old(self).tokens@[old(self).current as int].type_
                != TokenType::Eof,
        ensures
            final(self).wf(),
            final(self).tokens == old(self).tokens,
            final(self).diagnostics == old(self).diagnostics,
            final(self).current == synchronized(old(self).tokens@, old(self).current as int),
            final(self).current >= old(self).current,
            old(self).tokens@[old(self).current as int].type_ != TokenType::Eof
                ==> final(self).current > old(self).current,
    {
        let ghost ts = self.tokens@;
        let ghost target = synchronized(ts, self.current as int);
        self.advance();

        while !self.is_at_end()
            invariant
                self.wf(),
                self.tokens == old(self).tokens,
                self.diagnostics == old(self).diagnostics,
                ts == self.tokens@,
                self.current >= 1,
                self.current >= old(self).current,
                old(self).tokens@[old(self).current as int].type_ != TokenType::Eof
                    ==> self.current > old(self).current,
                target == synchronized(ts, old(self).current as int),
                next_boundary(ts, self.current as int) == target,
            decreases self.tokens.len() - self.current,
        {
            if self.previous().type_ == TokenType::Semicolon {
                return ;
            }
            match self.peek().type_ {
                TokenType::Class => return ,
                TokenType::Fun => return ,
                TokenType::Var => return ,
                TokenType::For => return ,
                TokenType::If => return ,
                TokenType::While => return ,
                TokenType::Print => return ,
                TokenType::Return => return ,
                _ => {},
            }
            self.advance();
        }
    }

    /// An expression and the `;` after it.
    fn terminated(&mut self) -> (r: Result<Expr, ParserError>)
        requires
            old(self).wf(),
        ensures
            final(self).made(old(self), r, parse_terminated(old(self)@.tokens, old(self)@.current)),
    {
        reveal(parse_terminated);
        let ghost ts = self.tokens@;
        let ghost value = parse_expression(ts, self.current as int);
        let ghost end = expect(ts, value.next, TokenType::Semicolon, "Expect ';' after value"@);
        let expr = match self.expression() {
            Ok(expr) => expr,
            Err(error) => {
                return Err(error);
            },
        };
        let result = self.consume(
            &TokenType::Semicolon,
            String::from_str("Expect ';' after value"),
        );
        assert(self@.diagnostics =~= old(self)@.diagnostics + (value.reports + end.reports));
        match result {
            Ok(_) => Ok(expr),
            Err(error) => Err(error),
        }
    }

    fn print_statement(&mut self) -> (r: Result<Stmt, ParserError>)
        requires
            old(self).wf(),
        ensures
            final(self).made(
                old(self),
                stmt_result(r),
                parse_print_statement(old(self)@.tokens, old(self)@.current),
            ),
    {
        match self.terminated() {
            Ok(value) => Ok(Stmt::Print(value)),
            Err(error) => Err(error),
        }
    }

    fn expression_statement(&mut self) -> (r: Result<Stmt, ParserError>)
        requires
            old(self).wf(),
        ensures
            final(self).made(
                old(self),
                stmt_result(r),
                parse_expression_statement(old(self)@.tokens, old(self)@.current),
            ),
    {
        match self.terminated() {
            Ok(value) => Ok(Stmt::Expression(value)),
            Err(error) => Err(error),
        }
    }

    #[verifier::rlimit(50)]
    fn var_declaration(&mut self) -> (r: Result<Stmt, ParserError>)
        requires
            old(self).wf(),
        ensures
            final(self).made(
                old(self),
                stmt_result(r),
                parse_var_declaration(old(self)@.tokens, old(self)@.current),
            ),
    {
        reveal(parse_var_declaration);
        let ghost ts = self.tokens@;
        let ghost p = self.current as int;
        let ghost first = expect(ts, p, TokenType::Identifier, "Expect variable name"@);
        let name = match self.consume(
            &TokenType::Identifier,
            String::from_str("Expect variable name"),
        ) {
            Ok(name) => name,
            Err(error) => {
                return Err(error);
            },
        };
        let mut initializer: Option<Expr> = None;
        let ghost mut reports: Seq<Seq<char>> = Seq::empty();
        let kinds = vec![TokenType::Equal];
        assert(kinds@[0] == TokenType::Equal);
        assert(self@.diagnostics =~= old(self)@.diagnostics + reports);
        if self.match_(&kinds) {
            let ghost value = parse_expression(ts, p + 2);
            match self.expression() {
                Ok(expr) => {
                    initializer = Some(expr);
                },
                Err(error) => {
                    return Err(error);
                },
            }
            proof {
                reports = value.reports;
            }
        }
        let ghost end = expect(
            ts,
            self.current as int,
            TokenType::Semicolon,
            "Expect ';' after variable declaration"@,
        );
        let consume_result = self.consume(
            &TokenType::Semicolon,
            String::from_str("Expect ';' after variable declaration"),
        );
        assert(self@.diagnostics =~= old(self)@.diagnostics + (reports + end.reports));
        match consume_result {
            Ok(_) => Ok(Stmt::Var(name, initializer)),
            Err(error) => Err(error),
        }
    }

    #[verifier::rlimit(50)]
    fn statement(&mut self) -> (r: Result<Stmt, ParserError>)
        requires
            old(self).wf(),
        ensures
            final(self).made(
                old(self),
                stmt_result(r),
                parse_statement(old(self)@.tokens, old(self)@.current),
            ),
        decreases old(self).tokens.len() - old(self).current, 16nat,
    {
        let kinds = vec![TokenType::Print];
        assert(kinds@[0] == TokenType::Print);
        if self.match_(&kinds) {
            return self.print_statement();
        }
        let kinds = vec![TokenType::LeftBrace];
        assert(kinds@[0] == TokenType::LeftBrace);
        if self.match_(&kinds) {
            return match self.block() {
                Ok(statements) => Ok(block_of(statements)),
                Err(error) => Err(error),
            };
        }
        self.expression_statement()
    }

    #[verifier::rlimit(50)]
    fn declaration(&mut self) -> (r: Result<Stmt, ParserError>)
        requires
            old(self).wf(),
            old(self).tokens@[old(self).current as int].type_ != TokenType::Eof,
        ensures
            final(self).made(
                old(self),
                stmt_result(r),
                parse_declaration(old(self)@.tokens, old(self)@.current),
            ),
            final(self).current > old(self).current,
        decreases old(self).tokens.len() - old(self).current, 17nat,
    {
        let ghost ts = self.tokens@;
        let ghost p = self.current as int;
        let ghost parsed = if kind_at(ts, p, TokenType::Var) {
            parse_var_declaration(ts, p + 1)
        } else {
            parse_statement(ts, p)
        };
        let kinds = vec![TokenType::Var];
        assert(kinds@[0] == TokenType::Var);
        let result = if self.match_(&kinds) {
            self.var_declaration()
        } else {
            self.statement()
        };
        assert(stmt_result(result) == parsed.result);
        assert(self.current == parsed.next);
        assert(self@.diagnostics == old(self)@.diagnostics + parsed.reports);
        assert(self.current >= p);
        assert(result is Ok ==> self.current > p);

        match result {
            Ok(_) => result,
            Err(_) => {
                self.synchronize();
                result
            },
        }
    }

    /// The rest of a block, after `{`.
    #[verifier::rlimit(50)]
    fn block(&mut self) -> (r: Result<Vec<Stmt>, ParserError>)
        requires
            old(self).wf(),
        ensures
            final(self).made(
                old(self),
                statements_result(r),
                parse_block(old(self)@.tokens, old(self)@.current),
            ),
        decreases old(self).tokens.len() - old(self).current, 18nat,
    {
        let mut statements: Vec<Stmt> = Vec::new();
        let ghost ts = self.tokens@;
        let ghost begin = self@;
        let ghost total = parse_block(ts, self.current as int);
        let ghost mut reports: Seq<Seq<char>> = Seq::empty();
        assert(self@.diagnostics =~= begin.diagnostics + reports);
        assert(reports + total.reports =~= total.reports);
        assert(stmt_views(statements@) =~= Seq::empty());
        assert(total.result == joined(stmt_views(statements@), total.result)) by {
            if total.result is Ok {
                assert(stmt_views(statements@) + total.result.unwrap() =~= total.result.unwrap());
            }
        }

        while !self.check(&TokenType::RightBrace) && !self.is_at_end()
            invariant
                self.wf(),
                self.tokens@ == ts,
                begin == old(self)@,
                ts == old(self).tokens@,
                self.current >= old(self).current,
                total == parse_block(ts, old(self).current as int),
                self@.diagnostics == begin.diagnostics + reports,
                total.next == parse_block(ts, self.current as int).next,
                total.reports == reports + parse_block(ts, self.current as int).reports,
                total.result == joined(
                    stmt_views(statements@),
                    parse_block(ts, self.current as int).result,
                ),
            decreases self.tokens.len() - self.current,
        {
            let ghost p = self.current as int;
            let ghost first = parse_declaration(ts, p);
            let ghost before_statements = statements@;
            match self.declaration() {
                Ok(statement) => {
                    statements.push(statement);
                    proof {
                        let rest = parse_block(ts, first.next);
                        assert(stmt_views(statements@) =~= stmt_views(before_statements).push(
                            statement@,
                        ));
                        assert(self@.diagnostics =~= begin.diagnostics + (reports
                            + first.reports));
                        assert(reports + (first.reports + rest.reports) =~= (reports
                            + first.reports) + rest.reports);
                        if rest.result is Ok {
                            assert(stmt_views(before_statements) + (seq![statement@]
                                + rest.result.unwrap()) =~= stmt_views(statements@)
                                + rest.result.unwrap());
                        }
                        reports = reports + first.reports;
                    }
                },
                Err(error) => {
                    assert(self@.diagnostics =~= begin.diagnostics + (reports + first.reports));
                    return Err(error);
                },
            }
        }
        let ghost close = expect(
            ts,
            self.current as int,
            TokenType::RightBrace,
            "Expect '}' after block"@,
        );
        let result = self.consume(
            &TokenType::RightBrace,
            String::from_str("Expect '}' after block"),
        );
        proof {
            assert(self@.diagnostics =~= begin.diagnostics + (reports + close.reports));
            assert(stmt_views(statements@) + Seq::<StmtView>::empty() =~= stmt_views(statements@));
        }
        match result {
            Ok(_) => Ok(statements),
            Err(error) => Err(error),
        }
    }
}

/// `after` is `before` once the program was parsed: the position is at the token
/// that ends the text, and the diagnostics of the program were added.
pub open spec fn parsed_program(before: ParserView, after: ParserView, program: Program) -> bool {
    &&& after.tokens == before.tokens
    &&& after.current == program.next
    &&& after.diagnostics == before.diagnostics + program.reports
}

/// A program that begins with a declaration is that declaration followed by
/// the rest of the program.
proof fn program_step(ts: Seq<Token>, p: int)
    requires
        0 <= p < ts.len(),
        ts[p].type_ != TokenType::Eof,
        p < parse_declaration(ts, p).next <= ts.len(),
    ensures
        ({
            let first = parse_declaration(ts, p);
            let rest = parse_program(ts, first.next);
            let whole = parse_program(ts, p);
            &&& whole.next == rest.next
            &&& whole.reports == first.reports + rest.reports
            &&& whole.statements == match first.result {
                Ok(statement) => seq![statement] + rest.statements,
                Err(_) => rest.statements,
            }
            &&& whole.error == match first.result {
                Ok(_) => rest.error,
                Err(error) => Some(error),
            }
        }),
{
}

/// Joining three sequences gives the same whichever two are joined first.
proof fn concatenation_associates<T>(a: Seq<T>, b: Seq<T>, c: Seq<T>)
    ensures
        (a + b) + c == a + (b + c),
{
    assert((a + b) + c =~= a + (b + c));
}

/// The statements read so far, followed by what the rest of the block gives.
pub open spec fn joined(
    statements: Seq<StmtView>,
    rest: Result<Seq<StmtView>, ParserError>,
) -> Result<Seq<StmtView>, ParserError> {
    match rest {
        Ok(more) => Ok(statements + more),
        Err(error) => Err(error),
    }
}

/// A block of `statements`.
fn block_of(statements: Vec<Stmt>) -> (statement: Stmt)
    ensures
        statement@ == StmtView::Block(stmt_views(statements@)),
{
    let statement = Stmt::Block(statements);
    assert(statement@->Block_0 =~= stmt_views(statements@)) by {
        reveal_with_fuel(stmt_view, 2);
    }
    statement
}

} // verus!
