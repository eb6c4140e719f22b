//! The grammar: what each production makes of the tokens from a position on.
//!
//! From the loosest binding to the tightest: assignment, equality,
//! comparison, addition, multiplication, unary, primary. Every binary level
//! is left-associative; assignment is right-associative.
//!
//! A production that follows another begins where that one ended. Where a
//! definition asks that this be no earlier than where the first began, it
//! does so for its own termination: in a text that can be parsed it always
//! holds, as the lemmas on advancing show.
use vstd::prelude::*;
use crate::error::diagnostic;
use crate::parser::{token_place, Expr, ParserError, StmtView};
use crate::scanner::{Token, TokenType};
use crate::value::Value;

verus! {

/// What a production makes of the tokens: the tree or the error, the
/// position of the first token that it did not take, and its diagnostics.
pub struct Parsed<T> {
    pub result: Result<T, ParserError>,
    pub next: int,
    pub reports: Seq<Seq<char>>,
}

/// A token sequence that the parser can read: it ends with the token for the
/// end of the text, and every number and string token holds its literal.
pub open spec fn parsable(ts: Seq<Token>) -> bool {
    &&& ts.len() > 0
    &&& ts.last().type_ == TokenType::Eof
    &&& forall|i: int|
        0 <= i < ts.len() && ((#[trigger] ts[i]).type_ == TokenType::Number || ts[i].type_
            == TokenType::String) ==> ts[i].literal is Some
}

/// Whether a token of kind `kind`, which is not the end of the text, stands at `p`.
pub open spec fn kind_at(ts: Seq<Token>, p: int, kind: TokenType) -> bool {
    0 <= p < ts.len() && ts[p].type_ == kind && kind != TokenType::Eof
}

/// Whether a token of one of the `kinds` stands at `p`.
pub open spec fn any_kind_at(ts: Seq<Token>, p: int, kinds: Seq<TokenType>) -> bool {
    exists|i: int| 0 <= i < kinds.len() && kind_at(ts, p, #[trigger] kinds[i])
}

/// The diagnostic for `message` at the token at `p`.
pub open spec fn complaint(ts: Seq<Token>, p: int, message: Seq<char>) -> Seq<char> {
    diagnostic(ts[p].line as nat, token_place(ts[p]), message)
}

/// A production that took the tokens up to `next` and made `value`.
pub open spec fn accepted<T>(value: T, next: int) -> Parsed<T> {
    Parsed { result: Ok(value), next, reports: Seq::empty() }
}

/// A production that failed at `p` with one diagnostic.
pub open spec fn rejected<T>(
    ts: Seq<Token>,
    error: ParserError,
    p: int,
    message: Seq<char>,
) -> Parsed<T> {
    Parsed { result: Err(error), next: p, reports: seq![complaint(ts, p, message)] }
}

/// The same failure, for a production that makes something else.
pub open spec fn failure<T, U>(failed: Parsed<T>) -> Parsed<U> {
    Parsed {
        result: match failed.result {
            Err(error) => Err(error),
            Ok(_) => Err(ParserError::UnexpectedTokenError),
        },
        next: failed.next,
        reports: failed.reports,
    }
}

/// `second`, with the diagnostics of what was parsed before it put first.
pub open spec fn following<T>(reports: Seq<Seq<char>>, second: Parsed<T>) -> Parsed<T> {
    Parsed { result: second.result, next: second.next, reports: reports + second.reports }
}

/// The token that the grammar asks for at `p`: taken when it is of kind
/// `kind`, else a failure with `message`.
pub open spec fn expect(ts: Seq<Token>, p: int, kind: TokenType, message: Seq<char>) -> Parsed<
    Token,
> {
    if kind_at(ts, p, kind) {
        accepted(ts[p], p + 1)
    } else {
        rejected(ts, ParserError::UnexpectedTokenError, p, message)
    }
}

/// The binary operators of a level of the grammar: 0 for multiplication,
/// 1 for addition, 2 for comparison, 3 for equality.
pub open spec fn is_operator(level: nat, kind: TokenType) -> bool {
    if level == 0 {
        kind == TokenType::Slash || kind == TokenType::Star
    } else if level == 1 {
        kind == TokenType::Minus || kind == TokenType::Plus
    } else if level == 2 {
        kind == TokenType::Greater || kind == TokenType::GreaterEqual || kind == TokenType::Less
            || kind == TokenType::LessEqual
    } else if level == 3 {
        kind == TokenType::BangEqual || kind == TokenType::EqualEqual
    } else {
        false
    }
}

/// Whether an operator of `level` stands at `p`.
pub open spec fn operator_at(ts: Seq<Token>, p: int, level: nat) -> bool {
    0 <= p < ts.len() && is_operator(level, ts[p].type_)
}

/// Whether a unary operator stands at `p`.
pub open spec fn unary_at(ts: Seq<Token>, p: int) -> bool {
    kind_at(ts, p, TokenType::Bang) || kind_at(ts, p, TokenType::Minus)
}

/// The literal of the token at `p`. A token without one reads as `nil`.
pub open spec fn literal_at(ts: Seq<Token>, p: int) -> Value {
    match ts[p].literal {
        Some(value) => value,
        None => Value::Nil,
    }
}

/// primary: `false`, `true`, `nil`, a number, a string, a name, or an
/// expression in parentheses.
pub open spec fn parse_primary(ts: Seq<Token>, p: int) -> Parsed<Expr>
    decreases ts.len() - p, 0nat,
{
    if kind_at(ts, p, TokenType::False) {
        accepted(Expr::Literal(Value::Bool(false)), p + 1)
    } else if kind_at(ts, p, TokenType::True) {
        accepted(Expr::Literal(Value::Bool(true)), p + 1)
    } else if kind_at(ts, p, TokenType::Nil) {
        accepted(Expr::Literal(Value::Nil), p + 1)
    } else if kind_at(ts, p, TokenType::Number) || kind_at(ts, p, TokenType::String) {
        accepted(Expr::Literal(literal_at(ts, p)), p + 1)
    } else if kind_at(ts, p, TokenType::Identifier) {
        accepted(Expr::Variable(ts[p]), p + 1)
    } else if kind_at(ts, p, TokenType::LeftParen) {
        let inner = parse_expression(ts, p + 1);
        match inner.result {
            Ok(expr) => {
                let close = expect(
                    ts,
                    inner.next,
                    TokenType::RightParen,
                    "Expect ')' after expression"@,
                );
                match close.result {
                    Ok(_) => following(
                        inner.reports,
                        accepted(Expr::Grouping(Box::new(expr)), close.next),
                    ),
                    Err(_) => following(inner.reports, failure(close)),
                }
            },
            Err(_) => inner,
        }
    } else {
        rejected(ts, ParserError::UnmatchedPrimary, p, "Expect expression"@)
    }
}

/// unary: `!` or `-` before a unary, or a primary.
pub open spec fn parse_unary(ts: Seq<Token>, p: int) -> Parsed<Expr>
    decreases ts.len() - p, 1nat,
{
    if unary_at(ts, p) {
        let right = parse_unary(ts, p + 1);
        match right.result {
            Ok(expr) => Parsed {
                result: Ok(Expr::Unary(ts[p], Box::new(expr))),
                next: right.next,
                reports: right.reports,
            },
            Err(_) => right,
        }
    } else {
        parse_primary(ts, p)
    }
}

/// An operand of a binary level: a unary below multiplication, else the
/// next tighter level.
pub open spec fn parse_operand(ts: Seq<Token>, p: int, level: nat) -> Parsed<Expr>
    decreases ts.len() - p, 3 * level + 2,
{
    if level == 0 {
        parse_unary(ts, p)
    } else {
        parse_binary(ts, p, (level - 1) as nat)
    }
}

/// What follows the operand `left` at a binary level: as long as an operator
/// of the level stands next, it and the operand after it are folded into the
/// left side.
pub open spec fn parse_binary_rest(ts: Seq<Token>, left: Expr, p: int, level: nat) -> Parsed<Expr>
    decreases ts.len() - p, 3 * level + 2,
{
    if operator_at(ts, p, level) {
        let right = parse_operand(ts, p + 1, level);
        match right.result {
            Ok(expr) => {
                let folded = Expr::Binary(Box::new(left), ts[p], Box::new(expr));
                if p < right.next <= ts.len() {
                    following(right.reports, parse_binary_rest(ts, folded, right.next, level))
                } else {
                    Parsed { result: Ok(folded), next: right.next, reports: right.reports }
                }
            },
            Err(_) => right,
        }
    } else {
        accepted(left, p)
    }
}

/// A binary level: an operand, then operators of the level with their
/// operands, folded to the left.
pub open spec fn parse_binary(ts: Seq<Token>, p: int, level: nat) -> Parsed<Expr>
    decreases ts.len() - p, 3 * level + 3,
{
    let left = parse_operand(ts, p, level);
    match left.result {
        Ok(expr) => {
            if p <= left.next <= ts.len() {
                following(left.reports, parse_binary_rest(ts, expr, left.next, level))
            } else {
                left
            }
        },
        Err(_) => left,
    }
}

/// assignment: an equality, and if `=` follows it, the value to assign; the
/// left side must then be a variable.
pub open spec fn parse_assignment(ts: Seq<Token>, p: int) -> Parsed<Expr>
    decreases ts.len() - p, 13nat,
{
    let left = parse_binary(ts, p, 3);
    match left.result {
        Ok(target) => {
            if kind_at(ts, left.next, TokenType::Equal) && p <= left.next {
                let value = parse_assignment(ts, left.next + 1);
                match value.result {
                    Ok(expr) => match target {
                        Expr::Variable(name) => Parsed {
                            result: Ok(Expr::Assign(name, Box::new(expr))),
                            next: value.next,
                            reports: left.reports + value.reports,
                        },
                        _ => Parsed {
                            result: Err(ParserError::InvalidAssignment),
                            next: value.next,
                            reports: left.reports + value.reports + seq![
                                complaint(ts, left.next, "Invalid assignment target"@),
                            ],
                        },
                    },
                    Err(_) => following(left.reports, value),
                }
            } else {
                left
            }
        },
        Err(_) => left,
    }
}

/// expression: an assignment.
pub open spec fn parse_expression(ts: Seq<Token>, p: int) -> Parsed<Expr>
    decreases ts.len() - p, 14nat,
{
    parse_assignment(ts, p)
}

/// An expression and the `;` that ends its statement.
#[verifier::opaque]
pub open spec fn parse_terminated(ts: Seq<Token>, p: int) -> Parsed<Expr> {
    let value = parse_expression(ts, p);
    match value.result {
        Ok(expr) => {
            let end = expect(ts, value.next, TokenType::Semicolon, "Expect ';' after value"@);
            match end.result {
                Ok(_) => following(value.reports, accepted(expr, end.next)),
                Err(_) => following(value.reports, failure(end)),
            }
        },
        Err(_) => value,
    }
}

/// The rest of a variable declaration, after `var`: a name, an initializer
/// if `=` follows, and `;`.
#[verifier::opaque]
pub open spec fn parse_var_declaration(ts: Seq<Token>, p: int) -> Parsed<StmtView> {
    let name = expect(ts, p, TokenType::Identifier, "Expect variable name"@);
    match name.result {
        Ok(token) => {
            let initializer: Parsed<Option<Expr>> = if kind_at(ts, name.next, TokenType::Equal) {
                let value = parse_expression(ts, name.next + 1);
                match value.result {
                    Ok(expr) => Parsed {
                        result: Ok(Some(expr)),
                        next: value.next,
                        reports: value.reports,
                    },
                    Err(_) => failure(value),
                }
            } else {
                accepted(None, name.next)
            };
            match initializer.result {
                Ok(value) => {
                    let end = expect(
                        ts,
                        initializer.next,
                        TokenType::Semicolon,
                        "Expect ';' after variable declaration"@,
                    );
                    match end.result {
                        Ok(_) => following(
                            initializer.reports,
                            accepted(StmtView::Var(token, value), end.next),
                        ),
                        Err(_) => following(initializer.reports, failure(end)),
                    }
                },
                Err(_) => failure(initializer),
            }
        },
        Err(_) => failure(name),
    }
}

/// Whether a token of this kind begins a statement or a declaration.
pub open spec fn begins_statement(kind: TokenType) -> bool {
    kind == TokenType::Class || kind == TokenType::Fun || kind == TokenType::Var || kind
        == TokenType::For || kind == TokenType::If || kind == TokenType::While || kind
        == TokenType::Print || kind == TokenType::Return
}

/// Whether the parser can take up its work again at `p`: the text ends
/// there, a `;` stands just before, or a statement begins.
pub open spec fn is_boundary(ts: Seq<Token>, p: int) -> bool {
    ||| !(0 <= p < ts.len())
    ||| ts[p].type_ == TokenType::Eof
    ||| (p >= 1 && ts[p - 1].type_ == TokenType::Semicolon)
    ||| begins_statement(ts[p].type_)
}

/// The first boundary at or after `p`.
pub open spec fn next_boundary(ts: Seq<Token>, p: int) -> int
    decreases ts.len() - p,
{
    if is_boundary(ts, p) {
        p
    } else {
        next_boundary(ts, p + 1)
    }
}

/// Where the parser goes on after an error at `p`: it drops the token at
/// `p`, unless the text ends there, and then every token up to the next
/// boundary.
pub open spec fn synchronized(ts: Seq<Token>, p: int) -> int {
    if 0 <= p < ts.len() && ts[p].type_ != TokenType::Eof {
        next_boundary(ts, p + 1)
    } else {
        p
    }
}

/// The rest of a print statement, after `print`: an expression and `;`.
pub open spec fn parse_print_statement(ts: Seq<Token>, p: int) -> Parsed<StmtView> {
    let value = parse_terminated(ts, p);
    match value.result {
        Ok(expr) => Parsed {
            result: Ok(StmtView::Print(expr)),
            next: value.next,
            reports: value.reports,
        },
        Err(_) => failure(value),
    }
}

/// An expression statement: an expression and `;`.
pub open spec fn parse_expression_statement(ts: Seq<Token>, p: int) -> Parsed<StmtView> {
    let value = parse_terminated(ts, p);
    match value.result {
        Ok(expr) => Parsed {
            result: Ok(StmtView::Expression(expr)),
            next: value.next,
            reports: value.reports,
        },
        Err(_) => failure(value),
    }
}

/// statement: `print` with an expression, a block in braces, or an
/// expression; each but the block ends with `;`.
pub open spec fn parse_statement(ts: Seq<Token>, p: int) -> Parsed<StmtView>
    decreases ts.len() - p, 16nat,
{
    if kind_at(ts, p, TokenType::Print) {
        parse_print_statement(ts, p + 1)
    } else if kind_at(ts, p, TokenType::LeftBrace) {
        let block = parse_block(ts, p + 1);
        match block.result {
            Ok(statements) => Parsed {
                result: Ok(StmtView::Block(statements)),
                next: block.next,
                reports: block.reports,
            },
            Err(_) => failure(block),
        }
    } else {
        parse_expression_statement(ts, p)
    }
}

/// declaration: a variable declaration after `var`, else a statement. After
/// an error the parser is synchronized.
pub open spec fn parse_declaration(ts: Seq<Token>, p: int) -> Parsed<StmtView>
    decreases ts.len() - p, 17nat,
{
    let parsed = if kind_at(ts, p, TokenType::Var) {
        parse_var_declaration(ts, p + 1)
    } else {
        parse_statement(ts, p)
    };
    match parsed.result {
        Ok(_) => parsed,
        Err(_) => Parsed {
            result: parsed.result,
            next: synchronized(ts, parsed.next),
            reports: parsed.reports,
        },
    }
}

/// The rest of a block, after `{`: declarations up to `}`. The first
/// declaration that fails ends the block with its error.
pub open spec fn parse_block(ts: Seq<Token>, p: int) -> Parsed<Seq<StmtView>>
    decreases ts.len() - p, 18nat,
{
    if 0 <= p < ts.len() && ts[p].type_ != TokenType::RightBrace && ts[p].type_
        != TokenType::Eof {
        let first = parse_declaration(ts, p);
        match first.result {
            Ok(statement) => {
                if p < first.next <= ts.len() {
                    let rest = parse_block(ts, first.next);
                    match rest.result {
                        Ok(statements) => Parsed {
                            result: Ok(seq![statement] + statements),
                            next: rest.next,
                            reports: first.reports + rest.reports,
                        },
                        Err(_) => following(first.reports, rest),
                    }
                } else {
                    Parsed { result: Ok(seq![statement]), next: first.next, reports: first.reports }
                }
            },
            Err(_) => failure(first),
        }
    } else {
        let close = expect(ts, p, TokenType::RightBrace, "Expect '}' after block"@);
        match close.result {
            Ok(_) => accepted(Seq::empty(), close.next),
            Err(_) => failure(close),
        }
    }
}

/// What the parser makes of a whole text.
pub struct Program {
    /// The statements that were parsed, in the order of the text.
    pub statements: Seq<StmtView>,
    /// The error of the first declaration that failed.
    pub error: Option<ParserError>,
    /// The position of the token that ends the text.
    pub next: int,
    /// The diagnostics, in the order of the text.
    pub reports: Seq<Seq<char>>,
}

impl Program {
    /// What parsing the text gives: its statements when every declaration
    /// was parsed, else the first error.
    pub open spec fn outcome(self) -> Result<Seq<StmtView>, ParserError> {
        match self.error {
            Some(error) => Err(error),
            None => Ok(self.statements),
        }
    }
}

/// program: declarations up to the end of the text. After a declaration
/// that fails the parser goes on with the next one.
pub open spec fn parse_program(ts: Seq<Token>, p: int) -> Program
    decreases ts.len() - p,
{
    if 0 <= p < ts.len() && ts[p].type_ != TokenType::Eof {
        let first = parse_declaration(ts, p);
        if p < first.next <= ts.len() {
            let rest = parse_program(ts, first.next);
            match first.result {
                Ok(statement) => Program {
                    statements: seq![statement] + rest.statements,
                    error: rest.error,
                    next: rest.next,
                    reports: first.reports + rest.reports,
                },
                Err(error) => Program {
                    statements: rest.statements,
                    error: Some(error),
                    next: rest.next,
                    reports: first.reports + rest.reports,
                },
            }
        } else {
            Program {
                statements: Seq::empty(),
                error: match first.result {
                    Ok(_) => None,
                    Err(error) => Some(error),
                },
                next: first.next,
                reports: first.reports,
            }
        }
    } else {
        Program { statements: Seq::empty(), error: None, next: p, reports: Seq::empty() }
    }
}

/// Whether a production that began at `p` went on as a parser must: it ends
/// at or after `p` and at a token of the text, and where it made something
/// it took at least one token.
pub open spec fn advances<T>(ts: Seq<Token>, p: int, parsed: Parsed<T>) -> bool {
    &&& p <= parsed.next < ts.len()
    &&& parsed.result is Ok ==> p < parsed.next
}

/// A token that is taken is followed by another: the last one ends the text
/// and is never taken.
proof fn taken_token_is_followed(ts: Seq<Token>, p: int)
    requires
        parsable(ts),
        0 <= p < ts.len(),
        ts[p].type_ != TokenType::Eof,
    ensures
        p + 1 < ts.len(),
{
}

/// Every production for expressions reads the tokens from left to right.
pub proof fn expression_advances(ts: Seq<Token>, p: int)
    requires
        parsable(ts),
        0 <= p < ts.len(),
    ensures
        advances(ts, p, parse_expression(ts, p)),
        advances(ts, p, parse_assignment(ts, p)),
    decreases ts.len() - p, 14nat,
{
    assignment_advances(ts, p);
}

proof fn assignment_advances(ts: Seq<Token>, p: int)
    requires
        parsable(ts),
        0 <= p < ts.len(),
    ensures
        advances(ts, p, parse_assignment(ts, p)),
    decreases ts.len() - p, 13nat,
{
    binary_advances(ts, p, 3);
    let left = parse_binary(ts, p, 3);
    if left.result is Ok && kind_at(ts, left.next, TokenType::Equal) {
        taken_token_is_followed(ts, left.next);
        assignment_advances(ts, left.next + 1);
    }
}

/// Every binary level reads the tokens from left to right.
pub proof fn binary_advances(ts: Seq<Token>, p: int, level: nat)
    requires
        parsable(ts),
        0 <= p < ts.len(),
        level <= 3,
    ensures
        advances(ts, p, parse_binary(ts, p, level)),
    decreases ts.len() - p, 3 * level + 3,
{
    operand_advances(ts, p, level);
    let left = parse_operand(ts, p, level);
    if left.result is Ok {
        binary_rest_advances(ts, left.result.unwrap(), left.next, level);
    }
}

proof fn operand_advances(ts: Seq<Token>, p: int, level: nat)
    requires
        parsable(ts),
        0 <= p < ts.len(),
        level <= 3,
    ensures
        advances(ts, p, parse_operand(ts, p, level)),
    decreases ts.len() - p, 3 * level + 2,
{
    if level == 0 {
        unary_advances(ts, p);
    } else {
        binary_advances(ts, p, (level - 1) as nat);
    }
}

proof fn binary_rest_advances(ts: Seq<Token>, left: Expr, p: int, level: nat)
    requires
        parsable(ts),
        0 <= p < ts.len(),
        level <= 3,
    ensures
        p <= parse_binary_rest(ts, left, p, level).next < ts.len(),
    decreases ts.len() - p, 3 * level + 2,
{
    if operator_at(ts, p, level) {
        taken_token_is_followed(ts, p);
        operand_advances(ts, p + 1, level);
        let right = parse_operand(ts, p + 1, level);
        if right.result is Ok {
            let folded = Expr::Binary(Box::new(left), ts[p], Box::new(right.result.unwrap()));
            binary_rest_advances(ts, folded, right.next, level);
        }
    }
}

/// A unary expression is read from left to right.
pub proof fn unary_advances(ts: Seq<Token>, p: int)
    requires
        parsable(ts),
        0 <= p < ts.len(),
    ensures
        advances(ts, p, parse_unary(ts, p)),
    decreases ts.len() - p, 1nat,
{
    if unary_at(ts, p) {
        taken_token_is_followed(ts, p);
        unary_advances(ts, p + 1);
    } else {
        primary_advances(ts, p);
    }
}

/// A primary expression is read from left to right.
pub proof fn primary_advances(ts: Seq<Token>, p: int)
    requires
        parsable(ts),
        0 <= p < ts.len(),
    ensures
        advances(ts, p, parse_primary(ts, p)),
    decreases ts.len() - p, 0nat,
{
    if ts[p].type_ != TokenType::Eof {
        taken_token_is_followed(ts, p);
    }
    if kind_at(ts, p, TokenType::LeftParen) {
        expression_advances(ts, p + 1);
        let inner = parse_expression(ts, p + 1);
        if inner.result is Ok && kind_at(ts, inner.next, TokenType::RightParen) {
            taken_token_is_followed(ts, inner.next);
        }
    }
}

/// Synchronizing never goes back and stays among the tokens. Unless the
/// text ends at `p`, it drops the token there and then as few tokens as it
/// can: it stops at the first boundary after `p`.
pub proof fn synchronized_advances(ts: Seq<Token>, p: int)
    requires
        parsable(ts),
        0 <= p < ts.len(),
    ensures
        p <= synchronized(ts, p) < ts.len(),
        ts[p].type_ != TokenType::Eof ==> {
            &&& p < synchronized(ts, p)
            &&& is_boundary(ts, synchronized(ts, p))
            &&& forall|q: int| p < q < synchronized(ts, p) ==> !is_boundary(ts, q)
        },
{
    if ts[p].type_ != TokenType::Eof {
        taken_token_is_followed(ts, p);
        next_boundary_advances(ts, p + 1);
    }
}

/// The next boundary is the first one: no place before it, from `p` on, is
/// a boundary.
pub proof fn next_boundary_advances(ts: Seq<Token>, p: int)
    requires
        parsable(ts),
        0 <= p < ts.len(),
    ensures
        p <= next_boundary(ts, p) < ts.len(),
        is_boundary(ts, next_boundary(ts, p)),
        forall|q: int| p <= q < next_boundary(ts, p) ==> !is_boundary(ts, q),
    decreases ts.len() - p,
{
    if !is_boundary(ts, p) {
        taken_token_is_followed(ts, p);
        next_boundary_advances(ts, p + 1);
    }
}

proof fn terminated_advances(ts: Seq<Token>, p: int)
    requires
        parsable(ts),
        0 <= p < ts.len(),
    ensures
        advances(ts, p, parse_terminated(ts, p)),
{
    reveal(parse_terminated);
    expression_advances(ts, p);
    let value = parse_expression(ts, p);
    if value.result is Ok && kind_at(ts, value.next, TokenType::Semicolon) {
        taken_token_is_followed(ts, value.next);
    }
}

proof fn var_declaration_advances(ts: Seq<Token>, p: int)
    requires
        parsable(ts),
        0 <= p < ts.len(),
    ensures
        advances(ts, p, parse_var_declaration(ts, p)),
{
    reveal(parse_var_declaration);
    if kind_at(ts, p, TokenType::Identifier) {
        taken_token_is_followed(ts, p);
        let q = if kind_at(ts, p + 1, TokenType::Equal) {
            taken_token_is_followed(ts, p + 1);
            expression_advances(ts, p + 2);
            parse_expression(ts, p + 2).next
        } else {
            p + 1
        };
        if kind_at(ts, q, TokenType::Semicolon) {
            taken_token_is_followed(ts, q);
        }
    }
}

/// A statement is read from left to right.
pub proof fn statement_advances(ts: Seq<Token>, p: int)
    requires
        parsable(ts),
        0 <= p < ts.len(),
    ensures
        advances(ts, p, parse_statement(ts, p)),
    decreases ts.len() - p, 16nat,
{
    if kind_at(ts, p, TokenType::Print) {
        taken_token_is_followed(ts, p);
        terminated_advances(ts, p + 1);
    } else if kind_at(ts, p, TokenType::LeftBrace) {
        taken_token_is_followed(ts, p);
        block_advances(ts, p + 1);
    } else {
        terminated_advances(ts, p);
    }
}

/// A declaration is read from left to right, and one that begins before the
/// end of the text takes at least one token, also where it fails.
pub proof fn declaration_advances(ts: Seq<Token>, p: int)
    requires
        parsable(ts),
        0 <= p < ts.len(),
    ensures
        advances(ts, p, parse_declaration(ts, p)),
        ts[p].type_ != TokenType::Eof ==> p < parse_declaration(ts, p).next,
    decreases ts.len() - p, 17nat,
{
    let parsed = if kind_at(ts, p, TokenType::Var) {
        taken_token_is_followed(ts, p);
        var_declaration_advances(ts, p + 1);
        parse_var_declaration(ts, p + 1)
    } else {
        statement_advances(ts, p);
        parse_statement(ts, p)
    };
    if parsed.result is Err {
        synchronized_advances(ts, parsed.next);
    }
}

/// A block is read from left to right.
pub proof fn block_advances(ts: Seq<Token>, p: int)
    requires
        parsable(ts),
        0 <= p < ts.len(),
    ensures
        advances(ts, p, parse_block(ts, p)),
    decreases ts.len() - p, 18nat,
{
    if ts[p].type_ != TokenType::RightBrace && ts[p].type_ != TokenType::Eof {
        declaration_advances(ts, p);
        let first = parse_declaration(ts, p);
        if first.result is Ok {
            block_advances(ts, first.next);
        }
    } else if kind_at(ts, p, TokenType::RightBrace) {
        taken_token_is_followed(ts, p);
    }
}

/// A program is read to the end of the text: parsing stops at the first
/// token that ends the text, and nowhere else.
pub proof fn program_reaches_end(ts: Seq<Token>, p: int)
    requires
        parsable(ts),
        0 <= p < ts.len(),
    ensures
        p <= parse_program(ts, p).next < ts.len(),
        ts[parse_program(ts, p).next].type_ == TokenType::Eof,
    decreases ts.len() - p,
{
    if ts[p].type_ != TokenType::Eof {
        declaration_advances(ts, p);
        program_reaches_end(ts, parse_declaration(ts, p).next);
    }
}

/// The level of a binary operator: 0 for `/` and `*`, 1 for `-` and `+`,
/// 2 for the ordering operators, 3 for `!=` and `==`.
pub open spec fn level_of(kind: TokenType) -> nat {
    if is_operator(0, kind) {
        0
    } else if is_operator(1, kind) {
        1
    } else if is_operator(2, kind) {
        2
    } else {
        3
    }
}

/// How loosely the loosest expression binds: an assignment.
pub open spec fn loosest() -> nat {
    6
}

/// Whether the token at `at` is a binary operator that may split
/// `from..to` into the two operands of an expression no looser than `limit`.
pub open spec fn splits(ts: Seq<Token>, at: int, from: int, to: int, limit: nat) -> bool {
    &&& from < at < to
    &&& at < ts.len()
    &&& is_operator(level_of(ts[at].type_), ts[at].type_)
    &&& level_of(ts[at].type_) + 2 <= limit
}

/// Whether the token at `from` is the literal `value`.
pub open spec fn literal_token(ts: Seq<Token>, from: int, value: Value) -> bool {
    ||| kind_at(ts, from, TokenType::False) && value == Value::Bool(false)
    ||| kind_at(ts, from, TokenType::True) && value == Value::Bool(true)
    ||| kind_at(ts, from, TokenType::Nil) && value == Value::Nil
    ||| (kind_at(ts, from, TokenType::Number) || kind_at(ts, from, TokenType::String)) && value
        == literal_at(ts, from)
}

/// The grammar of expressions, read off the tree: the tokens `from..to`
/// spell `expr`, an expression that binds no looser than `limit` says. A
/// primary binds at 0, a unary at 1, the binary levels at 2 to 5, an
/// assignment at 6. The left operand of a binary operator binds no looser
/// than the operator, its right operand tighter; the operand of a unary
/// operator is a unary; between parentheses stands any expression.
pub open spec fn spells(ts: Seq<Token>, expr: Expr, from: int, to: int, limit: nat) -> bool
    decreases expr, 1nat,
{
    &&& 0 <= from < to <= ts.len()
    &&& match expr {
        Expr::Literal(value) => to == from + 1 && literal_token(ts, from, value),
        Expr::Variable(name) => to == from + 1 && kind_at(ts, from, TokenType::Identifier)
            && ts[from] == name,
        Expr::Grouping(inner) => {
            &&& kind_at(ts, from, TokenType::LeftParen)
            &&& kind_at(ts, to - 1, TokenType::RightParen)
            &&& spells(ts, *inner, from + 1, to - 1, loosest())
        },
        Expr::Unary(operator, operand) => {
            &&& limit >= 1
            &&& unary_at(ts, from)
            &&& ts[from] == operator
            &&& spells(ts, *operand, from + 1, to, 1)
        },
        Expr::Binary(_, _, _) => spells_binary(ts, expr, from, to, limit),
        Expr::Assign(name, value) => {
            &&& limit >= loosest()
            &&& kind_at(ts, from, TokenType::Identifier)
            &&& ts[from] == name
            &&& kind_at(ts, from + 1, TokenType::Equal)
            &&& spells(ts, *value, from + 2, to, loosest())
        },
    }
}

/// The tokens `from..to` spell the binary expression `expr`: its operator
/// stands somewhere among them, with the left operand before it and the
/// right one after it.
pub open spec fn spells_binary(ts: Seq<Token>, expr: Expr, from: int, to: int, limit: nat) -> bool
    decreases expr, 0nat,
{
    expr is Binary && exists|at: int|
        {
            &&& #[trigger] splits(ts, at, from, to, limit)
            &&& ts[at] == expr->Binary_1
            &&& spells(ts, *expr->Binary_0, from, at, level_of(ts[at].type_) + 2)
            &&& spells(ts, *expr->Binary_2, at + 1, to, level_of(ts[at].type_) + 1)
        }
}

/// An expression that binds no looser than one limit binds no looser than
/// any looser limit.
pub proof fn spells_looser(ts: Seq<Token>, expr: Expr, from: int, to: int, limit: nat, looser: nat)
    requires
        spells(ts, expr, from, to, limit),
        limit <= looser,
    ensures
        spells(ts, expr, from, to, looser),
{
    if expr is Binary {
        assert(spells_binary(ts, expr, from, to, limit));
        let at = choose|at: int|
            {
                &&& #[trigger] splits(ts, at, from, to, limit)
                &&& ts[at] == expr->Binary_1
                &&& spells(ts, *expr->Binary_0, from, at, level_of(ts[at].type_) + 2)
                &&& spells(ts, *expr->Binary_2, at + 1, to, level_of(ts[at].type_) + 1)
            };
        assert(splits(ts, at, from, to, looser));
        assert(spells_binary(ts, expr, from, to, looser));
    }
}

/// What the parser makes of an expression is spelled by the tokens that it
/// took: the tree accounts for every one of them, in order, and nests as
/// the grammar says.
pub proof fn parsed_expression_spells(ts: Seq<Token>, p: int)
    requires
        parsable(ts),
        0 <= p < ts.len(),
    ensures
        parse_expression(ts, p).result matches Ok(expr) ==> spells(
            ts,
            expr,
            p,
            parse_expression(ts, p).next,
            loosest(),
        ),
    decreases ts.len() - p, 14nat,
{
    parsed_assignment_spells(ts, p);
}

proof fn parsed_assignment_spells(ts: Seq<Token>, p: int)
    requires
        parsable(ts),
        0 <= p < ts.len(),
    ensures
        parse_assignment(ts, p).result matches Ok(expr) ==> spells(
            ts,
            expr,
            p,
            parse_assignment(ts, p).next,
            loosest(),
        ),
    decreases ts.len() - p, 13nat,
{
    let left = parse_binary(ts, p, 3);
    parsed_binary_spells(ts, p, 3);
    binary_advances(ts, p, 3);
    match left.result {
        Ok(target) => {
            spells_looser(ts, target, p, left.next, 5, loosest());
            if kind_at(ts, left.next, TokenType::Equal) {
                taken_token_is_followed(ts, left.next);
                parsed_assignment_spells(ts, left.next + 1);
                assignment_advances(ts, left.next + 1);
            }
        },
        Err(_) => {},
    }
}

/// What the parser makes of a binary level is spelled by the tokens that it took.
pub proof fn parsed_binary_spells(ts: Seq<Token>, p: int, level: nat)
    requires
        parsable(ts),
        0 <= p < ts.len(),
        level <= 3,
    ensures
        parse_binary(ts, p, level).result matches Ok(expr) ==> spells(
            ts,
            expr,
            p,
            parse_binary(ts, p, level).next,
            level + 2,
        ),
    decreases ts.len() - p, 3 * level + 3,
{
    let left = parse_operand(ts, p, level);
    parsed_operand_spells(ts, p, level);
    operand_advances(ts, p, level);
    match left.result {
        Ok(expr) => {
            spells_looser(ts, expr, p, left.next, level + 1, level + 2);
            parsed_binary_rest_spells(ts, expr, p, left.next, level);
        },
        Err(_) => {},
    }
}

proof fn parsed_operand_spells(ts: Seq<Token>, p: int, level: nat)
    requires
        parsable(ts),
        0 <= p < ts.len(),
        level <= 3,
    ensures
        parse_operand(ts, p, level).result matches Ok(expr) ==> spells(
            ts,
            expr,
            p,
            parse_operand(ts, p, level).next,
            level + 1,
        ),
    decreases ts.len() - p, 3 * level + 2,
{
    if level == 0 {
        parsed_unary_spells(ts, p);
    } else {
        parsed_binary_spells(ts, p, (level - 1) as nat);
    }
}

proof fn parsed_binary_rest_spells(ts: Seq<Token>, left: Expr, from: int, p: int, level: nat)
    requires
        parsable(ts),
        0 <= p < ts.len(),
        level <= 3,
        spells(ts, left, from, p, level + 2),
    ensures
        parse_binary_rest(ts, left, p, level).result matches Ok(expr) ==> spells(
            ts,
            expr,
            from,
            parse_binary_rest(ts, left, p, level).next,
            level + 2,
        ),
    decreases ts.len() - p, 3 * level + 2,
{
    if operator_at(ts, p, level) {
        taken_token_is_followed(ts, p);
        let right = parse_operand(ts, p + 1, level);
        parsed_operand_spells(ts, p + 1, level);
        operand_advances(ts, p + 1, level);
        match right.result {
            Ok(expr) => {
                let folded = Expr::Binary(Box::new(left), ts[p], Box::new(expr));
                assert(level_of(ts[p].type_) == level);
                assert(splits(ts, p, from, right.next, level + 2));
                assert(spells_binary(ts, folded, from, right.next, level + 2));
                parsed_binary_rest_spells(ts, folded, from, right.next, level);
            },
            Err(_) => {},
        }
    }
}

/// What the parser makes of a unary expression is spelled by the tokens that it took.
pub proof fn parsed_unary_spells(ts: Seq<Token>, p: int)
    requires
        parsable(ts),
        0 <= p < ts.len(),
    ensures
        parse_unary(ts, p).result matches Ok(expr) ==> spells(
            ts,
            expr,
            p,
            parse_unary(ts, p).next,
            1,
        ),
    decreases ts.len() - p, 1nat,
{
    if unary_at(ts, p) {
        taken_token_is_followed(ts, p);
        parsed_unary_spells(ts, p + 1);
        unary_advances(ts, p + 1);
    } else {
        parsed_primary_spells(ts, p);
        match parse_primary(ts, p).result {
            Ok(expr) => {
                spells_looser(ts, expr, p, parse_primary(ts, p).next, 0, 1);
            },
            Err(_) => {},
        }
    }
}

/// What the parser makes of a primary expression is spelled by the tokens
/// that it took.
pub proof fn parsed_primary_spells(ts: Seq<Token>, p: int)
    requires
        parsable(ts),
        0 <= p < ts.len(),
    ensures
        parse_primary(ts, p).result matches Ok(expr) ==> spells(
            ts,
            expr,
            p,
            parse_primary(ts, p).next,
            0,
        ),
    decreases ts.len() - p, 0nat,
{
    primary_advances(ts, p);
    if kind_at(ts, p, TokenType::LeftParen) {
        taken_token_is_followed(ts, p);
        parsed_expression_spells(ts, p + 1);
        expression_advances(ts, p + 1);
    }
}

} // verus!
