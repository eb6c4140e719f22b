//! What the statements and expressions of the language mean.
//!
//! Arithmetic on numbers is done by a function that the caller supplies, so
//! the meaning of an expression is a relation: it says which outcomes that
//! function allows.
use vstd::prelude::*;
use crate::environment::{assigned, assigned_keeps_depth, declared, lookup, Frame};
use crate::number::{less, less_or_same, negation};
use crate::parser::{Expr, Stmt};
use crate::scanner::{Token, TokenType};
use crate::value::{truthy, values_equal, ValueView};

verus! {

/// The four operations on numbers that the caller supplies.
#[derive(Debug, Clone, Copy, PartialEq, Eq, Structural)]
pub enum Arithmetic {
    Add,
    Subtract,
    Multiply,
    Divide,
}

/// What an `EvaluationError` stands for: the token at which the error
/// arose and, for an operator, what it asks of its operands.
pub enum ErrorView {
    InvalidUnaryOperand(Token, Seq<char>),
    InvalidBinaryOperand(Token, Seq<char>),
    VariableDoesNotExist(Token),
    InvalidAssignment(Token),
}

impl ErrorView {
    /// The token at which the error arose.
    pub open spec fn token(self) -> Token {
        match self {
            ErrorView::InvalidUnaryOperand(token, _) => token,
            ErrorView::InvalidBinaryOperand(token, _) => token,
            ErrorView::VariableDoesNotExist(token) => token,
            ErrorView::InvalidAssignment(token) => token,
        }
    }

    /// The message of the error.
    pub open spec fn message(self) -> Seq<char> {
        match self {
            ErrorView::InvalidUnaryOperand(_, message) => message,
            ErrorView::InvalidBinaryOperand(_, message) => message,
            ErrorView::VariableDoesNotExist(_) => "Undefined variable"@,
            ErrorView::InvalidAssignment(_) => "Assignment to an undeclared variable"@,
        }
    }
}

/// What evaluating an expression gives: a value or an error.
pub type Outcome = Result<ValueView, ErrorView>;

/// What a unary operator makes of a value: `-` negates a number, `!` gives
/// the opposite of the truthiness of any value.
pub open spec fn unary_outcome(operator: Token, operand: ValueView) -> Outcome {
    if operator.type_ == TokenType::Minus {
        match operand {
            ValueView::Double(bits) => Ok(ValueView::Double(negation(bits))),
            _ => Err(ErrorView::InvalidUnaryOperand(operator, "Operand must be a number"@)),
        }
    } else if operator.type_ == TokenType::Bang {
        Ok(ValueView::Bool(!truthy(operand)))
    } else {
        Err(ErrorView::InvalidUnaryOperand(operator, "Unrecognised unary operation"@))
    }
}

/// The arithmetic operation of a binary operator, if it is one.
pub open spec fn arithmetic_of(kind: TokenType) -> Option<Arithmetic> {
    match kind {
        TokenType::Plus => Some(Arithmetic::Add),
        TokenType::Minus => Some(Arithmetic::Subtract),
        TokenType::Star => Some(Arithmetic::Multiply),
        TokenType::Slash => Some(Arithmetic::Divide),
        _ => None,
    }
}

/// Whether the operator orders two numbers.
pub open spec fn is_ordering(kind: TokenType) -> bool {
    kind == TokenType::Greater || kind == TokenType::GreaterEqual || kind == TokenType::Less
        || kind == TokenType::LessEqual
}

/// What an ordering operator says of two numbers.
pub open spec fn ordered(kind: TokenType, left: u64, right: u64) -> bool {
    match kind {
        TokenType::Greater => less(right, left),
        TokenType::GreaterEqual => less_or_same(right, left),
        TokenType::Less => less(left, right),
        _ => less_or_same(left, right),
    }
}

/// `outcome` is the number that `arith` gave for `left` and `right`.
pub open spec fn computed<A: Fn(Arithmetic, u64, u64) -> u64>(
    arith: &A,
    operation: Arithmetic,
    left: u64,
    right: u64,
    outcome: Outcome,
) -> bool {
    exists|bits: u64| #[trigger]
        arith.ensures((operation, left, right), bits) && outcome == Ok::<ValueView, ErrorView>(
            ValueView::Double(bits),
        )
}

/// The message for operands that an arithmetic operator does not take.
pub open spec fn operand_message(operation: Arithmetic) -> Seq<char> {
    if operation == Arithmetic::Add {
        "Operands must be two numbers or two strings"@
    } else {
        "Operands must be numbers"@
    }
}

/// What a binary operator makes of two values. The arithmetic operators
/// take two numbers and give what `arith` computes; `+` also joins two
/// strings. The ordering operators take two numbers. `==` and `!=` take any
/// two values. Any other pairing is an error that names the operator.
pub open spec fn binary_outcome<A: Fn(Arithmetic, u64, u64) -> u64>(
    arith: &A,
    left: ValueView,
    operator: Token,
    right: ValueView,
    outcome: Outcome,
) -> bool {
    let kind = operator.type_;
    if arithmetic_of(kind) is Some {
        let operation = arithmetic_of(kind).unwrap();
        if left is Double && right is Double {
            computed(arith, operation, left->Double_0, right->Double_0, outcome)
        } else if operation == Arithmetic::Add && left is String && right is String {
            outcome == Ok::<ValueView, ErrorView>(
                ValueView::String(left->String_0 + right->String_0),
            )
        } else {
            outcome == Err::<ValueView, ErrorView>(
                ErrorView::InvalidBinaryOperand(operator, operand_message(operation)),
            )
        }
    } else if is_ordering(kind) {
        if left is Double && right is Double {
            outcome == Ok::<ValueView, ErrorView>(
                ValueView::Bool(ordered(kind, left->Double_0, right->Double_0)),
            )
        } else {
            outcome == Err::<ValueView, ErrorView>(
                ErrorView::InvalidBinaryOperand(operator, "Operands must be numbers"@),
            )
        }
    } else if kind == TokenType::EqualEqual {
        outcome == Ok::<ValueView, ErrorView>(ValueView::Bool(values_equal(left, right)))
    } else if kind == TokenType::BangEqual {
        outcome == Ok::<ValueView, ErrorView>(ValueView::Bool(!values_equal(left, right)))
    } else {
        outcome == Err::<ValueView, ErrorView>(
            ErrorView::InvalidBinaryOperand(operator, "Unrecognised binary operation"@),
        )
    }
}

/// What reading the variable `name` gives: its value, `nil` where it was
/// declared without one, an error where no frame holds it.
pub open spec fn read_outcome(scopes: Seq<Frame>, name: Token) -> Outcome {
    match lookup(scopes, name.lexeme@) {
        Some(Some(value)) => Ok(value),
        Some(None) => Ok(ValueView::Nil),
        None => Err(ErrorView::VariableDoesNotExist(name)),
    }
}

/// What assigning `value` to `name` gives: the value, where a frame holds
/// the name; else an error, and nothing is declared.
pub open spec fn write_outcome(scopes: Seq<Frame>, name: Token, value: ValueView) -> Outcome {
    if lookup(scopes, name.lexeme@) is Some {
        Ok(value)
    } else {
        Err(ErrorView::InvalidAssignment(name))
    }
}

/// What a unary expression gives when its operand gave `operand`.
pub open spec fn unary_result(operator: Token, operand: Outcome) -> Outcome {
    match operand {
        Ok(value) => unary_outcome(operator, value),
        Err(error) => Err(error),
    }
}

/// What a binary expression may give, and the scopes that it leaves, when
/// its left operand gave `left` and left the scopes as `middle`, and its right
/// operand, evaluated only after a value on the left, gave `right`.
pub open spec fn binary_result<A: Fn(Arithmetic, u64, u64) -> u64>(
    arith: &A,
    operator: Token,
    left: Outcome,
    middle: Seq<Frame>,
    right: Outcome,
    outcome: Outcome,
    after: Seq<Frame>,
) -> bool {
    match left {
        Ok(left_value) => match right {
            Ok(right_value) => binary_outcome(arith, left_value, operator, right_value, outcome),
            Err(error) => outcome == Err::<ValueView, ErrorView>(error),
        },
        Err(error) => outcome == Err::<ValueView, ErrorView>(error) && after == middle,
    }
}

/// What an assignment to `name` gives, and the scopes that it leaves, when
/// the expression to assign gave `assignee` and left the scopes as `middle`.
pub open spec fn assign_result(
    name: Token,
    assignee: Outcome,
    middle: Seq<Frame>,
    outcome: Outcome,
    after: Seq<Frame>,
) -> bool {
    match assignee {
        Ok(value) => {
            &&& outcome == write_outcome(middle, name, value)
            &&& after == assigned(middle, name.lexeme@, value)
        },
        Err(error) => outcome == Err::<ValueView, ErrorView>(error) && after == middle,
    }
}

/// Evaluating `expr` in the scopes `before` may give `outcome` and leave the
/// scopes as `after`. Operands are evaluated left before right, and the
/// first error ends the evaluation.
pub open spec fn evaluates<A: Fn(Arithmetic, u64, u64) -> u64>(
    arith: &A,
    expr: Expr,
    before: Seq<Frame>,
    outcome: Outcome,
    after: Seq<Frame>,
) -> bool
    decreases expr, 1nat,
{
    match expr {
        Expr::Literal(value) => outcome == Ok::<ValueView, ErrorView>(value@) && after == before,
        Expr::Grouping(inner) => evaluates(arith, *inner, before, outcome, after),
        Expr::Variable(name) => outcome == read_outcome(before, name) && after == before,
        Expr::Unary(_, _) => evaluates_unary(arith, expr, before, outcome, after),
        Expr::Binary(_, _, _) => evaluates_binary(arith, expr, before, outcome, after),
        Expr::Assign(_, _) => evaluates_assign(arith, expr, before, outcome, after),
    }
}

/// The meaning of a unary expression: its operand is evaluated, and the
/// operator applied to what it gave.
pub open spec fn evaluates_unary<A: Fn(Arithmetic, u64, u64) -> u64>(
    arith: &A,
    expr: Expr,
    before: Seq<Frame>,
    outcome: Outcome,
    after: Seq<Frame>,
) -> bool
    decreases expr, 0nat,
{
    expr is Unary && exists|operand: Outcome|
        evaluates(arith, *expr->Unary_1, before, operand, after) && outcome
            == #[trigger] unary_result(expr->Unary_0, operand)
}

/// The meaning of a binary expression: the left operand is evaluated, then,
/// unless that gave an error, the right one, and the operator is applied to
/// both.
pub open spec fn evaluates_binary<A: Fn(Arithmetic, u64, u64) -> u64>(
    arith: &A,
    expr: Expr,
    before: Seq<Frame>,
    outcome: Outcome,
    after: Seq<Frame>,
) -> bool
    decreases expr, 0nat,
{
    expr is Binary && exists|left: Outcome, middle: Seq<Frame>, right: Outcome|
        {
            &&& evaluates(arith, *expr->Binary_0, before, left, middle)
            &&& left is Ok ==> evaluates(arith, *expr->Binary_2, middle, right, after)
            &&& #[trigger] binary_result(
                arith,
                expr->Binary_1,
                left,
                middle,
                right,
                outcome,
                after,
            )
        }
}

/// The meaning of an assignment: the expression is evaluated, and what it
/// gave is assigned.
pub open spec fn evaluates_assign<A: Fn(Arithmetic, u64, u64) -> u64>(
    arith: &A,
    expr: Expr,
    before: Seq<Frame>,
    outcome: Outcome,
    after: Seq<Frame>,
) -> bool
    decreases expr, 0nat,
{
    expr is Assign && exists|assignee: Outcome, middle: Seq<Frame>|
        {
            &&& evaluates(arith, *expr->Assign_1, before, assignee, middle)
            &&& #[trigger] assign_result(expr->Assign_0, assignee, middle, outcome, after)
        }
}

/// What an `Output` stands for.
pub enum OutputView {
    /// A value that a `print` statement wrote.
    Printed(ValueView),
    /// The error that ended a statement.
    Failed(ErrorView),
}

/// What a program has made so far: its scopes, innermost first, and what it
/// has written.
pub struct State {
    pub scopes: Seq<Frame>,
    pub output: Seq<OutputView>,
}

/// How a statement ended: well, or with an error.
pub type Completion = Result<(), ErrorView>;

/// How a statement ends whose expression gave `outcome`.
pub open spec fn completion_of(outcome: Outcome) -> Completion {
    match outcome {
        Ok(_) => Ok(()),
        Err(error) => Err(error),
    }
}

/// The output after `print` met `outcome`: a value is written, an error is not.
pub open spec fn printed(output: Seq<OutputView>, outcome: Outcome) -> Seq<OutputView> {
    match outcome {
        Ok(value) => output.push(OutputView::Printed(value)),
        Err(_) => output,
    }
}

/// The scopes after a declaration of `name` whose initializer gave
/// `outcome` and left the scopes as `middle`: a value is bound, an error
/// declares nothing.
pub open spec fn initialized(name: Token, outcome: Outcome, middle: Seq<Frame>) -> Seq<Frame> {
    match outcome {
        Ok(value) => declared(middle, name.lexeme@, Some(value)),
        Err(_) => middle,
    }
}

/// The state at the beginning of a block: a new frame, with no variables,
/// in front of the scopes.
pub open spec fn entered(state: State) -> State {
    State { scopes: seq![Map::<Seq<char>, Option<ValueView>>::empty()] + state.scopes, ..state }
}

/// The state at the end of a block: the frame of the block is gone.
pub open spec fn left(state: State) -> State {
    State { scopes: state.scopes.drop_first(), ..state }
}

/// Whether a sequence of statements that ran `first` and came to `middle`
/// stops there: it does after an error, with that error.
pub open spec fn stops(
    first: Completion,
    middle: State,
    completion: Completion,
    after: State,
) -> bool {
    first is Err ==> completion == first && after == middle
}

/// Executing `statement` in the state `before` may end as `completion` says
/// and leave the state as `after`.
pub open spec fn executes<A: Fn(Arithmetic, u64, u64) -> u64>(
    arith: &A,
    statement: Stmt,
    before: State,
    completion: Completion,
    after: State,
) -> bool
    decreases statement, 0nat,
{
    match statement {
        Stmt::Expression(expr) => {
            &&& after.output == before.output
            &&& exists|outcome: Outcome|
                evaluates(arith, expr, before.scopes, outcome, after.scopes) && completion
                    == #[trigger] completion_of(outcome)
        },
        Stmt::Print(expr) => {
            exists|outcome: Outcome|
                {
                    &&& evaluates(arith, expr, before.scopes, outcome, after.scopes)
                    &&& completion == completion_of(outcome)
                    &&& after.output == #[trigger] printed(before.output, outcome)
                }
        },
        Stmt::Var(name, initializer) => {
            &&& after.output == before.output
            &&& match initializer {
                Some(expr) => exists|outcome: Outcome, middle: Seq<Frame>|
                    {
                        &&& evaluates(arith, expr, before.scopes, outcome, middle)
                        &&& completion == completion_of(outcome)
                        &&& after.scopes == #[trigger] initialized(name, outcome, middle)
                    },
                None => completion == Ok::<(), ErrorView>(()) && after.scopes == declared(
                    before.scopes,
                    name.lexeme@,
                    None,
                ),
            }
        },
        Stmt::Block(statements) => exists|inner: State|
            runs(arith, statements@, 0, entered(before), completion, inner) && after
                == #[trigger] left(inner),
    }
}

/// Executing the statements from the one at `from` on, in the state
/// `before`, may end as `completion` says and leave the state as `after`.
/// The first error ends the sequence.
pub open spec fn runs<A: Fn(Arithmetic, u64, u64) -> u64>(
    arith: &A,
    statements: Seq<Stmt>,
    from: int,
    before: State,
    completion: Completion,
    after: State,
) -> bool
    decreases statements, statements.len() - from,
{
    if 0 <= from < statements.len() {
        exists|first: Completion, middle: State|
            {
                &&& executes(arith, statements[from], before, first, middle)
                &&& first is Ok ==> runs(arith, statements, from + 1, middle, completion, after)
                &&& #[trigger] stops(first, middle, completion, after)
            }
    } else {
        completion == Ok::<(), ErrorView>(()) && after == before
    }
}

/// The state after a statement of the program ended as `completion` says
/// in the state `state`: an error is written to the output.
pub open spec fn recorded(completion: Completion, state: State) -> State {
    match completion {
        Ok(_) => state,
        Err(error) => State { output: state.output.push(OutputView::Failed(error)), ..state },
    }
}

/// Interpreting the statements from the one at `from` on, in the state
/// `before`, may leave the state as `after`. A statement that ends with an
/// error is recorded, and the next one is executed.
pub open spec fn interprets<A: Fn(Arithmetic, u64, u64) -> u64>(
    arith: &A,
    statements: Seq<Stmt>,
    from: int,
    before: State,
    after: State,
) -> bool
    decreases statements.len() - from,
{
    if 0 <= from < statements.len() {
        exists|first: Completion, middle: State|
            {
                &&& executes(arith, statements[from], before, first, middle)
                &&& interprets(
                    arith,
                    statements,
                    from + 1,
                    #[trigger] recorded(first, middle),
                    after,
                )
            }
    } else {
        after == before
    }
}

/// The state in which a program begins: one frame, with no variables, and
/// nothing written.
pub open spec fn initial() -> State {
    State { scopes: seq![Map::<Seq<char>, Option<ValueView>>::empty()], output: Seq::empty() }
}

/// A state with these scopes and this output.
pub open spec fn state_of(scopes: Seq<Frame>, output: Seq<OutputView>) -> State {
    State { scopes, output }
}

/// Interpreting the statements as a program may write `output`.
pub open spec fn interpreted<A: Fn(Arithmetic, u64, u64) -> u64>(
    arith: &A,
    statements: Seq<Stmt>,
    output: Seq<OutputView>,
) -> bool {
    exists|scopes: Seq<Frame>|
        interprets(arith, statements, 0, initial(), #[trigger] state_of(scopes, output))
}

/// Evaluating an expression adds no frame to the scopes and drops none.
pub proof fn evaluation_keeps_depth<A: Fn(Arithmetic, u64, u64) -> u64>(
    arith: &A,
    expr: Expr,
    before: Seq<Frame>,
    outcome: Outcome,
    after: Seq<Frame>,
)
    requires
        evaluates(arith, expr, before, outcome, after),
    ensures
        after.len() == before.len(),
    decreases expr,
{
    match expr {
        Expr::Literal(_) => {},
        Expr::Variable(_) => {},
        Expr::Grouping(inner) => {
            evaluation_keeps_depth(arith, *inner, before, outcome, after);
        },
        Expr::Unary(operator, inner) => {
            assert(evaluates_unary(arith, expr, before, outcome, after));
            let operand = choose|operand: Outcome|
                evaluates(arith, *inner, before, operand, after) && outcome
                    == #[trigger] unary_result(operator, operand);
            evaluation_keeps_depth(arith, *inner, before, operand, after);
        },
        Expr::Binary(left_expr, operator, right_expr) => {
            assert(evaluates_binary(arith, expr, before, outcome, after));
            let (left, middle, right) = choose|left: Outcome, middle: Seq<Frame>, right: Outcome|
                {
                    &&& evaluates(arith, *left_expr, before, left, middle)
                    &&& left is Ok ==> evaluates(arith, *right_expr, middle, right, after)
                    &&& #[trigger] binary_result(
                        arith,
                        operator,
                        left,
                        middle,
                        right,
                        outcome,
                        after,
                    )
                };
            evaluation_keeps_depth(arith, *left_expr, before, left, middle);
            if left is Ok {
                evaluation_keeps_depth(arith, *right_expr, middle, right, after);
            }
        },
        Expr::Assign(name, value_expr) => {
            assert(evaluates_assign(arith, expr, before, outcome, after));
            let (assignee, middle) = choose|assignee: Outcome, middle: Seq<Frame>|
                {
                    &&& evaluates(arith, *value_expr, before, assignee, middle)
                    &&& #[trigger] assign_result(name, assignee, middle, outcome, after)
                };
            evaluation_keeps_depth(arith, *value_expr, before, assignee, middle);
            match assignee {
                Ok(value) => {
                    assigned_keeps_depth(middle, name.lexeme@, value);
                },
                Err(_) => {},
            }
        },
    }
}

/// Whether `after` may follow `before` in the run of a program: it has as
/// many frames, and its output begins with the output of `before`.
pub open spec fn follows(before: State, after: State) -> bool {
    &&& before.scopes.len() >= 1 ==> after.scopes.len() == before.scopes.len()
    &&& before.output.is_prefix_of(after.output)
}

/// Executing a statement leaves as many frames as it found, and only adds
/// to the output: the frame of a block is gone when the block ends, however
/// it ends, and nothing that was written is taken back.
pub proof fn execution_follows<A: Fn(Arithmetic, u64, u64) -> u64>(
    arith: &A,
    statement: Stmt,
    before: State,
    completion: Completion,
    after: State,
)
    requires
        executes(arith, statement, before, completion, after),
    ensures
        follows(before, after),
    decreases statement, 0nat,
{
    match statement {
        Stmt::Expression(expr) => {
            let outcome = choose|outcome: Outcome|
                evaluates(arith, expr, before.scopes, outcome, after.scopes) && completion
                    == #[trigger] completion_of(outcome);
            evaluation_keeps_depth(arith, expr, before.scopes, outcome, after.scopes);
        },
        Stmt::Print(expr) => {
            let outcome = choose|outcome: Outcome|
                {
                    &&& evaluates(arith, expr, before.scopes, outcome, after.scopes)
                    &&& completion == completion_of(outcome)
                    &&& after.output == #[trigger] printed(before.output, outcome)
                };
            evaluation_keeps_depth(arith, expr, before.scopes, outcome, after.scopes);
        },
        Stmt::Var(name, initializer) => {
            match initializer {
                Some(expr) => {
                    let (outcome, middle) = choose|outcome: Outcome, middle: Seq<Frame>|
                        {
                            &&& evaluates(arith, expr, before.scopes, outcome, middle)
                            &&& completion == completion_of(outcome)
                            &&& after.scopes == #[trigger] initialized(name, outcome, middle)
                        };
                    evaluation_keeps_depth(arith, expr, before.scopes, outcome, middle);
                },
                None => {},
            }
        },
        Stmt::Block(statements) => {
            let inner = choose|inner: State|
                runs(arith, statements@, 0, entered(before), completion, inner) && after
                    == #[trigger] left(inner);
            run_follows(arith, statements@, 0, entered(before), completion, inner);
        },
    }
}

/// Executing a sequence of statements leaves as many frames as it found,
/// and only adds to the output.
pub proof fn run_follows<A: Fn(Arithmetic, u64, u64) -> u64>(
    arith: &A,
    statements: Seq<Stmt>,
    from: int,
    before: State,
    completion: Completion,
    after: State,
)
    requires
        runs(arith, statements, from, before, completion, after),
    ensures
        follows(before, after),
    decreases statements, statements.len() - from,
{
    if 0 <= from < statements.len() {
        let (first, middle) = choose|first: Completion, middle: State|
            {
                &&& executes(arith, statements[from], before, first, middle)
                &&& first is Ok ==> runs(arith, statements, from + 1, middle, completion, after)
                &&& #[trigger] stops(first, middle, completion, after)
            };
        execution_follows(arith, statements[from], before, first, middle);
        if first is Ok {
            run_follows(arith, statements, from + 1, middle, completion, after);
        }
    }
}

/// Interpreting a program leaves as many frames as it found, and only adds
/// to the output: an error costs the statement that it ends, and nothing of
/// what came before it.
pub proof fn interpretation_follows<A: Fn(Arithmetic, u64, u64) -> u64>(
    arith: &A,
    statements: Seq<Stmt>,
    from: int,
    before: State,
    after: State,
)
    requires
        interprets(arith, statements, from, before, after),
    ensures
        follows(before, after),
    decreases statements.len() - from,
{
    if 0 <= from < statements.len() {
        let (first, middle) = choose|first: Completion, middle: State|
            {
                &&& executes(arith, statements[from], before, first, middle)
                &&& interprets(
                    arith,
                    statements,
                    from + 1,
                    #[trigger] recorded(first, middle),
                    after,
                )
            };
        execution_follows(arith, statements[from], before, first, middle);
        interpretation_follows(arith, statements, from + 1, recorded(first, middle), after);
    }
}

/// Whether `arith` gives at most one result for each operation on two numbers.
pub open spec fn is_function<A: Fn(Arithmetic, u64, u64) -> u64>(arith: &A) -> bool {
    forall|operation: Arithmetic, left: u64, right: u64, one: u64, other: u64|
        #[trigger] arith.ensures((operation, left, right), one) && #[trigger] arith.ensures(
            (operation, left, right),
            other,
        ) ==> one == other
}

/// Where the arithmetic is a function, a binary operator makes one thing of
/// two values.
pub proof fn binary_outcome_is_determined<A: Fn(Arithmetic, u64, u64) -> u64>(
    arith: &A,
    left: ValueView,
    operator: Token,
    right: ValueView,
    one: Outcome,
    other: Outcome,
)
    requires
        is_function(arith),
        binary_outcome(arith, left, operator, right, one),
        binary_outcome(arith, left, operator, right, other),
    ensures
        one == other,
{
    if arithmetic_of(operator.type_) is Some && left is Double && right is Double {
        let operation = arithmetic_of(operator.type_).unwrap();
        let a = left->Double_0;
        let b = right->Double_0;
        let first = choose|bits: u64| #[trigger]
            arith.ensures((operation, a, b), bits) && one == Ok::<ValueView, ErrorView>(
                ValueView::Double(bits),
            );
        let second = choose|bits: u64| #[trigger]
            arith.ensures((operation, a, b), bits) && other == Ok::<ValueView, ErrorView>(
                ValueView::Double(bits),
            );
        assert(first == second);
    }
}

/// Where the arithmetic is a function, so is evaluation: an expression gives
/// one outcome and leaves the scopes in one way.
pub proof fn evaluation_is_determined<A: Fn(Arithmetic, u64, u64) -> u64>(
    arith: &A,
    expr: Expr,
    before: Seq<Frame>,
    one: Outcome,
    after_one: Seq<Frame>,
    other: Outcome,
    after_other: Seq<Frame>,
)
    requires
        is_function(arith),
        evaluates(arith, expr, before, one, after_one),
        evaluates(arith, expr, before, other, after_other),
    ensures
        one == other,
        after_one == after_other,
    decreases expr,
{
    match expr {
        Expr::Literal(_) => {},
        Expr::Variable(_) => {},
        Expr::Grouping(inner) => {
            evaluation_is_determined(arith, *inner, before, one, after_one, other, after_other);
        },
        Expr::Unary(operator, inner) => {
            assert(evaluates_unary(arith, expr, before, one, after_one));
            assert(evaluates_unary(arith, expr, before, other, after_other));
            let first = choose|operand: Outcome|
                evaluates(arith, *inner, before, operand, after_one) && one
                    == #[trigger] unary_result(operator, operand);
            let second = choose|operand: Outcome|
                evaluates(arith, *inner, before, operand, after_other) && other
                    == #[trigger] unary_result(operator, operand);
            evaluation_is_determined(arith, *inner, before, first, after_one, second, after_other);
        },
        Expr::Binary(left_expr, operator, right_expr) => {
            assert(evaluates_binary(arith, expr, before, one, after_one));
            assert(evaluates_binary(arith, expr, before, other, after_other));
            let (left1, middle1, right1) = choose|
                left: Outcome,
                middle: Seq<Frame>,
                right: Outcome,
            |
                {
                    &&& evaluates(arith, *left_expr, before, left, middle)
                    &&& left is Ok ==> evaluates(arith, *right_expr, middle, right, after_one)
                    &&& #[trigger] binary_result(
                        arith,
                        operator,
                        left,
                        middle,
                        right,
                        one,
                        after_one,
                    )
                };
            let (left2, middle2, right2) = choose|
                left: Outcome,
                middle: Seq<Frame>,
                right: Outcome,
            |
                {
                    &&& evaluates(arith, *left_expr, before, left, middle)
                    &&& left is Ok ==> evaluates(arith, *right_expr, middle, right, after_other)
                    &&& #[trigger] binary_result(
                        arith,
                        operator,
                        left,
                        middle,
                        right,
                        other,
                        after_other,
                    )
                };
            evaluation_is_determined(arith, *left_expr, before, left1, middle1, left2, middle2);
            match left1 {
                Ok(left_value) => {
                    evaluation_is_determined(
                        arith,
                        *right_expr,
                        middle1,
                        right1,
                        after_one,
                        right2,
                        after_other,
                    );
                    match right1 {
                        Ok(right_value) => {
                            binary_outcome_is_determined(
                                arith,
                                left_value,
                                operator,
                                right_value,
                                one,
                                other,
                            );
                        },
                        Err(_) => {},
                    }
                },
                Err(_) => {},
            }
        },
        Expr::Assign(name, value_expr) => {
            assert(evaluates_assign(arith, expr, before, one, after_one));
            assert(evaluates_assign(arith, expr, before, other, after_other));
            let (assignee1, middle1) = choose|assignee: Outcome, middle: Seq<Frame>|
                {
                    &&& evaluates(arith, *value_expr, before, assignee, middle)
                    &&& #[trigger] assign_result(name, assignee, middle, one, after_one)
                };
            let (assignee2, middle2) = choose|assignee: Outcome, middle: Seq<Frame>|
                {
                    &&& evaluates(arith, *value_expr, before, assignee, middle)
                    &&& #[trigger] assign_result(name, assignee, middle, other, after_other)
                };
            evaluation_is_determined(
                arith,
                *value_expr,
                before,
                assignee1,
                middle1,
                assignee2,
                middle2,
            );
        },
    }
}

/// Where the arithmetic is a function, so is execution: a statement ends in
/// one way and leaves one state.
pub proof fn execution_is_determined<A: Fn(Arithmetic, u64, u64) -> u64>(
    arith: &A,
    statement: Stmt,
    before: State,
    one: Completion,
    after_one: State,
    other: Completion,
    after_other: State,
)
    requires
        is_function(arith),
        executes(arith, statement, before, one, after_one),
        executes(arith, statement, before, other, after_other),
    ensures
        one == other,
        after_one == after_other,
    decreases statement, 0nat,
{
    match statement {
        Stmt::Expression(expr) => {
            let first = choose|outcome: Outcome|
                evaluates(arith, expr, before.scopes, outcome, after_one.scopes) && one
                    == #[trigger] completion_of(outcome);
            let second = choose|outcome: Outcome|
                evaluates(arith, expr, before.scopes, outcome, after_other.scopes) && other
                    == #[trigger] completion_of(outcome);
            evaluation_is_determined(
                arith,
                expr,
                before.scopes,
                first,
                after_one.scopes,
                second,
                after_other.scopes,
            );
        },
        Stmt::Print(expr) => {
            let first = choose|outcome: Outcome|
                {
                    &&& evaluates(arith, expr, before.scopes, outcome, after_one.scopes)
                    &&& one == completion_of(outcome)
                    &&& after_one.output == #[trigger] printed(before.output, outcome)
                };
            let second = choose|outcome: Outcome|
                {
                    &&& evaluates(arith, expr, before.scopes, outcome, after_other.scopes)
                    &&& other == completion_of(outcome)
                    &&& after_other.output == #[trigger] printed(before.output, outcome)
                };
            evaluation_is_determined(
                arith,
                expr,
                before.scopes,
                first,
                after_one.scopes,
                second,
                after_other.scopes,
            );
        },
        Stmt::Var(name, initializer) => {
            match initializer {
                Some(expr) => {
                    let (first, middle1) = choose|outcome: Outcome, middle: Seq<Frame>|
                        {
                            &&& evaluates(arith, expr, before.scopes, outcome, middle)
                            &&& one == completion_of(outcome)
                            &&& after_one.scopes == #[trigger] initialized(name, outcome, middle)
                        };
                    let (second, middle2) = choose|outcome: Outcome, middle: Seq<Frame>|
                        {
                            &&& evaluates(arith, expr, before.scopes, outcome, middle)
                            &&& other == completion_of(outcome)
                            &&& after_other.scopes == #[trigger] initialized(name, outcome, middle)
                        };
                    evaluation_is_determined(
                        arith,
                        expr,
                        before.scopes,
                        first,
                        middle1,
                        second,
                        middle2,
                    );
                },
                None => {},
            }
        },
        Stmt::Block(statements) => {
            let inner1 = choose|inner: State|
                runs(arith, statements@, 0, entered(before), one, inner) && after_one
                    == #[trigger] left(inner);
            let inner2 = choose|inner: State|
                runs(arith, statements@, 0, entered(before), other, inner) && after_other
                    == #[trigger] left(inner);
            run_is_determined(arith, statements@, 0, entered(before), one, inner1, other, inner2);
        },
    }
}

/// Where the arithmetic is a function, a sequence of statements ends in one
/// way and leaves one state.
pub proof fn run_is_determined<A: Fn(Arithmetic, u64, u64) -> u64>(
    arith: &A,
    statements: Seq<Stmt>,
    from: int,
    before: State,
    one: Completion,
    after_one: State,
    other: Completion,
    after_other: State,
)
    requires
        is_function(arith),
        runs(arith, statements, from, before, one, after_one),
        runs(arith, statements, from, before, other, after_other),
    ensures
        one == other,
        after_one == after_other,
    decreases statements, statements.len() - from,
{
    if 0 <= from < statements.len() {
        let (first1, middle1) = choose|first: Completion, middle: State|
            {
                &&& executes(arith, statements[from], before, first, middle)
                &&& first is Ok ==> runs(arith, statements, from + 1, middle, one, after_one)
                &&& #[trigger] stops(first, middle, one, after_one)
            };
        let (first2, middle2) = choose|first: Completion, middle: State|
            {
                &&& executes(arith, statements[from], before, first, middle)
                &&& first is Ok ==> runs(arith, statements, from + 1, middle, other, after_other)
                &&& #[trigger] stops(first, middle, other, after_other)
            };
        execution_is_determined(arith, statements[from], before, first1, middle1, first2, middle2);
        if first1 is Ok {
            run_is_determined(
                arith,
                statements,
                from + 1,
                middle1,
                one,
                after_one,
                other,
                after_other,
            );
        }
    }
}

/// Where the arithmetic is a function, a program leaves one state.
pub proof fn interpretation_is_determined<A: Fn(Arithmetic, u64, u64) -> u64>(
    arith: &A,
    statements: Seq<Stmt>,
    from: int,
    before: State,
    one: State,
    other: State,
)
    requires
        is_function(arith),
        interprets(arith, statements, from, before, one),
        interprets(arith, statements, from, before, other),
    ensures
        one == other,
    decreases statements.len() - from,
{
    if 0 <= from < statements.len() {
        let (first1, middle1) = choose|first: Completion, middle: State|
            {
                &&& executes(arith, statements[from], before, first, middle)
                &&& interprets(
                    arith,
                    statements,
                    from + 1,
                    #[trigger] recorded(first, middle),
                    one,
                )
            };
        let (first2, middle2) = choose|first: Completion, middle: State|
            {
                &&& executes(arith, statements[from], before, first, middle)
                &&& interprets(
                    arith,
                    statements,
                    from + 1,
                    #[trigger] recorded(first, middle),
                    other,
                )
            };
        execution_is_determined(arith, statements[from], before, first1, middle1, first2, middle2);
        interpretation_is_determined(
            arith,
            statements,
            from + 1,
            recorded(first1, middle1),
            one,
            other,
        );
    }
}

/// Where the arithmetic is a function, a program writes one output.
pub proof fn output_is_determined<A: Fn(Arithmetic, u64, u64) -> u64>(
    arith: &A,
    statements: Seq<Stmt>,
    one: Seq<OutputView>,
    other: Seq<OutputView>,
)
    requires
        is_function(arith),
        interpreted(arith, statements, one),
        interpreted(arith, statements, other),
    ensures
        one == other,
{
    let first = choose|scopes: Seq<Frame>|
        interprets(arith, statements, 0, initial(), #[trigger] state_of(scopes, one));
    let second = choose|scopes: Seq<Frame>|
        interprets(arith, statements, 0, initial(), #[trigger] state_of(scopes, other));
    interpretation_is_determined(
        arith,
        statements,
        0,
        initial(),
        state_of(first, one),
        state_of(second, other),
    );
}

} // verus!
