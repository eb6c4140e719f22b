//! The interpreter: runs statements against a chain of scopes.
use vstd::prelude::*;
use vstd::string::StringExecFns;
use crate::environment::{assigned, assigned_keeps_depth, declared, lookup, Environment};
use crate::number::{number_less, number_less_or_equal, number_negated};
use crate::error::diagnostic;
use crate::parser::{token_error, token_place, Expr, Stmt};
use crate::scanner::{Token, TokenType};
use crate::semantics::{
    arithmetic_of, assign_result, binary_outcome, binary_result, completion_of, entered,
    evaluates, evaluates_assign, evaluates_binary, evaluates_unary, executes, initial,
    initialized, interpreted, interprets, left, printed, recorded, runs, state_of, stops,
    unary_outcome, unary_result, Arithmetic, Completion, ErrorView, Outcome, OutputView, State,
};
use crate::value::{slot_view, truthy, Value};

verus! {

/// Why an expression could not be evaluated.
#[derive(Debug, PartialEq)]
pub enum EvaluationError {
    /// A unary operator met an operand that it does not take.
    InvalidUnaryOperand(Token, String),
    /// A binary operator met operands that it does not take.
    InvalidBinaryOperand(Token, String),
    /// A variable was read that no scope holds.
    VariableDoesNotExist(Token),
    /// A variable was assigned that no scope holds.
    InvalidAssignment(Token),
}

impl View for EvaluationError {
    type V = ErrorView;

    open spec fn view(&self) -> ErrorView {
        match self {
            EvaluationError::InvalidUnaryOperand(token, message) => ErrorView::InvalidUnaryOperand(
                *token,
                message@,
            ),
            EvaluationError::InvalidBinaryOperand(token, message) => {
                ErrorView::InvalidBinaryOperand(*token, message@)
            },
            EvaluationError::VariableDoesNotExist(token) => ErrorView::VariableDoesNotExist(
                *token,
            ),
            EvaluationError::InvalidAssignment(token) => ErrorView::InvalidAssignment(*token),
        }
    }
}

impl Clone for EvaluationError {
    fn clone(&self) -> (r: Self)
        ensures
            r == *self,
    {
        match self {
            EvaluationError::InvalidUnaryOperand(token, message) => {
                EvaluationError::InvalidUnaryOperand(token.clone(), message.clone())
            },
            EvaluationError::InvalidBinaryOperand(token, message) => {
                EvaluationError::InvalidBinaryOperand(token.clone(), message.clone())
            },
            EvaluationError::VariableDoesNotExist(token) => {
                EvaluationError::VariableDoesNotExist(token.clone())
            },
            EvaluationError::InvalidAssignment(token) => {
                EvaluationError::InvalidAssignment(token.clone())
            },
        }
    }
}

/// The view of what evaluating an expression gave.
pub open spec fn outcome_view(r: Result<Value, EvaluationError>) -> Outcome {
    match r {
        Ok(value) => Ok(value@),
        Err(error) => Err(error@),
    }
}

/// The number of nodes of an expression.
pub open spec fn size(expr: Expr) -> nat
    decreases expr,
{
    match expr {
        Expr::Literal(_) => 1,
        Expr::Variable(_) => 1,
        Expr::Grouping(inner) => 1 + size(*inner),
        Expr::Unary(_, inner) => 1 + size(*inner),
        Expr::Binary(left, _, right) => 1 + size(*left) + size(*right),
        Expr::Assign(_, value) => 1 + size(*value),
    }
}

/// What a program gives out: what it prints, and the errors that end its
/// statements.
#[derive(Debug, PartialEq)]
pub enum Output {
    /// A value that a `print` statement wrote.
    Printed(Value),
    /// The error that ended a statement.
    Failed(EvaluationError),
}

impl View for Output {
    type V = OutputView;

    open spec fn view(&self) -> OutputView {
        match self {
            Output::Printed(value) => OutputView::Printed(value@),
            Output::Failed(error) => OutputView::Failed(error@),
        }
    }
}

/// The views of a sequence of outputs.
pub open spec fn output_views(output: Seq<Output>) -> Seq<OutputView> {
    Seq::new(output.len(), |i: int| output[i]@)
}

/// The view of how a statement ended.
pub open spec fn completion_view(r: Result<(), EvaluationError>) -> Completion {
    match r {
        Ok(_) => Ok(()),
        Err(error) => Err(error@),
    }
}

/// The state that an environment and the output so far make.
pub open spec fn state(environment: Environment, output: Vec<Output>) -> State {
    state_of(environment@, output_views(output@))
}

/// The interpreter.
pub struct Interpreter {}

impl Interpreter {
    pub fn new() -> (interpreter: Interpreter) {
        Interpreter {  }
    }

    /// Interprets `statements` as a program: each is executed in turn,
    /// beginning with no variables. A statement that ends with an error is
    /// given up, the error goes to the output, and the next statement is
    /// executed. Returns what the program gave out.
    #[verifier::rlimit(50)]
    pub fn interpret<A: Fn(Arithmetic, u64, u64) -> u64>(
        &mut self,
        statements: &Vec<Stmt>,
        arith: &A,
    ) -> (output: Vec<Output>)
        requires
            forall|operation: Arithmetic, left: u64, right: u64|
                arith.requires((operation, left, right)),
        ensures
            interpreted(arith, statements@, output_views(output@)),
    {
        let mut environment = Environment::new();
        let mut output: Vec<Output> = Vec::new();
        assert(state(environment, output) == initial()) by {
            assert(output_views(output@) =~= Seq::empty());
        }
        let mut i: usize = 0;
        while i < statements.len()
            invariant
                i <= statements.len(),
                environment.wf(),
                forall|after: State| #[trigger]
                    interprets(arith, statements@, i as int, state(environment, output), after)
                        ==> interprets(arith, statements@, 0, initial(), after),
                forall|operation: Arithmetic, left: u64, right: u64|
                    arith.requires((operation, left, right)),
            decreases statements.len() - i,
        {
            let ghost before = state(environment, output);
            let result = self.execute_statement(
                &statements[i],
                &mut environment,
                &mut output,
                arith,
            );
            let ghost first = completion_view(result);
            let ghost middle = state(environment, output);
            match result {
                Ok(_) => {},
                Err(error) => {
                    output.push(Output::Failed(error));
                    assert(output_views(output@) =~= middle.output.push(
                        OutputView::Failed(error@),
                    ));
                },
            }
            assert(state(environment, output) == recorded(first, middle));
            assert forall|after: State| #[trigger]
                interprets(
                    arith,
                    statements@,
                    i + 1,
                    state(environment, output),
                    after,
                ) implies interprets(arith, statements@, 0, initial(), after) by {
                assert(interprets(arith, statements@, i as int, before, after));
            }
            i += 1;
        }
        let ghost end = state(environment, output);
        assert(interprets(arith, statements@, i as int, end, end));
        assert(end == state_of(environment@, output_views(output@)));
        output
    }

    /// Executes `statement` in `environment`. What it prints is added to `output`.
    #[verifier::rlimit(50)]
    pub fn execute_statement<A: Fn(Arithmetic, u64, u64) -> u64>(
        &mut self,
        statement: &Stmt,
        environment: &mut Environment,
        output: &mut Vec<Output>,
        arith: &A,
    ) -> (r: Result<(), EvaluationError>)
        requires
            old(environment).wf(),
            forall|operation: Arithmetic, left: u64, right: u64|
                arith.requires((operation, left, right)),
        ensures
            final(environment).wf(),
            final(environment)@.len() == old(environment)@.len(),
            executes(
                arith,
                *statement,
                state(*old(environment), *old(output)),
                completion_view(r),
                state(*final(environment), *final(output)),
            ),
        decreases *statement,
    {
        let ghost before = state(*environment, *output);
        match statement {
            Stmt::Block(statements) => self.execute_block(statements, environment, output, arith),
            Stmt::Print(expr) => {
                let result = self.evaluate_expression(expr, environment, arith);
                let ghost outcome = outcome_view(result);
                let r = match result {
                    Ok(value) => {
                        output.push(Output::Printed(value));
                        Ok(())
                    },
                    Err(error) => Err(error),
                };
                assert(output_views(output@) =~= printed(before.output, outcome));
                assert(completion_view(r) == completion_of(outcome));
                r
            },
            Stmt::Expression(expr) => {
                let result = self.evaluate_expression(expr, environment, arith);
                let ghost outcome = outcome_view(result);
                let r = match result {
                    Ok(_) => Ok(()),
                    Err(error) => Err(error),
                };
                assert(completion_view(r) == completion_of(outcome));
                r
            },
            Stmt::Var(name, initialiser) => {
                match initialiser {
                    Some(expr) => {
                        let result = self.evaluate_expression(expr, environment, arith);
                        let ghost outcome = outcome_view(result);
                        let ghost middle = environment@;
                        let r = match result {
                            Ok(value) => {
                                Interpreter::define(environment, name.lexeme.clone(), Some(value));
                                Ok(())
                            },
                            Err(error) => Err(error),
                        };
                        assert(environment@ == initialized(*name, outcome, middle));
                        assert(completion_view(r) == completion_of(outcome));
                        r
                    },
                    None => {
                        Interpreter::define(environment, name.lexeme.clone(), None);
                        Ok(())
                    },
                }
            },
        }
    }

    /// Executes the statements of a block in a frame of their own, which is
    /// dropped when the block ends, however it ends.
    #[verifier::rlimit(50)]
    fn execute_block<A: Fn(Arithmetic, u64, u64) -> u64>(
        &mut self,
        statements: &Vec<Stmt>,
        environment: &mut Environment,
        output: &mut Vec<Output>,
        arith: &A,
    ) -> (r: Result<(), EvaluationError>)
        requires
            old(environment).wf(),
            forall|operation: Arithmetic, left: u64, right: u64|
                arith.requires((operation, left, right)),
        ensures
            final(environment).wf(),
            final(environment)@.len() == old(environment)@.len(),
            executes(
                arith,
                Stmt::Block(*statements),
                state(*old(environment), *old(output)),
                completion_view(r),
                state(*final(environment), *final(output)),
            ),
        decreases *statements,
    {
        let ghost before = state(*environment, *output);
        proof {
            old(environment).has_frame();
        }
        let mut outer = Environment::new();
        core::mem::swap(environment, &mut outer);
        *environment = Environment::enclosing(outer);
        let ghost begin = state(*environment, *output);
        assert(begin == entered(before));

        let mut result: Result<(), EvaluationError> = Ok(());
        let mut i: usize = 0;
        while i < statements.len() && result.is_ok()
            invariant
                i <= statements.len(),
                environment.wf(),
                environment@.len() == old(environment)@.len() + 1,
                result is Ok ==> forall|completion: Completion, after: State| #[trigger]
                    runs(
                        arith,
                        statements@,
                        i as int,
                        state(*environment, *output),
                        completion,
                        after,
                    ) ==> runs(arith, statements@, 0, begin, completion, after),
                result is Err ==> runs(
                    arith,
                    statements@,
                    0,
                    begin,
                    completion_view(result),
                    state(*environment, *output),
                ),
                forall|operation: Arithmetic, left: u64, right: u64|
                    arith.requires((operation, left, right)),
            decreases statements.len() - i, if result is Ok { 1nat } else { 0nat },
        {
            let ghost current = state(*environment, *output);
            let step = self.execute_statement(&statements[i], environment, output, arith);
            let ghost first = completion_view(step);
            let ghost middle = state(*environment, *output);
            match step {
                Ok(_) => {
                    proof {
                        assert forall|completion: Completion, after: State| #[trigger]
                            runs(
                                arith,
                                statements@,
                                i + 1,
                                middle,
                                completion,
                                after,
                            ) implies runs(arith, statements@, 0, begin, completion, after) by {
                            assert(stops(first, middle, completion, after));
                            assert(runs(arith, statements@, i as int, current, completion, after));
                        }
                    }
                    i += 1;
                },
                Err(error) => {
                    proof {
                        assert(stops(first, middle, first, middle));
                        assert(runs(arith, statements@, i as int, current, first, middle));
                    }
                    result = Err(error);
                },
            }
        }
        let ghost inner = state(*environment, *output);
        proof {
            if result is Ok {
                assert(runs(arith, statements@, i as int, inner, Ok(()), inner));
            }
            assert(runs(arith, statements@, 0, entered(before), completion_view(result), inner));
        }
        let mut block = Environment::new();
        core::mem::swap(environment, &mut block);
        match block.into_enclosing() {
            Some(enclosing) => {
                *environment = enclosing;
            },
            None => {},
        }
        assert(state(*environment, *output) == left(inner));
        result
    }

    /// Evaluates `expr` in `environment`.
    #[verifier::rlimit(50)]
    pub fn evaluate_expression<A: Fn(Arithmetic, u64, u64) -> u64>(
        &mut self,
        expr: &Expr,
        environment: &mut Environment,
        arith: &A,
    ) -> (r: Result<Value, EvaluationError>)
        requires
            old(environment).wf(),
            forall|operation: Arithmetic, left: u64, right: u64|
                arith.requires((operation, left, right)),
        ensures
            final(environment).wf(),
            final(environment)@.len() == old(environment)@.len(),
            evaluates(arith, *expr, old(environment)@, outcome_view(r), final(environment)@),
        decreases 2 * size(*expr),
    {
        match expr {
            Expr::Literal(value) => Ok(value.clone()),
            Expr::Grouping(inner) => self.evaluate_expression(inner, environment, arith),
            Expr::Unary(operator, inner) => {
                self.evaluate_unary(operator, inner, environment, arith)
            },
            Expr::Binary(left, operator, right) => {
                self.evaluate_binary(left, operator, right, environment, arith)
            },
            Expr::Variable(name_token) => {
                match Interpreter::get(environment, name_token) {
                    Ok(slot) => match slot {
                        Some(value) => Ok(value),
                        None => Ok(Value::Nil),
                    },
                    Err(error) => Err(error),
                }
            },
            Expr::Assign(name_token, value_expr) => {
                let result = self.evaluate_expression(value_expr, environment, arith);
                let ghost middle = environment@;
                let ghost assignee = outcome_view(result);
                let value = match result {
                    Ok(value) => value,
                    Err(error) => {
                        assert(assign_result(*name_token, assignee, middle, assignee, middle));
                        assert(evaluates_assign(
                            arith,
                            *expr,
                            old(environment)@,
                            assignee,
                            middle,
                        ));
                        return Err(error);
                    },
                };
                let r = if Interpreter::assign(environment, name_token, &value) {
                    Ok(value)
                } else {
                    Err(EvaluationError::InvalidAssignment(name_token.clone()))
                };
                assert(assign_result(
                    *name_token,
                    assignee,
                    middle,
                    outcome_view(r),
                    environment@,
                ));
                assert(evaluates_assign(
                    arith,
                    *expr,
                    old(environment)@,
                    outcome_view(r),
                    environment@,
                ));
                r
            },
        }
    }

    fn evaluate_unary<A: Fn(Arithmetic, u64, u64) -> u64>(
        &mut self,
        operator: &Token,
        expr: &Expr,
        environment: &mut Environment,
        arith: &A,
    ) -> (r: Result<Value, EvaluationError>)
        requires
            old(environment).wf(),
            forall|operation: Arithmetic, left: u64, right: u64|
                arith.requires((operation, left, right)),
        ensures
            final(environment).wf(),
            final(environment)@.len() == old(environment)@.len(),
            evaluates_unary(
                arith,
                Expr::Unary(*operator, Box::new(*expr)),
                old(environment)@,
                outcome_view(r),
                final(environment)@,
            ),
        decreases 2 * size(*expr) + 1,
    {
        let value = self.evaluate_expression(expr, environment, arith);
        let r = match value {
            Ok(operand) => apply_unary(operator, &operand),
            Err(error) => Err(error),
        };
        assert(outcome_view(r) == unary_result(*operator, outcome_view(value)));
        r
    }

    fn evaluate_binary<A: Fn(Arithmetic, u64, u64) -> u64>(
        &mut self,
        left: &Expr,
        operator: &Token,
        right: &Expr,
        environment: &mut Environment,
        arith: &A,
    ) -> (r: Result<Value, EvaluationError>)
        requires
            old(environment).wf(),
            forall|operation: Arithmetic, left: u64, right: u64|
                arith.requires((operation, left, right)),
        ensures
            final(environment).wf(),
            final(environment)@.len() == old(environment)@.len(),
            evaluates_binary(
                arith,
                Expr::Binary(Box::new(*left), *operator, Box::new(*right)),
                old(environment)@,
                outcome_view(r),
                final(environment)@,
            ),
        decreases 2 * (size(*left) + size(*right)) + 1,
    {
        let left_result = self.evaluate_expression(left, environment, arith);
        let ghost middle = environment@;
        let ghost left_outcome = outcome_view(left_result);
        let left_value = match left_result {
            Ok(value) => value,
            Err(error) => {
                assert(binary_result(
                    arith,
                    *operator,
                    left_outcome,
                    middle,
                    left_outcome,
                    left_outcome,
                    middle,
                ));
                return Err(error);
            },
        };
        let right_result = self.evaluate_expression(right, environment, arith);
        let ghost right_outcome = outcome_view(right_result);
        let right_value = match right_result {
            Ok(value) => value,
            Err(error) => {
                assert(binary_result(
                    arith,
                    *operator,
                    left_outcome,
                    middle,
                    right_outcome,
                    right_outcome,
                    environment@,
                ));
                return Err(error);
            },
        };
        let r = apply_binary(&left_value, operator, &right_value, arith);
        assert(binary_result(
            arith,
            *operator,
            left_outcome,
            middle,
            right_outcome,
            outcome_view(r),
            environment@,
        ));
        r
    }

    fn define(environment: &mut Environment, name: String, value: Option<Value>)
        requires
            old(environment).wf(),
        ensures
            final(environment).wf(),
            final(environment)@.len() == old(environment)@.len(),
            final(environment)@ == declared(old(environment)@, name@, slot_view(value)),
    {
        proof {
            old(environment).has_frame();
        }
        environment.define(name, value);
    }

    fn assign(environment: &mut Environment, name: &Token, value: &Value) -> (found: bool)
        requires
            old(environment).wf(),
        ensures
            final(environment).wf(),
            final(environment)@.len() == old(environment)@.len(),
            found == lookup(old(environment)@, name.lexeme@) is Some,
            final(environment)@ == assigned(old(environment)@, name.lexeme@, value@),
    {
        proof {
            assigned_keeps_depth(old(environment)@, name.lexeme@, value@);
        }
        environment.assign(name, value.clone())
    }

    fn get(environment: &Environment, name: &Token) -> (r: Result<Option<Value>, EvaluationError>)
        requires
            environment.wf(),
        ensures
            match r {
                Ok(slot) => lookup(environment@, name.lexeme@) == Some(slot_view(slot)),
                Err(error) => lookup(environment@, name.lexeme@) is None && error@
                    == ErrorView::VariableDoesNotExist(*name),
            },
    {
        match environment.get(name) {
            Ok(slot) => Ok(slot),
            Err(_) => Err(EvaluationError::VariableDoesNotExist(name.clone())),
        }
    }
}

/// The diagnostic for an error of evaluation: the line and the text of the
/// token at which it arose, and its message.
pub fn runtime_error(error: &EvaluationError) -> (r: String)
    ensures
        r@ == diagnostic(
            error@.token().line as nat,
            token_place(error@.token()),
            error@.message(),
        ),
{
    match error {
        EvaluationError::InvalidUnaryOperand(token, message) => token_error(token, message),
        EvaluationError::InvalidBinaryOperand(token, message) => token_error(token, message),
        EvaluationError::VariableDoesNotExist(token) => token_error(
            token,
            &String::from_str("Undefined variable"),
        ),
        EvaluationError::InvalidAssignment(token) => token_error(
            token,
            &String::from_str("Assignment to an undeclared variable"),
        ),
    }
}

/// Whether a value counts as true: every value but `nil` and `false` does.
pub fn is_truthy(value: &Value) -> (r: bool)
    ensures
        r == truthy(value@),
{
    match value {
        Value::String(_) => true,
        Value::Double(_) => true,
        Value::Bool(boolean) => *boolean,
        Value::Nil => false,
    }
}

/// Applies a unary operator to a value.
pub fn apply_unary(operator: &Token, operand: &Value) -> (r: Result<Value, EvaluationError>)
    ensures
        outcome_view(r) == unary_outcome(*operator, operand@),
{
    match operator.type_ {
        TokenType::Minus => match operand {
            Value::Double(double) => Ok(Value::Double(number_negated(*double))),
            _ => Err(
                EvaluationError::InvalidUnaryOperand(
                    operator.clone(),
                    String::from_str("Operand must be a number"),
                ),
            ),
        },
        TokenType::Bang => Ok(Value::Bool(!is_truthy(operand))),
        _ => Err(
            EvaluationError::InvalidUnaryOperand(
                operator.clone(),
                String::from_str("Unrecognised unary operation"),
            ),
        ),
    }
}

/// The arithmetic operation of a binary operator, if it is one.
fn arithmetic(kind: TokenType) -> (r: Option<Arithmetic>)
    ensures
        r == arithmetic_of(kind),
{
    match kind {
        TokenType::Plus => Some(Arithmetic::Add),
        TokenType::Minus => Some(Arithmetic::Subtract),
        TokenType::Star => Some(Arithmetic::Multiply),
        TokenType::Slash => Some(Arithmetic::Divide),
        _ => None,
    }
}

/// Applies a binary operator to two values.
pub fn apply_binary<A: Fn(Arithmetic, u64, u64) -> u64>(
    left: &Value,
    operator: &Token,
    right: &Value,
    arith: &A,
) -> (r: Result<Value, EvaluationError>)
    requires
        forall|operation: Arithmetic, left: u64, right: u64|
            arith.requires((operation, left, right)),
    ensures
        binary_outcome(arith, left@, *operator, right@, outcome_view(r)),
{
    let kind = operator.type_;
    match arithmetic(kind) {
        Some(operation) => {
            match (left, right) {
                (Value::Double(a), Value::Double(b)) => {
                    let bits = arith(operation, *a, *b);
                    assert(arith.ensures((operation, *a, *b), bits));
                    Ok(Value::Double(bits))
                },
                (Value::String(a), Value::String(b)) => {
                    match operation {
                        Arithmetic::Add => Ok(Value::String(a.clone().concat(b.as_str()))),
                        _ => Err(
                            EvaluationError::InvalidBinaryOperand(
                                operator.clone(),
                                String::from_str("Operands must be numbers"),
                            ),
                        ),
                    }
                },
                _ => {
                    match operation {
                        Arithmetic::Add => Err(
                            EvaluationError::InvalidBinaryOperand(
                                operator.clone(),
                                String::from_str("Operands must be two numbers or two strings"),
                            ),
                        ),
                        _ => Err(
                            EvaluationError::InvalidBinaryOperand(
                                operator.clone(),
                                String::from_str("Operands must be numbers"),
                            ),
                        ),
                    }
                },
            }
        },
        None => {
            match kind {
                TokenType::Greater | TokenType::GreaterEqual | TokenType::Less
                | TokenType::LessEqual => {
                    match (left, right) {
                        (Value::Double(a), Value::Double(b)) => {
                            let answer = match kind {
                                TokenType::Greater => number_less(*b, *a),
                                TokenType::GreaterEqual => number_less_or_equal(*b, *a),
                                TokenType::Less => number_less(*a, *b),
                                _ => number_less_or_equal(*a, *b),
                            };
                            Ok(Value::Bool(answer))
                        },
                        _ => Err(
                            EvaluationError::InvalidBinaryOperand(
                                operator.clone(),
                                String::from_str("Operands must be numbers"),
                            ),
                        ),
                    }
                },
                TokenType::BangEqual => Ok(Value::Bool(*left != *right)),
                TokenType::EqualEqual => Ok(Value::Bool(*left == *right)),
                _ => Err(
                    EvaluationError::InvalidBinaryOperand(
                        operator.clone(),
                        String::from_str("Unrecognised binary operation"),
                    ),
                ),
            }
        },
    }
}

} // verus!
