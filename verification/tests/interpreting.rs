use rox::interpreter::{
    apply_binary, apply_unary, is_truthy, runtime_error, EvaluationError, Interpreter, Output,
};
use rox::parser::{Expr, Parser, Stmt};
use rox::scanner::{Scanner, Token, TokenType};
use rox::semantics::Arithmetic;
use rox::value::Value;
use rox::environment::Environment;

fn to_number(text: String) -> u64 {
    text.parse::<f64>().unwrap().to_bits()
}

fn compute(operation: Arithmetic, left: u64, right: u64) -> u64 {
    let (a, b) = (f64::from_bits(left), f64::from_bits(right));
    let result = match operation {
        Arithmetic::Add => a + b,
        Arithmetic::Subtract => a - b,
        Arithmetic::Multiply => a * b,
        Arithmetic::Divide => a / b,
    };
    result.to_bits()
}

fn program(source: &str) -> Vec<Stmt> {
    let tokens = Scanner::new(source.to_string()).scan_tokens(&to_number);
    Parser::new(tokens).parse().unwrap()
}

fn run(source: &str) -> Vec<Output> {
    Interpreter::new().interpret(&program(source), &compute)
}

fn number(value: f64) -> Value {
    Value::Double(value.to_bits())
}

fn text(value: &str) -> Value {
    Value::String(value.to_string())
}

fn printed(values: Vec<Value>) -> Vec<Output> {
    values.into_iter().map(Output::Printed).collect()
}

fn operator(kind: TokenType, lexeme: &str) -> Token {
    Token::new(kind, lexeme.to_string(), None, 0)
}

fn variable(name: &str, line: usize) -> Token {
    Token::new(TokenType::Identifier, name.to_string(), None, line)
}

fn undefined(name: &str) -> EvaluationError {
    EvaluationError::VariableDoesNotExist(variable(name, 0))
}

fn binary_error(kind: TokenType, lexeme: &str, message: &str) -> EvaluationError {
    EvaluationError::InvalidBinaryOperand(operator(kind, lexeme), message.to_string())
}

#[test]
fn subtraction_folds_to_the_left() {
    assert_eq!(run("print 8 - 4 - 2;"), printed(vec![number(2.0)]));
}

#[test]
fn arithmetic_follows_precedence() {
    assert_eq!(run("print 1 + 2 * 3;"), printed(vec![number(7.0)]));
    assert_eq!(run("print (1 + 2) * 3;"), printed(vec![number(9.0)]));
    assert_eq!(run("print 7 / 2;"), printed(vec![number(3.5)]));
    assert_eq!(run("print 2 * 3 - 4 / 8;"), printed(vec![number(5.5)]));
}

#[test]
fn the_caller_computes_the_arithmetic() {
    let tagged = |operation: Arithmetic, left: u64, right: u64| match operation {
        Arithmetic::Add => 1000 + left + right,
        Arithmetic::Subtract => 2000 + left + right,
        Arithmetic::Multiply => 3000 + left + right,
        Arithmetic::Divide => 4000 + left + right,
    };
    let bits = |text: String| text.parse::<u64>().unwrap();
    let tokens = Scanner::new("print 1 + 2; print 1 - 2; print 1 * 2; print 6 / 2;".to_string())
        .scan_tokens(&bits);
    let statements = Parser::new(tokens).parse().unwrap();
    assert_eq!(
        Interpreter::new().interpret(&statements, &tagged),
        printed(vec![
            Value::Double(1003),
            Value::Double(2003),
            Value::Double(3003),
            Value::Double(4008),
        ])
    );
}

#[test]
fn an_inner_declaration_shadows_the_outer_one() {
    assert_eq!(
        run("var a = \"outer\";\n{ var a = \"inner\"; print a; }\nprint a;"),
        printed(vec![text("inner"), text("outer")])
    );
}

#[test]
fn an_assignment_reaches_the_enclosing_scope() {
    assert_eq!(
        run("var a = \"global\";\n{ a = \"changed\"; }\nprint a;"),
        printed(vec![text("changed")])
    );
}

#[test]
fn an_assignment_changes_the_nearest_binding_only() {
    assert_eq!(
        run("var a = 1; { var a = 2; { a = 3; print a; } print a; } print a;"),
        printed(vec![number(3.0), number(3.0), number(1.0)])
    );
}

#[test]
fn a_type_error_ends_its_statement_only() {
    assert_eq!(
        run("var x = 1 + \"s\";\nprint 5;"),
        vec![
            Output::Failed(binary_error(
                TokenType::Plus,
                "+",
                "Operands must be two numbers or two strings"
            )),
            Output::Printed(number(5.0)),
        ]
    );
}

#[test]
fn a_failed_declaration_declares_nothing() {
    assert_eq!(
        run("var x = -\"s\"; print x;"),
        vec![
            Output::Failed(EvaluationError::InvalidUnaryOperand(
                operator(TokenType::Minus, "-"),
                "Operand must be a number".to_string()
            )),
            Output::Failed(undefined("x")),
        ]
    );
}

#[test]
fn an_error_in_a_block_ends_the_whole_statement() {
    assert_eq!(
        run("var a = 1; { print a; { print b; print 2; } print 3; } print a;"),
        vec![
            Output::Printed(number(1.0)),
            Output::Failed(undefined("b")),
            Output::Printed(number(1.0)),
        ]
    );
}

#[test]
fn a_block_that_fails_still_drops_its_frame() {
    assert_eq!(
        run("var a = 1; { var a = 2; print missing; } print a;"),
        vec![
            Output::Failed(undefined("missing")),
            Output::Printed(number(1.0)),
        ]
    );
}

#[test]
fn the_left_operand_fails_before_the_right_one_is_evaluated() {
    assert_eq!(
        run("var a = 1; print missing + (a = 2); print a;"),
        vec![
            Output::Failed(undefined("missing")),
            Output::Printed(number(1.0)),
        ]
    );
}

#[test]
fn operands_are_evaluated_left_before_right() {
    assert_eq!(
        run("var a = 1; print (a = 2) + a; print a + (a = 5);"),
        printed(vec![number(4.0), number(7.0)])
    );
}

#[test]
fn not_gives_the_opposite_of_truthiness() {
    assert_eq!(
        run("print !nil; print !0.0; print !\"\"; print !false; print !true; print !\"a\";"),
        printed(vec![
            Value::Bool(true),
            Value::Bool(false),
            Value::Bool(false),
            Value::Bool(true),
            Value::Bool(false),
            Value::Bool(false),
        ])
    );
}

#[test]
fn only_nil_and_false_are_falsy() {
    assert!(!is_truthy(&Value::Nil));
    assert!(!is_truthy(&Value::Bool(false)));
    assert!(is_truthy(&Value::Bool(true)));
    assert!(is_truthy(&number(0.0)));
    assert!(is_truthy(&number(f64::NAN)));
    assert!(is_truthy(&text("")));
    assert!(is_truthy(&text("false")));
}

#[test]
fn minus_negates_a_number() {
    assert_eq!(
        run("print -3; print --3; print -0;"),
        printed(vec![number(-3.0), number(3.0), number(-0.0)])
    );
}

#[test]
fn minus_flips_the_sign_of_zero() {
    let minus = operator(TokenType::Minus, "-");
    match apply_unary(&minus, &number(0.0)) {
        Ok(Value::Double(bits)) => assert_eq!(bits, (-0.0f64).to_bits()),
        other => panic!("{:?}", other),
    }
    match apply_unary(&minus, &number(-0.0)) {
        Ok(Value::Double(bits)) => assert_eq!(bits, 0.0f64.to_bits()),
        other => panic!("{:?}", other),
    }
}

#[test]
fn minus_takes_only_a_number() {
    let minus = operator(TokenType::Minus, "-");
    for operand in [text("a"), Value::Bool(true), Value::Nil] {
        assert_eq!(
            apply_unary(&minus, &operand),
            Err(EvaluationError::InvalidUnaryOperand(
                minus.clone(),
                "Operand must be a number".to_string()
            ))
        );
    }
}

#[test]
fn a_token_that_is_no_unary_operator_is_refused() {
    let plus = operator(TokenType::Plus, "+");
    assert_eq!(
        apply_unary(&plus, &number(1.0)),
        Err(EvaluationError::InvalidUnaryOperand(
            plus.clone(),
            "Unrecognised unary operation".to_string()
        ))
    );
}

#[test]
fn plus_joins_two_strings() {
    assert_eq!(
        run("print \"ab\" + \"cd\"; print \"\" + \"\";"),
        printed(vec![text("abcd"), text("")])
    );
}

#[test]
fn plus_takes_two_numbers_or_two_strings() {
    let plus = operator(TokenType::Plus, "+");
    let pairs = [
        (number(1.0), text("a")),
        (text("a"), number(1.0)),
        (Value::Nil, Value::Nil),
        (Value::Bool(true), number(1.0)),
    ];
    for (left, right) in pairs {
        assert_eq!(
            apply_binary(&left, &plus, &right, &compute),
            Err(binary_error(
                TokenType::Plus,
                "+",
                "Operands must be two numbers or two strings"
            ))
        );
    }
}

#[test]
fn the_other_arithmetic_operators_take_numbers() {
    let operators = [
        (TokenType::Minus, "-"),
        (TokenType::Star, "*"),
        (TokenType::Slash, "/"),
    ];
    for (kind, lexeme) in operators {
        let token = operator(kind, lexeme);
        assert_eq!(
            apply_binary(&text("a"), &token, &text("b"), &compute),
            Err(binary_error(kind, lexeme, "Operands must be numbers"))
        );
        assert_eq!(
            apply_binary(&number(1.0), &token, &Value::Nil, &compute),
            Err(binary_error(kind, lexeme, "Operands must be numbers"))
        );
    }
}

#[test]
fn ordering_compares_numbers() {
    assert_eq!(
        run("print 1 < 2; print 2 < 1; print 1 < 1; print 1 <= 1; print 2 <= 1;"),
        printed(vec![
            Value::Bool(true),
            Value::Bool(false),
            Value::Bool(false),
            Value::Bool(true),
            Value::Bool(false),
        ])
    );
    assert_eq!(
        run("print 1 > 2; print 2 > 1; print 1 > 1; print 1 >= 1; print 1 >= 2;"),
        printed(vec![
            Value::Bool(false),
            Value::Bool(true),
            Value::Bool(false),
            Value::Bool(true),
            Value::Bool(false),
        ])
    );
    assert_eq!(
        run("print -1 < 0.5; print -2 < -1; print -1 < -2; print 0 <= -0;"),
        printed(vec![
            Value::Bool(true),
            Value::Bool(true),
            Value::Bool(false),
            Value::Bool(true),
        ])
    );
}

#[test]
fn ordering_takes_only_numbers() {
    let operators = [
        (TokenType::Greater, ">"),
        (TokenType::GreaterEqual, ">="),
        (TokenType::Less, "<"),
        (TokenType::LessEqual, "<="),
    ];
    for (kind, lexeme) in operators {
        let token = operator(kind, lexeme);
        assert_eq!(
            apply_binary(&text("a"), &token, &text("b"), &compute),
            Err(binary_error(kind, lexeme, "Operands must be numbers"))
        );
        assert_eq!(
            apply_binary(&number(1.0), &token, &Value::Bool(true), &compute),
            Err(binary_error(kind, lexeme, "Operands must be numbers"))
        );
    }
}

#[test]
fn equality_takes_any_two_values() {
    assert_eq!(
        run("print 1 == 1; print 1 == 2; print \"a\" == \"a\"; print \"a\" == \"b\"; \
             print nil == nil; print true == true; print true == false;"),
        printed(vec![
            Value::Bool(true),
            Value::Bool(false),
            Value::Bool(true),
            Value::Bool(false),
            Value::Bool(true),
            Value::Bool(true),
            Value::Bool(false),
        ])
    );
    assert_eq!(
        run("print 1 == \"1\"; print nil == false; print 0 == false; print \"\" == nil; \
             print 1 != \"1\"; print 1 != 1; print nil != nil;"),
        printed(vec![
            Value::Bool(false),
            Value::Bool(false),
            Value::Bool(false),
            Value::Bool(false),
            Value::Bool(true),
            Value::Bool(false),
            Value::Bool(false),
        ])
    );
}

#[test]
fn a_number_that_is_no_number_equals_nothing() {
    assert_eq!(
        run("var n = 0 / 0; print n == n; print n != n; print n < 1; print n >= 1;"),
        printed(vec![
            Value::Bool(false),
            Value::Bool(true),
            Value::Bool(false),
            Value::Bool(false),
        ])
    );
}

#[test]
fn a_token_that_is_no_binary_operator_is_refused() {
    let bang = operator(TokenType::Bang, "!");
    assert_eq!(
        apply_binary(&number(1.0), &bang, &number(2.0), &compute),
        Err(binary_error(TokenType::Bang, "!", "Unrecognised binary operation"))
    );
}

#[test]
fn a_variable_without_a_value_reads_as_nil() {
    assert_eq!(run("var a; print a;"), printed(vec![Value::Nil]));
}

#[test]
fn a_variable_can_be_declared_again() {
    assert_eq!(
        run("var a = 1; var a = 2; print a; var a; print a;"),
        printed(vec![number(2.0), Value::Nil])
    );
}

#[test]
fn reading_an_unknown_variable_is_an_error() {
    assert_eq!(run("print a;"), vec![Output::Failed(undefined("a"))]);
    assert_eq!(
        run("\n\nprint 1 + abc;"),
        vec![Output::Failed(EvaluationError::VariableDoesNotExist(variable("abc", 2)))]
    );
}

#[test]
fn assigning_an_unknown_variable_is_an_error_and_declares_nothing() {
    assert_eq!(
        run("a = 1; print a;"),
        vec![
            Output::Failed(EvaluationError::InvalidAssignment(variable("a", 0))),
            Output::Failed(undefined("a")),
        ]
    );
}

#[test]
fn an_assignment_gives_its_value() {
    assert_eq!(
        run("var a; var b; print a = b = 3; print a; print b;"),
        printed(vec![number(3.0), number(3.0), number(3.0)])
    );
}

#[test]
fn a_variable_of_a_block_is_gone_after_it() {
    assert_eq!(
        run("{ var a = 1; print a; } print a;"),
        vec![
            Output::Printed(number(1.0)),
            Output::Failed(undefined("a")),
        ]
    );
}

#[test]
fn an_expression_statement_prints_nothing() {
    assert_eq!(run("1 + 2; \"a\"; nil;"), vec![]);
}

#[test]
fn an_empty_program_gives_nothing() {
    assert_eq!(run(""), vec![]);
}

#[test]
fn each_run_begins_without_variables() {
    let mut interpreter = Interpreter::new();
    assert_eq!(interpreter.interpret(&program("var a = 1;"), &compute), vec![]);
    assert_eq!(
        interpreter.interpret(&program("print a;"), &compute),
        vec![Output::Failed(undefined("a"))]
    );
}

#[test]
fn a_statement_runs_in_the_environment_it_is_given() {
    let mut interpreter = Interpreter::new();
    let mut environment = Environment::new();
    let mut output = Vec::new();
    for statement in program("var a = 2; { a = a * 3; } print a;") {
        let result =
            interpreter.execute_statement(&statement, &mut environment, &mut output, &compute);
        assert_eq!(result, Ok(()));
    }
    assert_eq!(output, printed(vec![number(6.0)]));
    let name = Token::new(TokenType::Identifier, "a".to_string(), None, 0);
    assert_eq!(environment.get(&name).ok(), Some(Some(number(6.0))));
}

#[test]
fn an_expression_is_evaluated_in_the_environment_it_is_given() {
    let mut interpreter = Interpreter::new();
    let mut environment = Environment::new();
    environment.define("a".to_string(), Some(number(4.0)));
    let name = Token::new(TokenType::Identifier, "a".to_string(), None, 0);
    let expr = Expr::Binary(
        Box::new(Expr::Variable(name)),
        operator(TokenType::Star, "*"),
        Box::new(Expr::Literal(number(2.5))),
    );
    assert_eq!(
        interpreter.evaluate_expression(&expr, &mut environment, &compute),
        Ok(number(10.0))
    );
}

#[test]
fn a_copy_of_an_error_is_the_same_error() {
    let errors = vec![
        binary_error(TokenType::Plus, "+", "Operands must be numbers"),
        EvaluationError::InvalidUnaryOperand(operator(TokenType::Minus, "-"), "m".to_string()),
        undefined("a"),
        EvaluationError::InvalidAssignment(variable("b", 3)),
    ];
    for error in errors {
        assert_eq!(error.clone(), error);
    }
}

#[test]
fn a_runtime_error_names_its_token() {
    assert_eq!(
        runtime_error(&EvaluationError::VariableDoesNotExist(variable("abc", 4))),
        "[line 4] Error at 'abc': Undefined variable"
    );
    assert_eq!(
        runtime_error(&EvaluationError::InvalidAssignment(variable("x", 0))),
        "[line 0] Error at 'x': Assignment to an undeclared variable"
    );
    assert_eq!(
        runtime_error(&binary_error(TokenType::Star, "*", "Operands must be numbers")),
        "[line 0] Error at '*': Operands must be numbers"
    );
    assert_eq!(
        runtime_error(&EvaluationError::InvalidUnaryOperand(
            Token::new(TokenType::Minus, "-".to_string(), None, 12),
            "Operand must be a number".to_string()
        )),
        "[line 12] Error at '-': Operand must be a number"
    );
}
