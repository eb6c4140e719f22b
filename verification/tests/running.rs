use rox::interpreter::{runtime_error, EvaluationError, Output};
use rox::scanner::{Token, TokenType};
use rox::parser::ParserError;
use rox::program::run;
use rox::semantics::Arithmetic;
use rox::value::Value;

fn parse_number(text: String) -> u64 {
    text.parse::<f64>().unwrap().to_bits()
}

fn calculate(operation: Arithmetic, left: u64, right: u64) -> u64 {
    let (a, b) = (f64::from_bits(left), f64::from_bits(right));
    let result = match operation {
        Arithmetic::Add => a + b,
        Arithmetic::Subtract => a - b,
        Arithmetic::Multiply => a * b,
        Arithmetic::Divide => a / b,
    };
    result.to_bits()
}

fn show(bits: u64) -> String {
    f64::from_bits(bits).to_string()
}

fn lines(source: &str) -> Vec<String> {
    let run = run(source.to_string(), &parse_number, &calculate);
    let mut lines = run.diagnostics.clone();
    for output in &run.output {
        match output {
            Output::Printed(value) => lines.push(value.to_runtime_string(&show)),
            Output::Failed(error) => lines.push(runtime_error(error)),
        }
    }
    lines
}

#[test]
fn a_program_prints_its_values() {
    assert_eq!(
        lines(
            "var a = 1.5;\nvar b = a * 4;\nprint b - 1;\nprint \"a\" + \"b\";\nprint a < b;\
             print nil;"
        ),
        vec!["5", "ab", "true", "nil"]
    );
}

#[test]
fn shadowing_prints_inner_then_outer() {
    assert_eq!(
        lines("var a = \"outer\";\n{ var a = \"inner\"; print a; }\nprint a;"),
        vec!["inner", "outer"]
    );
}

#[test]
fn assignment_in_a_block_prints_changed() {
    assert_eq!(
        lines("var a = \"global\";\n{ a = \"changed\"; }\nprint a;"),
        vec!["changed"]
    );
}

#[test]
fn a_text_with_a_syntax_error_is_not_interpreted() {
    let run = run("print 1;\nprint (2;\nprint 3;".to_string(), &parse_number, &calculate);
    assert_eq!(
        run.diagnostics,
        vec!["[line 1] Error at ';': Expect ')' after expression"]
    );
    assert_eq!(run.failure, Some(ParserError::UnexpectedTokenError));
    assert!(run.output.is_empty());
}

#[test]
fn a_text_with_a_lexical_error_is_still_interpreted() {
    let run = run("print 1; #\nprint 2;".to_string(), &parse_number, &calculate);
    assert_eq!(run.diagnostics, vec!["[line 0] Error: Unexpected character"]);
    assert_eq!(run.failure, None);
    assert_eq!(
        run.output,
        vec![
            Output::Printed(Value::Double(1.0f64.to_bits())),
            Output::Printed(Value::Double(2.0f64.to_bits())),
        ]
    );
}

#[test]
fn diagnostics_of_the_scanner_come_before_those_of_the_parser() {
    let run = run("print ;\n@".to_string(), &parse_number, &calculate);
    assert_eq!(
        run.diagnostics,
        vec![
            "[line 1] Error: Unexpected character",
            "[line 0] Error at ';': Expect expression",
        ]
    );
    assert_eq!(run.failure, Some(ParserError::UnmatchedPrimary));
}

#[test]
fn a_runtime_error_is_part_of_the_output() {
    let run = run("print 1; print x; print 2;".to_string(), &parse_number, &calculate);
    assert!(run.diagnostics.is_empty());
    assert_eq!(run.failure, None);
    assert_eq!(
        run.output,
        vec![
            Output::Printed(Value::Double(1.0f64.to_bits())),
            Output::Failed(EvaluationError::VariableDoesNotExist(Token::new(
                TokenType::Identifier,
                "x".to_string(),
                None,
                0
            ))),
            Output::Printed(Value::Double(2.0f64.to_bits())),
        ]
    );
}

#[test]
fn an_empty_text_gives_nothing() {
    let run = run(String::new(), &parse_number, &calculate);
    assert!(run.diagnostics.is_empty());
    assert_eq!(run.failure, None);
    assert!(run.output.is_empty());
}

#[test]
fn a_type_error_is_reported_and_the_next_statement_runs() {
    assert_eq!(
        lines("var x = 1 + \"s\";\nprint 5;"),
        vec![
            "[line 0] Error at '+': Operands must be two numbers or two strings",
            "5",
        ]
    );
}
