use rox::parser::{token_error, Expr, Parser, ParserError, Stmt};
use rox::scanner::{Scanner, Token, TokenType};
use rox::value::Value;

fn numeral(text: String) -> u64 {
    text.parse::<f64>().unwrap().to_bits()
}

fn render(bits: u64) -> String {
    f64::from_bits(bits).to_string()
}

fn tokens_of(source: &str) -> Vec<Token> {
    Scanner::new(source.to_string()).scan_tokens(&numeral)
}

fn parse(source: &str) -> (Result<Vec<Stmt>, ParserError>, Vec<String>) {
    let mut parser = Parser::new(tokens_of(source));
    let result = parser.parse();
    let diagnostics = parser.diagnostics().clone();
    (result, diagnostics)
}

fn statements(source: &str) -> Vec<Stmt> {
    let (result, diagnostics) = parse(source);
    assert!(diagnostics.is_empty(), "{:?}", diagnostics);
    result.unwrap()
}

fn expression_text(source: &str) -> String {
    let mut parsed = statements(&format!("{};", source));
    assert_eq!(parsed.len(), 1);
    match parsed.remove(0) {
        Stmt::Expression(expr) => expr.to_string(&render),
        other => panic!("not an expression statement: {:?}", other),
    }
}

fn text_of(statement: &Stmt) -> String {
    match statement {
        Stmt::Expression(expr) => format!("expr {}", expr.to_string(&render)),
        Stmt::Print(expr) => format!("print {}", expr.to_string(&render)),
        Stmt::Var(name, Some(expr)) => format!("var {} = {}", name.lexeme, expr.to_string(&render)),
        Stmt::Var(name, None) => format!("var {}", name.lexeme),
        Stmt::Block(inner) => {
            let parts: Vec<String> = inner.iter().map(text_of).collect();
            format!("{{ {} }}", parts.join("; "))
        }
    }
}

fn program_text(source: &str) -> Vec<String> {
    statements(source).iter().map(text_of).collect()
}

#[test]
fn multiplication_binds_tighter_than_addition() {
    assert_eq!(expression_text("1 + 2 * 3"), "(+ 1 (* 2 3))");
    assert_eq!(expression_text("1 * 2 + 3"), "(+ (* 1 2) 3)");
}

#[test]
fn parentheses_group_first() {
    assert_eq!(expression_text("(1 + 2) * 3"), "(* (group (+ 1 2)) 3)");
}

#[test]
fn binary_operators_fold_to_the_left() {
    assert_eq!(expression_text("8 - 4 - 2"), "(- (- 8 4) 2)");
    assert_eq!(expression_text("8 / 4 / 2"), "(/ (/ 8 4) 2)");
    assert_eq!(expression_text("1 < 2 < 3"), "(< (< 1 2) 3)");
    assert_eq!(expression_text("1 == 2 != 3"), "(!= (== 1 2) 3)");
}

#[test]
fn each_level_binds_tighter_than_the_one_before() {
    assert_eq!(
        expression_text("a = 1 == 2 < 3 + 4 * -5"),
        "a = (== 1 (< 2 (+ 3 (* 4 (- 5)))))"
    );
    assert_eq!(expression_text("1 >= 2 == 3 <= 4"), "(== (>= 1 2) (<= 3 4))");
    assert_eq!(expression_text("1 > 2"), "(> 1 2)");
}

#[test]
fn unary_operators_nest_to_the_right() {
    assert_eq!(expression_text("!!true"), "(! (! true))");
    assert_eq!(expression_text("-!-1"), "(- (! (- 1)))");
    assert_eq!(expression_text("1 - -2"), "(- 1 (- 2))");
}

#[test]
fn assignment_folds_to_the_right() {
    assert_eq!(expression_text("a = b = 3"), "a = b = 3");
}

#[test]
fn literals_print_as_in_source() {
    assert_eq!(expression_text("true"), "true");
    assert_eq!(expression_text("false"), "false");
    assert_eq!(expression_text("nil"), "nil");
    assert_eq!(expression_text("\"hi\""), "\"hi\"");
    assert_eq!(expression_text("12.5"), "12.5");
    assert_eq!(expression_text("name"), "name");
}

#[test]
fn a_literal_carries_the_value_of_its_token() {
    let mut parsed = statements("\"text\"; 2.5;");
    match parsed.remove(0) {
        Stmt::Expression(Expr::Literal(value)) => {
            assert_eq!(value, Value::String("text".to_string()))
        }
        other => panic!("{:?}", other),
    }
    match parsed.remove(0) {
        Stmt::Expression(Expr::Literal(value)) => {
            assert_eq!(value, Value::Double(2.5f64.to_bits()))
        }
        other => panic!("{:?}", other),
    }
}

#[test]
fn operator_nodes_keep_their_tokens() {
    let mut parsed = statements("1\n+ 2;");
    match parsed.remove(0) {
        Stmt::Expression(Expr::Binary(_, operator, _)) => {
            assert_eq!(operator.type_, TokenType::Plus);
            assert_eq!(operator.lexeme, "+");
            assert_eq!(operator.line, 1);
        }
        other => panic!("{:?}", other),
    }
}

#[test]
fn statements_are_parsed_in_order() {
    assert_eq!(
        program_text("var a = 1; var b; print a + b; a = 2; { var c = a; print c; } {}"),
        vec![
            "var a = 1",
            "var b",
            "print (+ a b)",
            "expr a = 2",
            "{ var c = a; print c }",
            "{  }",
        ]
    );
}

#[test]
fn blocks_nest() {
    assert_eq!(program_text("{ { 1; } 2; }"), vec!["{ { expr 1 }; expr 2 }"]);
}

#[test]
fn an_empty_program_has_no_statements() {
    let (result, diagnostics) = parse("");
    assert!(result.unwrap().is_empty());
    assert!(diagnostics.is_empty());
}

#[test]
fn a_missing_semicolon_is_an_unexpected_token() {
    let (result, diagnostics) = parse("print 1");
    assert_eq!(result.unwrap_err(), ParserError::UnexpectedTokenError);
    assert_eq!(diagnostics, vec!["[line 0] Error at end: Expect ';' after value"]);
}

#[test]
fn a_missing_parenthesis_is_an_unexpected_token() {
    let (result, diagnostics) = parse("(1 + 2;");
    assert_eq!(result.unwrap_err(), ParserError::UnexpectedTokenError);
    assert_eq!(
        diagnostics,
        vec!["[line 0] Error at ';': Expect ')' after expression"]
    );
}

#[test]
fn a_missing_brace_is_an_unexpected_token() {
    let (result, diagnostics) = parse("{ 1;");
    assert_eq!(result.unwrap_err(), ParserError::UnexpectedTokenError);
    assert_eq!(diagnostics, vec!["[line 0] Error at end: Expect '}' after block"]);
}

#[test]
fn a_declaration_needs_a_name() {
    let (result, diagnostics) = parse("var 1 = 2;");
    assert_eq!(result.unwrap_err(), ParserError::UnexpectedTokenError);
    assert_eq!(diagnostics, vec!["[line 0] Error at '1': Expect variable name"]);
}

#[test]
fn a_declaration_needs_a_semicolon() {
    let (result, diagnostics) = parse("var a = 2 print a;");
    assert_eq!(result.unwrap_err(), ParserError::UnexpectedTokenError);
    assert_eq!(
        diagnostics,
        vec!["[line 0] Error at 'print': Expect ';' after variable declaration"]
    );
}

#[test]
fn a_token_that_begins_no_expression_is_an_unmatched_primary() {
    let (result, diagnostics) = parse("1 + ;");
    assert_eq!(result.unwrap_err(), ParserError::UnmatchedPrimary);
    assert_eq!(diagnostics, vec!["[line 0] Error at ';': Expect expression"]);
}

#[test]
fn only_a_variable_can_be_assigned() {
    let (result, diagnostics) = parse("1 + 2 = 3;");
    assert_eq!(result.unwrap_err(), ParserError::InvalidAssignment);
    assert_eq!(
        diagnostics,
        vec!["[line 0] Error at '=': Invalid assignment target"]
    );
    let (result, _) = parse("(a) = 3;");
    assert_eq!(result.unwrap_err(), ParserError::InvalidAssignment);
}

#[test]
fn every_error_of_a_text_is_reported() {
    let (result, diagnostics) = parse("print 1 +;\nvar = 2;\nprint 3;\n(4;\n");
    assert_eq!(result.unwrap_err(), ParserError::UnmatchedPrimary);
    assert_eq!(
        diagnostics,
        vec![
            "[line 0] Error at ';': Expect expression",
            "[line 1] Error at '=': Expect variable name",
            "[line 3] Error at ';': Expect ')' after expression",
        ]
    );
}

#[test]
fn after_an_error_parsing_goes_on_at_the_next_statement() {
    let mut parser = Parser::new(tokens_of("1 2 3; print 4"));
    let result = parser.parse();
    assert_eq!(result.unwrap_err(), ParserError::UnexpectedTokenError);
    assert_eq!(
        parser.diagnostics().clone(),
        vec![
            "[line 0] Error at '2': Expect ';' after value",
            "[line 0] Error at end: Expect ';' after value",
        ]
    );
}

#[test]
fn an_error_in_a_block_ends_the_block() {
    let (result, diagnostics) = parse("{ 1 +; print 2; } print 3;");
    assert_eq!(result.unwrap_err(), ParserError::UnmatchedPrimary);
    assert_eq!(
        diagnostics,
        vec![
            "[line 0] Error at ';': Expect expression",
            "[line 0] Error at '}': Expect expression",
        ]
    );
}

#[test]
fn synchronizing_stops_after_a_semicolon_or_before_a_statement() {
    let (_, diagnostics) = parse("1 2 var a = 3; ) 4; 5 5");
    assert_eq!(
        diagnostics,
        vec![
            "[line 0] Error at '2': Expect ';' after value",
            "[line 0] Error at ')': Expect expression",
            "[line 0] Error at '5': Expect ';' after value",
        ]
    );
}

#[test]
fn a_fresh_parser_has_no_diagnostics() {
    let parser = Parser::new(tokens_of("1;"));
    assert!(parser.diagnostics().is_empty());
}

#[test]
fn a_token_error_names_the_token() {
    let token = Token::new(TokenType::Identifier, "abc".to_string(), None, 12);
    assert_eq!(
        token_error(&token, &"wrong".to_string()),
        "[line 12] Error at 'abc': wrong"
    );
    let end = Token::new(TokenType::Eof, String::new(), None, 3);
    assert_eq!(
        token_error(&end, &"wrong".to_string()),
        "[line 3] Error at end: wrong"
    );
}

#[test]
fn tokens_of_the_scanner_can_be_parsed() {
    for source in ["", "1", "var a = \"s\"; {", "@ \"open", "1.5 + x // end"] {
        assert!(Parser::new(tokens_of(source)).can_parse(), "{:?}", source);
    }
}

#[test]
fn tokens_that_do_not_end_the_text_cannot_be_parsed() {
    assert!(!Parser::new(Vec::new()).can_parse());
    let mut tokens = tokens_of("1;");
    tokens.pop();
    assert!(!Parser::new(tokens).can_parse());
}

#[test]
fn a_literal_token_without_its_value_cannot_be_parsed() {
    let number = Token::new(TokenType::Number, "1".to_string(), None, 0);
    let string = Token::new(TokenType::String, "\"a\"".to_string(), None, 0);
    let end = Token::new(TokenType::Eof, String::new(), None, 0);
    assert!(!Parser::new(vec![number, end.clone()]).can_parse());
    assert!(!Parser::new(vec![string, end.clone()]).can_parse());
    assert!(Parser::new(vec![end]).can_parse());
}

#[test]
fn parsing_stops_at_the_first_end_of_text() {
    let mut tokens = tokens_of("print 1;");
    tokens.extend(tokens_of("print 2;"));
    let mut parser = Parser::new(tokens);
    assert!(parser.can_parse());
    assert_eq!(parser.parse().unwrap().len(), 1);
}
