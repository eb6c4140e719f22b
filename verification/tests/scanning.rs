use rox::error::{error, report};
use rox::scanner::{line_error, Scanner, Token, TokenType};
use rox::value::Value;

fn read_number(text: String) -> u64 {
    text.parse::<f64>().unwrap().to_bits()
}

fn scan(source: &str) -> (Vec<Token>, Vec<String>) {
    let mut scanner = Scanner::new(source.to_string());
    let tokens = scanner.scan_tokens(&read_number);
    let diagnostics = scanner.diagnostics().clone();
    (tokens, diagnostics)
}

fn kinds(tokens: &Vec<Token>) -> Vec<TokenType> {
    tokens.iter().map(|token| token.type_).collect()
}

fn lexemes(tokens: &Vec<Token>) -> Vec<String> {
    tokens.iter().map(|token| token.lexeme.clone()).collect()
}

fn double(number: f64) -> Option<Value> {
    Some(Value::Double(number.to_bits()))
}

#[test]
fn scans_an_arithmetic_expression() {
    let (tokens, diagnostics) = scan("1 + 2 * (3 - 4)");
    assert_eq!(
        kinds(&tokens),
        vec![
            TokenType::Number,
            TokenType::Plus,
            TokenType::Number,
            TokenType::Star,
            TokenType::LeftParen,
            TokenType::Number,
            TokenType::Minus,
            TokenType::Number,
            TokenType::RightParen,
            TokenType::Eof,
        ]
    );
    assert_eq!(
        lexemes(&tokens),
        vec!["1", "+", "2", "*", "(", "3", "-", "4", ")", ""]
    );
    assert_eq!(tokens[0].literal, double(1.0));
    assert_eq!(tokens[2].literal, double(2.0));
    assert_eq!(tokens[5].literal, double(3.0));
    assert_eq!(tokens[7].literal, double(4.0));
    assert_eq!(tokens[1].literal, None);
    assert_eq!(tokens[9].literal, None);
    assert!(diagnostics.is_empty());
}

#[test]
fn empty_source_gives_only_the_end() {
    let (tokens, diagnostics) = scan("");
    assert_eq!(kinds(&tokens), vec![TokenType::Eof]);
    assert_eq!(tokens[0].lexeme, "");
    assert_eq!(tokens[0].line, 0);
    assert!(diagnostics.is_empty());
}

#[test]
fn every_punctuation_mark_is_a_token() {
    let (tokens, _) = scan("(){},.-+;*/");
    assert_eq!(
        kinds(&tokens),
        vec![
            TokenType::LeftParen,
            TokenType::RightParen,
            TokenType::LeftBrace,
            TokenType::RightBrace,
            TokenType::Comma,
            TokenType::Dot,
            TokenType::Minus,
            TokenType::Plus,
            TokenType::Semicolon,
            TokenType::Star,
            TokenType::Slash,
            TokenType::Eof,
        ]
    );
}

#[test]
fn operators_take_a_following_equal_sign() {
    let (tokens, _) = scan("! != = == < <= > >=");
    assert_eq!(
        kinds(&tokens),
        vec![
            TokenType::Bang,
            TokenType::BangEqual,
            TokenType::Equal,
            TokenType::EqualEqual,
            TokenType::Less,
            TokenType::LessEqual,
            TokenType::Greater,
            TokenType::GreaterEqual,
            TokenType::Eof,
        ]
    );
    assert_eq!(
        lexemes(&tokens),
        vec!["!", "!=", "=", "==", "<", "<=", ">", ">=", ""]
    );
}

#[test]
fn three_equal_signs_are_a_pair_and_one() {
    let (tokens, _) = scan("===");
    assert_eq!(
        kinds(&tokens),
        vec![TokenType::EqualEqual, TokenType::Equal, TokenType::Eof]
    );
}

#[test]
fn a_comment_runs_to_the_end_of_its_line() {
    let (tokens, diagnostics) = scan("1 // two three\n4 // five");
    assert_eq!(
        kinds(&tokens),
        vec![TokenType::Number, TokenType::Number, TokenType::Eof]
    );
    assert_eq!(tokens[0].line, 0);
    assert_eq!(tokens[1].line, 1);
    assert_eq!(tokens[2].line, 1);
    assert!(diagnostics.is_empty());
}

#[test]
fn white_space_makes_no_token() {
    let (tokens, diagnostics) = scan(" \t\r\n \n");
    assert_eq!(kinds(&tokens), vec![TokenType::Eof]);
    assert_eq!(tokens[0].line, 2);
    assert!(diagnostics.is_empty());
}

#[test]
fn a_string_holds_the_text_between_its_quotes() {
    let (tokens, diagnostics) = scan("\"abc\"");
    assert_eq!(kinds(&tokens), vec![TokenType::String, TokenType::Eof]);
    assert_eq!(tokens[0].lexeme, "\"abc\"");
    assert_eq!(tokens[0].literal, Some(Value::String("abc".to_string())));
    assert!(diagnostics.is_empty());
}

#[test]
fn an_empty_string_is_a_token() {
    let (tokens, _) = scan("\"\"");
    assert_eq!(kinds(&tokens), vec![TokenType::String, TokenType::Eof]);
    assert_eq!(tokens[0].literal, Some(Value::String(String::new())));
}

#[test]
fn a_string_keeps_backslashes_as_they_are() {
    let (tokens, _) = scan("\"a\\nb\"");
    assert_eq!(tokens[0].literal, Some(Value::String("a\\nb".to_string())));
}

#[test]
fn a_string_over_two_lines_ends_on_the_second() {
    let (tokens, _) = scan("\"a\nb\" x");
    assert_eq!(
        kinds(&tokens),
        vec![TokenType::String, TokenType::Identifier, TokenType::Eof]
    );
    assert_eq!(tokens[0].literal, Some(Value::String("a\nb".to_string())));
    assert_eq!(tokens[0].line, 1);
    assert_eq!(tokens[1].line, 1);
}

#[test]
fn an_unterminated_string_is_reported_and_makes_no_token() {
    let (tokens, diagnostics) = scan("\"abc");
    assert_eq!(kinds(&tokens), vec![TokenType::Eof]);
    assert_eq!(diagnostics, vec!["[line 0] Error: Unterminated string."]);
}

#[test]
fn an_unterminated_string_is_reported_on_its_last_line() {
    let (tokens, diagnostics) = scan("1\n\"abc\ndef");
    assert_eq!(kinds(&tokens), vec![TokenType::Number, TokenType::Eof]);
    assert_eq!(tokens[1].line, 2);
    assert_eq!(diagnostics, vec!["[line 2] Error: Unterminated string."]);
}

#[test]
fn an_unexpected_character_is_reported_and_scanning_goes_on() {
    let (tokens, diagnostics) = scan("1 @ 2\n#");
    assert_eq!(
        kinds(&tokens),
        vec![TokenType::Number, TokenType::Number, TokenType::Eof]
    );
    assert_eq!(
        diagnostics,
        vec![
            "[line 0] Error: Unexpected character",
            "[line 1] Error: Unexpected character",
        ]
    );
}

#[test]
fn a_character_outside_ascii_is_one_unexpected_character() {
    let (tokens, diagnostics) = scan("é1");
    assert_eq!(kinds(&tokens), vec![TokenType::Number, TokenType::Eof]);
    assert_eq!(diagnostics.len(), 1);
}

#[test]
fn a_number_may_have_a_fraction() {
    let (tokens, _) = scan("12.5 0.25 007");
    assert_eq!(lexemes(&tokens), vec!["12.5", "0.25", "007", ""]);
    assert_eq!(tokens[0].literal, double(12.5));
    assert_eq!(tokens[1].literal, double(0.25));
    assert_eq!(tokens[2].literal, double(7.0));
}

#[test]
fn a_point_without_digits_is_not_part_of_a_number() {
    let (tokens, _) = scan("12. .5 1.x");
    assert_eq!(
        kinds(&tokens),
        vec![
            TokenType::Number,
            TokenType::Dot,
            TokenType::Dot,
            TokenType::Number,
            TokenType::Number,
            TokenType::Dot,
            TokenType::Identifier,
            TokenType::Eof,
        ]
    );
    assert_eq!(lexemes(&tokens), vec!["12", ".", ".", "5", "1", ".", "x", ""]);
}

#[test]
fn a_number_ends_at_its_second_point() {
    let (tokens, _) = scan("1.2.3");
    assert_eq!(lexemes(&tokens), vec!["1.2", ".", "3", ""]);
}

#[test]
fn the_number_reader_gets_the_numeral() {
    let mut scanner = Scanner::new("42 7.5".to_string());
    let tokens = scanner.scan_tokens(&|text: String| text.len() as u64);
    assert_eq!(tokens[0].literal, Some(Value::Double(2)));
    assert_eq!(tokens[1].literal, Some(Value::Double(3)));
}

#[test]
fn every_reserved_word_has_its_kind() {
    let (tokens, _) = scan(
        "and class else false for fun if nil or print return super this true var while",
    );
    assert_eq!(
        kinds(&tokens),
        vec![
            TokenType::And,
            TokenType::Class,
            TokenType::Else,
            TokenType::False,
            TokenType::For,
            TokenType::Fun,
            TokenType::If,
            TokenType::Nil,
            TokenType::Or,
            TokenType::Print,
            TokenType::Return,
            TokenType::Super,
            TokenType::This,
            TokenType::True,
            TokenType::Var,
            TokenType::While,
            TokenType::Eof,
        ]
    );
    assert!(tokens.iter().all(|token| token.literal.is_none()));
}

#[test]
fn a_word_is_read_to_its_end() {
    let (tokens, _) = scan("variable _x1 printer For nil_ a1b2");
    assert_eq!(
        kinds(&tokens),
        vec![
            TokenType::Identifier,
            TokenType::Identifier,
            TokenType::Identifier,
            TokenType::Identifier,
            TokenType::Identifier,
            TokenType::Identifier,
            TokenType::Eof,
        ]
    );
    assert_eq!(
        lexemes(&tokens),
        vec!["variable", "_x1", "printer", "For", "nil_", "a1b2", ""]
    );
}

#[test]
fn digits_before_letters_are_a_number_and_a_word() {
    let (tokens, _) = scan("1abc");
    assert_eq!(
        kinds(&tokens),
        vec![TokenType::Number, TokenType::Identifier, TokenType::Eof]
    );
}

#[test]
fn lines_never_go_back_and_the_end_comes_once() {
    let (tokens, _) = scan("var a = 1;\n\nprint a; // done\n\"x\ny\" @\n}");
    for pair in tokens.windows(2) {
        assert!(pair[0].line <= pair[1].line);
    }
    let ends = tokens
        .iter()
        .filter(|token| token.type_ == TokenType::Eof)
        .count();
    assert_eq!(ends, 1);
    assert_eq!(tokens.last().unwrap().type_, TokenType::Eof);
    assert_eq!(tokens.last().unwrap().line, 5);
}

#[test]
fn scanning_again_adds_another_end() {
    let mut scanner = Scanner::new("1".to_string());
    let first = scanner.scan_tokens(&read_number);
    let second = scanner.scan_tokens(&read_number);
    assert_eq!(kinds(&first), vec![TokenType::Number, TokenType::Eof]);
    assert_eq!(
        kinds(&second),
        vec![TokenType::Number, TokenType::Eof, TokenType::Eof]
    );
}

#[test]
fn one_step_reads_one_lexeme() {
    let mut scanner = Scanner::new("<= 12".to_string());
    scanner.scan_token(&read_number);
    scanner.scan_token(&read_number);
    scanner.scan_token(&read_number);
    let tokens = scanner.scan_tokens(&read_number);
    assert_eq!(
        kinds(&tokens),
        vec![TokenType::LessEqual, TokenType::Number, TokenType::Eof]
    );
}

#[test]
fn a_token_is_made_of_its_parts() {
    let token = Token::new(TokenType::Identifier, "a".to_string(), None, 3);
    assert_eq!(token.type_, TokenType::Identifier);
    assert_eq!(token.lexeme, "a");
    assert_eq!(token.literal, None);
    assert_eq!(token.line, 3);
    assert_eq!(token.clone(), token);
}

#[test]
fn punctuation_and_operators_have_symbols() {
    assert_eq!(TokenType::LeftParen.to_string(), "(");
    assert_eq!(TokenType::RightParen.to_string(), ")");
    assert_eq!(TokenType::LeftBrace.to_string(), "{");
    assert_eq!(TokenType::RightBrace.to_string(), "}");
    assert_eq!(TokenType::Comma.to_string(), ",");
    assert_eq!(TokenType::Dot.to_string(), ".");
    assert_eq!(TokenType::Minus.to_string(), "-");
    assert_eq!(TokenType::Plus.to_string(), "+");
    assert_eq!(TokenType::Semicolon.to_string(), ";");
    assert_eq!(TokenType::Slash.to_string(), "/");
    assert_eq!(TokenType::Star.to_string(), "*");
    assert_eq!(TokenType::Bang.to_string(), "!");
    assert_eq!(TokenType::BangEqual.to_string(), "!=");
    assert_eq!(TokenType::Equal.to_string(), "=");
    assert_eq!(TokenType::EqualEqual.to_string(), "==");
    assert_eq!(TokenType::Greater.to_string(), ">");
    assert_eq!(TokenType::GreaterEqual.to_string(), ">=");
    assert_eq!(TokenType::Less.to_string(), "<");
    assert_eq!(TokenType::LessEqual.to_string(), "<=");
}

#[test]
fn other_kinds_have_no_symbol() {
    assert_eq!(TokenType::Identifier.to_string(), "");
    assert_eq!(TokenType::Number.to_string(), "");
    assert_eq!(TokenType::Print.to_string(), "");
    assert_eq!(TokenType::Eof.to_string(), "");
}

#[test]
fn a_diagnostic_names_its_line() {
    assert_eq!(error(0, "m".to_string()), "[line 0] Error: m");
    assert_eq!(error(7, "m".to_string()), "[line 7] Error: m");
    assert_eq!(
        error(1234567890, "Unexpected character".to_string()),
        "[line 1234567890] Error: Unexpected character"
    );
    assert_eq!(line_error(10, "bad"), "[line 10] Error: bad");
    assert_eq!(report(305, " at end", "late"), "[line 305] Error at end: late");
}
