//! The lexical grammar: where each lexeme of a source text begins and ends,
//! which kind of token it is, and which problems the text holds.
use vstd::prelude::*;
use crate::error::diagnostic;
use crate::scanner::TokenType;

verus! {

pub open spec fn is_digit(c: char) -> bool {
    '0' <= c <= '9'
}

pub open spec fn is_alpha(c: char) -> bool {
    ('a' <= c <= 'z') || ('A' <= c <= 'Z') || c == '_'
}

pub open spec fn is_alpha_numeric(c: char) -> bool {
    is_alpha(c) || is_digit(c)
}

/// The runs of characters that the scanner takes in one sweep.
pub enum Run {
    /// Digits.
    Digits,
    /// Letters, digits and underscores.
    Word,
    /// Anything up to the end of the line.
    Comment,
    /// Anything up to the next double quote.
    Quoted,
}

/// Whether `c` belongs to a run.
pub open spec fn keeps(run: Run, c: char) -> bool {
    match run {
        Run::Digits => is_digit(c),
        Run::Word => is_alpha_numeric(c),
        Run::Comment => c != '\n',
        Run::Quoted => c != '"',
    }
}

/// The first position at or after `pos` whose character does not belong to
/// the run, or the length of the text when they all do.
pub open spec fn run_end(src: Seq<char>, pos: int, run: Run) -> int
    decreases src.len() - pos,
{
    if 0 <= pos < src.len() && keeps(run, src[pos]) {
        run_end(src, pos + 1, run)
    } else {
        pos
    }
}

/// How many line breaks stand in `src[from..to]`.
pub open spec fn newlines(src: Seq<char>, from: int, to: int) -> int
    decreases to - from,
{
    if from < to && 0 <= from && to <= src.len() {
        newlines(src, from, to - 1) + if src[to - 1] == '\n' {
            1int
        } else {
            0int
        }
    } else {
        0
    }
}

/// The reserved word that `text` spells, if it spells one.
pub open spec fn keyword(text: Seq<char>) -> Option<TokenType> {
    if text == "and"@ {
        Some(TokenType::And)
    } else if text == "class"@ {
        Some(TokenType::Class)
    } else if text == "else"@ {
        Some(TokenType::Else)
    } else if text == "false"@ {
        Some(TokenType::False)
    } else if text == "for"@ {
        Some(TokenType::For)
    } else if text == "fun"@ {
        Some(TokenType::Fun)
    } else if text == "if"@ {
        Some(TokenType::If)
    } else if text == "nil"@ {
        Some(TokenType::Nil)
    } else if text == "or"@ {
        Some(TokenType::Or)
    } else if text == "print"@ {
        Some(TokenType::Print)
    } else if text == "return"@ {
        Some(TokenType::Return)
    } else if text == "super"@ {
        Some(TokenType::Super)
    } else if text == "this"@ {
        Some(TokenType::This)
    } else if text == "true"@ {
        Some(TokenType::True)
    } else if text == "var"@ {
        Some(TokenType::Var)
    } else if text == "while"@ {
        Some(TokenType::While)
    } else {
        None
    }
}

/// The kind of token that the single character `c` makes, if it makes one
/// whatever follows it.
pub open spec fn punctuation(c: char) -> Option<TokenType> {
    if c == '(' {
        Some(TokenType::LeftParen)
    } else if c == ')' {
        Some(TokenType::RightParen)
    } else if c == '{' {
        Some(TokenType::LeftBrace)
    } else if c == '}' {
        Some(TokenType::RightBrace)
    } else if c == ',' {
        Some(TokenType::Comma)
    } else if c == '.' {
        Some(TokenType::Dot)
    } else if c == '-' {
        Some(TokenType::Minus)
    } else if c == '+' {
        Some(TokenType::Plus)
    } else if c == ';' {
        Some(TokenType::Semicolon)
    } else if c == '*' {
        Some(TokenType::Star)
    } else {
        None
    }
}

/// For a character that may pair with a following `=`: the kind of the
/// character alone.
pub open spec fn operator_alone(c: char) -> Option<TokenType> {
    if c == '!' {
        Some(TokenType::Bang)
    } else if c == '=' {
        Some(TokenType::Equal)
    } else if c == '<' {
        Some(TokenType::Less)
    } else if c == '>' {
        Some(TokenType::Greater)
    } else {
        None
    }
}

/// The kind of an operator followed by `=`.
pub open spec fn with_equal(kind: TokenType) -> TokenType {
    match kind {
        TokenType::Bang => TokenType::BangEqual,
        TokenType::Equal => TokenType::EqualEqual,
        TokenType::Less => TokenType::LessEqual,
        _ => TokenType::GreaterEqual,
    }
}

/// A problem in the text.
pub enum Problem {
    UnexpectedCharacter,
    UnterminatedString,
}

/// What the scanner does at one position: where it goes on, on which line,
/// and the token or the problem that it found there, if any.
pub struct Step {
    pub end: int,
    pub line: int,
    pub kind: Option<TokenType>,
    pub problem: Option<Problem>,
}

/// Whether `c` stands at `pos`.
pub open spec fn at(src: Seq<char>, pos: int, c: char) -> bool {
    0 <= pos < src.len() && src[pos] == c
}

/// Where the number that begins at `pos` ends: after its digits and, if a
/// point and a digit follow them, after the digits of the fraction.
pub open spec fn number_end(src: Seq<char>, pos: int) -> int {
    let whole = run_end(src, pos + 1, Run::Digits);
    if at(src, whole, '.') && whole + 1 < src.len() && is_digit(src[whole + 1]) {
        run_end(src, whole + 1, Run::Digits)
    } else {
        whole
    }
}

/// The step at `pos`, a position inside the text, on line `line`.
pub open spec fn scan_step(src: Seq<char>, pos: int, line: int) -> Step {
    let c = src[pos];
    if punctuation(c) is Some {
        Step { end: pos + 1, line, kind: punctuation(c), problem: None }
    } else if operator_alone(c) is Some {
        let alone = operator_alone(c).unwrap();
        if at(src, pos + 1, '=') {
            Step { end: pos + 2, line, kind: Some(with_equal(alone)), problem: None }
        } else {
            Step { end: pos + 1, line, kind: Some(alone), problem: None }
        }
    } else if c == '/' {
        if at(src, pos + 1, '/') {
            Step {
                end: run_end(src, pos + 2, Run::Comment),
                line,
                kind: None,
                problem: None,
            }
        } else {
            Step { end: pos + 1, line, kind: Some(TokenType::Slash), problem: None }
        }
    } else if c == '"' {
        let quote = run_end(src, pos + 1, Run::Quoted);
        let last_line = line + newlines(src, pos + 1, quote);
        if quote < src.len() {
            Step { end: quote + 1, line: last_line, kind: Some(TokenType::String), problem: None }
        } else {
            Step {
                end: quote,
                line: last_line,
                kind: None,
                problem: Some(Problem::UnterminatedString),
            }
        }
    } else if c == ' ' || c == '\r' || c == '\t' {
        Step { end: pos + 1, line, kind: None, problem: None }
    } else if c == '\n' {
        Step { end: pos + 1, line: line + 1, kind: None, problem: None }
    } else if is_digit(c) {
        Step { end: number_end(src, pos), line, kind: Some(TokenType::Number), problem: None }
    } else if is_alpha(c) {
        let end = run_end(src, pos + 1, Run::Word);
        let kind = match keyword(src.subrange(pos, end)) {
            Some(k) => k,
            None => TokenType::Identifier,
        };
        Step { end, line, kind: Some(kind), problem: None }
    } else {
        Step { end: pos + 1, line, kind: None, problem: Some(Problem::UnexpectedCharacter) }
    }
}

/// One lexeme: the kind of its token, the span `start..end` of the text that
/// it covers, and the line on which it ends.
pub struct Lexeme {
    pub kind: TokenType,
    pub start: int,
    pub end: int,
    pub line: int,
}

/// A run ends at or after the position where it begins, and inside the text.
pub proof fn run_end_bounds(src: Seq<char>, pos: int, run: Run)
    requires
        0 <= pos <= src.len(),
    ensures
        pos <= run_end(src, pos, run) <= src.len(),
        forall|i: int| pos <= i < run_end(src, pos, run) ==> keeps(run, #[trigger] src[i]),
        run_end(src, pos, run) < src.len() ==> !keeps(run, src[run_end(src, pos, run)]),
    decreases src.len() - pos,
{
    if pos < src.len() && keeps(run, src[pos]) {
        run_end_bounds(src, pos + 1, run);
    }
}

/// A span holds no more line breaks than characters.
pub proof fn newlines_bounds(src: Seq<char>, from: int, to: int)
    requires
        0 <= from <= to <= src.len(),
    ensures
        0 <= newlines(src, from, to) <= to - from,
    decreases to - from,
{
    if from < to {
        newlines_bounds(src, from, to - 1);
    }
}

/// Every step moves on by at least one character, stays inside the text,
/// never goes back a line, and crosses no more lines than characters.
pub proof fn step_advances(src: Seq<char>, pos: int, line: int)
    requires
        0 <= pos < src.len(),
    ensures
        pos < scan_step(src, pos, line).end <= src.len(),
        line <= scan_step(src, pos, line).line,
        scan_step(src, pos, line).line - line <= scan_step(src, pos, line).end - pos,
        scan_step(src, pos, line).kind != Some(TokenType::Eof),
{
    run_end_bounds(src, pos + 1, Run::Digits);
    let whole = run_end(src, pos + 1, Run::Digits);
    if whole + 1 <= src.len() {
        run_end_bounds(src, whole + 1, Run::Digits);
    }
    if pos + 2 <= src.len() {
        run_end_bounds(src, pos + 2, Run::Comment);
    }
    let quote = run_end(src, pos + 1, Run::Quoted);
    run_end_bounds(src, pos + 1, Run::Quoted);
    newlines_bounds(src, pos + 1, quote);
    run_end_bounds(src, pos + 1, Run::Word);
}

/// The lexemes of `src` from `pos` on, where the line is `line`: one for each
/// token, and a last one, empty, for the end of the text.
pub open spec fn lexemes_from(src: Seq<char>, pos: int, line: int) -> Seq<Lexeme>
    decreases src.len() - pos,
{
    if 0 <= pos < src.len() {
        let step = scan_step(src, pos, line);
        proof {
            step_advances(src, pos, line);
        }
        let rest = lexemes_from(src, step.end, step.line);
        match step.kind {
            Some(kind) => seq![Lexeme { kind, start: pos, end: step.end, line: step.line }] + rest,
            None => rest,
        }
    } else {
        seq![Lexeme { kind: TokenType::Eof, start: pos, end: pos, line }]
    }
}

/// The message for a problem.
pub open spec fn problem_message(problem: Problem) -> Seq<char> {
    match problem {
        Problem::UnexpectedCharacter => "Unexpected character"@,
        Problem::UnterminatedString => "Unterminated string."@,
    }
}

/// The diagnostics for `src` from `pos` on, in the order of the text.
pub open spec fn problems_from(src: Seq<char>, pos: int, line: int) -> Seq<Seq<char>>
    decreases src.len() - pos,
{
    if 0 <= pos < src.len() {
        let step = scan_step(src, pos, line);
        proof {
            step_advances(src, pos, line);
        }
        let rest = problems_from(src, step.end, step.line);
        match step.problem {
            Some(problem) => seq![
                diagnostic(step.line as nat, Seq::empty(), problem_message(problem)),
            ] + rest,
            None => rest,
        }
    } else {
        Seq::empty()
    }
}

/// The lexemes of a whole text.
pub open spec fn lexemes(src: Seq<char>) -> Seq<Lexeme> {
    lexemes_from(src, 0, 0)
}

/// The diagnostics for a whole text.
pub open spec fn problems(src: Seq<char>) -> Seq<Seq<char>> {
    problems_from(src, 0, 0)
}

/// The lexemes of a text end with the lexeme for the end of the text, and
/// hold no other of that kind.
pub proof fn lexemes_end_once(src: Seq<char>, pos: int, line: int)
    requires
        0 <= pos <= src.len(),
    ensures
        lexemes_from(src, pos, line).len() >= 1,
        lexemes_from(src, pos, line).last().kind == TokenType::Eof,
        forall|i: int|
            0 <= i < lexemes_from(src, pos, line).len() - 1 ==> (#[trigger] lexemes_from(
                src,
                pos,
                line,
            )[i]).kind != TokenType::Eof,
    decreases src.len() - pos,
{
    if pos < src.len() {
        let step = scan_step(src, pos, line);
        step_advances(src, pos, line);
        lexemes_end_once(src, step.end, step.line);
    }
}

/// From one lexeme to the next the line never goes back, and no lexeme lies
/// on a line before the one where the scan began.
pub proof fn lexeme_lines_ordered(src: Seq<char>, pos: int, line: int)
    requires
        0 <= pos <= src.len(),
    ensures
        forall|i: int|
            0 <= i < lexemes_from(src, pos, line).len() ==> line <= (#[trigger] lexemes_from(
                src,
                pos,
                line,
            )[i]).line,
        forall|i: int, j: int|
            0 <= i <= j < lexemes_from(src, pos, line).len() ==> (#[trigger] lexemes_from(
                src,
                pos,
                line,
            )[i]).line <= (#[trigger] lexemes_from(src, pos, line)[j]).line,
    decreases src.len() - pos,
{
    if pos < src.len() {
        let step = scan_step(src, pos, line);
        step_advances(src, pos, line);
        lexeme_lines_ordered(src, step.end, step.line);
    }
}

/// Lexemes follow one another in the text: each covers a span inside it that
/// begins no earlier than the one before it ends.
pub proof fn lexeme_spans_ordered(src: Seq<char>, pos: int, line: int)
    requires
        0 <= pos <= src.len(),
    ensures
        forall|i: int|
            0 <= i < lexemes_from(src, pos, line).len() ==> pos <= (#[trigger] lexemes_from(
                src,
                pos,
                line,
            )[i]).start <= lexemes_from(src, pos, line)[i].end <= src.len(),
        forall|i: int, j: int|
            0 <= i < j < lexemes_from(src, pos, line).len() ==> (#[trigger] lexemes_from(
                src,
                pos,
                line,
            )[i]).end <= (#[trigger] lexemes_from(src, pos, line)[j]).start,
    decreases src.len() - pos,
{
    if pos < src.len() {
        let step = scan_step(src, pos, line);
        step_advances(src, pos, line);
        lexeme_spans_ordered(src, step.end, step.line);
    }
}

} // verus!
