//! A whole run: a text is scanned, parsed and, where it is free of syntax
//! errors, interpreted.
use vstd::prelude::*;
use crate::grammar::parse_program;
use crate::interpreter::{output_views, Interpreter, Output};
use crate::lexical::{lexemes, problems};
use crate::parser::{stmt_views, Parser, ParserError, Stmt, StmtView};
use crate::scanner::{texts, token_views, tokens_agree, Scanner, Token};
use crate::semantics::{interpreted, Arithmetic, OutputView};

verus! {

/// What a run gave.
pub struct Run {
    /// The diagnostics of the scanner, then those of the parser.
    pub diagnostics: Vec<String>,
    /// The error of the first declaration that could not be parsed.
    pub failure: Option<ParserError>,
    /// What the program gave out. A text with a syntax error is not
    /// interpreted and gives out nothing.
    pub output: Vec<Output>,
}

/// Interpreting a program whose statements have the views `program` may
/// write `output`.
pub open spec fn interpreted_program<A: Fn(Arithmetic, u64, u64) -> u64>(
    arith: &A,
    program: Seq<StmtView>,
    output: Seq<OutputView>,
) -> bool {
    exists|statements: Seq<Stmt>|
        #[trigger] stmt_views(statements) == program && interpreted(arith, statements, output)
}

/// A run of `source` that scanned it into `tokens` may give these
/// diagnostics, this failure and this output.
pub open spec fn runs_as<P: Fn(String) -> u64, A: Fn(Arithmetic, u64, u64) -> u64>(
    number: &P,
    arith: &A,
    source: Seq<char>,
    tokens: Seq<Token>,
    diagnostics: Seq<Seq<char>>,
    failure: Option<ParserError>,
    output: Seq<OutputView>,
) -> bool {
    let parsed = parse_program(tokens, 0);
    &&& tokens_agree(number, source, token_views(tokens), lexemes(source))
    &&& diagnostics == problems(source) + parsed.reports
    &&& failure == parsed.error
    &&& match parsed.outcome() {
        Ok(program) => interpreted_program(arith, program, output),
        Err(_) => output.len() == 0,
    }
}

/// Runs `source`: scans it, parses the tokens and, where every declaration
/// could be parsed, interprets the statements.
pub fn run<P: Fn(String) -> u64, A: Fn(Arithmetic, u64, u64) -> u64>(
    source: String,
    number: &P,
    arith: &A,
) -> (r: Run)
    requires
        forall|numeral: String| number.requires((numeral,)),
        forall|operation: Arithmetic, left: u64, right: u64|
            arith.requires((operation, left, right)),
    ensures
        exists|tokens: Seq<Token>| #[trigger]
            runs_as(
                number,
                arith,
                source@,
                tokens,
                texts(r.diagnostics@),
                r.failure,
                output_views(r.output@),
            ),
{
    let mut scanner = Scanner::new(source);
    let tokens = scanner.scan_tokens(number);
    let ghost scanned_tokens = tokens@;
    let mut diagnostics: Vec<String> = Vec::new();
    copy_lines(&mut diagnostics, scanner.diagnostics());
    assert(texts(diagnostics@) =~= problems(source@)) by {
        assert(Seq::<Seq<char>>::empty() + problems(source@) =~= problems(source@));
        assert(texts(Seq::<String>::empty()) =~= Seq::<Seq<char>>::empty());
    }
    assert(token_views(scanned_tokens).skip(0) =~= token_views(scanned_tokens));

    let mut parser = Parser::new(tokens);
    let parsed = parser.parse();
    let ghost program = parse_program(scanned_tokens, 0);
    copy_lines(&mut diagnostics, parser.diagnostics());
    assert(texts(diagnostics@) =~= problems(source@) + program.reports) by {
        assert(Seq::<Seq<char>>::empty() + program.reports =~= program.reports);
    }

    let r = match parsed {
        Ok(statements) => {
            let output = Interpreter::new().interpret(&statements, arith);
            assert(interpreted_program(arith, stmt_views(statements@), output_views(output@)));
            Run { diagnostics, failure: None, output }
        },
        Err(error) => {
            let output: Vec<Output> = Vec::new();
            assert(output_views(output@).len() == 0);
            Run { diagnostics, failure: Some(error), output }
        },
    };
    assert(runs_as(
        number,
        arith,
        source@,
        scanned_tokens,
        texts(r.diagnostics@),
        r.failure,
        output_views(r.output@),
    ));
    r
}

/// Adds a copy of each of `lines` to `to`.
fn copy_lines(to: &mut Vec<String>, lines: &Vec<String>)
    ensures
        texts(final(to)@) == texts(old(to)@) + texts(lines@),
{
    let mut i: usize = 0;
    assert(texts(to@) =~= texts(old(to)@) + texts(lines@.take(0)));
    while i < lines.len()
        invariant
            i <= lines.len(),
            texts(to@) == texts(old(to)@) + texts(lines@.take(i as int)),
        decreases lines.len() - i,
    {
        let ghost before = to@;
        to.push(lines[i].clone());
        assert(texts(to@) =~= texts(before).push(lines@[i as int]@));
        assert(texts(lines@.take(i + 1)) =~= texts(lines@.take(i as int)).push(lines@[i as int]@));
        assert(texts(to@) =~= texts(old(to)@) + texts(lines@.take(i + 1)));
        i += 1;
    }
    assert(lines@.take(lines.len() as int) =~= lines@);
}

} // verus!
