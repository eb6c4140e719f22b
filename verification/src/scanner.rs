//! The scanner: from source text to tokens.
use vstd::prelude::*;
use vstd::string::StringExecFns;
use crate::error::{diagnostic, error};
use crate::grammar::parsable;
use crate::lexical::{
    at, is_alpha, is_alpha_numeric, is_digit, keyword, lexemes_from, newlines,
    lexeme_lines_ordered, lexemes_end_once, newlines_bounds, number_end, problem_message,
    problems_from, run_end, scan_step, step_advances, Lexeme, Problem, Run,
};
use crate::text::{characters, spells, text_of};
use crate::value::{clone_slot, slot_view, Value, ValueView};

verus! {

/// The kinds of token.
#[derive(Debug, Clone, Copy, PartialEq, Eq, Structural)]
pub enum TokenType {
    LeftParen,
    RightParen,
    LeftBrace,
    RightBrace,
    Comma,
    Dot,
    Minus,
    Plus,
    Semicolon,
    Slash,
    Star,
    Bang,
    BangEqual,
    Equal,
    EqualEqual,
    Greater,
    GreaterEqual,
    Less,
    LessEqual,
    Identifier,
    String,
    Number,
    And,
    Class,
    Else,
    False,
    Fun,
    For,
    If,
    Nil,
    Or,
    Print,
    Return,
    Super,
    This,
    True,
    Var,
    While,
    Eof,
}

/// The symbol of a punctuation or operator token; empty for every other kind.
pub open spec fn symbol(kind: TokenType) -> Seq<char> {
    match kind {
        TokenType::LeftParen => "("@,
        TokenType::RightParen => ")"@,
        TokenType::LeftBrace => "{"@,
        TokenType::RightBrace => "}"@,
        TokenType::Comma => ","@,
        TokenType::Dot => "."@,
        TokenType::Minus => "-"@,
        TokenType::Plus => "+"@,
        TokenType::Semicolon => ";"@,
        TokenType::Slash => "/"@,
        TokenType::Star => "*"@,
        TokenType::Bang => "!"@,
        TokenType::BangEqual => "!="@,
        TokenType::Equal => "="@,
        TokenType::EqualEqual => "=="@,
        TokenType::Greater => ">"@,
        TokenType::GreaterEqual => ">="@,
        TokenType::Less => "<"@,
        TokenType::LessEqual => "<="@,
        _ => ""@,
    }
}

impl TokenType {
    /// The symbol of a punctuation or operator token; empty for every other kind.
    pub fn to_string(&self) -> (r: String)
        ensures
            r@ == symbol(*self),
    {
        match self {
            TokenType::LeftParen => String::from_str("("),
            TokenType::RightParen => String::from_str(")"),
            TokenType::LeftBrace => String::from_str("{"),
            TokenType::RightBrace => String::from_str("}"),
            TokenType::Comma => String::from_str(","),
            TokenType::Dot => String::from_str("."),
            TokenType::Minus => String::from_str("-"),
            TokenType::Plus => String::from_str("+"),
            TokenType::Semicolon => String::from_str(";"),
            TokenType::Slash => String::from_str("/"),
            TokenType::Star => String::from_str("*"),
            TokenType::Bang => String::from_str("!"),
            TokenType::BangEqual => String::from_str("!="),
            TokenType::Equal => String::from_str("="),
            TokenType::EqualEqual => String::from_str("=="),
            TokenType::Greater => String::from_str(">"),
            TokenType::GreaterEqual => String::from_str(">="),
            TokenType::Less => String::from_str("<"),
            TokenType::LessEqual => String::from_str("<="),
            _ => String::from_str(""),
        }
    }
}

/// A token: its kind, the text it was scanned from, the value of a literal,
/// and the line on which it ends.
#[derive(Debug, PartialEq)]
pub struct Token {
    pub type_: TokenType,
    pub lexeme: String,
    pub literal: Option<Value>,
    pub line: usize,
}

/// What a `Token` stands for.
pub struct TokenView {
    pub type_: TokenType,
    pub lexeme: Seq<char>,
    pub literal: Option<ValueView>,
    pub line: usize,
}

impl View for Token {
    type V = TokenView;

    open spec fn view(&self) -> TokenView {
        TokenView {
            type_: self.type_,
            lexeme: self.lexeme@,
            literal: slot_view(self.literal),
            line: self.line,
        }
    }
}

impl Clone for Token {
    fn clone(&self) -> (r: Self)
        ensures
            r == *self,
    {
        Token {
            type_: self.type_,
            lexeme: self.lexeme.clone(),
            literal: clone_slot(&self.literal),
            line: self.line,
        }
    }
}

impl Token {
    pub fn new(type_: TokenType, lexeme: String, literal: Option<Value>, line: usize) -> (t: Token)
        ensures
            t == (Token { type_, lexeme, literal, line }),
    {
        Token { type_, lexeme, literal, line }
    }
}


/// The diagnostic for `message` on `line`.
pub fn line_error(line: usize, message: &str) -> (r: String)
    ensures
        r@ == diagnostic(line as nat, Seq::empty(), message@),
{
    error(line, String::from_str(message))
}

/// The views of a sequence of tokens.
pub open spec fn token_views(tokens: Seq<Token>) -> Seq<TokenView> {
    Seq::new(tokens.len(), |i: int| tokens[i]@)
}

/// The views of a sequence of texts.
pub open spec fn texts(lines: Seq<String>) -> Seq<Seq<char>> {
    Seq::new(lines.len(), |i: int| lines[i]@)
}

/// `bits` is a reading of the numeral `lexeme` by `number`.
pub open spec fn read_as<P: Fn(String) -> u64>(number: &P, lexeme: Seq<char>, bits: u64) -> bool {
    exists|numeral: String| #[trigger] number.ensures((numeral,), bits) && numeral@ == lexeme
}

/// The literal of a token is right for its lexeme: a string token holds the
/// text between its quotes, a number token a reading of its numeral by
/// `number`, and no other token holds a literal.
pub open spec fn literal_agrees<P: Fn(String) -> u64>(
    number: &P,
    src: Seq<char>,
    lexeme: Lexeme,
    literal: Option<ValueView>,
) -> bool {
    match lexeme.kind {
        TokenType::String => literal == Some(
            ValueView::String(src.subrange(lexeme.start + 1, lexeme.end - 1)),
        ),
        TokenType::Number => literal matches Some(ValueView::Double(bits)) && read_as(
            number,
            src.subrange(lexeme.start, lexeme.end),
            bits,
        ),
        _ => literal is None,
    }
}

/// The token is the one that the lexeme asks for.
pub open spec fn token_agrees<P: Fn(String) -> u64>(
    number: &P,
    src: Seq<char>,
    token: TokenView,
    lexeme: Lexeme,
) -> bool {
    &&& token.type_ == lexeme.kind
    &&& token.lexeme == src.subrange(lexeme.start, lexeme.end)
    &&& token.line == lexeme.line
    &&& literal_agrees(number, src, lexeme, token.literal)
}

/// The tokens are, one for one, those that the lexemes ask for.
pub open spec fn tokens_agree<P: Fn(String) -> u64>(
    number: &P,
    src: Seq<char>,
    tokens: Seq<TokenView>,
    lexemes: Seq<Lexeme>,
) -> bool {
    &&& tokens.len() == lexemes.len()
    &&& forall|i: int|
        0 <= i < tokens.len() ==> token_agrees(number, src, #[trigger] tokens[i], lexemes[i])
}

/// The diagnostic of a step, if it found a problem.
pub open spec fn step_diagnostics(line: int, problem: Option<Problem>) -> Seq<Seq<char>> {
    match problem {
        Some(problem) => seq![diagnostic(line as nat, Seq::empty(), problem_message(problem))],
        None => Seq::empty(),
    }
}

/// A scanner: the text, how far it has been read, and what was found so far.
pub struct Scanner {
    source: Vec<char>,
    tokens: Vec<Token>,
    start: usize,
    current: usize,
    line: usize,
    diagnostics: Vec<String>,
}

/// What a `Scanner` stands for.
pub struct ScannerView {
    /// The text.
    pub source: Seq<char>,
    /// The tokens found so far.
    pub tokens: Seq<TokenView>,
    /// The position of the next character to read.
    pub current: int,
    /// The line of that position, counted from 0.
    pub line: int,
    /// The diagnostics so far.
    pub diagnostics: Seq<Seq<char>>,
}

/// `after` is `before` one step later: the position and the line are those
/// that the step gives, its token, if it makes one, was added, and so was its
/// diagnostic.
pub open spec fn stepped<P: Fn(String) -> u64>(
    number: &P,
    before: ScannerView,
    after: ScannerView,
) -> bool {
    let step = scan_step(before.source, before.current, before.line);
    &&& after.source == before.source
    &&& after.current == step.end
    &&& after.line == step.line
    &&& after.tokens.len() == before.tokens.len() + if step.kind is Some {
        1int
    } else {
        0int
    }
    &&& after.tokens.take(before.tokens.len() as int) == before.tokens
    &&& step.kind is Some ==> token_agrees(
        number,
        before.source,
        after.tokens.last(),
        Lexeme {
            kind: step.kind.unwrap(),
            start: before.current,
            end: step.end,
            line: step.line,
        },
    )
    &&& after.diagnostics == before.diagnostics + step_diagnostics(step.line, step.problem)
}

impl View for Scanner {
    type V = ScannerView;

    closed spec fn view(&self) -> ScannerView {
        ScannerView {
            source: self.source@,
            tokens: token_views(self.tokens@),
            current: self.current as int,
            line: self.line as int,
            diagnostics: texts(self.diagnostics@),
        }
    }
}

impl Scanner {
    /// The scanner's position lies inside the text or at its end, and it has
    /// not counted more lines than it has read characters.
    pub closed spec fn wf(&self) -> bool {
        &&& self.start <= self.current <= self.source.len()
        &&& self.line <= self.current
    }

    /// Whether nothing but the position differs.
    spec fn moved_from(&self, before: &Scanner) -> bool {
        &&& self.source == before.source
        &&& self.tokens == before.tokens
        &&& self.start == before.start
        &&& self.line == before.line
        &&& self.diagnostics == before.diagnostics
    }

    /// A scanner at the beginning of `source`.
    pub fn new(source: String) -> (s: Scanner)
        ensures
            s.wf(),
            s@ == (ScannerView {
                source: source@,
                tokens: Seq::empty(),
                current: 0,
                line: 0,
                diagnostics: Seq::empty(),
            }),
    {
        let s = Scanner {
            source: characters(source.as_str()),
            tokens: Vec::new(),
            start: 0,
            current: 0,
            line: 0,
            diagnostics: Vec::new(),
        };
        assert(token_views(s.tokens@) =~= Seq::empty());
        assert(texts(s.diagnostics@) =~= Seq::empty());
        s
    }

    /// The diagnostics so far.
    pub fn diagnostics(&self) -> (r: &Vec<String>)
        ensures
            texts(r@) == self@.diagnostics,
    {
        &self.diagnostics
    }

    fn is_at_end(&self) -> (r: bool)
        requires
            self.wf(),
        ensures
            r == (self.current == self.source.len()),
    {
        self.current == self.source.len()
    }

    fn peek(&self) -> (c: char)
        requires
            self.wf(),
        ensures
            c == if self.current < self.source.len() {
                self.source@[self.current as int]
            } else {
                '\0'
            },
    {
        if self.is_at_end() {
            '\0'
        } else {
            self.source[self.current]
        }
    }

    fn peek_next(&self) -> (c: char)
        requires
            self.wf(),
        ensures
            c == if self.current + 1 < self.source.len() {
                self.source@[self.current + 1]
            } else {
                '\0'
            },
    {
        if self.source.len() - self.current <= 1 {
            '\0'
        } else {
            self.source[self.current + 1]
        }
    }

    fn advance(&mut self) -> (c: char)
        requires
            old(self).wf(),
            old(self).current < old(self).source.len(),
        ensures
            final(self).wf(),
            final(self).moved_from(old(self)),
            final(self).current == old(self).current + 1,
            c == old(self).source@[old(self).current as int],
    {
        self.current += 1;
        self.source[self.current - 1]
    }

    fn match_(&mut self, c: char) -> (r: bool)
        requires
            old(self).wf(),
        ensures
            final(self).wf(),
            final(self).moved_from(old(self)),
            r == at(old(self).source@, old(self).current as int, c),
            final(self).current == old(self).current + if r {
                1int
            } else {
                0int
            },
    {
        if self.is_at_end() {
            return false;
        }
        if self.source[self.current] != c {
            return false;
        }
        self.current += 1;
        true
    }

    fn add_token(&mut self, type_: TokenType)
        requires
            old(self).wf(),
        ensures
            final(self).source == old(self).source,
            final(self).start == old(self).start,
            final(self).current == old(self).current,
            final(self).line == old(self).line,
            final(self).diagnostics == old(self).diagnostics,
            final(self).tokens@.len() == old(self).tokens@.len() + 1,
            final(self).tokens@.take(old(self).tokens@.len() as int) == old(self).tokens@,
            final(self).tokens@.last()@ == (TokenView {
                type_,
                lexeme: old(self).source@.subrange(
                    old(self).start as int,
                    old(self).current as int,
                ),
                literal: None,
                line: old(self).line,
            }),
    {
        self.add_token_value(type_, None);
    }

    fn add_token_value(&mut self, type_: TokenType, value: Option<Value>)
        requires
            old(self).wf(),
        ensures
            final(self).source == old(self).source,
            final(self).start == old(self).start,
            final(self).current == old(self).current,
            final(self).line == old(self).line,
            final(self).diagnostics == old(self).diagnostics,
            final(self).tokens@.len() == old(self).tokens@.len() + 1,
            final(self).tokens@.take(old(self).tokens@.len() as int) == old(self).tokens@,
            final(self).tokens@.last()@ == (TokenView {
                type_,
                lexeme: old(self).source@.subrange(
                    old(self).start as int,
                    old(self).current as int,
                ),
                literal: slot_view(value),
                line: old(self).line,
            }),
    {
        let text = text_of(&self.source, self.start, self.current);
        self.tokens.push(Token::new(type_, text, value, self.line));
        assert(self.tokens@.take(old(self).tokens@.len() as int) =~= old(self).tokens@);
    }

    fn is_digit(c: char) -> (r: bool)
        ensures
            r == is_digit(c),
    {
        c >= '0' && c <= '9'
    }

    fn is_alpha(c: char) -> (r: bool)
        ensures
            r == is_alpha(c),
    {
        (c >= 'a' && c <= 'z') || (c >= 'A' && c <= 'Z') || c == '_'
    }

    fn is_alpha_numeric(c: char) -> (r: bool)
        ensures
            r == is_alpha_numeric(c),
    {
        Scanner::is_alpha(c) || Scanner::is_digit(c)
    }

    /// Whether `token` was added to the tokens of `before`, and nothing else.
    spec fn pushed_token(&self, before: &Scanner, token: TokenView) -> bool {
        &&& self.tokens@.len() == before.tokens@.len() + 1
        &&& self.tokens@.take(before.tokens@.len() as int) == before.tokens@
        &&& self.tokens@.last()@ == token
    }

    /// Whether `text` was added to the diagnostics of `before`, and nothing else.
    spec fn pushed_diagnostic(&self, before: &Scanner, text: Seq<char>) -> bool {
        &&& self.diagnostics@.len() == before.diagnostics@.len() + 1
        &&& self.diagnostics@.take(before.diagnostics@.len() as int) == before.diagnostics@
        &&& self.diagnostics@.last()@ == text
    }

    /// Reads the rest of a string literal whose opening quote was just read.
    #[verifier::rlimit(50)]
    fn string(&mut self)
        requires
            old(self).wf(),
            old(self).current == old(self).start + 1,
            old(self).line <= old(self).start,
        ensures
            final(self).wf(),
            final(self).source == old(self).source,
            final(self).start == old(self).start,
            ({
                let src = old(self).source@;
                let quote = run_end(src, old(self).start + 1, Run::Quoted);
                let last_line = old(self).line + newlines(src, old(self).start + 1, quote);
                &&& final(self).line == last_line
                &&& quote < src.len() ==> {
                    &&& final(self).current == quote + 1
                    &&& final(self).diagnostics == old(self).diagnostics
                    &&& final(self).pushed_token(
                        old(self),
                        TokenView {
                            type_: TokenType::String,
                            lexeme: src.subrange(old(self).start as int, quote + 1),
                            literal: Some(
                                ValueView::String(src.subrange(old(self).start + 1, quote)),
                            ),
                            line: last_line as usize,
                        },
                    )
                }
                &&& quote >= src.len() ==> {
                    &&& final(self).current == src.len()
                    &&& final(self).tokens == old(self).tokens
                    &&& final(self).pushed_diagnostic(
                        old(self),
                        diagnostic(
                            last_line as nat,
                            Seq::empty(),
                            problem_message(Problem::UnterminatedString),
                        ),
                    )
                }
            }),
    {
        let ghost src = self.source@;
        let ghost first = self.start + 1;
        while self.peek() != '"' && !self.is_at_end()
            invariant
                self.wf(),
                self.source == old(self).source,
                self.tokens == old(self).tokens,
                self.start == old(self).start,
                self.diagnostics == old(self).diagnostics,
                src == self.source@,
                first == self.start + 1,
                first <= self.current,
                old(self).line <= old(self).start,
                run_end(src, self.current as int, Run::Quoted) == run_end(src, first, Run::Quoted),
                self.line == old(self).line + newlines(src, first, self.current as int),
            decreases self.source.len() - self.current,
        {
            proof {
                newlines_bounds(src, first, self.current as int);
            }
            if self.peek() == '\n' {
                self.line += 1;
            }
            self.advance();
        }

        if self.is_at_end() {
            let line = line_error(self.line, "Unterminated string.");
            self.diagnostics.push(line);
            assert(self.diagnostics@.take(old(self).diagnostics@.len() as int)
                =~= old(self).diagnostics@);
            return ;
        }
        proof {
            newlines_bounds(src, first, self.current as int);
        }
        self.advance();

        let inner = text_of(&self.source, self.start + 1, self.current - 1);
        self.add_token_value(TokenType::String, Some(Value::String(inner)));
    }

    /// Reads the rest of a number whose first digit was just read.
    #[verifier::rlimit(50)]
    fn number<P: Fn(String) -> u64>(&mut self, number: &P)
        requires
            old(self).wf(),
            old(self).current == old(self).start + 1,
            forall|numeral: String| number.requires((numeral,)),
        ensures
            final(self).wf(),
            final(self).source == old(self).source,
            final(self).start == old(self).start,
            final(self).line == old(self).line,
            final(self).diagnostics == old(self).diagnostics,
            final(self).current == number_end(
                old(self).source@,
                old(self).start as int,
            ),
            final(self).tokens@.len() == old(self).tokens@.len() + 1,
            final(self).tokens@.take(old(self).tokens@.len() as int) == old(self).tokens@,
            token_agrees(
                number,
                old(self).source@,
                final(self).tokens@.last()@,
                Lexeme {
                    kind: TokenType::Number,
                    start: old(self).start as int,
                    end: final(self).current as int,
                    line: old(self).line as int,
                },
            ),
    {
        let ghost src = self.source@;
        let ghost first = self.start + 1;
        while Scanner::is_digit(self.peek())
            invariant
                self.wf(),
                self.moved_from(old(self)),
                src == self.source@,
                first <= self.current,
                run_end(src, self.current as int, Run::Digits) == run_end(src, first, Run::Digits),
            decreases self.source.len() - self.current,
        {
            self.advance();
        }

        if self.peek() == '.' && Scanner::is_digit(self.peek_next()) {
            self.advance();
            let ghost second = self.current as int;
            while Scanner::is_digit(self.peek())
                invariant
                    self.wf(),
                    self.moved_from(old(self)),
                    src == self.source@,
                    first <= self.current,
                    run_end(src, self.current as int, Run::Digits) == run_end(
                        src,
                        second,
                        Run::Digits,
                    ),
                decreases self.source.len() - self.current,
            {
                self.advance();
            }
        }
        let text = text_of(&self.source, self.start, self.current);
        let ghost numeral = text;
        let bits = number(text);
        assert(number.ensures((numeral,), bits));
        self.add_token_value(TokenType::Number, Some(Value::Double(bits)));
    }

    /// The reserved word that `source[start..end]` spells, if it spells one.
    fn keyword_of(source: &Vec<char>, start: usize, end: usize) -> (r: Option<TokenType>)
        requires
            start <= end <= source.len(),
        ensures
            r == keyword(source@.subrange(start as int, end as int)),
    {
        if spells(source, start, end, "and") {
            Some(TokenType::And)
        } else if spells(source, start, end, "class") {
            Some(TokenType::Class)
        } else if spells(source, start, end, "else") {
            Some(TokenType::Else)
        } else if spells(source, start, end, "false") {
            Some(TokenType::False)
        } else if spells(source, start, end, "for") {
            Some(TokenType::For)
        } else if spells(source, start, end, "fun") {
            Some(TokenType::Fun)
        } else if spells(source, start, end, "if") {
            Some(TokenType::If)
        } else if spells(source, start, end, "nil") {
            Some(TokenType::Nil)
        } else if spells(source, start, end, "or") {
            Some(TokenType::Or)
        } else if spells(source, start, end, "print") {
            Some(TokenType::Print)
        } else if spells(source, start, end, "return") {
            Some(TokenType::Return)
        } else if spells(source, start, end, "super") {
            Some(TokenType::Super)
        } else if spells(source, start, end, "this") {
            Some(TokenType::This)
        } else if spells(source, start, end, "true") {
            Some(TokenType::True)
        } else if spells(source, start, end, "var") {
            Some(TokenType::Var)
        } else if spells(source, start, end, "while") {
            Some(TokenType::While)
        } else {
            None
        }
    }

    /// Reads the rest of a word whose first character was just read.
    fn identifier(&mut self)
        requires
            old(self).wf(),
            old(self).current == old(self).start + 1,
        ensures
            final(self).wf(),
            final(self).source == old(self).source,
            final(self).start == old(self).start,
            final(self).line == old(self).line,
            final(self).diagnostics == old(self).diagnostics,
            final(self).current == run_end(old(self).source@, old(self).start + 1, Run::Word),
            final(self).pushed_token(
                old(self),
                TokenView {
                    type_: match keyword(
                        old(self).source@.subrange(
                            old(self).start as int,
                            final(self).current as int,
                        ),
                    ) {
                        Some(kind) => kind,
                        None => TokenType::Identifier,
                    },
                    lexeme: old(self).source@.subrange(
                        old(self).start as int,
                        final(self).current as int,
                    ),
                    literal: None,
                    line: old(self).line,
                },
            ),
    {
        let ghost src = self.source@;
        let ghost first = self.start + 1;
        while Scanner::is_alpha_numeric(self.peek())
            invariant
                self.wf(),
                self.moved_from(old(self)),
                src == self.source@,
                first <= self.current,
                run_end(src, self.current as int, Run::Word) == run_end(src, first, Run::Word),
            decreases self.source.len() - self.current,
        {
            self.advance();
        }
        let token = match Scanner::keyword_of(&self.source, self.start, self.current) {
            Some(token) => token,
            None => TokenType::Identifier,
        };
        self.add_token(token)
    }

    /// Reads one lexeme, or one stretch of text that makes no token, from the
    /// current position.
    #[verifier::rlimit(50)]
    pub fn scan_token<P: Fn(String) -> u64>(&mut self, number: &P)
        requires
            old(self).wf(),
            old(self)@.current < old(self)@.source.len(),
            forall|numeral: String| number.requires((numeral,)),
        ensures
            final(self).wf(),
            stepped(number, old(self)@, final(self)@),
    {
        self.start = self.current;
        let ghost before = *self;
        let ghost src = self.source@;
        proof {
            step_advances(src, self.current as int, self.line as int);
        }
        let c = self.advance();
        match c {
            '(' => self.add_token(TokenType::LeftParen),
            ')' => self.add_token(TokenType::RightParen),
            '{' => self.add_token(TokenType::LeftBrace),
            '}' => self.add_token(TokenType::RightBrace),
            ',' => self.add_token(TokenType::Comma),
            '.' => self.add_token(TokenType::Dot),
            '-' => self.add_token(TokenType::Minus),
            '+' => self.add_token(TokenType::Plus),
            ';' => self.add_token(TokenType::Semicolon),
            '*' => self.add_token(TokenType::Star),
            '!' => {
                let token = if self.match_('=') {
                    TokenType::BangEqual
                } else {
                    TokenType::Bang
                };
                self.add_token(token)
            },
            '=' => {
                let token = if self.match_('=') {
                    TokenType::EqualEqual
                } else {
                    TokenType::Equal
                };
                self.add_token(token)
            },
            '<' => {
                let token = if self.match_('=') {
                    TokenType::LessEqual
                } else {
                    TokenType::Less
                };
                self.add_token(token)
            },
            '>' => {
                let token = if self.match_('=') {
                    TokenType::GreaterEqual
                } else {
                    TokenType::Greater
                };
                self.add_token(token)
            },
            '/' => {
                if self.match_('/') {
                    let ghost first = self.current as int;
                    while self.peek() != '\n' && !self.is_at_end()
                        invariant
                            self.wf(),
                            self.moved_from(&before),
                            src == self.source@,
                            first <= self.current,
                            run_end(src, self.current as int, Run::Comment) == run_end(
                                src,
                                first,
                                Run::Comment,
                            ),
                        decreases self.source.len() - self.current,
                    {
                        self.advance();
                    }
                } else {
                    self.add_token(TokenType::Slash)
                }
            },
            '"' => self.string(),
            ' ' => {},
            '\r' => {},
            '\t' => {},
            '\n' => self.line += 1,
            _ => {
                if Scanner::is_digit(c) {
                    self.number(number)
                } else if Scanner::is_alpha(c) {
                    self.identifier()
                } else {
                    let line = line_error(self.line, "Unexpected character");
                    self.diagnostics.push(line);
                }
            },
        }
        proof {
            let step = scan_step(src, before.current as int, before.line as int);
            views_after_push(before.tokens@, self.tokens@);
            lines_after_push(before.diagnostics@, self.diagnostics@);
            assert(self@.diagnostics =~= before@.diagnostics + step_diagnostics(
                step.line,
                step.problem,
            ));
            assert(self.current == step.end && self.line == step.line);
            assert(self@.tokens.take(before@.tokens.len() as int) == before@.tokens);
        }
    }

    /// Reads the rest of the text and adds the token that ends it. Returns
    /// every token found so far.
    #[verifier::rlimit(50)]
    pub fn scan_tokens<P: Fn(String) -> u64>(&mut self, number: &P) -> (tokens: Vec<Token>)
        requires
            old(self).wf(),
            forall|numeral: String| number.requires((numeral,)),
        ensures
            final(self).wf(),
            scanned(number, old(self)@, final(self)@),
            token_views(tokens@) == final(self)@.tokens,
            old(self)@.tokens.len() == 0 ==> parsable(tokens@),
    {
        let ghost src = self.source@;
        let ghost first = self@;
        let ghost count = self.tokens@.len() as int;
        let ghost mut done: Seq<Lexeme> = Seq::empty();
        let ghost mut found: Seq<Seq<char>> = Seq::empty();
        assert(token_views(self.tokens@).skip(count) =~= Seq::empty());
        assert(token_views(self.tokens@).take(count) =~= first.tokens);
        assert(first.diagnostics + found =~= self@.diagnostics);
        while !self.is_at_end()
            invariant
                self.wf(),
                self.source@ == src,
                first.source == src,
                count == first.tokens.len(),
                count <= self.tokens@.len(),
                self@.tokens.take(count) == first.tokens,
                tokens_agree(number, src, self@.tokens.skip(count), done),
                done + lexemes_from(src, self.current as int, self.line as int) == lexemes_from(
                    src,
                    first.current,
                    first.line,
                ),
                self@.diagnostics == first.diagnostics + found,
                found + problems_from(src, self.current as int, self.line as int) == problems_from(
                    src,
                    first.current,
                    first.line,
                ),
                forall|numeral: String| number.requires((numeral,)),
            decreases self.source.len() - self.current,
        {
            let ghost before = self@;
            let ghost step = scan_step(src, self.current as int, self.line as int);
            proof {
                step_advances(src, self.current as int, self.line as int);
            }
            self.start = self.current;
            self.scan_token(number);
            proof {
                let rest = lexemes_from(src, step.end, step.line);
                let lexeme = Lexeme {
                    kind: step.kind.unwrap(),
                    start: before.current,
                    end: step.end,
                    line: step.line,
                };
                let earlier = done;
                if step.kind is Some {
                    done = done.push(lexeme);
                    assert(earlier + (seq![lexeme] + rest) =~= done + rest);
                    assert(self@.tokens.skip(count) =~= before.tokens.skip(count).push(
                        self@.tokens.last(),
                    )) by {
                        assert(self@.tokens.take(before.tokens.len() as int) == before.tokens);
                        assert forall|i: int| 0 <= i < before.tokens.len() implies self@.tokens[i]
                            == before.tokens[i] by {
                            assert(self@.tokens.take(before.tokens.len() as int)[i]
                                == self@.tokens[i]);
                        }
                    }
                } else {
                    assert(self@.tokens =~= before.tokens);
                }
                assert(self@.tokens.take(count) =~= first.tokens) by {
                    assert forall|i: int| 0 <= i < count implies self@.tokens[i]
                        == first.tokens[i] by {
                        assert(self@.tokens.take(before.tokens.len() as int)[i] == self@.tokens[i]);
                        assert(before.tokens.take(count)[i] == before.tokens[i]);
                    }
                }
                let earlier_found = found;
                let new = step_diagnostics(step.line, step.problem);
                found = found + new;
                assert(first.diagnostics + found =~= first.diagnostics + earlier_found + new);
                assert(earlier_found + (new + problems_from(src, step.end, step.line)) =~= found
                    + problems_from(src, step.end, step.line));
                assert(new + problems_from(src, step.end, step.line) =~= problems_from(
                    src,
                    before.current,
                    before.line,
                ));
            }
        }
        let ghost before = self@;
        self.tokens.push(Token::new(TokenType::Eof, String::new(), None, self.line));
        let tokens = self.tokens.clone();
        proof {
            let end = Lexeme {
                kind: TokenType::Eof,
                start: self.current as int,
                end: self.current as int,
                line: self.line as int,
            };
            assert(lexemes_from(src, self.current as int, self.line as int) =~= seq![end]);
            assert(problems_from(src, self.current as int, self.line as int) =~= Seq::empty());
            assert(done + seq![end] =~= done.push(end));
            assert(found + Seq::<Seq<char>>::empty() =~= found);
            assert(self@.tokens =~= before.tokens.push(self.tokens@.last()@));
            assert(self@.tokens.skip(count) =~= before.tokens.skip(count).push(
                self.tokens@.last()@,
            ));
            assert(self@.tokens.take(count) =~= before.tokens.take(count));
            assert(src.subrange(self.current as int, self.current as int) =~= Seq::empty());
            assert(self@.diagnostics =~= before.diagnostics);
            assert(tokens@ =~= self.tokens@);
            if first.tokens.len() == 0 {
                scanned_tokens_parsable(number, first, self@, tokens@);
            }
        }
        tokens
    }
}

/// The views of tokens to which one was added are the earlier views and the
/// view of the new token.
proof fn views_after_push(before: Seq<Token>, after: Seq<Token>)
    ensures
        after == before ==> token_views(after) == token_views(before),
        after.len() == before.len() + 1 && after.take(before.len() as int) == before ==> {
            &&& token_views(after).len() == before.len() + 1
            &&& token_views(after).take(before.len() as int) == token_views(before)
            &&& token_views(after).last() == after.last()@
        },
{
    if after.len() == before.len() + 1 && after.take(before.len() as int) == before {
        assert forall|i: int| 0 <= i < before.len() implies after[i] == before[i] by {
            assert(after.take(before.len() as int)[i] == after[i]);
        }
        assert(token_views(after).take(before.len() as int) =~= token_views(before));
    }
}

/// The texts of lines to which one was added are the earlier texts and the
/// text of the new line.
proof fn lines_after_push(before: Seq<String>, after: Seq<String>)
    ensures
        after == before ==> texts(after) == texts(before),
        after.len() == before.len() + 1 && after.take(before.len() as int) == before ==> texts(
            after,
        ) == texts(before).push(after.last()@),
{
    if after.len() == before.len() + 1 && after.take(before.len() as int) == before {
        assert forall|i: int| 0 <= i < before.len() implies after[i] == before[i] by {
            assert(after.take(before.len() as int)[i] == after[i]);
        }
        assert(texts(after) =~= texts(before).push(after.last()@));
    }
}

/// `after` is `before` once the rest of the text was read: the tokens that the
/// remaining lexemes ask for were added, the last of them for the end of the
/// text, and so were the diagnostics for the remaining problems.
pub open spec fn scanned<P: Fn(String) -> u64>(
    number: &P,
    before: ScannerView,
    after: ScannerView,
) -> bool {
    let count = before.tokens.len() as int;
    &&& after.source == before.source
    &&& after.current == before.source.len()
    &&& count <= after.tokens.len()
    &&& after.tokens.take(count) == before.tokens
    &&& tokens_agree(
        number,
        before.source,
        after.tokens.skip(count),
        lexemes_from(before.source, before.current, before.line),
    )
    &&& after.diagnostics == before.diagnostics + problems_from(
        before.source,
        before.current,
        before.line,
    )
}

/// The tokens that a scan adds end with the token for the end of the text
/// and hold no other of that kind, and from one of them to the next the line
/// never goes back.
pub proof fn scanned_tokens_in_order<P: Fn(String) -> u64>(
    number: &P,
    before: ScannerView,
    after: ScannerView,
)
    requires
        scanned(number, before, after),
        0 <= before.current <= before.source.len(),
    ensures
        ({
            let added = after.tokens.skip(before.tokens.len() as int);
            &&& added.len() >= 1
            &&& added.last().type_ == TokenType::Eof
            &&& forall|i: int|
                0 <= i < added.len() - 1 ==> (#[trigger] added[i]).type_ != TokenType::Eof
            &&& forall|i: int, j: int|
                0 <= i <= j < added.len() ==> (#[trigger] added[i]).line
                    <= (#[trigger] added[j]).line
        }),
{
    let added = after.tokens.skip(before.tokens.len() as int);
    let lexemes = lexemes_from(before.source, before.current, before.line);
    lexemes_end_once(before.source, before.current, before.line);
    lexeme_lines_ordered(before.source, before.current, before.line);
    assert forall|i: int| 0 <= i < added.len() - 1 implies (#[trigger] added[i]).type_
        != TokenType::Eof by {
        assert(token_agrees(number, before.source, added[i], lexemes[i]));
    }
    assert forall|i: int, j: int| 0 <= i <= j < added.len() implies (#[trigger] added[i]).line <= (
    #[trigger] added[j]).line by {
        assert(token_agrees(number, before.source, added[i], lexemes[i]));
        assert(token_agrees(number, before.source, added[j], lexemes[j]));
    }
    assert(token_agrees(number, before.source, added.last(), lexemes.last()));
}

/// The tokens that scanning a text from its beginning gives can be parsed:
/// they end with the token for the end of the text, and every number and
/// string among them holds its literal.
pub proof fn scanned_tokens_parsable<P: Fn(String) -> u64>(
    number: &P,
    before: ScannerView,
    after: ScannerView,
    tokens: Seq<Token>,
)
    requires
        scanned(number, before, after),
        before.tokens.len() == 0,
        0 <= before.current <= before.source.len(),
        token_views(tokens) == after.tokens,
    ensures
        parsable(tokens),
{
    let lexemes = lexemes_from(before.source, before.current, before.line);
    scanned_tokens_in_order(number, before, after);
    assert(after.tokens.skip(0) =~= after.tokens);
    assert(tokens.last()@ == after.tokens.last());
    assert forall|i: int|
        0 <= i < tokens.len() && ((#[trigger] tokens[i]).type_ == TokenType::Number
            || tokens[i].type_ == TokenType::String) implies tokens[i].literal is Some by {
        assert(tokens[i]@ == after.tokens[i]);
        assert(token_agrees(number, before.source, after.tokens[i], lexemes[i]));
    }
}

/// Whether `number` gives at most one reading of each numeral.
pub open spec fn reads_one_number<P: Fn(String) -> u64>(number: &P) -> bool {
    forall|numeral: String, again: String, one: u64, other: u64|
        numeral@ == again@ && #[trigger] number.ensures((numeral,), one)
            && #[trigger] number.ensures((again,), other) ==> one == other
}

/// Where `number` gives one reading of each numeral, a text has one
/// sequence of tokens.
pub proof fn scanned_tokens_are_determined<P: Fn(String) -> u64>(
    number: &P,
    before: ScannerView,
    one: ScannerView,
    other: ScannerView,
)
    requires
        reads_one_number(number),
        scanned(number, before, one),
        scanned(number, before, other),
    ensures
        one.tokens == other.tokens,
        one.diagnostics == other.diagnostics,
{
    let count = before.tokens.len() as int;
    let lexemes = lexemes_from(before.source, before.current, before.line);
    assert forall|i: int| 0 <= i < one.tokens.len() implies one.tokens[i] == other.tokens[i] by {
        if i < count {
            assert(one.tokens.take(count)[i] == other.tokens.take(count)[i]);
        } else {
            let a = one.tokens.skip(count)[i - count];
            let b = other.tokens.skip(count)[i - count];
            assert(token_agrees(number, before.source, a, lexemes[i - count]));
            assert(token_agrees(number, before.source, b, lexemes[i - count]));
            if lexemes[i - count].kind == TokenType::Number {
                let text = before.source.subrange(
                    lexemes[i - count].start,
                    lexemes[i - count].end,
                );
                let x = a.literal.unwrap()->Double_0;
                let y = b.literal.unwrap()->Double_0;
                let first = choose|numeral: String| #[trigger]
                    number.ensures((numeral,), x) && numeral@ == text;
                let second = choose|numeral: String| #[trigger]
                    number.ensures((numeral,), y) && numeral@ == text;
                assert(x == y);
            }
        }
    }
    assert(one.tokens.len() == other.tokens.len()) by {
        assert(one.tokens.skip(count).len() == lexemes.len());
        assert(other.tokens.skip(count).len() == lexemes.len());
    }
    assert(one.tokens =~= other.tokens);
}

} // verus!
