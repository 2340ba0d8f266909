//! The lexer: a single forward pass over the characters of the input,
//! driven by a finite-state machine with one accumulator buffer.

use vstd::prelude::*;
use crate::text::{hex_digits, push_hex};

verus! {

/// A lexical unit. `Nil` is the marker a transition hands back when it
/// consumed a character and has nothing to emit; it never appears among the
/// emitted tokens.
#[derive(Debug, Clone, PartialEq)]
pub enum Token {
    Nil,
    OpenParen,
    CloseParen,
    Symbol(String),
    Number(String),
    String(String),
}

/// The mathematical value of a [`Token`].
pub enum SpecToken {
    Nil,
    OpenParen,
    CloseParen,
    Symbol(Seq<char>),
    Number(Seq<char>),
    String(Seq<char>),
}

impl View for Token {
    type V = SpecToken;

    open spec fn view(&self) -> SpecToken {
        match self {
            Token::Nil => SpecToken::Nil,
            Token::OpenParen => SpecToken::OpenParen,
            Token::CloseParen => SpecToken::CloseParen,
            Token::Symbol(s) => SpecToken::Symbol(s@),
            Token::Number(s) => SpecToken::Number(s@),
            Token::String(s) => SpecToken::String(s@),
        }
    }
}

/// The values of a sequence of tokens, in order.
pub open spec fn tokens_view(tokens: Seq<Token>) -> Seq<SpecToken> {
    tokens.map_values(|t: Token| t@)
}

/// The state of the lexer's finite-state machine.
#[derive(Debug, Clone, Copy, PartialEq, Eq, Structural)]
pub enum State {
    Normal,
    Symbol,
    String,
    Escape,
    Number,
    Comment,
}

/// Why lexing stopped.
pub enum LexError {
    /// A character that the given state has no transition for.
    InvalidInput { state: State, ch: char },
    /// A character arrived in the `String` state, which is not implemented.
    StringNotImplemented,
    /// A character arrived in the `Escape` state, which is not implemented.
    EscapeNotImplemented,
}

/// The name of a state as it appears in diagnostics.
pub open spec fn state_name(state: State) -> Seq<char> {
    match state {
        State::Normal => "normal"@,
        State::Symbol => "symbol"@,
        State::String => "string"@,
        State::Escape => "escape"@,
        State::Number => "number"@,
        State::Comment => "comment"@,
    }
}

impl LexError {
    /// The error message: for an illegal character, the state, the
    /// character and its code point in hexadecimal.
    pub open spec fn message(self) -> Seq<char> {
        match self {
            LexError::InvalidInput { state, ch } => "invalid input in "@ + state_name(state)
                + " state: "@ + seq![ch] + " ("@ + hex_digits(ch as nat) + ")"@,
            LexError::StringNotImplemented => "scan_string not implemented"@,
            LexError::EscapeNotImplemented => "scan_escape not implemented"@,
        }
    }
}

pub open spec fn is_whitespace(c: char) -> bool {
    c == ' ' || c == '\t' || c == '\r' || c == '\n' || c == '\x1f'
}

pub open spec fn is_digit(c: char) -> bool {
    '0' <= c && c <= '9'
}

pub open spec fn is_letter(c: char) -> bool {
    ('a' <= c && c <= 'z') || ('A' <= c && c <= 'Z')
}

/// A character that may begin a symbol: a letter or one of
/// `[ ] . + - * / & | ^ $ ! : ? '`.
pub open spec fn is_symbol_start(c: char) -> bool {
    is_letter(c) || c == '[' || c == ']' || c == '.' || c == '+' || c == '-' || c == '*' || c
        == '/' || c == '&' || c == '|' || c == '^' || c == '$' || c == '!' || c == ':' || c == '?'
        || c == '\''
}

/// A character that may continue a symbol.
pub open spec fn is_symbol_char(c: char) -> bool {
    is_symbol_start(c) || is_digit(c)
}

/// A character that may continue a number: a digit, a sign, an exponent
/// marker, a suffix marker or the point.
pub open spec fn is_number_char(c: char) -> bool {
    is_digit(c) || c == '+' || c == '-' || c == 'e' || c == 'E' || c == 'u' || c == 'i' || c
        == 'f' || c == '.'
}

/// A character that ends the word being accumulated and then acts as it
/// does in the `Normal` state.
pub open spec fn is_terminator(c: char) -> bool {
    c == ';' || c == '"' || c == '(' || c == ')' || is_whitespace(c)
}

/// What the lexer holds between two characters.
pub struct LexState {
    pub mode: State,
    pub word: Seq<char>,
    pub tokens: Seq<SpecToken>,
}

impl LexState {
    /// The state before the first character.
    pub open spec fn initial() -> LexState {
        LexState { mode: State::Normal, word: Seq::empty(), tokens: Seq::empty() }
    }

    /// Only the word-building states hold a word.
    pub open spec fn wf(self) -> bool {
        self.word.len() > 0 ==> (self.mode == State::Symbol || self.mode == State::Number
            || self.mode == State::String)
    }

    pub open spec fn with_mode(self, mode: State) -> LexState {
        LexState { mode, ..self }
    }

    pub open spec fn with_char(self, c: char) -> LexState {
        LexState { word: self.word.push(c), ..self }
    }

    pub open spec fn with_token(self, token: SpecToken) -> LexState {
        if token == SpecToken::Nil {
            self
        } else {
            LexState { tokens: self.tokens.push(token), ..self }
        }
    }

    /// The token that the accumulated word makes in this state.
    pub open spec fn word_token(self) -> SpecToken {
        match self.mode {
            State::Symbol => SpecToken::Symbol(self.word),
            State::Number => SpecToken::Number(self.word),
            State::String => SpecToken::String(self.word),
            _ => SpecToken::Nil,
        }
    }

    /// Flushing: an empty word is left alone; otherwise the word is emitted
    /// as a token tagged by the current state, and cleared.
    pub open spec fn flush(self) -> LexState {
        if self.word.len() == 0 {
            self
        } else {
            LexState {
                word: Seq::empty(),
                tokens: self.tokens.push(self.word_token()),
                mode: self.mode,
            }
        }
    }

    /// The `Normal` state's transition: the state afterwards and the token
    /// handed back.
    pub open spec fn normal_step(self, c: char) -> Result<(LexState, SpecToken), LexError> {
        if c == ';' {
            Ok((self.with_mode(State::Comment), SpecToken::Nil))
        } else if c == '"' {
            Ok((self.with_mode(State::String), SpecToken::Nil))
        } else if c == '(' {
            Ok((self.with_mode(State::Normal), SpecToken::OpenParen))
        } else if c == ')' {
            Ok((self.with_mode(State::Normal), SpecToken::CloseParen))
        } else if is_symbol_start(c) {
            Ok((self.with_char(c).with_mode(State::Symbol), SpecToken::Nil))
        } else if is_digit(c) {
            Ok((self.with_char(c).with_mode(State::Number), SpecToken::Nil))
        } else if is_whitespace(c) {
            Ok((self.with_mode(State::Normal), SpecToken::Nil))
        } else {
            Err(LexError::InvalidInput { state: State::Normal, ch: c })
        }
    }

    /// The `Symbol` state's transition: symbol characters accumulate; a
    /// terminator flushes the word and then acts as in the `Normal` state.
    pub open spec fn symbol_step(self, c: char) -> Result<(LexState, SpecToken), LexError> {
        if is_terminator(c) {
            self.flush().with_mode(State::Normal).normal_step(c)
        } else if is_symbol_char(c) {
            Ok((self.with_char(c), SpecToken::Nil))
        } else {
            Err(LexError::InvalidInput { state: State::Symbol, ch: c })
        }
    }

    /// The `Number` state's transition: number characters accumulate; a
    /// terminator flushes the word and then acts as in the `Normal` state.
    pub open spec fn number_step(self, c: char) -> Result<(LexState, SpecToken), LexError> {
        if is_terminator(c) {
            self.flush().with_mode(State::Normal).normal_step(c)
        } else if is_number_char(c) {
            Ok((self.with_char(c), SpecToken::Nil))
        } else {
            Err(LexError::InvalidInput { state: State::Number, ch: c })
        }
    }

    /// The `Comment` state's transition: everything up to and including the
    /// newline is discarded.
    pub open spec fn comment_step(self, c: char) -> (LexState, SpecToken) {
        if c == '\n' {
            (self.with_mode(State::Normal), SpecToken::Nil)
        } else {
            (self, SpecToken::Nil)
        }
    }

    /// The transition of the current state on `c`.
    pub open spec fn dispatch(self, c: char) -> Result<(LexState, SpecToken), LexError> {
        match self.mode {
            State::Normal => self.normal_step(c),
            State::Symbol => self.symbol_step(c),
            State::String => Err(LexError::StringNotImplemented),
            State::Escape => Err(LexError::EscapeNotImplemented),
            State::Number => self.number_step(c),
            State::Comment => Ok(self.comment_step(c)),
        }
    }

    /// One character: the transition, then the token it handed back is
    /// emitted unless it is the `Nil` marker.
    pub open spec fn step(self, c: char) -> Result<LexState, LexError> {
        match self.dispatch(c) {
            Ok((next, token)) => Ok(next.with_token(token)),
            Err(e) => Err(e),
        }
    }
}

/// Where a run over some characters stopped: the state reached, and the
/// error if a character was refused. After an error nothing more is read.
pub struct Run {
    pub state: LexState,
    pub error: Option<LexError>,
}

/// Runs the machine from `start` over `chars`, first character first,
/// stopping at the first character that is refused.
pub open spec fn run(start: LexState, chars: Seq<char>) -> Run
    decreases chars.len(),
{
    if chars.len() == 0 {
        Run { state: start, error: None }
    } else {
        let before = run(start, chars.drop_last());
        if before.error is Some {
            before
        } else {
            match before.state.step(chars.last()) {
                Ok(next) => Run { state: next, error: None },
                Err(e) => Run { state: before.state, error: Some(e) },
            }
        }
    }
}

/// What a run reports: the tokens emitted, or the error.
pub open spec fn outcome(r: Run) -> Result<Seq<SpecToken>, LexError> {
    match r.error {
        Some(e) => Err(e),
        None => Ok(r.state.tokens),
    }
}

/// The tokens of `text`, or the first lexical error. A word that is still
/// being accumulated when the text ends is not emitted: only a terminator
/// flushes.
pub open spec fn lex(text: Seq<char>) -> Result<Seq<SpecToken>, LexError> {
    outcome(run(LexState::initial(), text))
}

/// Whether a result reports what the model says: the same tokens, or the
/// message of the same error.
pub open spec fn reports(
    r: Result<&[Token], String>,
    model: Result<Seq<SpecToken>, LexError>,
) -> bool {
    match model {
        Ok(tokens) => r matches Ok(v) && tokens_view(v@) == tokens,
        Err(e) => r matches Err(m) && m@ == e.message(),
    }
}

fn invalid_input(state: State, c: char) -> (m: String)
    requires
        state == State::Normal || state == State::Symbol || state == State::Number,
    ensures
        m@ == (LexError::InvalidInput { state, ch: c }).message(),
{
    let mut m = String::from_str("invalid input in ");
    match state {
        State::Normal => m.append("normal"),
        State::Symbol => m.append("symbol"),
        _ => m.append("number"),
    }
    m.append(" state: ");
    m.push(c);
    m.append(" (");
    push_hex(&mut m, c as u64);
    m.append(")");
    m
}

fn char_is_whitespace(c: char) -> (r: bool)
    ensures
        r == is_whitespace(c),
{
    c == ' ' || c == '\t' || c == '\r' || c == '\n' || c == '\x1f'
}

fn char_is_digit(c: char) -> (r: bool)
    ensures
        r == is_digit(c),
{
    '0' <= c && c <= '9'
}

fn char_is_symbol_start(c: char) -> (r: bool)
    ensures
        r == is_symbol_start(c),
{
    ('a' <= c && c <= 'z') || ('A' <= c && c <= 'Z') || c == '[' || c == ']' || c == '.' || c
        == '+' || c == '-' || c == '*' || c == '/' || c == '&' || c == '|' || c == '^' || c == '$'
        || c == '!' || c == ':' || c == '?' || c == '\''
}

fn char_is_number_char(c: char) -> (r: bool)
    ensures
        r == is_number_char(c),
{
    char_is_digit(c) || c == '+' || c == '-' || c == 'e' || c == 'E' || c == 'u' || c == 'i' || c
        == 'f' || c == '.'
}

fn char_is_terminator(c: char) -> (r: bool)
    ensures
        r == is_terminator(c),
{
    c == ';' || c == '"' || c == '(' || c == ')' || char_is_whitespace(c)
}

/// The lexer over one input text.
pub struct Lexer<'a> {
    input: &'a str,
    word: String,
    tokens: Vec<Token>,
    state: State,
}

impl<'a> View for Lexer<'a> {
    type V = LexState;

    closed spec fn view(&self) -> LexState {
        LexState { mode: self.state, word: self.word@, tokens: tokens_view(self.tokens@) }
    }
}

impl<'a> Lexer<'a> {
    /// The text this lexer reads.
    pub closed spec fn input(&self) -> Seq<char> {
        self.input@
    }

    pub fn new(s: &'a str) -> (lexer: Lexer<'a>)
        ensures
            lexer@ == LexState::initial(),
            lexer.input() == s@,
    {
        let lexer = Lexer { input: s, word: String::new(), tokens: Vec::new(), state: State::Normal };
        assert(tokens_view(lexer.tokens@) =~= Seq::empty());
        lexer
    }

    /// The state the machine is in.
    pub fn state(&self) -> (state: State)
        ensures
            state == self@.mode,
    {
        self.state
    }

    /// The word accumulated so far.
    pub fn word(&self) -> (word: &str)
        ensures
            word@ == self@.word,
    {
        self.word.as_str()
    }

    /// The tokens emitted so far.
    pub fn tokens(&self) -> (tokens: &[Token])
        ensures
            tokens_view(tokens@) == self@.tokens,
    {
        self.tokens.as_slice()
    }

    /// Runs the machine over the whole input, from the state the lexer is
    /// in, and hands back every token emitted so far.
    pub fn scan<'b>(&'b mut self) -> (r: Result<&'b [Token], String>)
        requires
            old(self)@.wf(),
        ensures
            final(self).input() == old(self).input(),
            final(self)@ == run(old(self)@, old(self).input()).state,
            final(self)@.wf(),
            reports(r, outcome(run(old(self)@, old(self).input()))),
    {
        let input = self.input;
        let ghost start = self@;
        let ghost text = self.input();
        for c in it: input.chars()
            invariant
                start == old(self)@,
                text == old(self).input(),
                it.seq() == text,
                self.input() == text,
                self@.wf(),
                run(start, text.take(it.index() as int)) == (Run { state: self@, error: None }),
        {
            let ghost i = it.index();
            assert(text.take(i + 1).drop_last() =~= text.take(i));
            let r = match self.state {
                State::Normal => self.scan_normal(c),
                State::Symbol => self.scan_symbol(c),
                State::String => self.scan_string(c),
                State::Escape => self.scan_escape(c),
                State::Number => self.scan_number(c),
                State::Comment => self.scan_comment(c),
            };
            match r {
                Ok(Token::Nil) => {},
                Ok(x) => {
                    assert(tokens_view(self.tokens@.push(x)) =~= tokens_view(self.tokens@).push(x@));
                    self.tokens.push(x);
                },
                Err(x) => {
                    proof {
                        lemma_run_error_extends(start, text, i + 1);
                    }
                    return Err(x);
                },
            }
        }
        assert(text.take(text.len() as int) =~= text);
        Ok(self.tokens.as_slice())
    }

    /// The `Normal` state's transition on `c`.
    pub fn scan_normal(&mut self, c: char) -> (r: Result<Token, String>)
        requires
            old(self)@.mode == State::Normal,
            old(self)@.wf(),
        ensures
            final(self).input() == old(self).input(),
            final(self)@.wf(),
            match old(self)@.normal_step(c) {
                Ok((next, token)) => r matches Ok(t) && t@ == token && final(self)@ == next,
                Err(e) => r matches Err(m) && m@ == e.message() && final(self)@ == old(self)@,
            },
    {
        if c == ';' {
            self.state = State::Comment;
            Ok(Token::Nil)
        } else if c == '"' {
            self.state = State::String;
            Ok(Token::Nil)
        } else if c == '(' {
            self.state = State::Normal;
            Ok(Token::OpenParen)
        } else if c == ')' {
            self.state = State::Normal;
            Ok(Token::CloseParen)
        } else if char_is_symbol_start(c) {
            self.word.push(c);
            self.state = State::Symbol;
            Ok(Token::Nil)
        } else if char_is_digit(c) {
            self.word.push(c);
            self.state = State::Number;
            Ok(Token::Nil)
        } else if char_is_whitespace(c) {
            self.state = State::Normal;
            Ok(Token::Nil)
        } else {
            Err(invalid_input(State::Normal, c))
        }
    }

    /// The `Symbol` state's transition on `c`.
    pub fn scan_symbol(&mut self, c: char) -> (r: Result<Token, String>)
        requires
            old(self)@.mode == State::Symbol,
        ensures
            final(self).input() == old(self).input(),
            final(self)@.wf(),
            match old(self)@.symbol_step(c) {
                Ok((next, token)) => r matches Ok(t) && t@ == token && final(self)@ == next,
                Err(e) => r matches Err(m) && m@ == e.message() && final(self)@ == old(self)@,
            },
    {
        if char_is_terminator(c) {
            self.push_token();
            self.state = State::Normal;
            self.scan_normal(c)
        } else if char_is_symbol_start(c) || char_is_digit(c) {
            self.word.push(c);
            Ok(Token::Nil)
        } else {
            Err(invalid_input(State::Symbol, c))
        }
    }

    /// The `String` state is not implemented: every character is refused.
    pub fn scan_string(&mut self, c: char) -> (r: Result<Token, String>)
        ensures
            *final(self) == *old(self),
            r matches Err(m) && m@ == LexError::StringNotImplemented.message(),
    {
        Err(String::from_str("scan_string not implemented"))
    }

    /// The `Escape` state is not implemented: every character is refused.
    pub fn scan_escape(&mut self, c: char) -> (r: Result<Token, String>)
        ensures
            *final(self) == *old(self),
            r matches Err(m) && m@ == LexError::EscapeNotImplemented.message(),
    {
        Err(String::from_str("scan_escape not implemented"))
    }

    /// The `Number` state's transition on `c`.
    pub fn scan_number(&mut self, c: char) -> (r: Result<Token, String>)
        requires
            old(self)@.mode == State::Number,
        ensures
            final(self).input() == old(self).input(),
            final(self)@.wf(),
            match old(self)@.number_step(c) {
                Ok((next, token)) => r matches Ok(t) && t@ == token && final(self)@ == next,
                Err(e) => r matches Err(m) && m@ == e.message() && final(self)@ == old(self)@,
            },
    {
        if char_is_terminator(c) {
            self.push_token();
            self.state = State::Normal;
            self.scan_normal(c)
        } else if char_is_number_char(c) {
            self.word.push(c);
            Ok(Token::Nil)
        } else {
            Err(invalid_input(State::Number, c))
        }
    }

    /// The `Comment` state's transition on `c`.
    pub fn scan_comment(&mut self, c: char) -> (r: Result<Token, String>)
        requires
            old(self)@.mode == State::Comment,
            old(self)@.wf(),
        ensures
            final(self).input() == old(self).input(),
            final(self)@.wf(),
            r matches Ok(t) && (final(self)@, t@) == old(self)@.comment_step(c),
    {
        if c == '\n' {
            self.state = State::Normal;
        }
        Ok(Token::Nil)
    }

    /// Flushes the accumulated word, if there is one, as a token tagged by
    /// the current state.
    pub fn push_token(&mut self)
        requires
            old(self)@.wf(),
        ensures
            final(self)@.wf(),
            final(self).input() == old(self).input(),
            final(self)@ == old(self)@.flush(),
    {
        if self.word.as_str().is_empty() {
            return ;
        }
        let mut word = String::new();
        std::mem::swap(&mut word, &mut self.word);
        let token = match self.state {
            State::Symbol => Token::Symbol(word),
            State::Number => Token::Number(word),
            _ => Token::String(word),
        };
        assert(tokens_view(self.tokens@.push(token)) =~= tokens_view(self.tokens@).push(token@));
        self.tokens.push(token);
    }
}

/// Once a run has stopped at an error, reading on changes nothing.
pub proof fn lemma_run_error_extends(start: LexState, chars: Seq<char>, n: int)
    requires
        0 <= n <= chars.len(),
        run(start, chars.take(n)).error is Some,
    ensures
        run(start, chars) == run(start, chars.take(n)),
    decreases chars.len() - n,
{
    if n == chars.len() {
        assert(chars.take(n) =~= chars);
    } else {
        assert(chars.take(n + 1).drop_last() =~= chars.take(n));
        lemma_run_error_extends(start, chars, n + 1);
    }
}

} // verus!
