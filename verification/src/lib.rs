//! A small interpreter for a parenthesized symbolic-expression language:
//! a character-level lexer, a recursive-descent parser and a tree-walking
//! evaluator with chained scopes.

use vstd::prelude::*;

pub mod text;
pub mod lexer;
pub mod lexer_laws;
pub mod number;
pub mod parser;
pub mod render;
pub mod semantics;
pub mod eval;
pub mod eval_laws;
pub mod round_trip;

use crate::eval::{EvalResult, Interpreter};
use crate::lexer::{lex, LexError, Lexer};
use crate::lexer_laws::{is_blank, lemma_blank_lexes_to_nothing};
use crate::parser::{lemma_no_tokens_no_form, parse, parse_tokens, ParseError};
use crate::semantics::{eval_node, EvalError, SpecScope, SpecValue};

verus! {

/// Why reading and evaluating one text stopped: in the lexer, in the
/// parser or in the evaluator.
pub enum ReadError {
    Lex(LexError),
    Parse(ParseError),
    Eval(EvalError),
}

impl ReadError {
    pub open spec fn message(self) -> Seq<char> {
        match self {
            ReadError::Lex(e) => e.message(),
            ReadError::Parse(e) => e.message(),
            ReadError::Eval(e) => e.message(),
        }
    }
}

/// What reading and evaluating one text leaves behind.
pub struct ReadOutcome {
    pub scopes: Seq<SpecScope>,
    pub result: Result<SpecValue, ReadError>,
}

/// Lexes `text`, parses its first form and evaluates that form in the
/// global scope. The first failure of any stage ends it; a failure of the
/// lexer or of the parser leaves the scopes as they were.
pub open spec fn read_eval(scopes: Seq<SpecScope>, text: Seq<char>) -> ReadOutcome {
    match lex(text) {
        Err(e) => ReadOutcome { scopes, result: Err(ReadError::Lex(e)) },
        Ok(tokens) => match parse_tokens(tokens) {
            Err(e) => ReadOutcome { scopes, result: Err(ReadError::Parse(e)) },
            Ok(node) => {
                let out = eval_node(scopes, node, 0);
                ReadOutcome {
                    scopes: out.scopes,
                    result: match out.result {
                        Ok(value) => Ok(value),
                        Err(e) => Err(ReadError::Eval(e)),
                    },
                }
            },
        },
    }
}

/// A text of whitespace and comments alone holds no form: whatever the
/// scopes, reading it fails in the parser with the unexpected end of
/// input, and binds nothing.
pub proof fn lemma_blank_text_is_an_unexpected_end(scopes: Seq<SpecScope>, text: Seq<char>)
    requires
        is_blank(text),
    ensures
        read_eval(scopes, text) == (ReadOutcome {
            scopes,
            result: Err(ReadError::Parse(ParseError::UnexpectedEnd)),
        }),
{
    lemma_blank_lexes_to_nothing(text);
    lemma_no_tokens_no_form();
}

/// Reads one text and evaluates it against the interpreter's global scope:
/// the value, or the message of the first error.
pub fn rep(interp: &mut Interpreter, s: &str) -> (r: EvalResult)
    requires
        old(interp).wf(),
    ensures
        final(interp).wf(),
        final(interp).scopes() == read_eval(old(interp).scopes(), s@).scopes,
        final(interp).scopes().len() == old(interp).scopes().len(),
        final(interp).atoms() == old(interp).atoms(),
        match read_eval(old(interp).scopes(), s@).result {
            Ok(value) => r matches Ok(v) && v@ == value,
            Err(e) => r matches Err(m) && m@ == e.message(),
        },
{
    let mut lexer = Lexer::new(s);
    let tokens = match lexer.scan() {
        Ok(tokens) => tokens,
        Err(e) => {
            return Err(e);
        },
    };
    let ast = match parse(tokens) {
        Ok(ast) => ast,
        Err(e) => {
            return Err(e);
        },
    };
    interp.eval_globals(&ast)
}

} // verus!
