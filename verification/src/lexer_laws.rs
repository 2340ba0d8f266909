//! Properties of the lexer that hold of every input.

use vstd::prelude::*;
use crate::lexer::{is_whitespace, lemma_run_error_extends, lex, run, LexError, LexState, Run, SpecToken, State};

verus! {

/// A state the machine can be in between two characters of a run that
/// began in the initial state: well-formed, and never in `Escape`, which
/// no transition enters.
pub open spec fn reachable(st: LexState) -> bool {
    st.wf() && st.mode != State::Escape
}

/// One accepted character leads from a reachable state to a reachable one.
pub proof fn lemma_step_reachable(st: LexState, c: char)
    requires
        reachable(st),
        st.step(c) is Ok,
    ensures
        reachable(st.step(c)->Ok_0),
{
}

/// A run that begins in a reachable state stops in a reachable state.
pub proof fn lemma_run_reachable(start: LexState, chars: Seq<char>)
    requires
        reachable(start),
    ensures
        reachable(run(start, chars).state),
    decreases chars.len(),
{
    if chars.len() > 0 {
        lemma_run_reachable(start, chars.drop_last());
        let before = run(start, chars.drop_last());
        if before.error is None && before.state.step(chars.last()) is Ok {
            lemma_step_reachable(before.state, chars.last());
        }
    }
}

/// A double quote outside a comment, after a prefix that lexes, makes
/// lexing fail with the "not implemented" error of the `String` state as
/// soon as one more character follows it.
pub proof fn lemma_quote_is_refused(text: Seq<char>, i: int)
    requires
        0 <= i,
        i + 1 < text.len(),
        text[i] == '"',
        run(LexState::initial(), text.take(i)).error is None,
        run(LexState::initial(), text.take(i)).state.mode != State::Comment,
    ensures
        lex(text) == Err::<Seq<SpecToken>, LexError>(LexError::StringNotImplemented),
{
    let start = LexState::initial();
    let before = run(start, text.take(i));
    lemma_run_reachable(start, text.take(i));
    assert(text.take(i + 1).drop_last() =~= text.take(i));
    assert(text.take(i + 2).drop_last() =~= text.take(i + 1));
    let at_quote = run(start, text.take(i + 1));
    if at_quote.error is Some {
        assert(at_quote.error == Some(LexError::StringNotImplemented));
        lemma_run_error_extends(start, text, i + 1);
    } else {
        assert(at_quote.state.mode == State::String);
        let after = run(start, text.take(i + 2));
        assert(after.error == Some(LexError::StringNotImplemented));
        lemma_run_error_extends(start, text, i + 2);
    }
}

/// A text without a double quote never meets the `String` state: whatever
/// lexing reports, it is not one of the "not implemented" errors.
pub proof fn lemma_no_quote_no_string_error(text: Seq<char>)
    requires
        forall|i: int| 0 <= i < text.len() ==> text[i] != '"',
    ensures
        lex(text) != Err::<Seq<SpecToken>, LexError>(LexError::StringNotImplemented),
        lex(text) != Err::<Seq<SpecToken>, LexError>(LexError::EscapeNotImplemented),
{
    lemma_no_quote_run(text, text.len() as int);
    assert(text.take(text.len() as int) =~= text);
}

proof fn lemma_no_quote_run(text: Seq<char>, n: int)
    requires
        0 <= n <= text.len(),
        forall|i: int| 0 <= i < text.len() ==> text[i] != '"',
    ensures
        ({
            let r = run(LexState::initial(), text.take(n));
            &&& reachable(r.state)
            &&& r.state.mode != State::String
            &&& r.error != Some(LexError::StringNotImplemented)
            &&& r.error != Some(LexError::EscapeNotImplemented)
        }),
    decreases n,
{
    if n > 0 {
        lemma_no_quote_run(text, n - 1);
        assert(text.take(n).drop_last() =~= text.take(n - 1));
        assert(text.take(n).last() == text[n - 1]);
    }
}

/// No newline stands at the positions from `from` up to, not including,
/// `to`.
pub open spec fn no_newline(text: Seq<char>, from: int, to: int) -> bool {
    forall|k: int| from <= k < to ==> #[trigger] text[k] != '\n'
}

/// A semicolon stands at `j`, at or before `i`, with no newline between
/// the two: the comment it starts reaches `i`.
pub open spec fn comment_covers(text: Seq<char>, j: int, i: int) -> bool {
    0 <= j <= i && text[j] == ';' && no_newline(text, j, i)
}

/// Position `i` lies in a comment: from a semicolon up to the next
/// newline, both included.
pub open spec fn in_comment(text: Seq<char>, i: int) -> bool {
    exists|j: int| comment_covers(text, j, i)
}

/// The text holds nothing but whitespace and comments.
pub open spec fn is_blank(text: Seq<char>) -> bool {
    forall|i: int| 0 <= i < text.len() ==> is_whitespace(#[trigger] text[i]) || in_comment(text, i)
}

/// After `n` characters a comment is still open.
spec fn comment_open(text: Seq<char>, n: int) -> bool {
    n > 0 && in_comment(text, n - 1) && text[n - 1] != '\n'
}

proof fn lemma_blank_run(text: Seq<char>, n: int)
    requires
        is_blank(text),
        0 <= n <= text.len(),
    ensures
        run(LexState::initial(), text.take(n)) == (Run {
            state: LexState {
                mode: if comment_open(text, n) {
                    State::Comment
                } else {
                    State::Normal
                },
                word: Seq::empty(),
                tokens: Seq::empty(),
            },
            error: None,
        }),
    decreases n,
{
    if n > 0 {
        let m = n - 1;
        lemma_blank_run(text, m);
        assert(text.take(n).drop_last() =~= text.take(m));
        let c = text[m];
        assert(text.take(n).last() == c);
        assert(is_whitespace(text[m]) || in_comment(text, m));
        if comment_open(text, m) {
            if c != '\n' {
                let p = m - 1;
                let j = choose|j: int| comment_covers(text, j, p);
                assert(comment_covers(text, j, m));
            }
        } else {
            if in_comment(text, m) {
                let j = choose|j: int| comment_covers(text, j, m);
                if j < m {
                    assert(comment_covers(text, j, m - 1));
                    assert(text[m - 1] != '\n');
                    assert(false);
                }
                assert(c == ';');
            } else {
                assert(is_whitespace(c));
            }
        }
    }
}

/// Whitespace and comments alone lex to no tokens at all.
pub proof fn lemma_blank_lexes_to_nothing(text: Seq<char>)
    requires
        is_blank(text),
    ensures
        lex(text) == Ok::<Seq<SpecToken>, LexError>(Seq::empty()),
{
    lemma_blank_run(text, text.len() as int);
    assert(text.take(text.len() as int) =~= text);
}

} // verus!
