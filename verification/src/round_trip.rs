//! Writing a tree as text and reading it back: the lexer and the parser
//! together recover the tree, with its nesting and its members intact.

use vstd::prelude::*;
use crate::lexer::{
    is_digit, is_symbol_char, is_symbol_start, lex, run, LexError, LexState, Run, SpecToken, State,
};
use crate::number::{
    digits_from, i64_text_value, lemma_decimal_digits_value, lemma_integer_text_round_trip,
};
use crate::parser::{parse_form, parse_items, parse_tokens, ParseError, SpecNode};
use crate::text::{decimal, decimal_digits};

verus! {

/// A text that the lexer reads as one symbol: a symbol-start character,
/// then symbol characters.
pub open spec fn is_symbol_word(name: Seq<char>) -> bool {
    &&& name.len() > 0
    &&& is_symbol_start(name[0])
    &&& forall|i: int| 0 <= i < name.len() ==> is_symbol_char(#[trigger] name[i])
}

/// A tree of lists, symbols and non-negative integers: what can be
/// written down so that reading gives it back. (A negative integer would
/// be written with a leading `-`, which begins a symbol.)
pub open spec fn writable(node: SpecNode) -> bool
    decreases node,
{
    match node {
        SpecNode::Symbol(name) => is_symbol_word(name),
        SpecNode::IntLiteral(i) => i >= 0,
        SpecNode::List(children) => forall|i: int|
            0 <= i < children.len() ==> writable(#[trigger] children[i]),
        _ => false,
    }
}

/// The text of a tree: a symbol by its name, an integer in decimal, a list
/// in parentheses with one space between its members.
pub open spec fn written(node: SpecNode) -> Seq<char>
    decreases node, 0int,
{
    match node {
        SpecNode::Symbol(name) => name,
        SpecNode::IntLiteral(i) => decimal(i as int),
        SpecNode::List(children) => seq!['('] + written_members(children, children.len() as int)
            + seq![')'],
        _ => Seq::empty(),
    }
}

/// The text of the first `k` members, with one space between neighbours.
pub open spec fn written_members(children: Seq<SpecNode>, k: int) -> Seq<char>
    decreases children, k,
{
    if k <= 0 || k > children.len() {
        Seq::empty()
    } else if k == 1 {
        written(children[0])
    } else {
        written_members(children, k - 1) + seq![' '] + written(children[k - 1])
    }
}

/// The tokens of a tree: one for a symbol or an integer; for a list the
/// parentheses around the tokens of its members.
pub open spec fn tokens_of(node: SpecNode) -> Seq<SpecToken>
    decreases node, 0int,
{
    match node {
        SpecNode::Symbol(name) => seq![SpecToken::Symbol(name)],
        SpecNode::IntLiteral(i) => seq![SpecToken::Number(decimal(i as int))],
        SpecNode::List(children) => seq![SpecToken::OpenParen] + tokens_of_members(
            children,
            children.len() as int,
        ) + seq![SpecToken::CloseParen],
        _ => Seq::empty(),
    }
}

/// The tokens of the first `k` members, in order.
pub open spec fn tokens_of_members(children: Seq<SpecNode>, k: int) -> Seq<SpecToken>
    decreases children, k,
{
    if k <= 0 || k > children.len() {
        Seq::empty()
    } else {
        tokens_of_members(children, k - 1) + tokens_of(children[k - 1])
    }
}

/// Reading on from where a run without error stopped is the run over both
/// texts.
pub proof fn lemma_run_concat(start: LexState, a: Seq<char>, b: Seq<char>)
    requires
        run(start, a).error is None,
    ensures
        run(start, a + b) == run(run(start, a).state, b),
    decreases b.len(),
{
    if b.len() == 0 {
        assert(a + b =~= a);
    } else {
        assert((a + b).drop_last() =~= a + b.drop_last());
        assert((a + b).last() == b.last());
        lemma_run_concat(start, a, b.drop_last());
    }
}

/// A run over one character is one step.
pub proof fn lemma_run_one(start: LexState, c: char)
    ensures
        run(start, seq![c]) == match start.step(c) {
            Ok(next) => Run { state: next, error: None },
            Err(e) => Run { state: start, error: Some(e) },
        },
{
    assert(seq![c].drop_last() =~= Seq::<char>::empty());
    assert(seq![c].last() == c);
    reveal_with_fuel(run, 2);
}

/// Nothing is being accumulated: the machine is in the `Normal` state
/// with an empty word.
pub open spec fn at_rest(st: LexState) -> bool {
    st.mode == State::Normal && st.word.len() == 0
}

/// The machine stands between two members of a list: at rest, or holding
/// the word of the member just read.
pub open spec fn between_members(st: LexState) -> bool {
    at_rest(st) || ((st.mode == State::Symbol || st.mode == State::Number) && st.word.len() > 0)
}

proof fn lemma_run_symbol_word(start: LexState, name: Seq<char>, k: int)
    requires
        at_rest(start),
        is_symbol_word(name),
        1 <= k <= name.len(),
    ensures
        run(start, name.take(k)).error is None,
        run(start, name.take(k)).state.mode == State::Symbol,
        run(start, name.take(k)).state.word == start.word + name.take(k),
        run(start, name.take(k)).state.tokens == start.tokens,
    decreases k,
{
    assert(name.take(k).drop_last() =~= name.take(k - 1));
    assert(name.take(k).last() == name[k - 1]);
    assert(is_symbol_char(name[k - 1]));
    if k == 1 {
        assert(name.take(0) =~= Seq::<char>::empty());
        assert(start.word.push(name[0]) =~= start.word + name.take(1));
    } else {
        lemma_run_symbol_word(start, name, k - 1);
        assert((start.word + name.take(k - 1)).push(name[k - 1]) =~= start.word + name.take(k));
    }
}

proof fn lemma_run_digits(start: LexState, digits: Seq<char>, k: int)
    requires
        at_rest(start),
        digits_from(digits, 0),
        1 <= k <= digits.len(),
    ensures
        run(start, digits.take(k)).error is None,
        run(start, digits.take(k)).state.mode == State::Number,
        run(start, digits.take(k)).state.word == start.word + digits.take(k),
        run(start, digits.take(k)).state.tokens == start.tokens,
    decreases k,
{
    assert(digits.take(k).drop_last() =~= digits.take(k - 1));
    assert(digits.take(k).last() == digits[k - 1]);
    assert(is_digit(digits[k - 1]));
    if k == 1 {
        assert(digits.take(0) =~= Seq::<char>::empty());
        assert(start.word.push(digits[0]) =~= start.word + digits.take(1));
    } else {
        lemma_run_digits(start, digits, k - 1);
        assert((start.word + digits.take(k - 1)).push(digits[k - 1]) =~= start.word + digits.take(
            k,
        ));
    }
}

/// From rest, the text of a writable tree is read without error; what was
/// read is emitted once the word in hand, if any, is flushed; and after a
/// list the machine is at rest again.
pub proof fn lemma_run_written(start: LexState, node: SpecNode)
    requires
        at_rest(start),
        writable(node),
    ensures
        run(start, written(node)).error is None,
        between_members(run(start, written(node)).state),
        run(start, written(node)).state.flush().tokens == start.tokens + tokens_of(node),
        node is List ==> at_rest(run(start, written(node)).state),
    decreases node, 0int,
{
    match node {
        SpecNode::Symbol(name) => {
            lemma_run_symbol_word(start, name, name.len() as int);
            assert(name.take(name.len() as int) =~= name);
            assert(start.word + name =~= name);
            let end = run(start, name).state;
            assert(end.flush().tokens =~= start.tokens + tokens_of(node));
        },
        SpecNode::IntLiteral(i) => {
            let digits = decimal_digits(i as nat);
            lemma_decimal_digits_value(i as nat);
            lemma_run_digits(start, digits, digits.len() as int);
            assert(digits.take(digits.len() as int) =~= digits);
            assert(start.word + digits =~= digits);
            let end = run(start, digits).state;
            assert(end.flush().tokens =~= start.tokens + tokens_of(node));
        },
        SpecNode::List(children) => {
            let n = children.len() as int;
            let open = seq!['('];
            let inner = written_members(children, n);
            let close = seq![')'];
            lemma_run_one(start, '(');
            let opened = run(start, open).state;
            assert(opened.tokens == start.tokens.push(SpecToken::OpenParen));
            lemma_run_members(opened, children, n);
            lemma_run_concat(start, open, inner);
            let filled = run(start, open + inner).state;
            lemma_run_one(filled, ')');
            lemma_run_concat(start, open + inner, close);
            let end = run(start, written(node)).state;
            assert(end.tokens =~= start.tokens + tokens_of(node));
        },
        _ => {},
    }
}

/// From rest, the text of the first `k` members is read without error,
/// and leaves the machine between members with their tokens emitted or in
/// hand.
pub proof fn lemma_run_members(start: LexState, children: Seq<SpecNode>, k: int)
    requires
        at_rest(start),
        forall|i: int| 0 <= i < children.len() ==> writable(#[trigger] children[i]),
        0 <= k <= children.len(),
    ensures
        run(start, written_members(children, k)).error is None,
        between_members(run(start, written_members(children, k)).state),
        run(start, written_members(children, k)).state.flush().tokens == start.tokens
            + tokens_of_members(children, k),
    decreases children, k,
{
    if k == 0 {
        assert(start.flush().tokens =~= start.tokens + tokens_of_members(children, 0));
    } else if k == 1 {
        lemma_run_written(start, children[0]);
        assert(tokens_of_members(children, 0) =~= Seq::<SpecToken>::empty());
        assert(tokens_of_members(children, 1) =~= tokens_of(children[0]));
    } else {
        let front = written_members(children, k - 1);
        let gap = seq![' '];
        let last = written(children[k - 1]);
        lemma_run_members(start, children, k - 1);
        let before = run(start, front).state;
        lemma_run_one(before, ' ');
        lemma_run_concat(start, front, gap);
        let rested = run(start, front + gap).state;
        assert(at_rest(rested));
        assert(rested.tokens == before.flush().tokens);
        lemma_run_written(rested, children[k - 1]);
        lemma_run_concat(start, front + gap, last);
        let end = run(start, written_members(children, k)).state;
        assert(end.flush().tokens =~= start.tokens + tokens_of_members(children, k));
    }
}

/// The tokens `part` stand in `tokens` from position `pos` on.
pub open spec fn stands_at(tokens: Seq<SpecToken>, pos: int, part: Seq<SpecToken>) -> bool {
    &&& 0 <= pos
    &&& pos + part.len() <= tokens.len()
    &&& forall|j: int| 0 <= j < part.len() ==> tokens[pos + j] == #[trigger] part[j]
}

/// A writable tree has at least one token, and its first token begins a
/// form.
pub proof fn lemma_first_token(node: SpecNode)
    requires
        writable(node),
    ensures
        tokens_of(node).len() > 0,
        tokens_of(node)[0] is OpenParen || tokens_of(node)[0] is Symbol || tokens_of(node)[0]
            is Number,
{
}

/// The tokens of fewer members are the beginning of the tokens of more.
pub proof fn lemma_members_prefix(children: Seq<SpecNode>, k: int, n: int)
    requires
        0 <= k <= n <= children.len(),
    ensures
        tokens_of_members(children, k).len() <= tokens_of_members(children, n).len(),
        forall|j: int|
            0 <= j < tokens_of_members(children, k).len() ==> tokens_of_members(children, n)[j]
                == #[trigger] tokens_of_members(children, k)[j],
    decreases n - k,
{
    if k < n {
        lemma_members_prefix(children, k, n - 1);
    }
}

/// Where the tokens of a writable tree stand, the parser reads the tree
/// and stops right after them.
pub proof fn lemma_parse_written(tokens: Seq<SpecToken>, pos: int, node: SpecNode)
    requires
        writable(node),
        stands_at(tokens, pos, tokens_of(node)),
    ensures
        parse_form(tokens, pos) == Ok::<(SpecNode, int), ParseError>(
            (node, pos + tokens_of(node).len()),
        ),
    decreases node, 0int,
{
    let part = tokens_of(node);
    assert(tokens[pos + 0] == part[0]);
    match node {
        SpecNode::Symbol(name) => {},
        SpecNode::IntLiteral(i) => {
            lemma_integer_text_round_trip(i as int);
            assert(i64_text_value(decimal(i as int)) == Some(i));
        },
        SpecNode::List(children) => {
            lemma_parse_members(tokens, pos, children, 0);
            assert(children.take(0) =~= Seq::<SpecNode>::empty());
        },
        _ => {},
    }
}

/// Within the tokens of a writable list, once the first `k` members have
/// been read the parser reads the rest of the list and stops right after
/// its closing parenthesis.
pub proof fn lemma_parse_members(
    tokens: Seq<SpecToken>,
    pos: int,
    children: Seq<SpecNode>,
    k: int,
)
    requires
        forall|i: int| 0 <= i < children.len() ==> writable(#[trigger] children[i]),
        stands_at(tokens, pos, tokens_of(SpecNode::List(children))),
        0 <= k <= children.len(),
    ensures
        parse_items(
            tokens,
            pos + 1 + tokens_of_members(children, k).len(),
            children.take(k),
        ) == Ok::<(SpecNode, int), ParseError>(
            (SpecNode::List(children), pos + tokens_of(SpecNode::List(children)).len()),
        ),
    decreases children, children.len() - k,
{
    let n = children.len() as int;
    let list = SpecNode::List(children);
    let part = tokens_of(list);
    let all = tokens_of_members(children, n);
    let at = pos + 1 + tokens_of_members(children, k).len();
    assert(part.len() == all.len() + 2);
    lemma_members_prefix(children, k, n);
    if k == n {
        let last = 1 + all.len() as int;
        assert(tokens[pos + last] == part[last]);
        assert(part[last] == SpecToken::CloseParen);
        assert(children.take(k) =~= children);
    } else {
        let member = children[k];
        let member_tokens = tokens_of(member);
        lemma_first_token(member);
        lemma_members_prefix(children, k + 1, n);
        let off = tokens_of_members(children, k).len() as int;
        assert(tokens_of_members(children, k + 1) == tokens_of_members(children, k)
            + member_tokens);
        assert(stands_at(tokens, at, member_tokens)) by {
            assert forall|j: int| 0 <= j < member_tokens.len() implies tokens[at + j]
                == #[trigger] member_tokens[j] by {
                assert(tokens_of_members(children, k + 1)[off + j] == member_tokens[j]);
                assert(all[off + j] == tokens_of_members(children, k + 1)[off + j]);
                assert(part[1 + off + j] == all[off + j]);
                assert(tokens[pos + (1 + off + j)] == part[1 + off + j]);
            }
        }
        assert(tokens[at + 0] == member_tokens[0]);
        lemma_parse_written(tokens, at, member);
        lemma_parse_members(tokens, pos, children, k + 1);
        assert(children.take(k).push(member) =~= children.take(k + 1));
    }
}

/// Writing a tree of lists, symbols and non-negative integers and reading
/// the text back gives the same tree: lexing the text gives the tree's
/// tokens, and parsing those gives the tree, every list with the same
/// members at the same depth.
pub proof fn lemma_round_trip(node: SpecNode)
    requires
        node is List,
        writable(node),
    ensures
        lex(written(node)) == Ok::<Seq<SpecToken>, LexError>(tokens_of(node)),
        parse_tokens(tokens_of(node)) == Ok::<SpecNode, ParseError>(node),
{
    let start = LexState::initial();
    lemma_run_written(start, node);
    let end = run(start, written(node)).state;
    assert(end.tokens =~= tokens_of(node));
    lemma_parse_written(tokens_of(node), 0, node);
}

} // verus!
