//! The parser: recursive descent over the token sequence, one form at a
//! time, with a cursor and one token of lookahead.

use vstd::prelude::*;
use crate::lexer::{tokens_view, SpecToken, Token};
use crate::number::{i64_text_value, is_float_literal, is_float_text, parse_i64};

verus! {

/// A node of the syntax tree. A floating-point literal is held as the text
/// that writes it, which follows the syntax of such a literal.
#[derive(Debug, PartialEq)]
pub enum Node {
    Nothing,
    List(Vec<Node>),
    BoolLiteral(bool),
    IntLiteral(i64),
    FloatLiteral(String),
    StringLiteral(String),
    Symbol(String),
    Funcall(Vec<Node>),
}

/// The mathematical value of a [`Node`].
pub enum SpecNode {
    Nothing,
    List(Seq<SpecNode>),
    BoolLiteral(bool),
    IntLiteral(i64),
    FloatLiteral(Seq<char>),
    StringLiteral(Seq<char>),
    Symbol(Seq<char>),
    Funcall(Seq<SpecNode>),
}

/// The value of a node: the same tree, with sequences for vectors.
pub open spec fn node_view(node: Node) -> SpecNode
    decreases node,
{
    match node {
        Node::Nothing => SpecNode::Nothing,
        Node::List(v) => SpecNode::List(
            Seq::new(
                v@.len(),
                |i: int|
                    if 0 <= i < v@.len() {
                        node_view(v@[i])
                    } else {
                        SpecNode::Nothing
                    },
            ),
        ),
        Node::BoolLiteral(b) => SpecNode::BoolLiteral(b),
        Node::IntLiteral(i) => SpecNode::IntLiteral(i),
        Node::FloatLiteral(s) => SpecNode::FloatLiteral(s@),
        Node::StringLiteral(s) => SpecNode::StringLiteral(s@),
        Node::Symbol(s) => SpecNode::Symbol(s@),
        Node::Funcall(v) => SpecNode::Funcall(
            Seq::new(
                v@.len(),
                |i: int|
                    if 0 <= i < v@.len() {
                        node_view(v@[i])
                    } else {
                        SpecNode::Nothing
                    },
            ),
        ),
    }
}

impl View for Node {
    type V = SpecNode;

    open spec fn view(&self) -> SpecNode {
        node_view(*self)
    }
}

/// The values of a sequence of nodes, in order.
pub open spec fn nodes_view(nodes: Seq<Node>) -> Seq<SpecNode> {
    Seq::new(nodes.len(), |i: int| nodes[i]@)
}

/// The view of a list node is the list of its children's views.
pub proof fn lemma_list_view(v: Vec<Node>)
    ensures
        Node::List(v)@ == SpecNode::List(nodes_view(v@)),
        Node::Funcall(v)@ == SpecNode::Funcall(nodes_view(v@)),
{
    assert(Node::List(v)@->List_0 =~= nodes_view(v@));
    assert(Node::Funcall(v)@->Funcall_0 =~= nodes_view(v@));
}

/// Why parsing stopped.
pub enum ParseError {
    /// The tokens ran out in the middle of a form.
    UnexpectedEnd,
    /// A number token whose text is neither an integer nor a
    /// floating-point literal.
    BadNumber(Seq<char>),
}

impl ParseError {
    pub open spec fn message(self) -> Seq<char> {
        match self {
            ParseError::UnexpectedEnd => "unexpected end of input"@,
            ParseError::BadNumber(text) => "couldn't parse number: "@ + text,
        }
    }
}

/// The node that a number token makes: an integer literal where the text
/// writes a 64-bit signed integer; failing that, a floating-point literal
/// where the text has the syntax of one.
pub open spec fn number_node(text: Seq<char>) -> Result<SpecNode, ParseError> {
    match i64_text_value(text) {
        Some(i) => Ok(SpecNode::IntLiteral(i)),
        None => if is_float_text(text) {
            Ok(SpecNode::FloatLiteral(text))
        } else {
            Err(ParseError::BadNumber(text))
        },
    }
}

/// Parses one form that begins at `pos`: the node, and the position after
/// its last token.
///
/// ```text
/// form := OpenParen form* CloseParen | Symbol | Number
/// ```
///
/// Any other token is a form by itself and makes `Nothing`.
pub open spec fn parse_form(tokens: Seq<SpecToken>, pos: int) -> Result<(SpecNode, int), ParseError>
    decreases tokens.len() - pos, 0int,
{
    if pos < 0 || pos >= tokens.len() {
        Err(ParseError::UnexpectedEnd)
    } else {
        match tokens[pos] {
            SpecToken::OpenParen => parse_items(tokens, pos + 1, Seq::empty()),
            SpecToken::Symbol(s) => Ok((SpecNode::Symbol(s), pos + 1)),
            SpecToken::Number(text) => match number_node(text) {
                Ok(node) => Ok((node, pos + 1)),
                Err(e) => Err(e),
            },
            _ => Ok((SpecNode::Nothing, pos + 1)),
        }
    }
}

/// Parses the rest of a list whose members so far are `items`: forms up to
/// the closing parenthesis, which is consumed. `Nil` markers between the
/// members are skipped.
pub open spec fn parse_items(tokens: Seq<SpecToken>, pos: int, items: Seq<SpecNode>) -> Result<
    (SpecNode, int),
    ParseError,
>
    decreases tokens.len() - pos, 1int,
{
    if pos < 0 || pos >= tokens.len() {
        Err(ParseError::UnexpectedEnd)
    } else {
        match tokens[pos] {
            SpecToken::Nil => parse_items(tokens, pos + 1, items),
            SpecToken::CloseParen => Ok((SpecNode::List(items), pos + 1)),
            _ => match parse_form(tokens, pos) {
                Ok((node, next)) => if pos < next <= tokens.len() {
                    parse_items(tokens, next, items.push(node))
                } else {
                    Err(ParseError::UnexpectedEnd)
                },
                Err(e) => Err(e),
            },
        }
    }
}

/// The form that `tokens` begin with. Tokens after it are ignored.
pub open spec fn parse_tokens(tokens: Seq<SpecToken>) -> Result<SpecNode, ParseError> {
    match parse_form(tokens, 0) {
        Ok((node, _)) => Ok(node),
        Err(e) => Err(e),
    }
}

/// Without tokens there is no form: parsing fails with the unexpected end
/// of input.
pub proof fn lemma_no_tokens_no_form()
    ensures
        parse_tokens(Seq::empty()) == Err::<SpecNode, ParseError>(ParseError::UnexpectedEnd),
        ParseError::UnexpectedEnd.message() == "unexpected end of input"@,
{
}

/// A form takes at least one token and ends within the tokens.
pub proof fn lemma_parse_advances(tokens: Seq<SpecToken>, pos: int)
    ensures
        parse_form(tokens, pos) matches Ok((_, next)) ==> pos < next <= tokens.len(),
    decreases tokens.len() - pos, 0int,
{
    if 0 <= pos < tokens.len() && tokens[pos] is OpenParen {
        lemma_parse_items_advances(tokens, pos + 1, Seq::empty());
    }
}

/// The rest of a list takes at least one token and ends within the tokens.
pub proof fn lemma_parse_items_advances(tokens: Seq<SpecToken>, pos: int, items: Seq<SpecNode>)
    ensures
        parse_items(tokens, pos, items) matches Ok((_, next)) ==> pos < next <= tokens.len(),
    decreases tokens.len() - pos, 1int,
{
    if 0 <= pos < tokens.len() {
        match tokens[pos] {
            SpecToken::Nil => {
                lemma_parse_items_advances(tokens, pos + 1, items);
            },
            SpecToken::CloseParen => {},
            _ => {
                lemma_parse_advances(tokens, pos);
                match parse_form(tokens, pos) {
                    Ok((node, next)) => {
                        lemma_parse_items_advances(tokens, next, items.push(node));
                    },
                    Err(_) => {},
                }
            },
        }
    }
}

fn unexpected_end() -> (m: String)
    ensures
        m@ == ParseError::UnexpectedEnd.message(),
{
    String::from_str("unexpected end of input")
}

fn next<'a>(tokens: &'a [Token], pos: &mut usize) -> (r: Result<&'a Token, String>)
    ensures
        *old(pos) < tokens.len() ==> (r matches Ok(t) && *t == tokens[*old(pos) as int]
            && *final(pos) == *old(pos) + 1),
        *old(pos) >= tokens.len() ==> (r matches Err(m) && m@
            == ParseError::UnexpectedEnd.message() && *final(pos) == *old(pos)),
{
    if *pos < tokens.len() {
        let tok = &tokens[*pos];
        *pos = *pos + 1;
        Ok(tok)
    } else {
        Err(unexpected_end())
    }
}

fn peek<'a>(tokens: &'a [Token], pos: usize, idx: usize) -> (r: Result<&'a Token, String>)
    ensures
        pos + idx < tokens.len() ==> (r matches Ok(t) && *t == tokens[pos + idx]),
        pos + idx >= tokens.len() ==> (r matches Err(m) && m@
            == ParseError::UnexpectedEnd.message()),
{
    if pos < tokens.len() && idx < tokens.len() - pos {
        Ok(&tokens[pos + idx])
    } else {
        Err(unexpected_end())
    }
}

/// Whether a result reports what the model says: a node with that value,
/// or the message of the same error.
pub open spec fn reports(r: Result<Node, String>, model: Result<SpecNode, ParseError>) -> bool {
    match model {
        Ok(node) => r matches Ok(n) && n@ == node,
        Err(e) => r matches Err(m) && m@ == e.message(),
    }
}

/// Whether a cursor-moving result reports what the model says: on success
/// the node and the new position; on failure the error's message, the
/// cursor having moved forward at most.
pub open spec fn reports_at(
    r: Result<Node, String>,
    before: usize,
    after: usize,
    model: Result<(SpecNode, int), ParseError>,
) -> bool {
    match model {
        Ok((node, next)) => r matches Ok(n) && n@ == node && after == next,
        Err(e) => r matches Err(m) && m@ == e.message() && before <= after,
    }
}

fn _parse(tokens: &[Token], pos: &mut usize) -> (r: Result<Node, String>)
    ensures
        reports_at(r, *old(pos), *final(pos), parse_form(tokens_view(tokens@), *old(pos) as int)),
    decreases tokens.len() - *old(pos), 0int,
{
    let x = next(tokens, pos)?;
    match x {
        Token::OpenParen => parse_list(tokens, pos),
        Token::Symbol(s) => Ok(Node::Symbol(s.clone())),
        Token::Number(n) => parse_number(n.as_str()),
        _ => Ok(Node::Nothing),
    }
}

fn parse_list(tokens: &[Token], pos: &mut usize) -> (r: Result<Node, String>)
    ensures
        reports_at(
            r,
            *old(pos),
            *final(pos),
            parse_items(tokens_view(tokens@), *old(pos) as int, Seq::empty()),
        ),
    decreases tokens.len() - *old(pos), 1int,
{
    let mut list: Vec<Node> = Vec::new();
    let ghost toks = tokens_view(tokens@);
    let ghost start = *pos;
    assert(nodes_view(list@) =~= Seq::empty());
    loop
        invariant
            toks == tokens_view(tokens@),
            start == *old(pos),
            start <= *pos,
            parse_items(toks, *pos as int, nodes_view(list@)) == parse_items(
                toks,
                start as int,
                Seq::empty(),
            ),
        decreases tokens.len() - *pos,
    {
        let x = peek(tokens, *pos, 0)?;
        match x {
            Token::Nil => {
                let _ = next(tokens, pos)?;
            },
            Token::CloseParen => {
                let _ = next(tokens, pos)?;
                proof {
                    lemma_list_view(list);
                }
                return Ok(Node::List(list));
            },
            _ => {
                let ghost before = *pos;
                proof {
                    lemma_parse_advances(toks, before as int);
                }
                let node = _parse(tokens, pos)?;
                assert(nodes_view(list@.push(node)) =~= nodes_view(list@).push(node@));
                list.push(node);
            },
        }
    }
}

/// Reads the text of a number token: an integer literal if the text writes a
/// 64-bit signed integer, else a floating-point literal if it has the
/// syntax of one.
pub fn parse_number(num: &str) -> (r: Result<Node, String>)
    ensures
        reports(r, number_node(num@)),
{
    match parse_i64(num) {
        Some(i) => Ok(Node::IntLiteral(i)),
        None => {
            if is_float_literal(num) {
                Ok(Node::FloatLiteral(String::from_str(num)))
            } else {
                let mut m = String::from_str("couldn't parse number: ");
                m.append(num);
                Err(m)
            }
        },
    }
}

/// Parses the first form of `tokens`.
pub fn parse(tokens: &[Token]) -> (r: Result<Node, String>)
    ensures
        reports(r, parse_tokens(tokens_view(tokens@))),
{
    let mut pos: usize = 0;
    _parse(tokens, &mut pos)
}

} // verus!
