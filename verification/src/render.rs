//! How nodes and values are written in diagnostics.

use vstd::prelude::*;
use crate::parser::{Node, SpecNode};
use crate::semantics::SpecValue;
use crate::text::{decimal, push_int};

verus! {

/// The parts, with `sep` between each two neighbours.
pub open spec fn join(parts: Seq<Seq<char>>, sep: Seq<char>) -> Seq<char>
    decreases parts.len(),
{
    if parts.len() == 0 {
        Seq::empty()
    } else if parts.len() == 1 {
        parts[0]
    } else {
        join(parts.drop_last(), sep) + sep + parts.last()
    }
}

pub open spec fn bool_text(b: bool) -> Seq<char> {
    if b {
        "true"@
    } else {
        "false"@
    }
}

/// A tag and what it holds, in parentheses.
pub open spec fn tagged(tag: Seq<char>, inner: Seq<char>) -> Seq<char> {
    tag + "("@ + inner + ")"@
}

/// A bracketed list of items separated by a comma and a space.
pub open spec fn listed(items: Seq<Seq<char>>) -> Seq<char> {
    "["@ + join(items, ", "@) + "]"@
}

/// How a node is written: its tag, and in parentheses what it holds.
pub open spec fn node_text(node: SpecNode) -> Seq<char>
    decreases node,
{
    match node {
        SpecNode::Nothing => "Nothing"@,
        SpecNode::List(children) => tagged(
            "List"@,
            listed(child_texts(children)),
        ),
        SpecNode::BoolLiteral(b) => tagged("BoolLiteral"@, bool_text(b)),
        SpecNode::IntLiteral(i) => tagged("IntLiteral"@, decimal(i as int)),
        SpecNode::FloatLiteral(text) => tagged("FloatLiteral"@, text),
        SpecNode::StringLiteral(text) => tagged("StringLiteral"@, text),
        SpecNode::Symbol(name) => tagged("Symbol"@, name),
        SpecNode::Funcall(children) => tagged(
            "Funcall"@,
            listed(child_texts(children)),
        ),
    }
}

/// The texts of the members of a list node, in order.
pub open spec fn child_texts(children: Seq<SpecNode>) -> Seq<Seq<char>>
    decreases children,
{
    Seq::new(
        children.len(),
        |i: int|
            if 0 <= i < children.len() {
                node_text(children[i])
            } else {
                Seq::empty()
            },
    )
}

/// The texts of the members of a list value, in order.
pub open spec fn item_texts(items: Seq<SpecValue>) -> Seq<Seq<char>>
    decreases items,
{
    Seq::new(
        items.len(),
        |i: int|
            if 0 <= i < items.len() {
                value_text(items[i])
            } else {
                Seq::empty()
            },
    )
}

/// How a value is written. Values without a written form of their own are
/// all written `UnknownValue`.
pub open spec fn value_text(value: SpecValue) -> Seq<char>
    decreases value,
{
    match value {
        SpecValue::Nil => "Nil"@,
        SpecValue::List(items) => tagged(
            "List"@,
            listed(item_texts(items)),
        ),
        SpecValue::Bool(b) => tagged("Bool"@, bool_text(b)),
        SpecValue::Int(i) => tagged("Int"@, decimal(i as int)),
        SpecValue::BuiltinFunc(name) => tagged("BuiltinFunc"@, name),
        SpecValue::SpecialForm(name) => tagged("SpecialForm"@, name),
        _ => "UnknownValue"@,
    }
}

/// Joining one part more appends the separator, unless the part is the
/// first, and then the part.
pub proof fn lemma_join_next(parts: Seq<Seq<char>>, sep: Seq<char>, i: int)
    requires
        0 <= i < parts.len(),
    ensures
        join(parts.take(i + 1), sep) == if i == 0 {
            parts[i]
        } else {
            join(parts.take(i), sep) + sep + parts[i]
        },
{
    assert(parts.take(i + 1).drop_last() =~= parts.take(i));
    assert(parts.take(i + 1).last() == parts[i]);
}

/// The texts of the members of a list node.
pub open spec fn node_texts(nodes: Seq<Node>) -> Seq<Seq<char>> {
    Seq::new(nodes.len(), |i: int| node_text(nodes[i]@))
}

/// Appends `true` or `false`.
pub fn push_bool(out: &mut String, b: bool)
    ensures
        final(out)@ == old(out)@ + bool_text(b),
{
    if b {
        out.append("true");
    } else {
        out.append("false");
    }
}

/// Wraps `inner` in `tag(` and `)`.
pub fn tag_text(tag: &str, inner: &str) -> (r: String)
    ensures
        r@ == tagged(tag@, inner@),
{
    let mut out = String::from_str(tag);
    out.append("(");
    out.append(inner);
    out.append(")");
    out
}

fn nodes_to_string(nodes: &Vec<Node>) -> (r: String)
    ensures
        r@ == listed(node_texts(nodes@)),
    decreases nodes,
{
    let ghost texts = node_texts(nodes@);
    let mut out = String::from_str("[");
    let mut i: usize = 0;
    assert(texts.take(0) =~= Seq::empty());
    while i < nodes.len()
        invariant
            i <= nodes.len(),
            texts == node_texts(nodes@),
            out@ == "["@ + join(texts.take(i as int), ", "@),
        decreases nodes.len() - i,
    {
        if i > 0 {
            out.append(", ");
        }
        let t = nodes[i].to_string();
        out.append(t.as_str());
        proof {
            lemma_join_next(texts, ", "@, i as int);
            assert(out@ =~= "["@ + join(texts.take(i + 1), ", "@));
        }
        i += 1;
    }
    assert(texts.take(nodes.len() as int) =~= texts);
    out.append("]");
    out
}

impl Node {
    /// Writes the node for a diagnostic.
    pub fn to_string(&self) -> (r: String)
        ensures
            r@ == node_text(self@),
        decreases self,
    {
        match self {
            Node::Nothing => String::from_str("Nothing"),
            Node::List(v) => {
                let inner = nodes_to_string(v);
                assert(self@->List_0 =~= crate::parser::nodes_view(v@));
                assert(node_texts(v@) =~= child_texts(self@->List_0));
                tag_text("List", inner.as_str())
            },
            Node::BoolLiteral(b) => {
                let mut inner = String::new();
                push_bool(&mut inner, *b);
                assert(inner@ =~= bool_text(*b));
                tag_text("BoolLiteral", inner.as_str())
            },
            Node::IntLiteral(i) => {
                let mut inner = String::new();
                push_int(&mut inner, *i);
                assert(inner@ =~= decimal(*i as int));
                tag_text("IntLiteral", inner.as_str())
            },
            Node::FloatLiteral(text) => tag_text("FloatLiteral", text.as_str()),
            Node::StringLiteral(text) => tag_text("StringLiteral", text.as_str()),
            Node::Symbol(name) => tag_text("Symbol", name.as_str()),
            Node::Funcall(v) => {
                let inner = nodes_to_string(v);
                assert(self@->Funcall_0 =~= crate::parser::nodes_view(v@));
                assert(node_texts(v@) =~= child_texts(self@->Funcall_0));
                tag_text("Funcall", inner.as_str())
            },
        }
    }
}

} // verus!
