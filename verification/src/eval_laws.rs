//! Properties of evaluation that hold of every form and every arena of
//! scopes.

use vstd::prelude::*;
use crate::parser::SpecNode;
use crate::semantics::{
    add_ints, apply, bind, call_builtin, eval_each, eval_node, lookup, scopes_wf, special_form_of,
    ArgsOutcome, EvalError, Outcome, SpecScope, SpecValue,
};

verus! {

/// Two arenas have the same scopes with the same parent links; only
/// bindings may differ.
pub open spec fn same_shape(a: Seq<SpecScope>, b: Seq<SpecScope>) -> bool {
    &&& a.len() == b.len()
    &&& forall|i: int| 0 <= i < a.len() ==> (#[trigger] a[i]).parent == b[i].parent
}

/// Evaluation adds no scope, loses none and moves none: it only binds.
pub proof fn lemma_eval_keeps_shape(scopes: Seq<SpecScope>, node: SpecNode, scope: int)
    requires
        0 <= scope < scopes.len(),
    ensures
        same_shape(scopes, eval_node(scopes, node, scope).scopes),
    decreases node, 0int,
{
    match node {
        SpecNode::List(children) => {
            match special_form_of(scopes, scope, children) {
                Some(form) => {
                    if form == "def"@ && children.len() == 3 && children[1] is Symbol {
                        lemma_eval_keeps_shape(scopes, children[2], scope);
                    }
                },
                None => {
                    lemma_eval_each_keeps_shape(scopes, children, 0, scope, Seq::empty());
                },
            }
        },
        _ => {},
    }
}

/// Evaluating a run of forms adds no scope, loses none and moves none.
pub proof fn lemma_eval_each_keeps_shape(
    scopes: Seq<SpecScope>,
    nodes: Seq<SpecNode>,
    from: int,
    scope: int,
    done: Seq<SpecValue>,
)
    requires
        0 <= scope < scopes.len(),
    ensures
        same_shape(scopes, eval_each(scopes, nodes, from, scope, done).scopes),
    decreases nodes, nodes.len() - from,
{
    if 0 <= from < nodes.len() {
        lemma_eval_keeps_shape(scopes, nodes[from], scope);
        let first = eval_node(scopes, nodes[from], scope);
        match first.result {
            Ok(value) => {
                lemma_eval_each_keeps_shape(first.scopes, nodes, from + 1, scope, done.push(value));
            },
            Err(_) => {},
        }
    }
}

/// Some scope on the parent chain of `scope`, itself included, binds
/// `name`.
pub open spec fn bound_on_chain(scopes: Seq<SpecScope>, scope: int, name: Seq<char>) -> bool
    decreases scope,
{
    0 <= scope < scopes.len() && (scopes[scope].vars.contains_key(name) || match scopes[scope].parent {
        Some(p) => p < scope && bound_on_chain(scopes, p as int, name),
        None => false,
    })
}

/// A lookup finds a value exactly when some scope on the chain binds the
/// name, however long the chain.
pub proof fn lemma_lookup_follows_the_chain(scopes: Seq<SpecScope>, scope: int, name: Seq<char>)
    requires
        scopes_wf(scopes),
    ensures
        lookup(scopes, scope, name) is Some <==> bound_on_chain(scopes, scope, name),
    decreases scope,
{
    if 0 <= scope < scopes.len() {
        let s = scopes[scope];
        if !s.vars.contains_key(name) {
            match s.parent {
                Some(p) => {
                    assert(p < scope);
                    lemma_lookup_follows_the_chain(scopes, p as int, name);
                    assert(scopes[p as int].parent matches Some(q) ==> q < p);
                },
                None => {},
            }
        }
    }
}

/// A symbol that no scope on the chain binds evaluates to the error that
/// names it, at whatever depth the lookup started, and nothing is bound.
pub proof fn lemma_unbound_symbol_is_not_found(scopes: Seq<SpecScope>, scope: int, name: Seq<char>)
    requires
        scopes_wf(scopes),
        !bound_on_chain(scopes, scope, name),
    ensures
        eval_node(scopes, SpecNode::Symbol(name), scope) == (Outcome {
            scopes,
            result: Err(EvalError::NotFound(name)),
        }),
        EvalError::NotFound(name).message() == "name '"@ + name + "' not found in scope"@,
{
    lemma_lookup_follows_the_chain(scopes, scope, name);
}

/// The form `(def name form)`.
pub open spec fn def_form(name: Seq<char>, form: SpecNode) -> SpecNode {
    SpecNode::List(seq![SpecNode::Symbol("def"@), SpecNode::Symbol(name), form])
}

/// From scope `from`, the nearest scope on the parent chain that could
/// bind `name` is `scope`: `from` is `scope`, or it binds no `name` itself
/// and the same holds of its parent.
pub open spec fn sees(scopes: Seq<SpecScope>, from: int, scope: int, name: Seq<char>) -> bool
    decreases from,
{
    from == scope || (0 <= from < scopes.len() && !scopes[from].vars.contains_key(name)
        && match scopes[from].parent {
        Some(p) => p < from && sees(scopes, p as int, scope, name),
        None => false,
    })
}

/// A scope that sees `scope` for `name` looks the name up as `scope` does.
pub proof fn lemma_sees_looks_up_alike(
    scopes: Seq<SpecScope>,
    from: int,
    scope: int,
    name: Seq<char>,
)
    requires
        scopes_wf(scopes),
        0 <= scope < scopes.len(),
        sees(scopes, from, scope, name),
    ensures
        lookup(scopes, from, name) == lookup(scopes, scope, name),
    decreases from,
{
    if from != scope {
        let p = scopes[from].parent->Some_0;
        lemma_sees_looks_up_alike(scopes, p as int, scope, name);
        assert(scopes[p as int].parent matches Some(q) ==> q < p);
    }
}

/// Binding changes no parent link, so the arena stays in order.
pub proof fn lemma_same_shape_wf(a: Seq<SpecScope>, b: Seq<SpecScope>)
    requires
        scopes_wf(a),
        same_shape(a, b),
    ensures
        scopes_wf(b),
{
    assert forall|i: int| 0 <= i < b.len() implies (#[trigger] b[i].parent matches Some(p) ==> p
        < i) by {
        assert(a[i].parent == b[i].parent);
    }
}

/// `def` hands back the value it bound, and afterwards the name resolves
/// to that value in the same scope and in every scope below it that does
/// not bind the name nearer by.
pub proof fn lemma_def_binds(
    scopes: Seq<SpecScope>,
    scope: int,
    name: Seq<char>,
    form: SpecNode,
    below: int,
)
    requires
        scopes_wf(scopes),
        0 <= scope < scopes.len(),
        lookup(scopes, scope, "def"@) == Some(SpecValue::SpecialForm("def"@)),
        eval_node(scopes, form, scope).result is Ok,
        sees(eval_node(scopes, def_form(name, form), scope).scopes, below, scope, name),
    ensures
        ({
            let value = eval_node(scopes, form, scope).result->Ok_0;
            let out = eval_node(scopes, def_form(name, form), scope);
            &&& out.result == Ok::<SpecValue, EvalError>(value)
            &&& out.scopes == bind(eval_node(scopes, form, scope).scopes, scope, name, value)
            &&& lookup(out.scopes, scope, name) == Some(value)
            &&& lookup(out.scopes, below, name) == Some(value)
        }),
{
    let inner = eval_node(scopes, form, scope);
    let out = eval_node(scopes, def_form(name, form), scope);
    let children = seq![SpecNode::Symbol("def"@), SpecNode::Symbol(name), form];
    assert(children[0] == SpecNode::Symbol("def"@));
    assert(children[1] == SpecNode::Symbol(name));
    assert(children[2] == form);
    assert(special_form_of(scopes, scope, children) == Some("def"@));
    lemma_eval_keeps_shape(scopes, form, scope);
    let bound = bind(inner.scopes, scope, name, inner.result->Ok_0);
    assert(same_shape(scopes, bound));
    lemma_same_shape_wf(scopes, bound);
    lemma_sees_looks_up_alike(out.scopes, below, scope, name);
}

/// Defining a name as itself fails where the name is not bound yet: the
/// right-hand side is evaluated first, and nothing is bound.
pub proof fn lemma_def_of_itself_is_not_found(scopes: Seq<SpecScope>, scope: int, name: Seq<char>)
    requires
        lookup(scopes, scope, "def"@) == Some(SpecValue::SpecialForm("def"@)),
        lookup(scopes, scope, name) is None,
    ensures
        eval_node(scopes, def_form(name, SpecNode::Symbol(name)), scope) == (Outcome {
            scopes,
            result: Err(EvalError::NotFound(name)),
        }),
{
    reveal_with_fuel(eval_node, 2);
    let children = seq![SpecNode::Symbol("def"@), SpecNode::Symbol(name), SpecNode::Symbol(name)];
    assert(children[0] == SpecNode::Symbol("def"@));
    assert(children[1] == SpecNode::Symbol(name));
    assert(children[2] == SpecNode::Symbol(name));
    assert(special_form_of(scopes, scope, children) == Some("def"@));
}

/// The sum of the integers, as a mathematical integer.
pub open spec fn int_sum(xs: Seq<i64>) -> int
    decreases xs.len(),
{
    if xs.len() == 0 {
        0
    } else {
        int_sum(xs.drop_last()) + xs.last()
    }
}

/// The sum of the integers, left to right, in wrapping 64-bit signed
/// arithmetic.
pub open spec fn wrapping_sum(xs: Seq<i64>) -> i64
    decreases xs.len(),
{
    if xs.len() == 0 {
        0
    } else {
        vstd::wrapping::i64_specs::wrapping_add(wrapping_sum(xs.drop_last()), xs.last())
    }
}

/// The integer literals that write `xs`.
pub open spec fn int_literals(xs: Seq<i64>) -> Seq<SpecNode> {
    Seq::new(xs.len(), |i: int| SpecNode::IntLiteral(xs[i]))
}

/// The integer values `xs`.
pub open spec fn int_values(xs: Seq<i64>) -> Seq<SpecValue> {
    Seq::new(xs.len(), |i: int| SpecValue::Int(xs[i]))
}

/// The form `(head x1 x2 ...)` with integer literals for arguments.
pub open spec fn call_on_ints(head: Seq<char>, xs: Seq<i64>) -> SpecNode {
    SpecNode::List(seq![SpecNode::Symbol(head)] + int_literals(xs))
}

/// The wrapping sum differs from the mathematical sum by a multiple of
/// 2^64, and is the mathematical sum whenever that sum fits in 64 bits,
/// whatever the sums in between did.
pub proof fn lemma_wrapping_sum_is_the_sum(xs: Seq<i64>)
    ensures
        (wrapping_sum(xs) - int_sum(xs)) % 0x1_0000_0000_0000_0000 == 0,
        i64::MIN <= int_sum(xs) <= i64::MAX ==> wrapping_sum(xs) == int_sum(xs),
    decreases xs.len(),
{
    if xs.len() > 0 {
        lemma_wrapping_sum_is_the_sum(xs.drop_last());
    }
}

/// Adding integer values gives their wrapping sum.
pub proof fn lemma_add_ints_of_ints(xs: Seq<i64>)
    ensures
        add_ints(int_values(xs)) == Ok::<i64, EvalError>(wrapping_sum(xs)),
    decreases xs.len(),
{
    if xs.len() > 0 {
        lemma_add_ints_of_ints(xs.drop_last());
        assert(int_values(xs).drop_last() =~= int_values(xs.drop_last()));
        assert(int_values(xs).last() == SpecValue::Int(xs.last()));
    }
}

proof fn lemma_eval_literals(
    scopes: Seq<SpecScope>,
    head: Seq<char>,
    xs: Seq<i64>,
    from: int,
    scope: int,
    done: Seq<SpecValue>,
)
    requires
        1 <= from <= xs.len() + 1,
    ensures
        eval_each(scopes, seq![SpecNode::Symbol(head)] + int_literals(xs), from, scope, done) == (
        ArgsOutcome { scopes, result: Ok(done + int_values(xs.skip(from - 1))) }),
    decreases xs.len() + 1 - from,
{
    reveal_with_fuel(eval_node, 2);
    reveal_with_fuel(eval_each, 2);
    let nodes = seq![SpecNode::Symbol(head)] + int_literals(xs);
    if from < nodes.len() {
        assert(nodes[from] == SpecNode::IntLiteral(xs[from - 1]));
        let value = SpecValue::Int(xs[from - 1]);
        lemma_eval_literals(scopes, head, xs, from + 1, scope, done.push(value));
        assert(done.push(value) + int_values(xs.skip(from)) =~= done + int_values(
            xs.skip(from - 1),
        ));
    } else {
        assert(done + int_values(xs.skip(from - 1)) =~= done);
    }
}

/// A call of the addition builtin on integer literals evaluates to the sum
/// of the integers in 64-bit signed arithmetic, and binds nothing.
pub proof fn lemma_addition(scopes: Seq<SpecScope>, scope: int, head: Seq<char>, xs: Seq<i64>)
    requires
        lookup(scopes, scope, head) == Some(SpecValue::BuiltinFunc("+"@)),
    ensures
        eval_node(scopes, call_on_ints(head, xs), scope) == (Outcome {
            scopes,
            result: Ok(SpecValue::Int(wrapping_sum(xs))),
        }),
        i64::MIN <= int_sum(xs) <= i64::MAX ==> wrapping_sum(xs) == int_sum(xs),
{
    reveal_with_fuel(eval_node, 3);
    reveal_with_fuel(eval_each, 3);
    let nodes = seq![SpecNode::Symbol(head)] + int_literals(xs);
    assert(nodes[0] == SpecNode::Symbol(head));
    assert(special_form_of(scopes, scope, nodes) is None);
    let callee = SpecValue::BuiltinFunc("+"@);
    lemma_eval_literals(scopes, head, xs, 1, scope, seq![callee]);
    assert(Seq::<SpecValue>::empty().push(callee) =~= seq![callee]);
    assert(xs.skip(0) =~= xs);
    let values = seq![callee] + int_values(xs);
    assert(values[0] == callee);
    assert(values.skip(1) =~= int_values(xs));
    lemma_add_ints_of_ints(xs);
    lemma_wrapping_sum_is_the_sum(xs);
    assert(apply(values) == call_builtin("+"@, int_values(xs)));
}

} // verus!
