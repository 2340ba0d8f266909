//! What evaluation means: values, chained scopes, and the value or error
//! that each form evaluates to, as mathematical functions.

use vstd::prelude::*;
use crate::parser::SpecNode;
use crate::render::{node_text, value_text};
use crate::text::decimal;

verus! {

/// The mathematical value of a runtime value.
pub enum SpecValue {
    Nil,
    List(Seq<SpecValue>),
    Bool(bool),
    Int(i64),
    Float(Seq<char>),
    String(Seq<char>),
    Atom(Seq<char>),
    Function { code: SpecNode, locals: nat },
    BuiltinFunc(Seq<char>),
    SpecialForm(Seq<char>),
}

/// A scope: the names it binds itself, and the scope it falls back on.
pub struct SpecScope {
    pub vars: Map<Seq<char>, SpecValue>,
    pub parent: Option<nat>,
}

/// Every parent link points to a scope that was made earlier, so the
/// scopes form a forest and no chain of parents ever returns.
pub open spec fn scopes_wf(scopes: Seq<SpecScope>) -> bool {
    forall|i: int|
        0 <= i < scopes.len() ==> (#[trigger] scopes[i].parent matches Some(p) ==> p < i)
}

/// How far a lookup that starts in this scope can still climb.
pub open spec fn climb(s: SpecScope) -> nat {
    match s.parent {
        Some(p) => p + 1,
        None => 0,
    }
}

/// Looks `name` up from scope `s`: its own bindings first, and only on a
/// miss those of its parent chain.
pub open spec fn lookup_from(scopes: Seq<SpecScope>, s: SpecScope, name: Seq<char>) -> Option<
    SpecValue,
>
    decreases climb(s),
{
    if s.vars.contains_key(name) {
        Some(s.vars[name])
    } else {
        match s.parent {
            Some(p) => if p < scopes.len() && climb(scopes[p as int]) <= p {
                lookup_from(scopes, scopes[p as int], name)
            } else {
                None
            },
            None => None,
        }
    }
}

/// Looks `name` up from the scope with index `scope`.
pub open spec fn lookup(scopes: Seq<SpecScope>, scope: int, name: Seq<char>) -> Option<SpecValue> {
    if 0 <= scope < scopes.len() {
        lookup_from(scopes, scopes[scope], name)
    } else {
        None
    }
}

/// The scopes after `name` has been bound to `value` in scope `scope`,
/// replacing what that scope itself bound to the name before.
pub open spec fn bind(scopes: Seq<SpecScope>, scope: int, name: Seq<char>, value: SpecValue) -> Seq<
    SpecScope,
> {
    scopes.update(
        scope,
        SpecScope { vars: scopes[scope].vars.insert(name, value), parent: scopes[scope].parent },
    )
}

/// What the global scope binds when an interpreter is made: the builtins
/// `+` and `+.` and the special forms `defun`, `let` and `def`, whether or
/// not each has a handler.
pub open spec fn global_bindings() -> Map<Seq<char>, SpecValue> {
    Map::<Seq<char>, SpecValue>::empty().insert("+"@, SpecValue::BuiltinFunc("+"@)).insert(
        "+."@,
        SpecValue::BuiltinFunc("+."@),
    ).insert("defun"@, SpecValue::SpecialForm("defun"@)).insert(
        "let"@,
        SpecValue::SpecialForm("let"@),
    ).insert("def"@, SpecValue::SpecialForm("def"@))
}

/// Why evaluation stopped.
pub enum EvalError {
    /// No scope on the chain binds the symbol.
    NotFound(Seq<char>),
    /// A node that has no evaluation rule.
    NotImplemented(SpecNode),
    /// A special form that is registered but has no handler.
    SpecialFormNotImplemented(Seq<char>),
    /// The head of a call evaluated to something that cannot be called.
    NotCallable(SpecValue),
    /// A builtin that is registered but has no handler.
    BuiltinNotImplemented(Seq<char>),
    /// An argument of `+` that is no integer.
    NotAnInt(SpecValue),
    /// `def` was given this many arguments instead of two.
    DefArity(nat),
    /// The first argument of `def` is no symbol.
    NotASymbol(SpecNode),
    /// The empty list was evaluated: there is nothing to call.
    EmptyCall,
}

impl EvalError {
    pub open spec fn message(self) -> Seq<char> {
        match self {
            EvalError::NotFound(name) => "name '"@ + name + "' not found in scope"@,
            EvalError::NotImplemented(node) => node_text(node) + " not implemented"@,
            EvalError::SpecialFormNotImplemented(name) => "special form "@ + name
                + " not implemented"@,
            EvalError::NotCallable(value) => "calling "@ + value_text(value) + " not implemented"@,
            EvalError::BuiltinNotImplemented(name) => name + " not implemented"@,
            EvalError::NotAnInt(value) => value_text(value) + " is not an int"@,
            EvalError::DefArity(n) => "def expects 2 arguments, got "@ + decimal(n as int),
            EvalError::NotASymbol(node) => node_text(node) + " is not a symbol"@,
            EvalError::EmptyCall => "calling an empty list not implemented"@,
        }
    }
}

/// What an evaluation leaves behind: the scopes, with every binding that a
/// `def` made before the end, and the value or the error.
pub struct Outcome {
    pub scopes: Seq<SpecScope>,
    pub result: Result<SpecValue, EvalError>,
}

/// What the evaluation of a run of forms leaves behind.
pub struct ArgsOutcome {
    pub scopes: Seq<SpecScope>,
    pub result: Result<Seq<SpecValue>, EvalError>,
}

/// The sum of integer arguments, left to right, in wrapping 64-bit signed
/// arithmetic; the first argument that is no integer is the error.
pub open spec fn add_ints(args: Seq<SpecValue>) -> Result<i64, EvalError>
    decreases args.len(),
{
    if args.len() == 0 {
        Ok(0)
    } else {
        match add_ints(args.drop_last()) {
            Ok(sum) => match args.last() {
                SpecValue::Int(i) => Ok(vstd::wrapping::i64_specs::wrapping_add(sum, i)),
                other => Err(EvalError::NotAnInt(other)),
            },
            Err(e) => Err(e),
        }
    }
}

/// Calls the builtin named `name`. Only `+` has a handler.
pub open spec fn call_builtin(name: Seq<char>, args: Seq<SpecValue>) -> Result<
    SpecValue,
    EvalError,
> {
    if name == "+"@ {
        match add_ints(args) {
            Ok(sum) => Ok(SpecValue::Int(sum)),
            Err(e) => Err(e),
        }
    } else {
        Err(EvalError::BuiltinNotImplemented(name))
    }
}

/// Function application: the first value is the callee, the rest are its
/// arguments. Only builtins can be called.
pub open spec fn apply(values: Seq<SpecValue>) -> Result<SpecValue, EvalError> {
    if values.len() == 0 {
        Err(EvalError::EmptyCall)
    } else {
        match values[0] {
            SpecValue::BuiltinFunc(name) => call_builtin(name, values.skip(1)),
            other => Err(EvalError::NotCallable(other)),
        }
    }
}

/// The special form that a list invokes, if any: its head is a symbol that
/// resolves to a special form.
pub open spec fn special_form_of(scopes: Seq<SpecScope>, scope: int, children: Seq<SpecNode>)
    -> Option<Seq<char>> {
    if children.len() > 0 {
        match children[0] {
            SpecNode::Symbol(name) => match lookup(scopes, scope, name) {
                Some(SpecValue::SpecialForm(form)) => Some(form),
                _ => None,
            },
            _ => None,
        }
    } else {
        None
    }
}

/// What `def` does once its second argument has been evaluated: on success
/// the value is bound to `name` in the current scope and handed back.
pub open spec fn define(evaluated: Outcome, scope: int, name: Seq<char>) -> Outcome {
    match evaluated.result {
        Ok(value) => Outcome {
            scopes: bind(evaluated.scopes, scope, name, value),
            result: Ok(value),
        },
        Err(_) => evaluated,
    }
}

/// Evaluates `node` in scope `scope`.
///
/// Literals evaluate to themselves and a symbol to what the scope chain
/// binds it to. A list whose head names a special form is handed to that
/// form with its members unevaluated; of these only `def` has a handler,
/// which wants a symbol and one form, evaluates the form in the current
/// scope and binds the symbol there. Any other list is a call: every
/// member, the head too, is evaluated left to right in the same scope, then
/// the first value is applied to the rest.
pub open spec fn eval_node(scopes: Seq<SpecScope>, node: SpecNode, scope: int) -> Outcome
    decreases node, 0int,
{
    match node {
        SpecNode::IntLiteral(i) => Outcome { scopes, result: Ok(SpecValue::Int(i)) },
        SpecNode::FloatLiteral(text) => Outcome { scopes, result: Ok(SpecValue::Float(text)) },
        SpecNode::Symbol(name) => match lookup(scopes, scope, name) {
            Some(value) => Outcome { scopes, result: Ok(value) },
            None => Outcome { scopes, result: Err(EvalError::NotFound(name)) },
        },
        SpecNode::List(children) => match special_form_of(scopes, scope, children) {
            Some(form) => if form == "def"@ {
                if children.len() != 3 {
                    Outcome {
                        scopes,
                        result: Err(EvalError::DefArity((children.len() - 1) as nat)),
                    }
                } else {
                    match children[1] {
                        SpecNode::Symbol(name) => define(
                            eval_node(scopes, children[2], scope),
                            scope,
                            name,
                        ),
                        other => Outcome { scopes, result: Err(EvalError::NotASymbol(other)) },
                    }
                }
            } else {
                Outcome { scopes, result: Err(EvalError::SpecialFormNotImplemented(form)) }
            },
            None => {
                let args = eval_each(scopes, children, 0, scope, Seq::empty());
                Outcome {
                    scopes: args.scopes,
                    result: match args.result {
                        Ok(values) => apply(values),
                        Err(e) => Err(e),
                    },
                }
            },
        },
        other => Outcome { scopes, result: Err(EvalError::NotImplemented(other)) },
    }
}

/// Evaluates the forms `nodes[from..]` left to right in scope `scope`,
/// each in the scopes that the one before left behind, and appends their
/// values to `done`. The first failure ends it.
pub open spec fn eval_each(
    scopes: Seq<SpecScope>,
    nodes: Seq<SpecNode>,
    from: int,
    scope: int,
    done: Seq<SpecValue>,
) -> ArgsOutcome
    decreases nodes, nodes.len() - from,
{
    if from < 0 || from >= nodes.len() {
        ArgsOutcome { scopes, result: Ok(done) }
    } else {
        let first = eval_node(scopes, nodes[from], scope);
        match first.result {
            Ok(value) => eval_each(first.scopes, nodes, from + 1, scope, done.push(value)),
            Err(e) => ArgsOutcome { scopes: first.scopes, result: Err(e) },
        }
    }
}

} // verus!
