//! The evaluator: runtime values, chained scopes held in an arena, and the
//! interpreter that walks the syntax tree.

use std::sync::Arc;
use vstd::prelude::*;
use vstd::slice::slice_subrange;
use crate::parser::{lemma_list_view, node_view, nodes_view, Node, SpecNode};
use crate::render::{item_texts, join, lemma_join_next, listed, push_bool, tag_text, value_text};
use crate::semantics::{
    add_ints, apply, bind, call_builtin, climb, eval_each, eval_node, global_bindings, lookup,
    lookup_from, scopes_wf, special_form_of, EvalError, Outcome, SpecScope, SpecValue,
};
use crate::text::{decimal, push_decimal, push_int};

verus! {

/// A value, shared by reference and never changed once made.
pub type BoxedValue = Arc<Value>;

/// The index of a scope in the interpreter's arena.
pub type ScopeId = usize;

/// What evaluation hands back: a shared value, or an error message.
pub type EvalResult = Result<BoxedValue, String>;

/// A runtime value. A float is held as the text of the literal that wrote
/// it; a function's captured scope as its index in the arena.
#[derive(Debug, PartialEq)]
pub enum Value {
    Nil,
    List(Vec<BoxedValue>),
    Bool(bool),
    Int(i64),
    Float(String),
    String(String),
    Atom(String),
    Function { code: Node, locals: ScopeId },
    BuiltinFunc(String),
    SpecialForm(String),
}

/// The mathematical value of a runtime value.
pub open spec fn value_view(value: Value) -> SpecValue
    decreases value,
{
    match value {
        Value::Nil => SpecValue::Nil,
        Value::List(items) => SpecValue::List(
            Seq::new(
                items@.len(),
                |i: int|
                    if 0 <= i < items@.len() {
                        value_view(*items@[i])
                    } else {
                        SpecValue::Nil
                    },
            ),
        ),
        Value::Bool(b) => SpecValue::Bool(b),
        Value::Int(i) => SpecValue::Int(i),
        Value::Float(text) => SpecValue::Float(text@),
        Value::String(text) => SpecValue::String(text@),
        Value::Atom(name) => SpecValue::Atom(name@),
        Value::Function { code, locals } => SpecValue::Function {
            code: node_view(code),
            locals: locals as nat,
        },
        Value::BuiltinFunc(name) => SpecValue::BuiltinFunc(name@),
        Value::SpecialForm(name) => SpecValue::SpecialForm(name@),
    }
}

impl View for Value {
    type V = SpecValue;

    open spec fn view(&self) -> SpecValue {
        value_view(*self)
    }
}

/// The values of a sequence of shared values, in order.
pub open spec fn values_view(values: Seq<BoxedValue>) -> Seq<SpecValue> {
    Seq::new(values.len(), |i: int| values[i]@)
}

/// The value of an optional shared value.
pub open spec fn option_view(value: Option<BoxedValue>) -> Option<SpecValue> {
    match value {
        Some(v) => Some(v@),
        None => None,
    }
}

/// The texts of a sequence of shared values.
pub open spec fn value_texts(values: Seq<BoxedValue>) -> Seq<Seq<char>> {
    Seq::new(values.len(), |i: int| value_text(values[i]@))
}

fn values_to_string(values: &Vec<BoxedValue>) -> (r: String)
    ensures
        r@ == listed(value_texts(values@)),
    decreases values,
{
    let ghost texts = value_texts(values@);
    let mut out = String::from_str("[");
    let mut i: usize = 0;
    assert(texts.take(0) =~= Seq::empty());
    while i < values.len()
        invariant
            i <= values.len(),
            texts == value_texts(values@),
            out@ == "["@ + join(texts.take(i as int), ", "@),
        decreases values.len() - i,
    {
        if i > 0 {
            out.append(", ");
        }
        let t = values[i].to_string();
        out.append(t.as_str());
        proof {
            lemma_join_next(texts, ", "@, i as int);
            assert(out@ =~= "["@ + join(texts.take(i + 1), ", "@));
        }
        i += 1;
    }
    assert(texts.take(values.len() as int) =~= texts);
    out.append("]");
    out
}

impl Value {
    /// The integer that an `Int` holds.
    pub fn unwrap_int(&self) -> (i: i64)
        requires
            self is Int,
        ensures
            self@ == SpecValue::Int(i),
    {
        match self {
            Value::Int(i) => *i,
            _ => 0,
        }
    }

    /// Writes the value for a diagnostic or for display.
    pub fn to_string(&self) -> (r: String)
        ensures
            r@ == value_text(self@),
        decreases self,
    {
        match self {
            Value::Nil => String::from_str("Nil"),
            Value::List(items) => {
                let inner = values_to_string(items);
                assert(value_texts(items@) =~= item_texts(self@->List_0));
                tag_text("List", inner.as_str())
            },
            Value::Bool(b) => {
                let mut inner = String::new();
                push_bool(&mut inner, *b);
                assert(inner@ =~= crate::render::bool_text(*b));
                tag_text("Bool", inner.as_str())
            },
            Value::Int(i) => {
                let mut inner = String::new();
                push_int(&mut inner, *i);
                assert(inner@ =~= decimal(*i as int));
                tag_text("Int", inner.as_str())
            },
            Value::BuiltinFunc(name) => tag_text("BuiltinFunc", name.as_str()),
            Value::SpecialForm(name) => tag_text("SpecialForm", name.as_str()),
            _ => String::from_str("UnknownValue"),
        }
    }
}

/// One binding of a scope.
pub struct Binding {
    name: String,
    value: BoxedValue,
}

/// What a run of bindings binds: each name to its value, a later binding
/// of a name replacing an earlier one.
pub closed spec fn bindings_map(entries: Seq<Binding>) -> Map<Seq<char>, SpecValue>
    decreases entries.len(),
{
    if entries.len() == 0 {
        Map::empty()
    } else {
        bindings_map(entries.drop_last()).insert(entries.last().name@, entries.last().value@)
    }
}

/// No name occurs twice.
pub closed spec fn names_distinct(entries: Seq<Binding>) -> bool {
    forall|i: int, j: int|
        0 <= i < j < entries.len() ==> (#[trigger] entries[i]).name@ != (#[trigger] entries[j]).name@
}

proof fn lemma_bindings_miss(entries: Seq<Binding>, key: Seq<char>)
    requires
        forall|i: int| 0 <= i < entries.len() ==> (#[trigger] entries[i]).name@ != key,
    ensures
        !bindings_map(entries).contains_key(key),
    decreases entries.len(),
{
    if entries.len() > 0 {
        assert forall|i: int| 0 <= i < entries.drop_last().len() implies (
        #[trigger] entries.drop_last()[i]).name@ != key by {
            assert(entries.drop_last()[i] == entries[i]);
        }
        lemma_bindings_miss(entries.drop_last(), key);
        assert(entries.last() == entries[entries.len() - 1]);
    }
}

proof fn lemma_bindings_hit(entries: Seq<Binding>, i: int)
    requires
        names_distinct(entries),
        0 <= i < entries.len(),
    ensures
        bindings_map(entries).contains_key(entries[i].name@),
        bindings_map(entries)[entries[i].name@] == entries[i].value@,
    decreases entries.len(),
{
    if i < entries.len() - 1 {
        let front = entries.drop_last();
        assert(names_distinct(front)) by {
            assert forall|a: int, b: int| 0 <= a < b < front.len() implies (#[trigger] front[a]).name@
                != (#[trigger] front[b]).name@ by {
                assert(front[a] == entries[a]);
                assert(front[b] == entries[b]);
            }
        }
        lemma_bindings_hit(front, i);
        assert(front[i] == entries[i]);
        assert(entries[i].name@ != entries[entries.len() - 1].name@);
    }
}

proof fn lemma_bindings_update(entries: Seq<Binding>, i: int, b: Binding)
    requires
        names_distinct(entries),
        0 <= i < entries.len(),
        entries[i].name@ == b.name@,
    ensures
        names_distinct(entries.update(i, b)),
        bindings_map(entries.update(i, b)) == bindings_map(entries).insert(b.name@, b.value@),
    decreases entries.len(),
{
    let after = entries.update(i, b);
    assert(names_distinct(after)) by {
        assert forall|x: int, y: int| 0 <= x < y < after.len() implies (#[trigger] after[x]).name@ != (
        #[trigger] after[y]).name@ by {
            assert(entries[x].name@ != entries[y].name@);
        }
    }
    let front = entries.drop_last();
    if i == entries.len() - 1 {
        assert(after.drop_last() =~= front);
        assert(bindings_map(after) =~= bindings_map(entries).insert(b.name@, b.value@));
    } else {
        assert(names_distinct(front)) by {
            assert forall|x: int, y: int| 0 <= x < y < front.len() implies (#[trigger] front[x]).name@
                != (#[trigger] front[y]).name@ by {
                assert(front[x] == entries[x]);
                assert(front[y] == entries[y]);
            }
        }
        assert(front[i] == entries[i]);
        lemma_bindings_update(front, i, b);
        assert(after.drop_last() =~= front.update(i, b));
        assert(after.last() == entries.last());
        assert(entries[i].name@ != entries[entries.len() - 1].name@);
        assert(bindings_map(after) =~= bindings_map(entries).insert(b.name@, b.value@));
    }
}

proof fn lemma_bindings_push(entries: Seq<Binding>, b: Binding)
    requires
        names_distinct(entries),
        forall|i: int| 0 <= i < entries.len() ==> (#[trigger] entries[i]).name@ != b.name@,
    ensures
        names_distinct(entries.push(b)),
        bindings_map(entries.push(b)) == bindings_map(entries).insert(b.name@, b.value@),
{
    let after = entries.push(b);
    assert(after.drop_last() =~= entries);
    assert forall|x: int, y: int| 0 <= x < y < after.len() implies (#[trigger] after[x]).name@ != (
    #[trigger] after[y]).name@ by {
        if y < entries.len() {
            assert(entries[x].name@ != entries[y].name@);
        } else {
            assert(entries[x].name@ != b.name@);
        }
    }
}

/// A scope: its own bindings and the link to its parent in the arena.
pub struct Scope {
    vars: Vec<Binding>,
    parent: Option<ScopeId>,
}

impl View for Scope {
    type V = SpecScope;

    closed spec fn view(&self) -> SpecScope {
        SpecScope {
            vars: bindings_map(self.vars@),
            parent: match self.parent {
                Some(p) => Some(p as nat),
                None => None,
            },
        }
    }
}

/// The values of the scopes of an arena, in order.
pub open spec fn scopes_view(scopes: Seq<Scope>) -> Seq<SpecScope> {
    Seq::new(scopes.len(), |i: int| scopes[i]@)
}

/// An arena of scopes is in order: every scope is well-formed, and every
/// parent link points to an earlier scope.
pub open spec fn arena_wf(scopes: Seq<Scope>) -> bool {
    &&& forall|i: int| 0 <= i < scopes.len() ==> (#[trigger] scopes[i]).wf()
    &&& scopes_wf(scopes_view(scopes))
}

impl Scope {
    /// No name is bound twice.
    pub closed spec fn wf(&self) -> bool {
        names_distinct(self.vars@)
    }

    /// A scope without bindings and without a parent.
    pub fn new() -> (scope: Scope)
        ensures
            scope.wf(),
            scope@ == (SpecScope { vars: Map::empty(), parent: None }),
    {
        Scope { vars: Vec::new(), parent: None }
    }

    /// A scope without bindings whose lookups fall back on `parent`.
    pub fn with_parent(parent: ScopeId) -> (scope: Scope)
        ensures
            scope.wf(),
            scope@ == (SpecScope { vars: Map::empty(), parent: Some(parent as nat) }),
    {
        Scope { vars: Vec::new(), parent: Some(parent) }
    }

    fn find(&self, key: &String) -> (r: Option<usize>)
        ensures
            match r {
                Some(i) => i < self.vars@.len() && self.vars@[i as int].name@ == key@,
                None => forall|i: int|
                    0 <= i < self.vars@.len() ==> (#[trigger] self.vars@[i]).name@ != key@,
            },
    {
        let mut i: usize = 0;
        while i < self.vars.len()
            invariant
                i <= self.vars@.len(),
                forall|k: int| 0 <= k < i ==> (#[trigger] self.vars@[k]).name@ != key@,
            decreases self.vars.len() - i,
        {
            if self.vars[i].name == *key {
                return Some(i);
            }
            i += 1;
        }
        None
    }

    fn lookup(&self, scopes: &[Scope], key: &String) -> (r: Option<BoxedValue>)
        requires
            self.wf(),
            arena_wf(scopes@),
        ensures
            option_view(r) == lookup_from(scopes_view(scopes@), self@, key@),
        decreases climb(self@),
    {
        match self.find(key) {
            Some(i) => {
                proof {
                    lemma_bindings_hit(self.vars@, i as int);
                }
                Some(self.vars[i].value.clone())
            },
            None => {
                proof {
                    lemma_bindings_miss(self.vars@, key@);
                }
                match self.parent {
                    Some(p) => {
                        if p < scopes.len() {
                            assert(scopes_view(scopes@)[p as int] == scopes@[p as int]@);
                            scopes[p].lookup(scopes, key)
                        } else {
                            None
                        }
                    },
                    None => None,
                }
            },
        }
    }

    /// Looks `key` up: this scope's own bindings first, and on a miss
    /// those of its parent chain in `scopes`, the arena that the parent
    /// links point into.
    pub fn get(&self, scopes: &[Scope], key: &str) -> (r: Option<BoxedValue>)
        requires
            self.wf(),
            arena_wf(scopes@),
        ensures
            option_view(r) == lookup_from(scopes_view(scopes@), self@, key@),
    {
        let key = String::from_str(key);
        self.lookup(scopes, &key)
    }

    /// Binds `key` to `val` in this scope and hands back what the scope
    /// itself bound to `key` before, if anything.
    pub fn insert(&mut self, key: String, val: BoxedValue) -> (r: Option<BoxedValue>)
        requires
            old(self).wf(),
        ensures
            final(self).wf(),
            final(self)@.vars == old(self)@.vars.insert(key@, val@),
            final(self)@.parent == old(self)@.parent,
            option_view(r) == if old(self)@.vars.contains_key(key@) {
                Some(old(self)@.vars[key@])
            } else {
                None
            },
    {
        match self.find(&key) {
            Some(i) => {
                let before = self.vars[i].value.clone();
                let binding = Binding { name: key, value: val };
                proof {
                    lemma_bindings_hit(self.vars@, i as int);
                    lemma_bindings_update(self.vars@, i as int, binding);
                }
                self.vars.set(i, binding);
                Some(before)
            },
            None => {
                let binding = Binding { name: key, value: val };
                proof {
                    lemma_bindings_miss(self.vars@, key@);
                    lemma_bindings_push(self.vars@, binding);
                }
                self.vars.push(binding);
                None
            },
        }
    }
}

/// The interpreter: the arena of scopes, of which the first is the global
/// scope, and the set of interned atom names.
pub struct Interpreter {
    scopes: Vec<Scope>,
    atoms: Vec<String>,
}

/// Whether a result reports what the model says: a value with that view,
/// or the message of the same error.
pub open spec fn reports(r: EvalResult, model: Result<SpecValue, EvalError>) -> bool {
    match model {
        Ok(value) => r matches Ok(v) && v@ == value,
        Err(e) => r matches Err(m) && m@ == e.message(),
    }
}

/// Whether the interpreter went from `before` to `after`, with result `r`,
/// as the outcome `out` says: the scopes are those of the outcome, no scope
/// was added or lost, the atoms are untouched, and `r` reports the
/// outcome's result.
pub open spec fn evaluates(before: Interpreter, after: Interpreter, r: EvalResult, out: Outcome)
    -> bool {
    &&& after.wf()
    &&& after.scopes() == out.scopes
    &&& after.scopes().len() == before.scopes().len()
    &&& after.atoms() == before.atoms()
    &&& reports(r, out.result)
}

fn msg_not_found(name: &str) -> (m: String)
    ensures
        m@ == EvalError::NotFound(name@).message(),
{
    let mut m = String::from_str("name '");
    m.append(name);
    m.append("' not found in scope");
    m
}

fn msg_not_implemented(node: &Node) -> (m: String)
    ensures
        m@ == EvalError::NotImplemented(node@).message(),
{
    let mut m = node.to_string();
    m.append(" not implemented");
    m
}

fn msg_special_form(name: &str) -> (m: String)
    ensures
        m@ == EvalError::SpecialFormNotImplemented(name@).message(),
{
    let mut m = String::from_str("special form ");
    m.append(name);
    m.append(" not implemented");
    m
}

fn msg_not_callable(value: &Value) -> (m: String)
    ensures
        m@ == EvalError::NotCallable(value@).message(),
{
    let mut m = String::from_str("calling ");
    let t = value.to_string();
    m.append(t.as_str());
    m.append(" not implemented");
    m
}

fn msg_builtin(name: &str) -> (m: String)
    ensures
        m@ == EvalError::BuiltinNotImplemented(name@).message(),
{
    let mut m = String::from_str(name);
    m.append(" not implemented");
    m
}

fn msg_not_an_int(value: &Value) -> (m: String)
    ensures
        m@ == EvalError::NotAnInt(value@).message(),
{
    let mut m = value.to_string();
    m.append(" is not an int");
    m
}

fn msg_def_arity(n: usize) -> (m: String)
    ensures
        m@ == EvalError::DefArity(n as nat).message(),
{
    let mut m = String::from_str("def expects 2 arguments, got ");
    push_decimal(&mut m, n as u64);
    m
}

fn msg_not_a_symbol(node: &Node) -> (m: String)
    ensures
        m@ == EvalError::NotASymbol(node@).message(),
{
    let mut m = node.to_string();
    m.append(" is not a symbol");
    m
}

fn msg_empty_call() -> (m: String)
    ensures
        m@ == EvalError::EmptyCall.message(),
{
    String::from_str("calling an empty list not implemented")
}

fn builtin(name: &str) -> (v: BoxedValue)
    ensures
        v@ == SpecValue::BuiltinFunc(name@),
{
    Arc::new(Value::BuiltinFunc(String::from_str(name)))
}

fn special_form(name: &str) -> (v: BoxedValue)
    ensures
        v@ == SpecValue::SpecialForm(name@),
{
    Arc::new(Value::SpecialForm(String::from_str(name)))
}

impl Interpreter {
    /// The scopes of the arena, in the order in which they were made.
    pub closed spec fn scopes(&self) -> Seq<SpecScope> {
        scopes_view(self.scopes@)
    }

    /// The interned atom names.
    pub closed spec fn atoms(&self) -> Set<Seq<char>> {
        Set::new(|name: Seq<char>| exists|i: int| 0 <= i < self.atoms@.len() && self.atoms@[i]@ == name)
    }

    /// The arena holds the global scope, and is in order.
    pub closed spec fn wf(&self) -> bool {
        self.scopes@.len() > 0 && arena_wf(self.scopes@)
    }

    /// Whether `scope` is the index of a scope of this interpreter.
    pub open spec fn has_scope(&self, scope: ScopeId) -> bool {
        scope < self.scopes().len()
    }

    /// An interpreter whose only scope is the global scope, seeded with the
    /// builtins and the special forms.
    pub fn new() -> (interp: Interpreter)
        ensures
            interp.wf(),
            interp.scopes() == seq![SpecScope { vars: global_bindings(), parent: None }],
            interp.atoms() == Set::<Seq<char>>::empty(),
    {
        let mut globals = Scope::new();
        globals.insert(String::from_str("+"), builtin("+"));
        globals.insert(String::from_str("+."), builtin("+."));
        globals.insert(String::from_str("defun"), special_form("defun"));
        globals.insert(String::from_str("let"), special_form("let"));
        globals.insert(String::from_str("def"), special_form("def"));
        let mut scopes: Vec<Scope> = Vec::new();
        scopes.push(globals);
        let interp = Interpreter { scopes, atoms: Vec::new() };
        assert(interp.scopes() =~= seq![SpecScope { vars: global_bindings(), parent: None }]);
        assert(interp.atoms() =~= Set::<Seq<char>>::empty());
        interp
    }

    /// The index of the global scope.
    pub fn globals(&self) -> (scope: ScopeId)
        requires
            self.wf(),
        ensures
            scope == 0,
            self.has_scope(scope),
    {
        0
    }

    /// Whether `scope` is the index of a scope of this interpreter.
    pub fn contains_scope(&self, scope: ScopeId) -> (r: bool)
        ensures
            r == self.has_scope(scope),
    {
        scope < self.scopes.len()
    }

    /// Adds `scope` to the arena and hands back its index. Its parent, if
    /// it has one, must be a scope of this interpreter.
    pub fn add_scope(&mut self, scope: Scope) -> (id: ScopeId)
        requires
            old(self).wf(),
            scope.wf(),
            scope@.parent matches Some(p) ==> p < old(self).scopes().len(),
        ensures
            final(self).wf(),
            final(self).scopes() == old(self).scopes().push(scope@),
            final(self).atoms() == old(self).atoms(),
            id == old(self).scopes().len(),
    {
        let id = self.scopes.len();
        self.scopes.push(scope);
        assert(scopes_view(self.scopes@) =~= scopes_view(old(self).scopes@).push(scope@));
        id
    }

    /// Looks `key` up from scope `scope`, along its parent chain.
    pub fn lookup(&self, scope: ScopeId, key: &str) -> (r: Option<BoxedValue>)
        requires
            self.wf(),
        ensures
            option_view(r) == lookup(self.scopes(), scope as int, key@),
    {
        if scope < self.scopes.len() {
            self.scopes[scope].get(self.scopes.as_slice(), key)
        } else {
            None
        }
    }

    /// Evaluates `ast` in scope `scope`.
    pub fn eval(&mut self, ast: &Node, scope: ScopeId) -> (r: EvalResult)
        requires
            old(self).wf(),
            old(self).has_scope(scope),
        ensures
            evaluates(
                *old(self),
                *final(self),
                r,
                eval_node(old(self).scopes(), ast@, scope as int),
            ),
        decreases ast, 3int,
    {
        match ast {
            Node::IntLiteral(i) => Ok(Arc::new(Value::Int(*i))),
            Node::FloatLiteral(f) => Ok(Arc::new(Value::Float(f.clone()))),
            Node::Symbol(s) => {
                match self.scopes[scope].get(self.scopes.as_slice(), s.as_str()) {
                    None => Err(msg_not_found(s.as_str())),
                    Some(val) => Ok(val),
                }
            },
            Node::List(vec) => self.eval_list(ast, scope, vec.as_slice()),
            _ => Err(msg_not_implemented(ast)),
        }
    }

    /// Evaluates `ast` in the global scope, so that what one call binds the
    /// next one sees.
    pub fn eval_globals(&mut self, ast: &Node) -> (r: EvalResult)
        requires
            old(self).wf(),
        ensures
            evaluates(*old(self), *final(self), r, eval_node(old(self).scopes(), ast@, 0)),
    {
        let globals = self.globals();
        self.eval(ast, globals)
    }

    fn eval_list(&mut self, ast: &Node, scope: ScopeId, argv: &[Node]) -> (r: EvalResult)
        requires
            old(self).wf(),
            old(self).has_scope(scope),
            ast is List,
            ast->List_0@ == argv@,
        ensures
            evaluates(
                *old(self),
                *final(self),
                r,
                eval_node(old(self).scopes(), ast@, scope as int),
            ),
        decreases ast, 2int,
    {
        proof {
            lemma_list_view(ast->List_0);
        }
        let ghost children = nodes_view(argv@);
        let ghost start = self.scopes();
        if argv.len() > 0 {
            if let Node::Symbol(sym) = &argv[0] {
                if let Some(v) = self.scopes[scope].get(self.scopes.as_slice(), sym.as_str()) {
                    if let Value::SpecialForm(name) = &*v {
                        return self.eval_special(ast, name, scope, argv);
                    }
                }
            }
        }
        assert(special_form_of(start, scope as int, children) is None);
        let mut unpacked: Vec<BoxedValue> = Vec::new();
        let mut i: usize = 0;
        assert(values_view(unpacked@) =~= Seq::empty());
        while i < argv.len()
            invariant
                self.wf(),
                self.has_scope(scope),
                self.scopes().len() == old(self).scopes().len(),
                self.atoms() == old(self).atoms(),
                i <= argv.len(),
                children == nodes_view(argv@),
                ast is List,
                ast->List_0@ == argv@,
                start == old(self).scopes(),
                ast@ == SpecNode::List(children),
                special_form_of(start, scope as int, children) is None,
                eval_each(self.scopes(), children, i as int, scope as int, values_view(unpacked@))
                    == eval_each(start, children, 0, scope as int, Seq::empty()),
            decreases argv.len() - i,
        {
            assert(children[i as int] == argv@[i as int]@);
            let evaled = match self.eval(&argv[i], scope) {
                Ok(v) => v,
                Err(e) => {
                    return Err(e);
                },
            };
            assert(values_view(unpacked@.push(evaled)) =~= values_view(unpacked@).push(evaled@));
            unpacked.push(evaled);
            i += 1;
        }
        self.funcall(unpacked)
    }

    fn eval_special(&mut self, ast: &Node, name: &String, scope: ScopeId, argv: &[Node]) -> (r:
        EvalResult)
        requires
            old(self).wf(),
            old(self).has_scope(scope),
            ast is List,
            ast->List_0@ == argv@,
            special_form_of(old(self).scopes(), scope as int, nodes_view(argv@)) == Some(name@),
        ensures
            evaluates(
                *old(self),
                *final(self),
                r,
                eval_node(old(self).scopes(), ast@, scope as int),
            ),
        decreases ast, 1int,
    {
        proof {
            lemma_list_view(ast->List_0);
        }
        let args = slice_subrange(argv, 1, argv.len());
        if *name == String::from_str("def") {
            self.special_def(ast, scope, args)
        } else {
            Err(msg_special_form(name.as_str()))
        }
    }

    fn funcall(&self, argv: Vec<BoxedValue>) -> (r: EvalResult)
        ensures
            reports(r, apply(values_view(argv@))),
    {
        if argv.len() == 0 {
            return Err(msg_empty_call());
        }
        let args = slice_subrange(argv.as_slice(), 1, argv.len());
        assert(values_view(args@) =~= values_view(argv@).skip(1));
        match &*argv[0] {
            Value::BuiltinFunc(name) => self.call_builtin(name, args),
            fun => Err(msg_not_callable(fun)),
        }
    }

    fn call_builtin(&self, fun: &String, args: &[BoxedValue]) -> (r: EvalResult)
        ensures
            reports(r, call_builtin(fun@, values_view(args@))),
    {
        if *fun == String::from_str("+") {
            self.builtin_addi(args)
        } else {
            Err(msg_builtin(fun.as_str()))
        }
    }

    fn builtin_addi(&self, args: &[BoxedValue]) -> (r: EvalResult)
        ensures
            reports(
                r,
                match add_ints(values_view(args@)) {
                    Ok(sum) => Ok(SpecValue::Int(sum)),
                    Err(e) => Err(e),
                },
            ),
    {
        let ghost values = values_view(args@);
        let mut r: i64 = 0;
        let mut i: usize = 0;
        assert(values.take(0) =~= Seq::empty());
        while i < args.len()
            invariant
                i <= args.len(),
                values == values_view(args@),
                add_ints(values.take(i as int)) == Ok::<i64, EvalError>(r),
            decreases args.len() - i,
        {
            assert(values.take(i + 1).drop_last() =~= values.take(i as int));
            assert(values.take(i + 1).last() == args@[i as int]@);
            match &*args[i] {
                Value::Int(x) => {
                    r = r.wrapping_add(*x);
                },
                other => {
                    proof {
                        lemma_add_ints_error_extends(values, i + 1);
                    }
                    return Err(msg_not_an_int(other));
                },
            }
            i += 1;
        }
        assert(values.take(args.len() as int) =~= values);
        Ok(Arc::new(Value::Int(r)))
    }

    fn special_def(&mut self, ast: &Node, scope: ScopeId, args: &[Node]) -> (r: EvalResult)
        requires
            old(self).wf(),
            old(self).has_scope(scope),
            ast is List,
            ast->List_0@.len() > 0,
            args@ == ast->List_0@.skip(1),
            special_form_of(old(self).scopes(), scope as int, nodes_view(ast->List_0@)) == Some(
                "def"@,
            ),
        ensures
            evaluates(
                *old(self),
                *final(self),
                r,
                eval_node(old(self).scopes(), ast@, scope as int),
            ),
        decreases ast, 0int,
    {
        proof {
            lemma_list_view(ast->List_0);
        }
        if args.len() != 2 {
            return Err(msg_def_arity(args.len()));
        }
        let sym = &args[0];
        let val = &args[1];
        let name = match sym {
            Node::Symbol(name) => name,
            _ => {
                return Err(msg_not_a_symbol(sym));
            },
        };
        let evaled = match self.eval(val, scope) {
            Ok(v) => v,
            Err(e) => {
                return Err(e);
            },
        };
        let eval2 = evaled.clone();
        let ghost mid = self.scopes@;
        self.scopes[scope].insert(name.clone(), evaled);
        assert(scopes_view(self.scopes@) =~= bind(scopes_view(mid), scope as int, name@, evaled@));
        Ok(eval2)
    }
}

/// Once the sum has met an argument that is no integer, more arguments
/// change nothing.
pub proof fn lemma_add_ints_error_extends(args: Seq<SpecValue>, n: int)
    requires
        0 <= n <= args.len(),
        add_ints(args.take(n)) is Err,
    ensures
        add_ints(args) == add_ints(args.take(n)),
    decreases args.len() - n,
{
    if n == args.len() {
        assert(args.take(n) =~= args);
    } else {
        assert(args.take(n + 1).drop_last() =~= args.take(n));
        lemma_add_ints_error_extends(args, n + 1);
    }
}

} // verus!
