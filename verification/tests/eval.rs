use std::sync::Arc;
use toylisp::eval::{Interpreter, Scope, Value};
use toylisp::parser::Node;

fn sym(s: &str) -> Node {
    Node::Symbol(s.to_string())
}

fn lit(i: i64) -> Node {
    Node::IntLiteral(i)
}

fn list(items: Vec<Node>) -> Node {
    Node::List(items)
}

fn boxed_int(i: i64) -> Arc<Value> {
    Arc::new(Value::Int(i))
}

#[test]
fn the_global_scope_is_seeded() {
    let interp = Interpreter::new();
    assert_eq!(interp.globals(), 0);
    assert!(interp.contains_scope(0));
    assert!(!interp.contains_scope(1));
    assert_eq!(*interp.lookup(0, "+").unwrap(), Value::BuiltinFunc("+".to_string()));
    assert_eq!(*interp.lookup(0, "+.").unwrap(), Value::BuiltinFunc("+.".to_string()));
    assert_eq!(*interp.lookup(0, "def").unwrap(), Value::SpecialForm("def".to_string()));
    assert_eq!(*interp.lookup(0, "defun").unwrap(), Value::SpecialForm("defun".to_string()));
    assert_eq!(*interp.lookup(0, "let").unwrap(), Value::SpecialForm("let".to_string()));
    assert!(interp.lookup(0, "x").is_none());
    assert!(interp.lookup(7, "+").is_none());
}

#[test]
fn literals_evaluate_to_themselves() {
    let mut interp = Interpreter::new();
    assert_eq!(*interp.eval_globals(&lit(42)).unwrap(), Value::Int(42));
    assert_eq!(
        *interp.eval_globals(&Node::FloatLiteral("2.5".to_string())).unwrap(),
        Value::Float("2.5".to_string())
    );
}

#[test]
fn a_symbol_evaluates_to_what_it_is_bound_to() {
    let mut interp = Interpreter::new();
    assert_eq!(*interp.eval_globals(&sym("+")).unwrap(), Value::BuiltinFunc("+".to_string()));
    assert_eq!(
        interp.eval_globals(&sym("nope")).unwrap_err(),
        "name 'nope' not found in scope"
    );
}

#[test]
fn unfinished_nodes_are_not_implemented() {
    let mut interp = Interpreter::new();
    assert_eq!(interp.eval_globals(&Node::Nothing).unwrap_err(), "Nothing not implemented");
    assert_eq!(
        interp.eval_globals(&Node::BoolLiteral(true)).unwrap_err(),
        "BoolLiteral(true) not implemented"
    );
    assert_eq!(
        interp.eval_globals(&Node::StringLiteral("s".to_string())).unwrap_err(),
        "StringLiteral(s) not implemented"
    );
    assert_eq!(
        interp.eval_globals(&Node::Funcall(vec![sym("+")])).unwrap_err(),
        "Funcall([Symbol(+)]) not implemented"
    );
}

#[test]
fn addition_sums_its_arguments() {
    let mut interp = Interpreter::new();
    let ast = list(vec![sym("+"), lit(1), lit(2)]);
    assert_eq!(interp.eval_globals(&ast).unwrap().unwrap_int(), 3);
    let ast = list(vec![sym("+"), lit(-5), lit(2), lit(-40)]);
    assert_eq!(interp.eval_globals(&ast).unwrap().unwrap_int(), -43);
    let ast = list(vec![sym("+")]);
    assert_eq!(interp.eval_globals(&ast).unwrap().unwrap_int(), 0);
}

#[test]
fn addition_wraps() {
    let mut interp = Interpreter::new();
    let ast = list(vec![sym("+"), lit(i64::MAX), lit(1)]);
    assert_eq!(interp.eval_globals(&ast).unwrap().unwrap_int(), i64::MIN);
    let ast = list(vec![sym("+"), lit(i64::MIN), lit(-1)]);
    assert_eq!(interp.eval_globals(&ast).unwrap().unwrap_int(), i64::MAX);
    let ast = list(vec![sym("+"), lit(i64::MAX), lit(i64::MAX), lit(i64::MIN), lit(i64::MIN)]);
    assert_eq!(interp.eval_globals(&ast).unwrap().unwrap_int(), -2);
}

#[test]
fn the_first_argument_that_is_no_integer_is_reported() {
    let mut interp = Interpreter::new();
    let ast = list(vec![sym("+"), lit(1), sym("+"), sym("def")]);
    assert_eq!(interp.eval_globals(&ast).unwrap_err(), "BuiltinFunc(+) is not an int");
    let ast = list(vec![sym("+"), Node::FloatLiteral("1.5".to_string()), lit(1)]);
    assert_eq!(interp.eval_globals(&ast).unwrap_err(), "UnknownValue is not an int");
}

#[test]
fn only_builtins_can_be_called() {
    let mut interp = Interpreter::new();
    let ast = list(vec![lit(1), lit(2)]);
    assert_eq!(interp.eval_globals(&ast).unwrap_err(), "calling Int(1) not implemented");
    let ast = list(vec![list(vec![sym("+"), lit(1)]), lit(2)]);
    assert_eq!(interp.eval_globals(&ast).unwrap_err(), "calling Int(1) not implemented");
}

#[test]
fn the_empty_list_cannot_be_called() {
    let mut interp = Interpreter::new();
    assert_eq!(
        interp.eval_globals(&list(vec![])).unwrap_err(),
        "calling an empty list not implemented"
    );
}

#[test]
fn a_builtin_without_a_handler_is_not_implemented() {
    let mut interp = Interpreter::new();
    let ast = list(vec![sym("+."), lit(1), lit(2)]);
    assert_eq!(interp.eval_globals(&ast).unwrap_err(), "+. not implemented");
}

#[test]
fn a_special_form_without_a_handler_is_not_implemented() {
    let mut interp = Interpreter::new();
    let ast = list(vec![sym("defun"), sym("f"), list(vec![]), lit(1)]);
    assert_eq!(interp.eval_globals(&ast).unwrap_err(), "special form defun not implemented");
    let ast = list(vec![sym("let"), sym("unbound")]);
    assert_eq!(interp.eval_globals(&ast).unwrap_err(), "special form let not implemented");
}

#[test]
fn def_wants_exactly_two_arguments() {
    let mut interp = Interpreter::new();
    let ast = list(vec![sym("def")]);
    assert_eq!(interp.eval_globals(&ast).unwrap_err(), "def expects 2 arguments, got 0");
    let ast = list(vec![sym("def"), sym("x")]);
    assert_eq!(interp.eval_globals(&ast).unwrap_err(), "def expects 2 arguments, got 1");
    let ast = list(vec![sym("def"), sym("x"), lit(1), lit(2)]);
    assert_eq!(interp.eval_globals(&ast).unwrap_err(), "def expects 2 arguments, got 3");
    assert!(interp.lookup(0, "x").is_none());
}

#[test]
fn def_wants_a_symbol_first() {
    let mut interp = Interpreter::new();
    let ast = list(vec![sym("def"), lit(1), lit(2)]);
    assert_eq!(interp.eval_globals(&ast).unwrap_err(), "IntLiteral(1) is not a symbol");
    let ast = list(vec![sym("def"), list(vec![sym("x")]), sym("unbound")]);
    assert_eq!(interp.eval_globals(&ast).unwrap_err(), "List([Symbol(x)]) is not a symbol");
}

#[test]
fn def_binds_and_hands_back_the_value() {
    let mut interp = Interpreter::new();
    let ast = list(vec![sym("def"), sym("x"), lit(5)]);
    let v = interp.eval_globals(&ast).unwrap();
    assert_eq!(*v, Value::Int(5));
    assert_eq!(*interp.eval_globals(&sym("x")).unwrap(), Value::Int(5));
    let shared = interp.lookup(0, "x").unwrap();
    assert!(Arc::ptr_eq(&v, &shared));
}

#[test]
fn def_can_rebind_a_special_form() {
    let mut interp = Interpreter::new();
    let ast = list(vec![sym("def"), sym("def"), lit(5)]);
    assert_eq!(*interp.eval_globals(&ast).unwrap(), Value::Int(5));
    let ast = list(vec![sym("def"), sym("x"), lit(1)]);
    assert_eq!(interp.eval_globals(&ast).unwrap_err(), "name 'x' not found in scope");
}

#[test]
fn a_child_scope_sees_its_ancestors() {
    let mut interp = Interpreter::new();
    let child = interp.add_scope(Scope::with_parent(0));
    let grandchild = interp.add_scope(Scope::with_parent(child));
    assert_eq!(child, 1);
    assert_eq!(grandchild, 2);
    assert!(interp.contains_scope(grandchild));
    let def = list(vec![sym("def"), sym("x"), lit(5)]);
    assert_eq!(interp.eval_globals(&def).unwrap().unwrap_int(), 5);
    assert_eq!(interp.eval(&sym("x"), child).unwrap().unwrap_int(), 5);
    assert_eq!(interp.eval(&sym("x"), grandchild).unwrap().unwrap_int(), 5);
    let ast = list(vec![sym("+"), sym("x"), lit(1)]);
    assert_eq!(interp.eval(&ast, grandchild).unwrap().unwrap_int(), 6);
}

#[test]
fn def_in_a_child_scope_shadows_and_leaves_the_parent_alone() {
    let mut interp = Interpreter::new();
    let child = interp.add_scope(Scope::with_parent(0));
    let grandchild = interp.add_scope(Scope::with_parent(child));
    interp.eval_globals(&list(vec![sym("def"), sym("x"), lit(1)])).unwrap();
    interp.eval(&list(vec![sym("def"), sym("x"), lit(2)]), child).unwrap();
    assert_eq!(interp.lookup(0, "x").unwrap().unwrap_int(), 1);
    assert_eq!(interp.lookup(child, "x").unwrap().unwrap_int(), 2);
    assert_eq!(interp.lookup(grandchild, "x").unwrap().unwrap_int(), 2);
    interp.eval(&list(vec![sym("def"), sym("y"), lit(3)]), grandchild).unwrap();
    assert!(interp.lookup(child, "y").is_none());
    assert!(interp.lookup(0, "y").is_none());
}

#[test]
fn an_unbound_symbol_is_not_found_at_any_depth() {
    let mut interp = Interpreter::new();
    let mut scope = 0;
    for _ in 0..50 {
        scope = interp.add_scope(Scope::with_parent(scope));
        assert_eq!(
            interp.eval(&sym("ghost"), scope).unwrap_err(),
            "name 'ghost' not found in scope"
        );
    }
    assert_eq!(*interp.eval(&sym("+"), scope).unwrap(), Value::BuiltinFunc("+".to_string()));
}

#[test]
fn a_scope_without_a_parent_sees_only_itself() {
    let mut interp = Interpreter::new();
    let island = interp.add_scope(Scope::new());
    assert_eq!(interp.eval(&sym("+"), island).unwrap_err(), "name '+' not found in scope");
    let ast = list(vec![sym("def"), sym("x"), lit(1)]);
    assert_eq!(interp.eval(&ast, island).unwrap_err(), "name 'def' not found in scope");
}

#[test]
fn scope_insert_hands_back_what_was_bound_before() {
    let mut scope = Scope::new();
    assert!(scope.insert("a".to_string(), boxed_int(1)).is_none());
    assert!(scope.insert("b".to_string(), boxed_int(2)).is_none());
    assert_eq!(scope.insert("a".to_string(), boxed_int(3)).unwrap().unwrap_int(), 1);
    assert_eq!(scope.get(&[], "a").unwrap().unwrap_int(), 3);
    assert_eq!(scope.get(&[], "b").unwrap().unwrap_int(), 2);
    assert!(scope.get(&[], "c").is_none());
}

#[test]
fn scope_get_walks_the_parent_chain() {
    let mut root = Scope::new();
    root.insert("a".to_string(), boxed_int(1));
    root.insert("b".to_string(), boxed_int(2));
    let mut middle = Scope::with_parent(0);
    middle.insert("b".to_string(), boxed_int(20));
    let arena = vec![root, middle];
    let mut leaf = Scope::with_parent(1);
    leaf.insert("c".to_string(), boxed_int(300));
    assert_eq!(leaf.get(&arena, "a").unwrap().unwrap_int(), 1);
    assert_eq!(leaf.get(&arena, "b").unwrap().unwrap_int(), 20);
    assert_eq!(leaf.get(&arena, "c").unwrap().unwrap_int(), 300);
    assert!(leaf.get(&arena, "d").is_none());
    assert!(arena[0].get(&arena, "c").is_none());
    let orphan = Scope::with_parent(9);
    assert!(orphan.get(&arena, "a").is_none());
}

#[test]
fn values_are_written_with_their_tags() {
    assert_eq!(Value::Nil.to_string(), "Nil");
    assert_eq!(Value::Bool(true).to_string(), "Bool(true)");
    assert_eq!(Value::Bool(false).to_string(), "Bool(false)");
    assert_eq!(Value::Int(-12).to_string(), "Int(-12)");
    assert_eq!(Value::Int(0).to_string(), "Int(0)");
    assert_eq!(Value::BuiltinFunc("+".to_string()).to_string(), "BuiltinFunc(+)");
    assert_eq!(Value::SpecialForm("def".to_string()).to_string(), "SpecialForm(def)");
    assert_eq!(Value::Float("1.5".to_string()).to_string(), "UnknownValue");
    assert_eq!(Value::String("s".to_string()).to_string(), "UnknownValue");
    assert_eq!(Value::Atom("a".to_string()).to_string(), "UnknownValue");
    assert_eq!(Value::Function { code: Node::Nothing, locals: 0 }.to_string(), "UnknownValue");
    assert_eq!(Value::List(vec![]).to_string(), "List([])");
    let nested = Value::List(vec![
        boxed_int(1),
        Arc::new(Value::List(vec![Arc::new(Value::Nil), boxed_int(2)])),
        Arc::new(Value::Bool(true)),
    ]);
    assert_eq!(nested.to_string(), "List([Int(1), List([Nil, Int(2)]), Bool(true)])");
}

#[test]
fn unwrap_int_gives_the_integer() {
    assert_eq!(Value::Int(77).unwrap_int(), 77);
    assert_eq!(Value::Int(i64::MIN).unwrap_int(), i64::MIN);
}
