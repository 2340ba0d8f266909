use toylisp::eval::Interpreter;
use toylisp::rep;

#[test]
fn test() {
    let mut interp = Interpreter::new();
    let r1 = rep(&mut interp, "(+ 1 2)").unwrap().unwrap_int();
    assert_eq!(r1, 3);

    let r2 = rep(&mut interp, "(def x x)").unwrap_err();
    assert!(r2.len() > 0);

    let r3 = rep(&mut interp, "(def a (+ (def x 1) (def y 2) x y))").unwrap().unwrap_int();
    assert_eq!(r3, 6);
}

#[test]
fn addition_of_integer_literals_is_their_sum() {
    let mut interp = Interpreter::new();
    assert_eq!(rep(&mut interp, "(+ 1 2)").unwrap().unwrap_int(), 3);
    assert_eq!(rep(&mut interp, "(+ 10 20 30 40)").unwrap().unwrap_int(), 100);
    assert_eq!(rep(&mut interp, "(+ 7)").unwrap().unwrap_int(), 7);
    assert_eq!(rep(&mut interp, "(+)").unwrap().unwrap_int(), 0);
    assert_eq!(rep(&mut interp, "(+ (+ 1 2) (+ 3 4))").unwrap().unwrap_int(), 10);
}

#[test]
fn addition_wraps_around_at_the_ends_of_the_range() {
    let mut interp = Interpreter::new();
    let r = rep(&mut interp, "(+ 9223372036854775807 1)").unwrap().unwrap_int();
    assert_eq!(r, i64::MIN);
    let r = rep(&mut interp, "(+ 9223372036854775807 9223372036854775807 2)").unwrap().unwrap_int();
    assert_eq!(r, 0);
}

#[test]
fn def_hands_back_the_value_it_bound() {
    let mut interp = Interpreter::new();
    assert_eq!(rep(&mut interp, "(def x 5)").unwrap().unwrap_int(), 5);
    assert_eq!(rep(&mut interp, "(+ x)").unwrap().unwrap_int(), 5);
    assert_eq!(interp.lookup(0, "x").unwrap().unwrap_int(), 5);
    assert_eq!(rep(&mut interp, "(def x 8)").unwrap().unwrap_int(), 8);
    assert_eq!(interp.lookup(0, "x").unwrap().unwrap_int(), 8);
}

#[test]
fn self_referential_def_is_not_found() {
    let mut interp = Interpreter::new();
    let err = rep(&mut interp, "(def x x)").unwrap_err();
    assert_eq!(err, "name 'x' not found in scope");
    assert!(interp.lookup(0, "x").is_none());
}

#[test]
fn nested_defs_run_left_to_right_before_the_call() {
    let mut interp = Interpreter::new();
    let r = rep(&mut interp, "(def a (+ (def x 1) (def y 2) x y))").unwrap();
    assert_eq!(r.unwrap_int(), 6);
    assert_eq!(interp.lookup(0, "x").unwrap().unwrap_int(), 1);
    assert_eq!(interp.lookup(0, "y").unwrap().unwrap_int(), 2);
    assert_eq!(interp.lookup(0, "a").unwrap().unwrap_int(), 6);
}

#[test]
fn a_use_before_its_def_in_the_same_call_fails() {
    let mut interp = Interpreter::new();
    let err = rep(&mut interp, "(+ x (def x 1))").unwrap_err();
    assert_eq!(err, "name 'x' not found in scope");
}

#[test]
fn bindings_made_before_a_failure_stay() {
    let mut interp = Interpreter::new();
    let err = rep(&mut interp, "(+ (def z 1) q)").unwrap_err();
    assert_eq!(err, "name 'q' not found in scope");
    assert_eq!(interp.lookup(0, "z").unwrap().unwrap_int(), 1);
}

#[test]
fn a_lexical_error_is_reported_and_binds_nothing() {
    let mut interp = Interpreter::new();
    let err = rep(&mut interp, "(def x 1) #").unwrap_err();
    assert_eq!(err, "invalid input in normal state: # (23)");
    assert!(interp.lookup(0, "x").is_none());
}

#[test]
fn a_string_literal_is_not_implemented() {
    let mut interp = Interpreter::new();
    let err = rep(&mut interp, "(def x \"hello\")").unwrap_err();
    assert_eq!(err, "scan_string not implemented");
}

#[test]
fn blank_input_has_no_form() {
    let mut interp = Interpreter::new();
    assert_eq!(rep(&mut interp, "").unwrap_err(), "unexpected end of input");
    assert_eq!(rep(&mut interp, "   \t\r\n").unwrap_err(), "unexpected end of input");
    assert_eq!(rep(&mut interp, "; comment\n").unwrap_err(), "unexpected end of input");
}

#[test]
fn an_unterminated_list_is_an_unexpected_end() {
    let mut interp = Interpreter::new();
    assert_eq!(rep(&mut interp, "(+ 1 2 ").unwrap_err(), "unexpected end of input");
}

#[test]
fn a_malformed_number_is_reported_with_its_text() {
    let mut interp = Interpreter::new();
    assert_eq!(rep(&mut interp, "(+ 1 2e)").unwrap_err(), "couldn't parse number: 2e");
}

#[test]
fn what_follows_the_first_form_is_ignored() {
    let mut interp = Interpreter::new();
    assert_eq!(rep(&mut interp, "(+ 1 2) (def x 9) ").unwrap().unwrap_int(), 3);
    assert!(interp.lookup(0, "x").is_none());
}
