use lisp_roots::env::Env;
use lisp_roots::error::Error;
use lisp_roots::expr::{Atom, Expr, Func, Lambda, PrimKind, Primitive};
use lisp_roots::list::List;
use lisp_roots::read_eval;

fn err_text(src: &str) -> String {
    read_eval(src.to_string()).unwrap_err().to_text()
}

fn is_read_error(src: &str) -> bool {
    matches!(read_eval(src.to_string()), Err(Error::ReadError(_)))
}

fn is_eval_error(src: &str) -> bool {
    matches!(read_eval(src.to_string()), Err(Error::EvalError(_)))
}

#[test]
fn unmatched_paren_is_a_read_error() {
    assert!(is_read_error("(a (b)"));
    assert_eq!(err_text("(a (b)"), "read error: unmatched parens");
    assert_eq!(err_text("("), "read error: unmatched parens");
}

#[test]
fn stray_close_paren_is_a_read_error() {
    assert!(is_read_error(")"));
    assert_eq!(err_text(")"), "read error: unexpected )");
    assert_eq!(err_text("(a) ) (b)"), "read error: unexpected )");
}

#[test]
fn empty_source_is_a_read_error() {
    assert_eq!(err_text(""), "read error: no tokens to parse");
    assert_eq!(err_text("   \t\n"), "read error: no tokens to parse");
}

#[test]
fn quote_mark_with_nothing_after_is_a_read_error() {
    assert_eq!(err_text("'"), "read error: no tokens to parse");
}

#[test]
fn malformed_input_fails_before_any_evaluation() {
    // the erroring definition would bind f if evaluation ever began
    assert!(is_read_error("(defun f (x) x) (a (b)"));
}

#[test]
fn unbound_symbol_is_an_eval_error_not_nil() {
    assert!(is_eval_error("nope"));
    assert_eq!(err_text("nope"), "eval error: nope does not exist");
}

#[test]
fn car_of_non_list_and_of_empty_list_fail() {
    assert_eq!(err_text("(car 'x)"), "eval error: passed non list to car");
    assert_eq!(err_text("(car '())"), "eval error: passed non list to car");
}

#[test]
fn cdr_of_non_list_and_of_empty_list_fail() {
    // the pinned convention: cdr of the empty list errors, like car
    assert_eq!(err_text("(cdr 'x)"), "eval error: passed non list to cdr");
    assert_eq!(err_text("(cdr '())"), "eval error: passed non list to cdr");
}

#[test]
fn cons_onto_a_non_list_fails() {
    assert_eq!(
        err_text("(cons 'a 'b)"),
        "eval error: passed non list to cons cdr"
    );
}

#[test]
fn arity_errors_name_the_counts() {
    assert_eq!(err_text("(eq 'a)"), "eval error: expected 2 argument(s), got 1");
    assert_eq!(
        err_text("(car 'a 'b)"),
        "eval error: expected 1 argument(s), got 2"
    );
    assert_eq!(
        err_text("(quote a b)"),
        "eval error: expected 1 argument(s), got 2"
    );
    assert_eq!(
        err_text("(lambda (x))"),
        "eval error: expected 2 argument(s), got 1"
    );
    assert_eq!(
        err_text("(defun f (x))"),
        "eval error: expected 3 argument(s), got 2"
    );
}

#[test]
fn cond_with_no_true_branch_fails() {
    assert_eq!(err_text("(cond ('() 'a))"), "eval error: cond does not match");
    assert_eq!(err_text("(cond)"), "eval error: cond does not match");
}

#[test]
fn cond_branch_that_is_an_atom_fails_naming_its_position() {
    assert_eq!(
        err_text("(cond a)"),
        "eval error: expected list in argument 0, got atom"
    );
    assert_eq!(
        err_text("(cond ('() 'a) b)"),
        "eval error: expected list in argument 1, got atom"
    );
}

#[test]
fn cond_branch_of_wrong_length_fails_with_arity() {
    assert_eq!(
        err_text("(cond ('t 'a 'b))"),
        "eval error: expected 2 argument(s), got 3"
    );
}

#[test]
fn applying_a_non_function_fails() {
    assert_eq!(err_text("('x 'y)"), "eval error: not a function");
    assert_eq!(err_text("((quote x) 'y)"), "eval error: not a function");
}

#[test]
fn binding_against_a_function_parameter_spec_fails() {
    // only reachable by building the closure directly: the reader never
    // produces a function value in parameter position
    let closure = Lambda {
        params: Box::new(Expr::Func(Func::Primitive(Primitive { kind: PrimKind::Car }))),
        body: Box::new(Expr::Atom(Atom("x".to_string()))),
        frame: None,
    };
    let mut env = Env::new_global();
    let r = closure.call(List::new(), &mut env, 10);
    match r {
        Err(Error::EvalError(m)) => assert_eq!(m, "encountered func"),
        _ => panic!("expected an eval error"),
    }
}

#[test]
fn error_text_carries_the_kind_prefix() {
    let e = read_eval(")".to_string()).unwrap_err();
    assert!(e.to_text().starts_with("read error: "));
    let e = read_eval("nope".to_string()).unwrap_err();
    assert!(e.to_text().starts_with("eval error: "));
}
