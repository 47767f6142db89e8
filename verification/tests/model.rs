use lisp_roots::env::Env;
use lisp_roots::error::{decimal_string, Error};
use lisp_roots::expr::{expr_eq, Atom, Expr};
use lisp_roots::list::List;
use lisp_roots::primitives;
use lisp_roots::DEFAULT_FUEL;

fn sym(name: &str) -> Expr {
    Expr::Atom(Atom(name.to_string()))
}

fn list_of(items: Vec<Expr>) -> List {
    List::from_vec(items)
}

#[test]
fn list_push_car_cdr_len() {
    let mut l = List::new();
    assert!(l.is_empty());
    assert_eq!(l.len(), 0);
    l.push(sym("a"));
    l.push(sym("b"));
    assert!(!l.is_empty());
    assert_eq!(l.len(), 2);
    assert!(expr_eq(l.car(), &sym("a")));
    let rest = l.cdr();
    assert_eq!(rest.len(), 1);
    assert!(expr_eq(rest.car(), &sym("b")));
    assert!(expr_eq(l.get(1), &sym("b")));
}

#[test]
fn dup_yields_an_equal_expr() {
    let e = Expr::List(list_of(vec![sym("a"), Expr::List(list_of(vec![sym("b")]))]));
    let d = e.dup();
    assert!(expr_eq(&e, &d));
}

#[test]
fn new_nil_prints_as_empty_list() {
    assert_eq!(Expr::new_nil().to_text(), "()");
    assert_eq!(Expr::new_true().to_text(), "t");
}

#[test]
fn primitive_car_and_cdr_demand_a_non_empty_list() {
    let args = list_of(vec![Expr::new_nil()]);
    assert!(matches!(primitives::car(&args), Err(Error::EvalError(_))));
    assert!(matches!(primitives::cdr(&args), Err(Error::EvalError(_))));
    let args = list_of(vec![Expr::List(list_of(vec![sym("a"), sym("b")]))]);
    assert_eq!(primitives::car(&args).unwrap().to_text(), "a");
    assert_eq!(primitives::cdr(&args).unwrap().to_text(), "(b)");
}

#[test]
fn primitive_cons_prepends() {
    let args = list_of(vec![sym("a"), Expr::List(list_of(vec![sym("b")]))]);
    assert_eq!(primitives::cons(&args).unwrap().to_text(), "(a b)");
}

#[test]
fn primitive_eq_and_atom() {
    let args = list_of(vec![sym("a"), sym("a")]);
    assert_eq!(primitives::eq(&args).unwrap().to_text(), "t");
    let args = list_of(vec![sym("a"), sym("b")]);
    assert_eq!(primitives::eq(&args).unwrap().to_text(), "()");
    let args = list_of(vec![sym("a")]);
    assert_eq!(primitives::atom(&args).unwrap().to_text(), "t");
}

#[test]
fn check_args_count_matches_expectations() {
    assert!(primitives::check_args_count(2, 2).is_ok());
    match primitives::check_args_count(2, 3) {
        Err(Error::EvalError(m)) => assert_eq!(m, "expected 2 argument(s), got 3"),
        _ => panic!("expected an eval error"),
    }
}

#[test]
fn decimal_rendering() {
    assert_eq!(decimal_string(0), "0");
    assert_eq!(decimal_string(7), "7");
    assert_eq!(decimal_string(42), "42");
    assert_eq!(decimal_string(1234567890), "1234567890");
}

#[test]
fn env_lookup_finds_innermost_scope() {
    let mut env = Env::new_global();
    env.insert(&sym("k"), &sym("older"));
    env.insert(&sym("k"), &sym("newer"));
    let got = env.get(None, &sym("k")).unwrap();
    assert!(expr_eq(got, &sym("newer")));
}

#[test]
fn env_lookup_within_one_scope_takes_the_earliest_binding() {
    let mut env = Env::new_global();
    let frame = env.extend(
        vec![(sym("k"), sym("first")), (sym("k"), sym("second"))],
        None,
    );
    let got = env.get(Some(frame), &sym("k")).unwrap();
    assert!(expr_eq(got, &sym("first")));
}

#[test]
fn env_frames_chain_to_their_parents_and_to_the_top() {
    let mut env = Env::new_global();
    env.insert(&sym("global"), &sym("g"));
    let outer = env.extend(vec![(sym("x"), sym("outer-x"))], None);
    let inner = env.extend(vec![(sym("y"), sym("inner-y"))], Some(outer));
    assert!(expr_eq(env.get(Some(inner), &sym("y")).unwrap(), &sym("inner-y")));
    assert!(expr_eq(env.get(Some(inner), &sym("x")).unwrap(), &sym("outer-x")));
    assert!(expr_eq(env.get(Some(inner), &sym("global")).unwrap(), &sym("g")));
    assert!(env.get(Some(outer), &sym("y")).is_none());
    assert!(env.get(None, &sym("x")).is_none());
}

#[test]
fn env_new_is_empty() {
    let env = Env::new();
    assert!(env.get(None, &sym("car")).is_none());
}

#[test]
fn global_env_binds_the_five_primitives() {
    let env = Env::new_global();
    for name in ["car", "cdr", "atom", "eq", "cons"] {
        let v = env.get(None, &sym(name)).unwrap();
        assert_eq!(v.to_text(), name);
    }
    assert!(env.get(None, &sym("quote")).is_none());
}

#[test]
fn eval_consults_the_environment() {
    let mut env = Env::new_global();
    env.insert(&sym("x"), &sym("bound"));
    let r = sym("x").eval(&mut env, None, DEFAULT_FUEL).unwrap();
    assert_eq!(r.to_text(), "bound");
}

#[test]
fn eval_with_exhausted_depth_budget_fails() {
    let mut env = Env::new_global();
    let r = sym("x").eval(&mut env, None, 0);
    match r {
        Err(Error::EvalError(m)) => assert_eq!(m, "recursion depth limit reached"),
        _ => panic!("expected an eval error"),
    }
}

#[test]
fn runaway_recursion_hits_the_depth_budget() {
    let mut env = Env::new_global();
    let defs = lisp_roots::read::read("(defun spin (x) (spin x)) (spin 'a)".to_string()).unwrap();
    let d = defs[0].eval(&mut env, None, 64).unwrap();
    assert_eq!(d.to_text(), "()");
    match defs[1].eval(&mut env, None, 64) {
        Err(Error::EvalError(m)) => assert_eq!(m, "recursion depth limit reached"),
        _ => panic!("expected the depth budget error"),
    }
}
