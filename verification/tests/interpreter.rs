use lisp_roots::read_eval;

fn run(src: &str) -> String {
    read_eval(src.to_string()).unwrap()
}

fn run_err(src: &str) -> String {
    read_eval(src.to_string()).unwrap_err().to_text()
}

#[test]
fn symbol_evaluates_to_its_binding() {
    assert_eq!(run("'x"), "x\n");
    assert_eq!(run("(quote x)"), "x\n");
}

#[test]
fn empty_list_evaluates_to_itself_and_is_not_printed() {
    // nil results are skipped by the entry point
    assert_eq!(run("()"), "");
}

#[test]
fn primitives_are_bound_and_self_describing() {
    assert_eq!(run("car"), "car\n");
    assert_eq!(run("cons"), "cons\n");
}

#[test]
fn car_cdr_cons_work() {
    assert_eq!(run("(car '(a b c))"), "a\n");
    assert_eq!(run("(cdr '(a b c))"), "(b c)\n");
    assert_eq!(run("(cons 'a '(b c))"), "(a b c)\n");
    assert_eq!(run("(cons 'a '())"), "(a)\n");
}

#[test]
fn cons_car_cdr_round_trip() {
    assert_eq!(run("(cons (car '(a b c)) (cdr '(a b c)))"), "(a b c)\n");
    assert_eq!(run("(cons (car '(x)) (cdr '(x)))"), "(x)\n");
}

#[test]
fn atom_classification() {
    assert_eq!(run("(atom 'x)"), "t\n");
    assert_eq!(run("(atom '())"), "t\n");
    assert_eq!(run("(atom '(1))"), "");
    assert_eq!(run("(atom car)"), "t\n");
}

#[test]
fn eq_is_structural() {
    assert_eq!(run("(eq '(1 2) '(1 2))"), "t\n");
    assert_eq!(run("(eq '(1 2) '(2 1))"), "");
    assert_eq!(run("(eq 'a 'a)"), "t\n");
    assert_eq!(run("(eq 'a 'b)"), "");
    assert_eq!(run("(eq '() '())"), "t\n");
    assert_eq!(run("(eq '(a (b c)) '(a (b c)))"), "t\n");
}

#[test]
fn eq_is_reflexive_and_symmetric_on_examples() {
    assert_eq!(run("(eq '(a b) '(a b))"), "t\n");
    assert_eq!(run("(eq 'b 'a)"), run("(eq 'a 'b)"));
}

#[test]
fn cond_takes_first_truthy_branch() {
    assert_eq!(run("(cond ('t 'yes))"), "yes\n");
    assert_eq!(run("(cond ('() 'no) ('t 'yes))"), "yes\n");
}

#[test]
fn cond_short_circuits_left_to_right() {
    // the first branch's consequent would fail if it were ever evaluated
    assert_eq!(run("(cond ('() (this-fails)) ('t 'hit))"), "hit\n");
    // any non-nil condition counts as true
    assert_eq!(run("(cond ('(1) 'hit))"), "hit\n");
}

#[test]
fn lambda_application_binds_positionally() {
    assert_eq!(run("((lambda (x y) (cons x y)) 'a '(b))"), "(a b)\n");
}

#[test]
fn lambda_with_symbol_parameter_takes_whole_argument_list() {
    assert_eq!(run("((lambda args args) 'a 'b)"), "(a b)\n");
}

#[test]
fn missing_arguments_leave_parameters_unbound() {
    // y is never used, so the shorter argument list is fine
    assert_eq!(run("((lambda (x y) (eq x x)) 'a)"), "t\n");
}

#[test]
fn closure_prints_as_lambda_form() {
    assert_eq!(run("(lambda (x) x)"), "(lambda (x) x)\n");
}

#[test]
fn defun_evaluates_to_nil_and_binds() {
    assert_eq!(run("(defun id (x) x)"), "");
    assert_eq!(run("(defun id (x) x) (id 'a)"), "a\n");
}

#[test]
fn defun_allows_recursion() {
    let src = "
        (defun last (l)
            (cond ((eq (cdr l) '()) (car l))
                  ('t (last (cdr l)))))
        (last '(a b c))
    ";
    assert_eq!(run(src), "c\n");
}

#[test]
fn lexical_closure_capture() {
    let src = "
        (defun make-adder (n) (lambda (x) (cons n x)))
        ((make-adder 'a) '(b))
    ";
    assert_eq!(run(src), "(a b)\n");
}

#[test]
fn closures_capture_their_own_scope_not_the_caller_scope() {
    // the n bound at the call site of the closure must not leak in
    let src = "
        (defun make-getter (n) (lambda () n))
        (defun call-with-n (f n) (f))
        (call-with-n (make-getter 'inner) 'outer)
    ";
    assert_eq!(run(src), "inner\n");
}

#[test]
fn forward_reference_resolution() {
    let src = "
        (defun f (x) (g x))
        (defun g (x) (cons x '()))
        (f 'a)
    ";
    assert_eq!(run(src), "(a)\n");
}

#[test]
fn later_definition_shadows_earlier() {
    let src = "
        (defun f (x) 'first)
        (defun f (x) 'second)
        (f 'a)
    ";
    assert_eq!(run(src), "second\n");
}

#[test]
fn batch_aborts_on_first_error() {
    let msg = run_err("(car '()) 'never");
    assert_eq!(msg, "eval error: passed non list to car");
}

#[test]
fn subst_program() {
    let src = "
        (defun subst (x y z)
            (cond ((atom z) (cond ((eq z y) x) ('t z)))
                  ('t (cons (subst x y (car z))
                            (subst x y (cdr z))))))
        (subst 'to 'from '(from to x (x from)))
    ";
    assert_eq!(run(src), "(to to x (x to))\n");
}

#[test]
fn meta_circular_evaluator() {
    let src = "
    (defun caar (lst) (car (car lst)))
    (defun cadr (lst) (car (cdr lst)))
    (defun cadar (lst) (car (cdr (car lst))))
    (defun caddr (lst) (car (cdr (cdr lst))))
    (defun caddar (lst) (car (cdr (cdr (car lst)))))

    (defun null (x)
        (eq x '()))

    (defun and (x y)
        (cond (x (cond (y 't) ('t '())))
              ('t '())))

    (defun not (x)
        (cond (x '())
              ('t 't)))

    (defun append (x y)
        (cond ((null x) y)
              ('t (cons (car x) (append (cdr x) y)))))

    (defun pair (x y)
      (cons x (cons y '())))

    (defun zip (x y)
      (cond ((and (null x) (null y)) '())
            ((and (not (atom x)) (not (atom y)))
             (cons (pair (car x) (car y))
                   (zip (cdr x) (cdr y))))))

    (defun assoc (x y)
      (cond ((eq (caar y) x) (cadar y))
            ('t (assoc x (cdr y)))))

    (defun eval (exp env)
      (cond
        ((atom exp) (assoc exp env))
        ((atom (car exp))
         (cond
           ((eq (car exp) 'quote) (cadr exp))
           ((eq (car exp) 'atom)  (atom (eval (cadr exp) env)))
           ((eq (car exp) 'eq)    (eq   (eval (cadr exp) env)
                                        (eval (caddr exp) env)))
           ((eq (car exp) 'car)   (car  (eval (cadr exp) env)))
           ((eq (car exp) 'cdr)   (cdr  (eval (cadr exp) env)))
           ((eq (car exp) 'cons)  (cons (eval (cadr exp) env)
                                        (eval (caddr exp) env)))
           ((eq (car exp) 'cond)  (evcon (cdr exp) env))
           ('t (eval (cons (assoc (car exp) env)
                            (cdr exp))
                      env))))
        ((eq (caar exp) 'label)
         (eval (cons (caddar exp) (cdr exp))
                (cons (pair (cadar exp) (car exp)) env)))
        ((eq (caar exp) 'lambda)
         (eval (caddar exp)
                (append (zip (cadar exp) (evlis (cdr exp) env))
                         env)))))

    (defun evcon (c env)
      (cond ((eval (caar c) env)
             (eval (cadar c) env))
            ('t (evcon (cdr c) env))))

    (defun evlis (m env)
      (cond ((null m) '())
            ('t (cons (eval  (car m) env)
                      (evlis (cdr m) env)))))

    (eval
        '((lambda (x) (cons x '())) x)
        '((x 1))
    )
    ";
    assert_eq!(run(src), "(1)\n");
}

#[test]
fn primitives_compare_by_name() {
    assert_eq!(run("(eq car car)"), "t\n");
    assert_eq!(run("(eq car cdr)"), "");
}

#[test]
fn closures_compare_by_parameters_body_and_captured_scope() {
    // two closures made at top level with the same parameters and body are
    // the same value
    assert_eq!(run("(eq (lambda (x) x) (lambda (x) x))"), "t\n");
    assert_eq!(run("(eq (lambda (x) x) (lambda (y) y))"), "");
    // each call makes its own scope frame, so closures captured in separate
    // calls differ even when the captured contents coincide
    let src = "
        (defun make-g (n) (lambda () n))
        (eq (make-g 'a) (make-g 'a))
    ";
    assert_eq!(run(src), "");
}
