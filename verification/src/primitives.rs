use vstd::prelude::*;
use vstd::string::StringExecFns;
use crate::env::{env_push_top, Env, EnvV};
use crate::error::{arity_error, arity_error_exec, Error, ErrorV};
use crate::expr::{
    expr_eq, frame_view, nil_v, true_v, Atom, Expr, ExprV, Func, FuncV, Lambda, PrimKind,
    Primitive,
};
use crate::list::List;

verus! {

/// Image of an executable outcome.
pub open spec fn res_view(r: Result<Expr, Error>) -> Result<ExprV, ErrorV> {
    match r {
        Ok(e) => Ok(e.view()),
        Err(er) => Err(er.view()),
    }
}

/// How many arguments each primitive takes.
pub open spec fn prim_arity(k: PrimKind) -> nat {
    match k {
        PrimKind::Car => 1,
        PrimKind::Cdr => 1,
        PrimKind::Atom => 1,
        PrimKind::Eq => 2,
        PrimKind::Cons => 2,
    }
}

/// Whether a value counts as atomic: a symbol, an empty list, or a function.
pub open spec fn is_atomic(e: ExprV) -> bool {
    match e {
        ExprV::List(l) => l.len() == 0,
        _ => true,
    }
}

/// What a primitive returns on already-evaluated arguments. `car` and `cdr`
/// demand a non-empty list; `atom` tells atoms from non-empty lists; `eq` is
/// structural equality; `cons` prepends to a list.
pub open spec fn prim_apply(k: PrimKind, args: Seq<ExprV>) -> Result<ExprV, ErrorV> {
    if args.len() != prim_arity(k) {
        Err(arity_error(prim_arity(k), args.len()))
    } else {
        match k {
            PrimKind::Car => match args[0] {
                ExprV::List(l) => {
                    if l.len() > 0 {
                        Ok(l[0])
                    } else {
                        Err(ErrorV::EvalError("passed non list to car"@))
                    }
                },
                _ => Err(ErrorV::EvalError("passed non list to car"@)),
            },
            PrimKind::Cdr => match args[0] {
                ExprV::List(l) => {
                    if l.len() > 0 {
                        Ok(ExprV::List(l.subrange(1, l.len() as int)))
                    } else {
                        Err(ErrorV::EvalError("passed non list to cdr"@))
                    }
                },
                _ => Err(ErrorV::EvalError("passed non list to cdr"@)),
            },
            PrimKind::Atom => Ok(
                if is_atomic(args[0]) {
                    true_v()
                } else {
                    nil_v()
                },
            ),
            PrimKind::Eq => Ok(
                if args[0] == args[1] {
                    true_v()
                } else {
                    nil_v()
                },
            ),
            PrimKind::Cons => match args[1] {
                ExprV::List(l) => Ok(ExprV::List(seq![args[0]] + l)),
                _ => Err(ErrorV::EvalError("passed non list to cons cdr"@)),
            },
        }
    }
}

/// Fail unless a form got the number of arguments it expects.
pub fn check_args_count(expected: usize, got: usize) -> (r: Result<(), Error>)
    ensures
        expected == got ==> r is Ok,
        expected != got ==> (r matches Err(e) && e.view() == arity_error(
            expected as nat,
            got as nat,
        )),
{
    if expected != got {
        Err(arity_error_exec(expected, got))
    } else {
        Ok(())
    }
}

/// The `car` primitive: the first element of a non-empty list.
pub fn car(args: &List) -> (r: Result<Expr, Error>)
    ensures
        res_view(r) == prim_apply(PrimKind::Car, args.view()),
{
    if args.len() != 1 {
        return Err(arity_error_exec(1, args.len()));
    }
    match args.get(0) {
        Expr::List(l) => {
            if !l.is_empty() {
                Ok(l.car().dup())
            } else {
                Err(Error::EvalError(String::from_str("passed non list to car")))
            }
        },
        _ => Err(Error::EvalError(String::from_str("passed non list to car"))),
    }
}

/// The `cdr` primitive: all elements after the first of a non-empty list.
/// An empty list is an error here, as it is for `car`.
pub fn cdr(args: &List) -> (r: Result<Expr, Error>)
    ensures
        res_view(r) == prim_apply(PrimKind::Cdr, args.view()),
{
    if args.len() != 1 {
        return Err(arity_error_exec(1, args.len()));
    }
    match args.get(0) {
        Expr::List(l) => {
            if !l.is_empty() {
                Ok(Expr::List(l.cdr()))
            } else {
                Err(Error::EvalError(String::from_str("passed non list to cdr")))
            }
        },
        _ => Err(Error::EvalError(String::from_str("passed non list to cdr"))),
    }
}

/// The `atom` primitive: canonical true on a symbol, an empty list or a
/// function; canonical nil on a non-empty list.
pub fn atom(args: &List) -> (r: Result<Expr, Error>)
    ensures
        res_view(r) == prim_apply(PrimKind::Atom, args.view()),
{
    if args.len() != 1 {
        return Err(arity_error_exec(1, args.len()));
    }
    match args.get(0) {
        Expr::List(l) => {
            if l.is_empty() {
                Ok(Expr::new_true())
            } else {
                Ok(Expr::new_nil())
            }
        },
        _ => Ok(Expr::new_true()),
    }
}

/// The `eq` primitive: canonical true iff the two arguments are structurally
/// equal values.
pub fn eq(args: &List) -> (r: Result<Expr, Error>)
    ensures
        res_view(r) == prim_apply(PrimKind::Eq, args.view()),
{
    if args.len() != 2 {
        return Err(arity_error_exec(2, args.len()));
    }
    if expr_eq(args.get(0), args.get(1)) {
        Ok(Expr::new_true())
    } else {
        Ok(Expr::new_nil())
    }
}

/// The `cons` primitive: a new list with the first argument prepended to the
/// second, which must be a list.
pub fn cons(args: &List) -> (r: Result<Expr, Error>)
    ensures
        res_view(r) == prim_apply(PrimKind::Cons, args.view()),
{
    if args.len() != 2 {
        return Err(arity_error_exec(2, args.len()));
    }
    match args.get(1) {
        Expr::List(l) => {
            let mut out = List::new();
            out.push(args.get(0).dup());
            let mut i: usize = 0;
            let n = l.len();
            while i < n
                invariant
                    n == l.view().len(),
                    i <= n,
                    out.view().len() == i + 1,
                    out.view()[0] == args.view()[0],
                    forall|j: int| 0 <= j < i ==> out.view()[j + 1] == l.view()[j],
                decreases n - i,
            {
                out.push(l.get(i).dup());
                i = i + 1;
            }
            proof {
                assert(out.view() =~= seq![args.view()[0]] + l.view());
            }
            Ok(Expr::List(out))
        },
        _ => Err(Error::EvalError(String::from_str("passed non list to cons cdr"))),
    }
}

/// What the `quote` special form returns: its single argument, unevaluated.
pub open spec fn quote_v(args: Seq<ExprV>) -> Result<ExprV, ErrorV> {
    if args.len() != 1 {
        Err(arity_error(1, args.len()))
    } else {
        Ok(args[0])
    }
}

/// What the `lambda` special form returns: a closure over the given parameter
/// specification and body, capturing the current scope chain handle.
pub open spec fn lambda_v(args: Seq<ExprV>, cur: Option<int>) -> Result<ExprV, ErrorV> {
    if args.len() != 2 {
        Err(arity_error(2, args.len()))
    } else {
        Ok(
            ExprV::Func(
                FuncV::Lambda { params: Box::new(args[0]), body: Box::new(args[1]), frame: cur },
            ),
        )
    }
}

/// What the `defun` special form does: bind a closure over the second and
/// third arguments under the first, in a fresh persistent top-level scope,
/// and return nil. The closure sees the shared top-level scopes, its own
/// binding included, so it can recurse and use names defined later.
pub open spec fn defun_v(args: Seq<ExprV>, env: EnvV, cur: Option<int>) -> (EnvV, Result<
    ExprV,
    ErrorV,
>) {
    if args.len() != 3 {
        (env, Err(arity_error(3, args.len())))
    } else {
        let f = ExprV::Func(
            FuncV::Lambda { params: Box::new(args[1]), body: Box::new(args[2]), frame: cur },
        );
        (env_push_top(env, args[0], f), Ok(nil_v()))
    }
}

/// The `quote` special form.
pub fn quote(cdr: &List) -> (r: Result<Expr, Error>)
    ensures
        res_view(r) == quote_v(cdr.view()),
{
    if cdr.len() != 1 {
        return Err(arity_error_exec(1, cdr.len()));
    }
    Ok(cdr.car().dup())
}

/// The `lambda` special form.
pub fn lambda(cdr: &List, cur: Option<usize>) -> (r: Result<Expr, Error>)
    ensures
        res_view(r) == lambda_v(cdr.view(), frame_view(cur)),
{
    if cdr.len() != 2 {
        return Err(arity_error_exec(2, cdr.len()));
    }
    Ok(
        Expr::Func(
            Func::Lambda(
                Lambda {
                    params: Box::new(cdr.get(0).dup()),
                    body: Box::new(cdr.get(1).dup()),
                    frame: cur,
                },
            ),
        ),
    )
}

/// The `defun` special form.
pub fn defun(cdr: &List, env: &mut Env, cur: Option<usize>) -> (r: Result<Expr, Error>)
    ensures
        (final(env).view(), res_view(r)) == defun_v(
            cdr.view(),
            old(env).view(),
            frame_view(cur),
        ),
{
    if cdr.len() != 3 {
        return Err(arity_error_exec(3, cdr.len()));
    }
    let f = Expr::Func(
        Func::Lambda(
            Lambda {
                params: Box::new(cdr.get(1).dup()),
                body: Box::new(cdr.get(2).dup()),
                frame: cur,
            },
        ),
    );
    env.insert(cdr.get(0), &f);
    Ok(Expr::new_nil())
}

} // verus!
