use vstd::prelude::*;
use vstd::string::StringExecFns;
use crate::env::{
    cur_wf, env_extends, env_push_frame, env_wf, lemma_env_wf_push_frame,
    lemma_env_wf_push_top, lemma_lookup_wf, lemma_scope_view, lemma_scope_wf_mono, lookup_v,
    scope_view, scope_wf, Env, EnvV, FrameV, Scope,
};
use crate::error::{arity_error, arity_error_exec, decimal_of, decimal_string, Error, ErrorV};
use crate::expr::{
    atom_is, expr_wf, exprs_wf, frame_view, func_wf, lemma_expr_wf_mono, lemma_exprs_wf,
    lemma_views_of, nil_v, views_of, Expr, ExprV, Func, FuncV, Lambda, PrimKind, Primitive,
};
use crate::list::List;
use crate::primitives::{
    self, defun_v, lambda_v, prim_apply, quote_v, res_view,
};

verus! {

/// The error returned when evaluation runs out of recursion depth budget.
/// The budget models the bounded host call stack.
pub open spec fn depth_error() -> ErrorV {
    ErrorV::EvalError("recursion depth limit reached"@)
}

/// The error for a symbol bound nowhere.
pub open spec fn unbound_error(name: Seq<char>) -> ErrorV {
    ErrorV::EvalError(name + " does not exist"@)
}

/// The error for a `cond` whose branches were exhausted.
pub open spec fn cond_no_match_error() -> ErrorV {
    ErrorV::EvalError("cond does not match"@)
}

/// The error for a `cond` branch that is not a list, naming the branch.
pub open spec fn cond_branch_error(i: nat) -> ErrorV {
    ErrorV::EvalError("expected list in argument "@ + decimal_of(i) + ", got atom"@)
}

/// The error for applying something that is not a function.
pub open spec fn not_a_function_error() -> ErrorV {
    ErrorV::EvalError("not a function"@)
}

/// The error for binding against a parameter specification that is a
/// function value.
pub open spec fn params_error() -> ErrorV {
    ErrorV::EvalError("encountered func"@)
}

/// The bindings a closure call makes: a symbol parameter specification takes
/// the whole argument list; a list of parameters binds positionally, pairing
/// up to the shorter side, so missing arguments leave parameters unbound and
/// extra arguments are dropped.
pub open spec fn param_bindings(params: ExprV, args: Seq<ExprV>) -> Result<
    Seq<(ExprV, ExprV)>,
    ErrorV,
> {
    match params {
        ExprV::Atom(_) => Ok(seq![(params, ExprV::List(args))]),
        ExprV::List(ps) => Ok(zip_min(ps, args)),
        ExprV::Func(_) => Err(params_error()),
    }
}

/// Positional pairing, cut to the shorter of the two sequences.
pub open spec fn zip_min(ps: Seq<ExprV>, args: Seq<ExprV>) -> Seq<(ExprV, ExprV)> {
    Seq::new(
        if ps.len() <= args.len() {
            ps.len()
        } else {
            args.len()
        },
        |i: int| (ps[i], args[i]),
    )
}

/// One step of evaluation, spending one unit of depth budget. A symbol
/// evaluates to its binding or fails; an empty list and a function value
/// evaluate to themselves; a list headed by `quote`, `cond`, `lambda` or
/// `defun` is a special form; any other list evaluates all elements left to
/// right against the same growing environment and applies the first result
/// to the rest.
pub open spec fn eval_v(fuel: nat, e: ExprV, env: EnvV, cur: Option<int>) -> (EnvV, Result<
    ExprV,
    ErrorV,
>)
    decreases fuel,
{
    if fuel == 0 {
        (env, Err(depth_error()))
    } else {
        let f = (fuel - 1) as nat;
        match e {
            ExprV::Atom(name) => match lookup_v(env, cur, e) {
                Some(v) => (env, Ok(v)),
                None => (env, Err(unbound_error(name))),
            },
            ExprV::List(items) => {
                if items.len() == 0 {
                    (env, Ok(e))
                } else if items[0] == ExprV::Atom("quote"@) {
                    (env, quote_v(items.subrange(1, items.len() as int)))
                } else if items[0] == ExprV::Atom("cond"@) {
                    cond_v(f, items.subrange(1, items.len() as int), 0, env, cur)
                } else if items[0] == ExprV::Atom("lambda"@) {
                    (env, lambda_v(items.subrange(1, items.len() as int), cur))
                } else if items[0] == ExprV::Atom("defun"@) {
                    defun_v(items.subrange(1, items.len() as int), env, cur)
                } else {
                    let (env2, vr) = evlis_v(f, items, 0, env, cur);
                    match vr {
                        Err(er) => (env2, Err(er)),
                        Ok(vals) => apply_v(
                            f,
                            vals[0],
                            vals.subrange(1, vals.len() as int),
                            env2,
                        ),
                    }
                }
            },
            ExprV::Func(_) => (env, Ok(e)),
        }
    }
}

/// Evaluate the elements of a list from position `i` on, left to right, each
/// against the environment the one before left behind.
pub open spec fn evlis_v(fuel: nat, items: Seq<ExprV>, i: int, env: EnvV, cur: Option<int>) -> (
    EnvV,
    Result<Seq<ExprV>, ErrorV>,
)
    decreases fuel,
{
    if fuel == 0 {
        (env, Err(depth_error()))
    } else if i >= items.len() {
        (env, Ok(Seq::empty()))
    } else {
        let f = (fuel - 1) as nat;
        let (env2, r0) = eval_v(f, items[i], env, cur);
        match r0 {
            Err(er) => (env2, Err(er)),
            Ok(v) => {
                let (env3, r1) = evlis_v(f, items, i + 1, env2, cur);
                match r1 {
                    Err(er) => (env3, Err(er)),
                    Ok(vs) => (env3, Ok(seq![v] + vs)),
                }
            },
        }
    }
}

/// Try `cond` branches from position `i` on, left to right. Each branch must
/// be a two-element list; its first element is evaluated, and on anything
/// but nil the branch's second element is evaluated and returned. Exhausted
/// branches are an error, not nil.
pub open spec fn cond_v(fuel: nat, branches: Seq<ExprV>, i: int, env: EnvV, cur: Option<int>) -> (
    EnvV,
    Result<ExprV, ErrorV>,
)
    decreases fuel,
{
    if fuel == 0 {
        (env, Err(depth_error()))
    } else if i >= branches.len() {
        (env, Err(cond_no_match_error()))
    } else {
        let f = (fuel - 1) as nat;
        match branches[i] {
            ExprV::List(br) => {
                if br.len() != 2 {
                    (env, Err(arity_error(2, br.len())))
                } else {
                    let (env2, c) = eval_v(f, br[0], env, cur);
                    match c {
                        Err(er) => (env2, Err(er)),
                        Ok(v) => {
                            if v != nil_v() {
                                eval_v(f, br[1], env2, cur)
                            } else {
                                cond_v(f, branches, i + 1, env2, cur)
                            }
                        },
                    }
                }
            },
            _ => (env, Err(cond_branch_error(i as nat))),
        }
    }
}

/// Apply an evaluated head to evaluated arguments. A primitive computes; a
/// closure binds its parameters in a fresh frame chained to its captured
/// handle and evaluates its body there — the caller's scope chain plays no
/// part, which is what makes scoping lexical; anything else is an error.
pub open spec fn apply_v(fuel: nat, fv: ExprV, args: Seq<ExprV>, env: EnvV) -> (EnvV, Result<
    ExprV,
    ErrorV,
>)
    decreases fuel,
{
    if fuel == 0 {
        (env, Err(depth_error()))
    } else {
        match fv {
            ExprV::Func(FuncV::Primitive(k)) => (env, prim_apply(k, args)),
            ExprV::Func(FuncV::Lambda { params, body, frame }) => {
                match param_bindings(*params, args) {
                    Err(er) => (env, Err(er)),
                    Ok(bs) => {
                        let env2 = env_push_frame(env, FrameV { bindings: bs, parent: frame });
                        eval_v((fuel - 1) as nat, *body, env2, Some(env.frames.len() as int))
                    },
                }
            },
            _ => (env, Err(not_a_function_error())),
        }
    }
}

/// Two growths of the environment in a row are one growth.
pub proof fn lemma_env_extends_trans(a: EnvV, b: EnvV, c: EnvV)
    requires
        env_extends(a, b),
        env_extends(b, c),
    ensures
        env_extends(a, c),
{
}

/// Build the depth-budget error.
fn depth_error_exec() -> (e: Error)
    ensures
        e.view() == depth_error(),
{
    Error::EvalError(String::from_str("recursion depth limit reached"))
}

/// Whether a value is the canonical nil, the empty list.
pub fn is_nil(e: &Expr) -> (r: bool)
    ensures
        r == (e.view() == nil_v()),
{
    match e {
        Expr::List(l) => {
            let empty = l.is_empty();
            proof {
                if empty {
                    assert(l.view() =~= Seq::<ExprV>::empty());
                }
            }
            empty
        },
        _ => false,
    }
}

/// A primitive's result is built out of its arguments, so it is well formed
/// whenever they are.
proof fn lemma_prim_apply_wf(k: PrimKind, args: Seq<ExprV>, n: int)
    requires
        exprs_wf(args, n),
        prim_apply(k, args) is Ok,
    ensures
        expr_wf(prim_apply(k, args)->Ok_0, n),
{
    lemma_exprs_wf(args, n);
    match k {
        PrimKind::Car => {
            let l = args[0]->List_0;
            lemma_exprs_wf(l, n);
        },
        PrimKind::Cdr => {
            let l = args[0]->List_0;
            lemma_exprs_wf(l, n);
            lemma_exprs_wf(l.subrange(1, l.len() as int), n);
        },
        PrimKind::Atom => {},
        PrimKind::Eq => {},
        PrimKind::Cons => {
            let l = args[1]->List_0;
            lemma_exprs_wf(l, n);
            lemma_exprs_wf(seq![args[0]] + l, n);
        },
    }
}

impl Primitive {
    /// Run the primitive on already-evaluated arguments.
    pub fn call(&self, args: &List) -> (r: Result<Expr, Error>)
        ensures
            res_view(r) == prim_apply(self.kind, args.view()),
    {
        match self.kind {
            PrimKind::Car => primitives::car(args),
            PrimKind::Cdr => primitives::cdr(args),
            PrimKind::Atom => primitives::atom(args),
            PrimKind::Eq => primitives::eq(args),
            PrimKind::Cons => primitives::cons(args),
        }
    }
}

impl Lambda {
    /// Apply the closure: bind its parameters against the arguments in a
    /// fresh frame chained to the captured handle, and evaluate the body
    /// there. The caller's scope chain plays no part.
    pub fn call(&self, args: List, env: &mut Env, fuel: u64) -> (r: Result<Expr, Error>)
        requires
            env_wf(old(env).view()),
            func_wf(self.view(), old(env).view().frames.len() as int),
            exprs_wf(args.view(), old(env).view().frames.len() as int),
        ensures
            env_wf(final(env).view()),
            env_extends(old(env).view(), final(env).view()),
            (final(env).view(), res_view(r)) == apply_v(
                fuel as nat,
                ExprV::Func(self.view()),
                args.view(),
                old(env).view(),
            ),
            r matches Ok(v) ==> expr_wf(v.view(), final(env).view().frames.len() as int),
        decreases fuel, 0int,
    {
        if fuel == 0 {
            return Err(depth_error_exec());
        }
        let ghost n = old(env).view().frames.len() as int;
        let ghost args_v = args.view();
        let mut bindings: Scope = Vec::new();
        match &*self.params {
            Expr::Atom(_) => {
                bindings.push(((*self.params).dup(), Expr::List(args)));
                proof {
                    lemma_scope_view(bindings@);
                    assert(scope_view(bindings@) =~= param_bindings(
                        (*self.params).view(),
                        args_v,
                    )->Ok_0);
                }
            },
            Expr::List(ps) => {
                let pn = ps.len();
                let an = args.len();
                let m = if pn <= an {
                    pn
                } else {
                    an
                };
                let mut k: usize = 0;
                while k < m
                    invariant
                        m <= ps.view().len() && m <= args.view().len(),
                        k <= m,
                        bindings@.len() == k as int,
                        forall|j: int|
                            0 <= j < k ==> (bindings@[j].0.view(), bindings@[j].1.view()) == (
                                ps.view()[j],
                                args.view()[j],
                            ),
                    decreases m - k,
                {
                    bindings.push((ps.get(k).dup(), args.get(k).dup()));
                    k = k + 1;
                }
                proof {
                    lemma_scope_view(bindings@);
                    assert(scope_view(bindings@) =~= zip_min((*self.params).view()->List_0, args_v));
                }
            },
            Expr::Func(_) => {
                return Err(Error::EvalError(String::from_str("encountered func")));
            },
        }
        let ghost bs = scope_view(bindings@);
        proof {
            lemma_exprs_wf(args_v, n);
            match (*self.params).view() {
                ExprV::Atom(_) => {
                    assert forall|j: int| 0 <= j < bs.len() implies #[trigger] crate::env::binding_wf(
                        bs[j],
                        n,
                    ) by {
                        assert(bs[j] == ((*self.params).view(), ExprV::List(args_v)));
                    }
                },
                ExprV::List(psv) => {
                    lemma_exprs_wf(psv, n);
                    assert forall|j: int| 0 <= j < bs.len() implies #[trigger] crate::env::binding_wf(
                        bs[j],
                        n,
                    ) by {
                        assert(bs[j] == (psv[j], args_v[j]));
                    }
                },
                ExprV::Func(_) => {},
            }
            lemma_scope_wf_mono(bs, n, n + 1);
            lemma_env_wf_push_frame(
                old(env).view(),
                FrameV { bindings: bs, parent: frame_view(self.frame) },
            );
        }
        let idx = env.extend(bindings, self.frame);
        proof {
            lemma_expr_wf_mono((*self.body).view(), n, n + 1);
        }
        let ghost mid = env.view();
        let r = self.body.eval(env, Some(idx), fuel - 1);
        proof {
            lemma_env_extends_trans(old(env).view(), mid, env.view());
        }
        r
    }
}

impl Func {
    /// Apply the function value to already-evaluated arguments.
    pub fn call(&self, args: List, env: &mut Env, fuel: u64) -> (r: Result<Expr, Error>)
        requires
            env_wf(old(env).view()),
            func_wf(self.view(), old(env).view().frames.len() as int),
            exprs_wf(args.view(), old(env).view().frames.len() as int),
        ensures
            env_wf(final(env).view()),
            env_extends(old(env).view(), final(env).view()),
            (final(env).view(), res_view(r)) == apply_v(
                fuel as nat,
                ExprV::Func(self.view()),
                args.view(),
                old(env).view(),
            ),
            r matches Ok(v) ==> expr_wf(v.view(), final(env).view().frames.len() as int),
        decreases fuel, 1int,
    {
        if fuel == 0 {
            return Err(depth_error_exec());
        }
        match self {
            Func::Primitive(p) => {
                let r = p.call(&args);
                proof {
                    if r is Ok {
                        lemma_prim_apply_wf(p.kind, args.view(), old(env).view().frames.len() as int);
                    }
                }
                r
            },
            Func::Lambda(l) => l.call(args, env, fuel),
        }
    }
}

/// Apply an evaluated head to evaluated arguments; a head that is no
/// function value is an error.
fn apply(fv: &Expr, args: List, env: &mut Env, fuel: u64) -> (r: Result<Expr, Error>)
    requires
        env_wf(old(env).view()),
        expr_wf(fv.view(), old(env).view().frames.len() as int),
        exprs_wf(args.view(), old(env).view().frames.len() as int),
    ensures
        env_wf(final(env).view()),
        env_extends(old(env).view(), final(env).view()),
        (final(env).view(), res_view(r)) == apply_v(
            fuel as nat,
            fv.view(),
            args.view(),
            old(env).view(),
        ),
        r matches Ok(v) ==> expr_wf(v.view(), final(env).view().frames.len() as int),
    decreases fuel, 2int,
{
    match fv {
        Expr::Func(f) => f.call(args, env, fuel),
        _ => {
            if fuel == 0 {
                Err(depth_error_exec())
            } else {
                Err(Error::EvalError(String::from_str("not a function")))
            }
        },
    }
}

/// Evaluate the elements of a list from position `i` on, left to right, each
/// against the environment the one before left behind.
pub fn evlis(items: &Vec<Expr>, i: usize, env: &mut Env, cur: Option<usize>, fuel: u64) -> (r:
    Result<Vec<Expr>, Error>)
    requires
        i <= items@.len(),
        env_wf(old(env).view()),
        cur_wf(frame_view(cur), old(env).view()),
        exprs_wf(views_of(items@), old(env).view().frames.len() as int),
    ensures
        env_wf(final(env).view()),
        env_extends(old(env).view(), final(env).view()),
        ({
            let (env2, vr) = evlis_v(
                fuel as nat,
                views_of(items@),
                i as int,
                old(env).view(),
                frame_view(cur),
            );
            env2 == final(env).view() && (match r {
                Ok(vs) => vr == Ok::<_, ErrorV>(views_of(vs@)) && vs@.len() == items@.len() - i
                    && exprs_wf(views_of(vs@), final(env).view().frames.len() as int),
                Err(er) => vr == Err::<Seq<ExprV>, _>(er.view()),
            })
        }),
    decreases fuel,
{
    let ghost n0 = old(env).view().frames.len() as int;
    proof {
        lemma_views_of(items@);
        lemma_exprs_wf(views_of(items@), n0);
    }
    if fuel == 0 {
        return Err(depth_error_exec());
    }
    if i >= items.len() {
        let out: Vec<Expr> = Vec::new();
        proof {
            assert(views_of(out@) =~= Seq::<ExprV>::empty());
            lemma_exprs_wf(views_of(out@), n0);
        }
        return Ok(out);
    }
    match items[i].eval(env, cur, fuel - 1) {
        Err(er) => Err(er),
        Ok(v) => {
            let ghost mid = env.view();
            let ghost n1 = mid.frames.len() as int;
            proof {
                crate::expr::lemma_exprs_wf_mono(views_of(items@), n0, n1);
            }
            match evlis(items, i + 1, env, cur, fuel - 1) {
                Err(er) => {
                    proof {
                        lemma_env_extends_trans(old(env).view(), mid, env.view());
                    }
                    Err(er)
                },
                Ok(mut vs) => {
                    let ghost vs0 = vs@;
                    let ghost n2 = env.view().frames.len() as int;
                    vs.insert(0, v);
                    proof {
                        lemma_env_extends_trans(old(env).view(), mid, env.view());
                        lemma_views_of(vs@);
                        lemma_views_of(vs0);
                        assert(views_of(vs@) =~= seq![vs@[0].view()] + views_of(vs0));
                        lemma_exprs_wf(views_of(vs0), n2);
                        lemma_expr_wf_mono(vs@[0].view(), n1, n2);
                        lemma_exprs_wf(views_of(vs@), n2);
                    }
                    Ok(vs)
                },
            }
        },
    }
}

/// Try `cond` branches from position `i` on, left to right.
pub fn cond(branches: &List, i: usize, env: &mut Env, cur: Option<usize>, fuel: u64) -> (r: Result<
    Expr,
    Error,
>)
    requires
        i <= branches.view().len(),
        env_wf(old(env).view()),
        cur_wf(frame_view(cur), old(env).view()),
        exprs_wf(branches.view(), old(env).view().frames.len() as int),
    ensures
        env_wf(final(env).view()),
        env_extends(old(env).view(), final(env).view()),
        (final(env).view(), res_view(r)) == cond_v(
            fuel as nat,
            branches.view(),
            i as int,
            old(env).view(),
            frame_view(cur),
        ),
        r matches Ok(v) ==> expr_wf(v.view(), final(env).view().frames.len() as int),
    decreases fuel,
{
    let ghost n0 = old(env).view().frames.len() as int;
    proof {
        lemma_exprs_wf(branches.view(), n0);
    }
    if fuel == 0 {
        return Err(depth_error_exec());
    }
    if i >= branches.len() {
        return Err(Error::EvalError(String::from_str("cond does not match")));
    }
    match branches.get(i) {
        Expr::List(br) => {
            proof {
                lemma_exprs_wf(br.view(), n0);
            }
            if br.len() != 2 {
                return Err(arity_error_exec(2, br.len()));
            }
            match br.get(0).eval(env, cur, fuel - 1) {
                Err(er) => Err(er),
                Ok(v) => {
                    let ghost mid = env.view();
                    let ghost n1 = mid.frames.len() as int;
                    if !is_nil(&v) {
                        proof {
                            lemma_expr_wf_mono(br.view()[1], n0, n1);
                        }
                        let r = br.get(1).eval(env, cur, fuel - 1);
                        proof {
                            lemma_env_extends_trans(old(env).view(), mid, env.view());
                        }
                        r
                    } else {
                        proof {
                            crate::expr::lemma_exprs_wf_mono(branches.view(), n0, n1);
                        }
                        let r = cond(branches, i + 1, env, cur, fuel - 1);
                        proof {
                            lemma_env_extends_trans(old(env).view(), mid, env.view());
                        }
                        r
                    }
                },
            }
        },
        _ => {
            let msg = String::from_str("expected list in argument ").concat(
                decimal_string(i).as_str(),
            ).concat(", got atom");
            proof {
                assert(msg@ =~= cond_branch_error(i as nat)->EvalError_0);
            }
            Err(Error::EvalError(msg))
        },
    }
}

impl Expr {
    /// Evaluate the expression against an environment, seen from frame
    /// `cur`, with a recursion depth budget standing in for the bounded host
    /// call stack. The environment only ever grows: definitions add
    /// top-level scopes and calls add frames, and what this returns is
    /// exactly what the one-step evaluation relation yields.
    pub fn eval(&self, env: &mut Env, cur: Option<usize>, fuel: u64) -> (r: Result<Expr, Error>)
        requires
            env_wf(old(env).view()),
            cur_wf(frame_view(cur), old(env).view()),
            expr_wf(self.view(), old(env).view().frames.len() as int),
        ensures
            env_wf(final(env).view()),
            env_extends(old(env).view(), final(env).view()),
            (final(env).view(), res_view(r)) == eval_v(
                fuel as nat,
                self.view(),
                old(env).view(),
                frame_view(cur),
            ),
            r matches Ok(v) ==> expr_wf(v.view(), final(env).view().frames.len() as int),
        decreases fuel,
    {
        let ghost n0 = old(env).view().frames.len() as int;
        if fuel == 0 {
            return Err(depth_error_exec());
        }
        match self {
            Expr::Atom(a) => {
                match env.get(cur, self) {
                    Some(v) => {
                        let d = v.dup();
                        proof {
                            lemma_lookup_wf(env.view(), frame_view(cur), self.view());
                        }
                        Ok(d)
                    },
                    None => {
                        let msg = a.0.clone().concat(" does not exist");
                        Err(Error::EvalError(msg))
                    },
                }
            },
            Expr::Func(_) => Ok(self.dup()),
            Expr::List(l) => {
                proof {
                    lemma_exprs_wf(l.view(), n0);
                }
                if l.is_empty() {
                    return Ok(self.dup());
                }
                let head = l.get(0);
                if atom_is(head, "quote") {
                    let rest = l.cdr();
                    let r = primitives::quote(&rest);
                    proof {
                        lemma_exprs_wf(rest.view(), n0);
                        if r is Ok {
                            assert(expr_wf(rest.view()[0], n0));
                        }
                    }
                    r
                } else if atom_is(head, "cond") {
                    let rest = l.cdr();
                    proof {
                        lemma_exprs_wf(rest.view(), n0);
                    }
                    cond(&rest, 0, env, cur, fuel - 1)
                } else if atom_is(head, "lambda") {
                    let rest = l.cdr();
                    let r = primitives::lambda(&rest, cur);
                    proof {
                        lemma_exprs_wf(rest.view(), n0);
                        if r is Ok {
                            assert(expr_wf(rest.view()[0], n0));
                            assert(expr_wf(rest.view()[1], n0));
                        }
                    }
                    r
                } else if atom_is(head, "defun") {
                    let rest = l.cdr();
                    let r = primitives::defun(&rest, env, cur);
                    proof {
                        lemma_exprs_wf(rest.view(), n0);
                        if r is Ok {
                            assert(expr_wf(rest.view()[1], n0));
                            assert(expr_wf(rest.view()[2], n0));
                            let f = ExprV::Func(
                                FuncV::Lambda {
                                    params: Box::new(rest.view()[1]),
                                    body: Box::new(rest.view()[2]),
                                    frame: frame_view(cur),
                                },
                            );
                            lemma_env_wf_push_top(old(env).view(), rest.view()[0], f);
                        }
                    }
                    r
                } else {
                    match evlis(&l.items, 0, env, cur, fuel - 1) {
                        Err(er) => Err(er),
                        Ok(mut vs) => {
                            let ghost mid = env.view();
                            let ghost vsv = views_of(vs@);
                            let fv = vs.remove(0);
                            let ghost vs1 = vs@;
                            let rest_args = List::from_vec(vs);
                            proof {
                                lemma_views_of(vs1);
                                assert(views_of(vs1) =~= vsv.subrange(1, vsv.len() as int));
                                lemma_exprs_wf(vsv, mid.frames.len() as int);
                                lemma_exprs_wf(views_of(vs1), mid.frames.len() as int);
                            }
                            let r = apply(&fv, rest_args, env, fuel - 1);
                            proof {
                                lemma_env_extends_trans(old(env).view(), mid, env.view());
                            }
                            r
                        },
                    }
                }
            },
        }
    }
}

} // verus!
