//! A minimal Lisp-family language processor: a reader that turns source text
//! into symbolic expressions, a printer for them, an environment of lexical
//! scopes, and a recursive evaluator with five primitives (`car`, `cdr`,
//! `atom`, `eq`, `cons`) and four special forms (`quote`, `cond`, `lambda`,
//! `defun`). Code and data share the one expression representation.
//!
//! Evaluation carries an explicit recursion depth budget standing in for the
//! bounded host call stack; exhausting it is an evaluation error.
use vstd::prelude::*;
use vstd::string::StringExecFns;

pub mod env;
pub mod error;
pub mod eval;
pub mod expr;
pub mod laws;
pub mod list;
pub mod primitives;
pub mod read;

use crate::env::{env_wf, global_env_v, Env, EnvV};
use crate::error::{Error, ErrorV};
use crate::eval::eval_v;
use crate::expr::{exprs_wf, nil_v, print_v, views_of, ExprV};
use crate::read::read_v;

verus! {

/// The recursion depth budget each top-level form is evaluated with.
pub const DEFAULT_FUEL: u64 = 4096;

/// The output of a run of top-level forms from position `i` on: each form is
/// evaluated in turn against the environment the one before left behind, and
/// every non-nil result's printed representation is appended, one line each.
/// The first error aborts the batch.
pub open spec fn run_all_v(
    fuel: nat,
    exprs: Seq<ExprV>,
    i: int,
    env: EnvV,
    acc: Seq<char>,
) -> Result<Seq<char>, ErrorV>
    decreases exprs.len() - i,
{
    if i >= exprs.len() {
        Ok(acc)
    } else {
        let (env2, r) = eval_v(fuel, exprs[i], env, None);
        match r {
            Err(er) => Err(er),
            Ok(v) => {
                let acc2 = if v == nil_v() {
                    acc
                } else {
                    acc + print_v(v) + seq!['\n']
                };
                run_all_v(fuel, exprs, i + 1, env2, acc2)
            },
        }
    }
}

/// What the whole entry point yields on source text: read it, evaluate every
/// top-level form against one shared environment seeded with the primitives,
/// and return the printed non-nil results, or the first error.
pub open spec fn read_eval_v(src: Seq<char>) -> Result<Seq<char>, ErrorV> {
    match read_v(src) {
        Err(er) => Err(er),
        Ok(exprs) => run_all_v(DEFAULT_FUEL as nat, exprs, 0, global_env_v(), Seq::<char>::empty()),
    }
}

/// Read source text and evaluate every top-level form in order against one
/// shared environment. Returns the concatenated printed representations of
/// the non-nil results, one line each, or the first read or evaluation
/// error, which aborts the rest of the batch.
pub fn read_eval(src: String) -> (r: Result<String, Error>)
    ensures
        match r {
            Ok(out) => read_eval_v(src@) == Ok::<_, ErrorV>(out@),
            Err(er) => read_eval_v(src@) == Err::<Seq<char>, _>(er.view()),
        },
{
    let ghost srcv = src@;
    let exprs = match read::read(src) {
        Ok(es) => es,
        Err(er) => {
            return Err(er);
        },
    };
    let ghost ev = views_of(exprs@);
    let mut env = Env::new_global();
    let mut output = String::new();
    let mut i: usize = 0;
    proof {
        crate::read::lemma_parse_all_wf(crate::read::tokenize_v(srcv), 0);
        crate::expr::lemma_views_of(exprs@);
    }
    while i < exprs.len()
        invariant
            srcv == src@,
            ev == views_of(exprs@),
            ev.len() == exprs@.len(),
            forall|j: int| 0 <= j < exprs@.len() ==> ev[j] == exprs@[j].view(),
            i <= exprs@.len(),
            env_wf(env.view()),
            exprs_wf(ev, 0),
            read_eval_v(srcv) == run_all_v(DEFAULT_FUEL as nat, ev, i as int, env.view(), output@),
        decreases exprs@.len() - i,
    {
        proof {
            crate::expr::lemma_exprs_wf(ev, 0);
            crate::expr::lemma_expr_wf_mono(ev[i as int], 0, env.view().frames.len() as int);
        }
        match exprs[i].eval(&mut env, None, DEFAULT_FUEL) {
            Err(er) => {
                return Err(er);
            },
            Ok(v) => {
                if !crate::eval::is_nil(&v) {
                    let line = v.to_text();
                    let ghost out0 = output@;
                    output.append(line.as_str());
                    output.append("\n");
                    proof {
                        reveal_strlit("\n");
                        assert(output@ =~= out0 + print_v(v.view()) + seq!['\n']);
                    }
                }
            },
        }
        i = i + 1;
    }
    Ok(output)
}

} // verus!
