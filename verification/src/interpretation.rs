//! The call-by-value interpreter, verified against the fuelled big-step
//! evaluation function of `semantics`.

use vstd::prelude::*;

use crate::semantics::{apply_all, eval, eval_all, SpecEvalError, SpecVal};
use crate::syntax::{
    lemma_terms_view, lemma_vals_view, term_view, terms_view, val_result_view, vals_view, Env,
    EvalError, Term, Val,
};

verus! {

/// Evaluates `term` in `env` with a step budget: the result is exactly what
/// the ghost evaluation function yields for the same environment, term and
/// budget. An exhausted budget surfaces as `EvalError::OutOfFuel`; by
/// `lemma_eval_fuel_monotonic`, enlarging the budget never changes any
/// other outcome, it only lets deeper evaluations finish.
pub fn interpret(env: &Env, term: &Term, fuel: u64) -> (r: Result<Val, EvalError>)
    ensures
        val_result_view(r) == eval(env@, term@, fuel as nat),
    decreases fuel, 0nat,
{
    if fuel == 0 {
        return Err(EvalError::OutOfFuel);
    }
    let f = fuel - 1;
    match term {
        Term::Lam { intro, body } => Ok(
            Val::lam(env.clone(), intro.clone(), (**body).clone()),
        ),
        Term::Neu { applicant, arguments } => {
            proof {
                assert(terms_view(arguments@).skip(0) =~= terms_view(arguments@));
            }
            let vals = match interpret_args(env, arguments, 0, f) {
                Ok(vs) => vs,
                Err(e) => {
                    return Err(e);
                },
            };
            let func = match env.lookup(applicant) {
                Ok(v) => v,
                Err(e) => {
                    return Err(e);
                },
            };
            proof {
                assert(vals_view(vals@).skip(0) =~= vals_view(vals@));
            }
            apply_at(&func, &vals, 0, f)
        },
        Term::Def { intro, binding, body } => {
            match interpret(env, &**binding, f) {
                Err(e) => Err(e),
                Ok(bv) => {
                    let env2 = env.extend(intro.clone(), bv);
                    interpret(&env2, &**body, f)
                },
            }
        },
    }
}

/// Evaluates the argument terms `args[i..]`, left to right, all in `env`;
/// the first failure aborts the rest, as the ghost `eval_all` does.
fn interpret_args(env: &Env, args: &Vec<Term>, i: usize, fuel: u64) -> (r: Result<
    Vec<Val>,
    EvalError,
>)
    requires
        i <= args@.len(),
    ensures
        ({
            let expected = eval_all(env@, terms_view(args@).skip(i as int), fuel as nat);
            match r {
                Ok(vs) => expected == Ok::<Seq<SpecVal>, SpecEvalError>(vals_view(vs@)),
                Err(e) => expected == Err::<Seq<SpecVal>, SpecEvalError>(e@),
            }
        }),
    decreases fuel, args@.len() - i,
{
    proof {
        lemma_terms_view(args@);
    }
    if i == args.len() {
        let r: Vec<Val> = Vec::new();
        proof {
            assert(terms_view(args@).skip(i as int) =~= Seq::<crate::semantics::SpecTerm>::empty());
            assert(vals_view(r@) =~= Seq::<SpecVal>::empty());
        }
        Ok(r)
    } else {
        let ghost s = terms_view(args@).skip(i as int);
        proof {
            assert(s[0] == term_view(args@[i as int]));
        }
        match interpret(env, &args[i], fuel) {
            Err(e) => Err(e),
            Ok(v) => {
                proof {
                    assert(s.drop_first() =~= terms_view(args@).skip(i as int + 1));
                }
                match interpret_args(env, args, i + 1, fuel) {
                    Err(e) => Err(e),
                    Ok(vs) => {
                        let ghost old_vs = vs@;
                        let mut vs = vs;
                        vs.insert(0, v);
                        proof {
                            lemma_vals_view(vs@);
                            lemma_vals_view(old_vs);
                            assert(vals_view(vs@) =~= seq![v@] + vals_view(old_vs));
                        }
                        Ok(vs)
                    },
                }
            },
        }
    }
}

/// Applies `applicant` to the already-evaluated arguments `args[i..]`, one
/// at a time: each step extends the closure's captured environment with the
/// next argument and evaluates its body, and the resulting value becomes
/// the applicant for the following step.
fn apply_at(applicant: &Val, args: &Vec<Val>, i: usize, fuel: u64) -> (r: Result<Val, EvalError>)
    requires
        i <= args@.len(),
    ensures
        val_result_view(r) == apply_all(applicant@, vals_view(args@).skip(i as int), fuel as nat),
    decreases fuel, args@.len() - i,
{
    proof {
        lemma_vals_view(args@);
    }
    if i == args.len() {
        proof {
            assert(vals_view(args@).skip(i as int) =~= Seq::<SpecVal>::empty());
        }
        Ok(applicant.clone())
    } else {
        let ghost s = vals_view(args@).skip(i as int);
        proof {
            assert(s[0] == args@[i as int]@);
            assert(s.drop_first() =~= vals_view(args@).skip(i as int + 1));
        }
        match applicant {
            Val::Lam { intro, body, closure } => {
                let first = args[i].clone();
                let env2 = closure.extend(intro.clone(), first);
                match interpret(&env2, &**body, fuel) {
                    Err(e) => Err(e),
                    Ok(next) => apply_at(&next, args, i + 1, fuel),
                }
            },
        }
    }
}

/// Applies an already-evaluated applicant to a whole spine of
/// already-evaluated arguments, left to right.
pub fn apply(applicant: &Val, arguments: Vec<Val>, fuel: u64) -> (r: Result<Val, EvalError>)
    ensures
        val_result_view(r) == apply_all(applicant@, vals_view(arguments@), fuel as nat),
{
    proof {
        assert(vals_view(arguments@).skip(0) =~= vals_view(arguments@));
    }
    apply_at(applicant, &arguments, 0, fuel)
}

} // verus!
