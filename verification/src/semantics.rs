//! The mathematical model of the language: ghost terms, values,
//! environments, and the fuelled big-step evaluation function that every
//! executable operation of the crate is specified against.

use vstd::prelude::*;

verus! {

/// A ghost core term: an abstraction, an application spine (a reference
/// applied to zero or more arguments), or a non-recursive local binding.
/// A reference carries both the label it was written with and its de Bruijn
/// index, the distance in binding layers to the binder it refers to.
pub enum SpecTerm {
    Lam { label: Seq<char>, body: Box<SpecTerm> },
    Neu { label: Seq<char>, index: nat, args: Seq<SpecTerm> },
    Def { label: Seq<char>, binding: Box<SpecTerm>, body: Box<SpecTerm> },
}

/// One environment entry: the label of the binder together with the value
/// bound to it.
pub struct SpecBinding {
    pub label: Seq<char>,
    pub val: SpecVal,
}

/// A ghost runtime value. The only variant is a closure: a suspended
/// abstraction together with the environment captured at its creation point.
/// An environment is a sequence of bindings, most recently bound first.
pub enum SpecVal {
    Lam { env: Seq<SpecBinding>, label: Seq<char>, body: SpecTerm },
}

/// Why evaluation stopped without producing a value.
pub enum SpecEvalError {
    /// The step budget handed to the interpreter ran out before evaluation
    /// finished.
    OutOfFuel,
    /// A reference asked for an index that does not exist in the environment.
    UnboundReference { label: Seq<char>, index: nat },
    /// The environment entry at the requested index carries a different
    /// label than the reference expects.
    NameMismatch { index: nat, expected: Seq<char>, actual: Seq<char> },
}

/// Looking a reference up in an environment: the entry at position `index`
/// must exist and must carry exactly the label the reference was written
/// with; evaluation fails rather than trusting a stale index.
pub open spec fn lookup_spec(
    env: Seq<SpecBinding>,
    label: Seq<char>,
    index: nat,
) -> Result<SpecVal, SpecEvalError> {
    if index >= env.len() {
        Err(SpecEvalError::UnboundReference { label, index })
    } else if env[index as int].label != label {
        Err(SpecEvalError::NameMismatch {
            index,
            expected: label,
            actual: env[index as int].label,
        })
    } else {
        Ok(env[index as int].val)
    }
}

/// Call-by-value evaluation of `t` in `env`, with a step budget. Each
/// recursive descent spends one unit of fuel; a budget of zero fails with
/// `OutOfFuel`. An abstraction suspends immediately as a closure; a spine
/// evaluates its arguments left to right, then resolves the applicant, then
/// applies; a binding evaluates its right-hand side in the current
/// environment (the bound name is not visible in its own definition) and its
/// body one layer deeper.
pub open spec fn eval(env: Seq<SpecBinding>, t: SpecTerm, fuel: nat) -> Result<
    SpecVal,
    SpecEvalError,
>
    decreases fuel, 0nat,
{
    if fuel == 0 {
        Err(SpecEvalError::OutOfFuel)
    } else {
        let f = (fuel - 1) as nat;
        match t {
            SpecTerm::Lam { label, body } => Ok(SpecVal::Lam { env, label, body: *body }),
            SpecTerm::Neu { label, index, args } => match eval_all(env, args, f) {
                Err(e) => Err(e),
                Ok(vals) => match lookup_spec(env, label, index) {
                    Err(e) => Err(e),
                    Ok(v) => apply_all(v, vals, f),
                },
            },
            SpecTerm::Def { label, binding, body } => match eval(env, *binding, f) {
                Err(e) => Err(e),
                Ok(v) => eval(seq![SpecBinding { label, val: v }] + env, *body, f),
            },
        }
    }
}

/// Evaluation of a sequence of argument terms, left to right, all in the
/// same environment. The first failure aborts the whole sequence.
pub open spec fn eval_all(env: Seq<SpecBinding>, ts: Seq<SpecTerm>, fuel: nat) -> Result<
    Seq<SpecVal>,
    SpecEvalError,
>
    decreases fuel, ts.len(),
{
    if ts.len() == 0 {
        Ok(Seq::empty())
    } else {
        match eval(env, ts[0], fuel) {
            Err(e) => Err(e),
            Ok(v) => match eval_all(env, ts.drop_first(), fuel) {
                Err(e) => Err(e),
                Ok(vs) => Ok(seq![v] + vs),
            },
        }
    }
}

/// Application of a value to already-evaluated arguments, one at a time.
/// At each step the current applicant must be a closure; its captured
/// environment is extended with the next argument and its body is evaluated
/// in that extended environment, producing the applicant for the following
/// step. With no arguments left the current applicant is the result.
pub open spec fn apply_all(v: SpecVal, vals: Seq<SpecVal>, fuel: nat) -> Result<
    SpecVal,
    SpecEvalError,
>
    decreases fuel, vals.len(),
{
    if vals.len() == 0 {
        Ok(v)
    } else {
        match v {
            SpecVal::Lam { env, label, body } => {
                match eval(seq![SpecBinding { label, val: vals[0] }] + env, body, fuel) {
                    Err(e) => Err(e),
                    Ok(v2) => apply_all(v2, vals.drop_first(), fuel),
                }
            },
        }
    }
}

/// Evaluation is deterministic: the outcome of evaluating a term in an
/// environment with a given budget is a single mathematical value, so any
/// two results of the same evaluation — for example the results of two
/// separate runs of the interpreter on the same input — are identical,
/// whether they succeed or fail.
pub proof fn lemma_eval_deterministic(
    env: Seq<SpecBinding>,
    t: SpecTerm,
    fuel: nat,
    r1: Result<SpecVal, SpecEvalError>,
    r2: Result<SpecVal, SpecEvalError>,
)
    requires
        r1 == eval(env, t, fuel),
        r2 == eval(env, t, fuel),
    ensures
        r1 == r2,
{
}

/// Fuel only delays: once the budget suffices for an evaluation to finish —
/// with a value or with a real error — any larger budget yields the very
/// same outcome.
pub proof fn lemma_eval_fuel_monotonic(env: Seq<SpecBinding>, t: SpecTerm, f1: nat, f2: nat)
    requires
        f1 <= f2,
        eval(env, t, f1) != Err::<SpecVal, SpecEvalError>(SpecEvalError::OutOfFuel),
    ensures
        eval(env, t, f2) == eval(env, t, f1),
    decreases f1, 0nat,
{
    let g1 = (f1 - 1) as nat;
    let g2 = (f2 - 1) as nat;
    match t {
        SpecTerm::Lam { label, body } => {},
        SpecTerm::Neu { label, index, args } => {
            match eval_all(env, args, g1) {
                Err(e) => {
                    lemma_eval_all_fuel_monotonic(env, args, g1, g2);
                },
                Ok(vals) => {
                    lemma_eval_all_fuel_monotonic(env, args, g1, g2);
                    match lookup_spec(env, label, index) {
                        Err(e) => {},
                        Ok(v) => {
                            lemma_apply_all_fuel_monotonic(v, vals, g1, g2);
                        },
                    }
                },
            }
        },
        SpecTerm::Def { label, binding, body } => {
            match eval(env, *binding, g1) {
                Err(e) => {
                    lemma_eval_fuel_monotonic(env, *binding, g1, g2);
                },
                Ok(v) => {
                    lemma_eval_fuel_monotonic(env, *binding, g1, g2);
                    lemma_eval_fuel_monotonic(seq![SpecBinding { label, val: v }] + env, *body, g1, g2);
                },
            }
        },
    }
}

/// Fuel only delays, for a sequence of argument evaluations.
proof fn lemma_eval_all_fuel_monotonic(env: Seq<SpecBinding>, ts: Seq<SpecTerm>, f1: nat, f2: nat)
    requires
        f1 <= f2,
        eval_all(env, ts, f1) != Err::<Seq<SpecVal>, SpecEvalError>(SpecEvalError::OutOfFuel),
    ensures
        eval_all(env, ts, f2) == eval_all(env, ts, f1),
    decreases f1, ts.len(),
{
    if ts.len() > 0 {
        match eval(env, ts[0], f1) {
            Err(e) => {
                lemma_eval_fuel_monotonic(env, ts[0], f1, f2);
            },
            Ok(v) => {
                lemma_eval_fuel_monotonic(env, ts[0], f1, f2);
                lemma_eval_all_fuel_monotonic(env, ts.drop_first(), f1, f2);
            },
        }
    }
}

/// Fuel only delays, for the application of a value to a spine.
proof fn lemma_apply_all_fuel_monotonic(v: SpecVal, vals: Seq<SpecVal>, f1: nat, f2: nat)
    requires
        f1 <= f2,
        apply_all(v, vals, f1) != Err::<SpecVal, SpecEvalError>(SpecEvalError::OutOfFuel),
    ensures
        apply_all(v, vals, f2) == apply_all(v, vals, f1),
    decreases f1, vals.len(),
{
    if vals.len() > 0 {
        match v {
            SpecVal::Lam { env, label, body } => {
                let env2 = seq![SpecBinding { label, val: vals[0] }] + env;
                match eval(env2, body, f1) {
                    Err(e) => {
                        lemma_eval_fuel_monotonic(env2, body, f1, f2);
                    },
                    Ok(v2) => {
                        lemma_eval_fuel_monotonic(env2, body, f1, f2);
                        lemma_apply_all_fuel_monotonic(v2, vals.drop_first(), f1, f2);
                    },
                }
            },
        }
    }
}

/// Environment non-interference: extension is a pure prepend. The extended
/// environment keeps every old entry, unchanged, one position further out —
/// dropping its first entry gives back exactly the old environment, the new
/// binding sits at index 0, and a lookup that succeeded in the old
/// environment succeeds identically in the extension at the shifted index.
/// The old environment itself is a value that the extension shares and
/// never mutates, so operations already holding it are unaffected.
pub proof fn lemma_extend_non_interference(
    env: Seq<SpecBinding>,
    b: SpecBinding,
    label: Seq<char>,
    index: nat,
)
    ensures
        (seq![b] + env).drop_first() == env,
        lookup_spec(seq![b] + env, b.label, 0) == Ok::<SpecVal, SpecEvalError>(b.val),
        lookup_spec(env, label, index) matches Ok(_) ==> lookup_spec(
            seq![b] + env,
            label,
            index + 1,
        ) == lookup_spec(env, label, index),
{
    assert((seq![b] + env).drop_first() =~= env);
}

/// Boundary case — the empty spine: with any budget left, a zero-argument
/// application evaluates to exactly the looked-up value, with no
/// application step, and fails exactly as the lookup fails.
pub proof fn lemma_empty_spine(env: Seq<SpecBinding>, label: Seq<char>, index: nat, fuel: nat)
    requires
        fuel >= 1,
    ensures
        eval(env, SpecTerm::Neu { label, index, args: Seq::empty() }, fuel) == lookup_spec(
            env,
            label,
            index,
        ),
{
    let f = (fuel - 1) as nat;
    assert(eval_all(env, Seq::empty(), f) == Ok::<Seq<SpecVal>, SpecEvalError>(Seq::empty()));
    match lookup_spec(env, label, index) {
        Ok(v) => {
            assert(apply_all(v, Seq::empty(), f) == Ok::<SpecVal, SpecEvalError>(v));
        },
        Err(e) => {},
    }
}

/// Curry/apply agreement: applying a value to a concatenation of argument
/// spines equals applying it to the first spine and then applying the
/// result to the rest, with the same budget. In particular, applying a
/// closure to `n` arguments one at a time (each step a singleton spine)
/// agrees with applying it to all `n` in a single spine.
pub proof fn lemma_apply_append(v: SpecVal, a: Seq<SpecVal>, b: Seq<SpecVal>, fuel: nat)
    ensures
        apply_all(v, a + b, fuel) == (match apply_all(v, a, fuel) {
            Ok(v2) => apply_all(v2, b, fuel),
            Err(e) => Err(e),
        }),
    decreases a.len(),
{
    if a.len() == 0 {
        assert(a + b =~= b);
    } else {
        assert((a + b)[0] == a[0]);
        match v {
            SpecVal::Lam { env, label, body } => {
                match eval(seq![SpecBinding { label, val: a[0] }] + env, body, fuel) {
                    Ok(v2) => {
                        assert((a + b).drop_first() =~= a.drop_first() + b);
                        lemma_apply_append(v2, a.drop_first(), b, fuel);
                    },
                    Err(e) => {},
                }
            },
        }
    }
}

} // verus!
