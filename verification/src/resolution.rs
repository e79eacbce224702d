//! The name-resolution front end: surface terms are written with plain
//! labels, optionally carrying an explicit index, and are turned into fully
//! indexed core terms by threading a context of the binders in scope,
//! nearest first — the same ordering the runtime environment uses.

use vstd::prelude::*;

use crate::semantics::{
    apply_all, eval, eval_all, lookup_spec, SpecBinding, SpecEvalError, SpecTerm, SpecVal,
};
use crate::syntax::{term_view, NameIntro, NameRef, Term};

verus! {

/// A ghost surface term. A use occurrence carries either no index (resolve
/// automatically to the nearest binder with that label) or an explicit one
/// (assert this index and check it against the context).
pub enum SpecBuilder {
    Lam { label: Seq<char>, body: Box<SpecBuilder> },
    Neu { label: Seq<char>, index: Option<nat>, args: Seq<SpecBuilder> },
    Def { label: Seq<char>, binding: Box<SpecBuilder>, body: Box<SpecBuilder> },
}

/// Why resolution failed: the offending label, the attempted index if one
/// was given, and the full context at the point of failure.
pub enum SpecResolveError {
    /// No binder with this label is in scope.
    UnboundName { label: Seq<char>, context: Seq<Seq<char>> },
    /// An explicitly supplied index is inconsistent with the context: it is
    /// out of range or points at a binder with a different label.
    InvalidNameRef { label: Seq<char>, index: nat, context: Seq<Seq<char>> },
}

/// The position of the first (nearest) binder with the given label, if any.
pub open spec fn position_of(ctx: Seq<Seq<char>>, label: Seq<char>) -> Option<nat>
    decreases ctx,
{
    if ctx.len() == 0 {
        None
    } else if ctx[0] == label {
        Some(0nat)
    } else {
        match position_of(ctx.drop_first(), label) {
            None => None,
            Some(i) => Some((i + 1) as nat),
        }
    }
}

/// `position_of` finds exactly the first occurrence.
pub proof fn lemma_position_of(ctx: Seq<Seq<char>>, label: Seq<char>)
    ensures
        (match position_of(ctx, label) {
            Some(i) => i < ctx.len() && ctx[i as int] == label && (forall|j: int|
                0 <= j < i ==> ctx[j] != label),
            None => forall|j: int| 0 <= j < ctx.len() ==> ctx[j] != label,
        }),
    decreases ctx,
{
    if ctx.len() > 0 {
        lemma_position_of(ctx.drop_first(), label);
        let tail = ctx.drop_first();
        assert forall|j: int| 1 <= j < ctx.len() implies ctx[j] == tail[j - 1] by {
            assert(tail[j - 1] == ctx[j]);
        }
    }
}

/// The index a use occurrence resolves to: an explicit index must exist in
/// the context and carry the same label; an omitted one is searched for,
/// nearest binder first.
pub open spec fn checked_index(
    ctx: Seq<Seq<char>>,
    label: Seq<char>,
    index: Option<nat>,
) -> Result<nat, SpecResolveError> {
    match index {
        Some(i) => if i < ctx.len() && ctx[i as int] == label {
            Ok(i)
        } else {
            Err(SpecResolveError::InvalidNameRef { label, index: i, context: ctx })
        },
        None => match position_of(ctx, label) {
            Some(i) => Ok(i),
            None => Err(SpecResolveError::UnboundName { label, context: ctx }),
        },
    }
}

/// Resolution of a surface term under a context of the labels in scope,
/// nearest first. An abstraction pushes its parameter before its body is
/// resolved; a binding resolves its right-hand side under the unextended
/// context (the binding is not recursive) and its body one layer deeper; a
/// use occurrence resolves its applicant first, then its arguments left to
/// right.
pub open spec fn resolve(ctx: Seq<Seq<char>>, b: SpecBuilder) -> Result<
    SpecTerm,
    SpecResolveError,
>
    decreases b,
{
    match b {
        SpecBuilder::Lam { label, body } => match resolve(seq![label] + ctx, *body) {
            Err(e) => Err(e),
            Ok(t) => Ok(SpecTerm::Lam { label, body: Box::new(t) }),
        },
        SpecBuilder::Neu { label, index, args } => match checked_index(ctx, label, index) {
            Err(e) => Err(e),
            Ok(i) => match resolve_args(ctx, args) {
                Err(e) => Err(e),
                Ok(ts) => Ok(SpecTerm::Neu { label, index: i, args: ts }),
            },
        },
        SpecBuilder::Def { label, binding, body } => match resolve(ctx, *binding) {
            Err(e) => Err(e),
            Ok(tb) => match resolve(seq![label] + ctx, *body) {
                Err(e) => Err(e),
                Ok(t) => Ok(SpecTerm::Def { label, binding: Box::new(tb), body: Box::new(t) }),
            },
        },
    }
}

/// Resolution of a sequence of argument terms, left to right, all under the
/// same context; the first failure aborts the rest.
pub open spec fn resolve_args(ctx: Seq<Seq<char>>, args: Seq<SpecBuilder>) -> Result<
    Seq<SpecTerm>,
    SpecResolveError,
>
    decreases args,
{
    if args.len() == 0 {
        Ok(Seq::empty())
    } else {
        match resolve(ctx, args[0]) {
            Err(e) => Err(e),
            Ok(t) => match resolve_args(ctx, args.drop_first()) {
                Err(e) => Err(e),
                Ok(ts) => Ok(seq![t] + ts),
            },
        }
    }
}

/// A core term is well resolved in a context when every reference points at
/// an existing binder that carries the reference's own label.
pub open spec fn resolved_in(t: SpecTerm, ctx: Seq<Seq<char>>) -> bool
    decreases t,
{
    match t {
        SpecTerm::Lam { label, body } => resolved_in(*body, seq![label] + ctx),
        SpecTerm::Neu { label, index, args } => index < ctx.len() && ctx[index as int] == label
            && all_resolved_in(args, ctx),
        SpecTerm::Def { label, binding, body } => resolved_in(*binding, ctx) && resolved_in(
            *body,
            seq![label] + ctx,
        ),
    }
}

/// Every term of the sequence is well resolved in the context.
pub open spec fn all_resolved_in(ts: Seq<SpecTerm>, ctx: Seq<Seq<char>>) -> bool
    decreases ts,
{
    ts.len() == 0 || (resolved_in(ts[0], ctx) && all_resolved_in(ts.drop_first(), ctx))
}

/// A core term rebuilt as a surface term, with every index made explicit.
pub open spec fn term_to_builder(t: SpecTerm) -> SpecBuilder
    decreases t,
{
    match t {
        SpecTerm::Lam { label, body } => SpecBuilder::Lam {
            label,
            body: Box::new(term_to_builder(*body)),
        },
        SpecTerm::Neu { label, index, args } => SpecBuilder::Neu {
            label,
            index: Some(index),
            args: terms_to_builders(args),
        },
        SpecTerm::Def { label, binding, body } => SpecBuilder::Def {
            label,
            binding: Box::new(term_to_builder(*binding)),
            body: Box::new(term_to_builder(*body)),
        },
    }
}

/// A sequence of core terms rebuilt as surface terms, in order.
pub open spec fn terms_to_builders(ts: Seq<SpecTerm>) -> Seq<SpecBuilder>
    decreases ts,
{
    if ts.len() == 0 {
        Seq::empty()
    } else {
        seq![term_to_builder(ts[0])] + terms_to_builders(ts.drop_first())
    }
}

/// Whatever resolution returns is well resolved in its context.
proof fn lemma_resolve_wf(ctx: Seq<Seq<char>>, b: SpecBuilder)
    ensures
        resolve(ctx, b) matches Ok(t) ==> resolved_in(t, ctx),
    decreases b,
{
    match b {
        SpecBuilder::Lam { label, body } => {
            lemma_resolve_wf(seq![label] + ctx, *body);
        },
        SpecBuilder::Neu { label, index, args } => {
            lemma_position_of(ctx, label);
            lemma_resolve_args_wf(ctx, args);
        },
        SpecBuilder::Def { label, binding, body } => {
            lemma_resolve_wf(ctx, *binding);
            lemma_resolve_wf(seq![label] + ctx, *body);
        },
    }
}

/// Whatever argument-sequence resolution returns is well resolved.
proof fn lemma_resolve_args_wf(ctx: Seq<Seq<char>>, args: Seq<SpecBuilder>)
    ensures
        resolve_args(ctx, args) matches Ok(ts) ==> all_resolved_in(ts, ctx),
    decreases args,
{
    if args.len() > 0 {
        lemma_resolve_wf(ctx, args[0]);
        lemma_resolve_args_wf(ctx, args.drop_first());
        match resolve_args(ctx, args) {
            Ok(ts) => {
                assert(ts[0] == resolve(ctx, args[0])->Ok_0);
                assert(ts.drop_first() =~= resolve_args(ctx, args.drop_first())->Ok_0);
            },
            Err(_) => {},
        }
    }
}

/// A term well resolved in a context resolves back to itself once its
/// indices are made explicit.
proof fn lemma_wf_resolves_back(ctx: Seq<Seq<char>>, t: SpecTerm)
    ensures
        resolved_in(t, ctx) ==> resolve(ctx, term_to_builder(t)) == Ok::<
            SpecTerm,
            SpecResolveError,
        >(t),
    decreases t,
{
    match t {
        SpecTerm::Lam { label, body } => {
            lemma_wf_resolves_back(seq![label] + ctx, *body);
        },
        SpecTerm::Neu { label, index, args } => {
            lemma_wf_all_resolve_back(ctx, args);
        },
        SpecTerm::Def { label, binding, body } => {
            lemma_wf_resolves_back(ctx, *binding);
            lemma_wf_resolves_back(seq![label] + ctx, *body);
        },
    }
}

/// A sequence of well-resolved terms resolves back to itself.
proof fn lemma_wf_all_resolve_back(ctx: Seq<Seq<char>>, ts: Seq<SpecTerm>)
    ensures
        all_resolved_in(ts, ctx) ==> resolve_args(ctx, terms_to_builders(ts)) == Ok::<
            Seq<SpecTerm>,
            SpecResolveError,
        >(ts),
    decreases ts,
{
    if ts.len() == 0 {
        assert(ts =~= Seq::<SpecTerm>::empty());
    } else {
        lemma_wf_resolves_back(ctx, ts[0]);
        lemma_wf_all_resolve_back(ctx, ts.drop_first());
        if all_resolved_in(ts, ctx) {
            let tbs = terms_to_builders(ts);
            assert(tbs[0] == term_to_builder(ts[0]));
            assert(tbs.drop_first() =~= terms_to_builders(ts.drop_first()));
            assert(resolve(ctx, tbs[0]) == Ok::<SpecTerm, SpecResolveError>(ts[0]));
            assert(resolve_args(ctx, tbs.drop_first()) == Ok::<Seq<SpecTerm>, SpecResolveError>(
                ts.drop_first(),
            ));
            assert(seq![ts[0]] + ts.drop_first() =~= ts);
            assert(tbs.len() > 0);
            assert(resolve_args(ctx, tbs) == Ok::<Seq<SpecTerm>, SpecResolveError>(
                seq![ts[0]] + ts.drop_first(),
            ));
        }
    }
}

/// Resolution round-trip: a core term produced by resolving any surface
/// term, rebuilt as a surface term with every index inserted explicitly,
/// resolves back to exactly the same core term — in particular this holds
/// for surface terms written without any explicit index.
pub proof fn lemma_resolution_round_trip(ctx: Seq<Seq<char>>, b: SpecBuilder, t: SpecTerm)
    requires
        resolve(ctx, b) == Ok::<SpecTerm, SpecResolveError>(t),
    ensures
        resolve(ctx, term_to_builder(t)) == Ok::<SpecTerm, SpecResolveError>(t),
{
    lemma_resolve_wf(ctx, b);
    lemma_wf_resolves_back(ctx, t);
}

/// The labels of an environment's binders, nearest first: the context that
/// the environment realises at run time.
pub open spec fn env_labels(env: Seq<SpecBinding>) -> Seq<Seq<char>> {
    Seq::new(env.len(), |i: int| env[i].label)
}

/// A runtime value is well scoped when its body is resolved in the context
/// its captured environment realises, extended with its own parameter, and
/// the captured environment is itself well scoped.
pub open spec fn val_well_scoped(v: SpecVal) -> bool
    decreases v, 1nat,
{
    match v {
        SpecVal::Lam { env, label, body } => env_well_scoped(env) && resolved_in(
            body,
            seq![label] + env_labels(env),
        ),
    }
}

/// Every value bound in the environment is well scoped.
pub open spec fn env_well_scoped(env: Seq<SpecBinding>) -> bool
    decreases env, 0nat,
{
    forall|i: int| 0 <= i < env.len() ==> val_well_scoped(#[trigger] env[i].val)
}

/// Evaluating a well-resolved term in a well-scoped environment that
/// realises the term's context can never hit a scope error: the outcome is
/// a well-scoped value, or an exhausted budget — never `UnboundReference`
/// or `NameMismatch`. This is the environment invariant that resolution
/// buys: the defensive label check in lookup cannot fire on resolved terms.
pub proof fn lemma_eval_well_scoped(env: Seq<SpecBinding>, t: SpecTerm, fuel: nat)
    requires
        env_well_scoped(env),
        resolved_in(t, env_labels(env)),
    ensures
        (match eval(env, t, fuel) {
            Ok(v) => val_well_scoped(v),
            Err(e) => e == SpecEvalError::OutOfFuel,
        }),
    decreases fuel, 0nat,
{
    if fuel == 0 {
        return ;
    }
    let f = (fuel - 1) as nat;
    match t {
        SpecTerm::Lam { label, body } => {},
        SpecTerm::Neu { label, index, args } => {
            lemma_eval_all_well_scoped(env, args, f);
            assert(env_labels(env)[index as int] == env[index as int].label);
            match eval_all(env, args, f) {
                Err(e) => {},
                Ok(vals) => {
                    let v = lookup_spec(env, label, index)->Ok_0;
                    assert(val_well_scoped(v));
                    lemma_apply_all_well_scoped(v, vals, f);
                },
            }
        },
        SpecTerm::Def { label, binding, body } => {
            lemma_eval_well_scoped(env, *binding, f);
            match eval(env, *binding, f) {
                Err(e) => {},
                Ok(v) => {
                    let env2 = seq![SpecBinding { label, val: v }] + env;
                    assert(env_well_scoped(env2)) by {
                        assert(forall|i: int|
                            1 <= i < env2.len() ==> env2[i].val == env[i - 1].val);
                    }
                    assert(env_labels(env2) =~= seq![label] + env_labels(env));
                    lemma_eval_well_scoped(env2, *body, f);
                },
            }
        },
    }
}

/// Scope safety for a sequence of argument evaluations.
proof fn lemma_eval_all_well_scoped(env: Seq<SpecBinding>, ts: Seq<SpecTerm>, fuel: nat)
    requires
        env_well_scoped(env),
        all_resolved_in(ts, env_labels(env)),
    ensures
        (match eval_all(env, ts, fuel) {
            Ok(vs) => forall|i: int| 0 <= i < vs.len() ==> val_well_scoped(#[trigger] vs[i]),
            Err(e) => e == SpecEvalError::OutOfFuel,
        }),
    decreases fuel, ts.len(),
{
    if ts.len() > 0 {
        lemma_eval_well_scoped(env, ts[0], fuel);
        lemma_eval_all_well_scoped(env, ts.drop_first(), fuel);
        match eval_all(env, ts, fuel) {
            Err(e) => {},
            Ok(vs) => {
                let v = eval(env, ts[0], fuel)->Ok_0;
                let rest = eval_all(env, ts.drop_first(), fuel)->Ok_0;
                assert(vs == seq![v] + rest);
                assert(forall|i: int| 1 <= i < vs.len() ==> vs[i] == rest[i - 1]);
            },
        }
    }
}

/// Scope safety for the application of a well-scoped value to well-scoped
/// arguments.
proof fn lemma_apply_all_well_scoped(v: SpecVal, vals: Seq<SpecVal>, fuel: nat)
    requires
        val_well_scoped(v),
        forall|i: int| 0 <= i < vals.len() ==> val_well_scoped(#[trigger] vals[i]),
    ensures
        (match apply_all(v, vals, fuel) {
            Ok(v2) => val_well_scoped(v2),
            Err(e) => e == SpecEvalError::OutOfFuel,
        }),
    decreases fuel, vals.len(),
{
    if vals.len() > 0 {
        match v {
            SpecVal::Lam { env, label, body } => {
                let env2 = seq![SpecBinding { label, val: vals[0] }] + env;
                assert(env_well_scoped(env2)) by {
                    assert(forall|i: int| 1 <= i < env2.len() ==> env2[i].val == env[i - 1].val);
                }
                assert(env_labels(env2) =~= seq![label] + env_labels(env));
                lemma_eval_well_scoped(env2, body, fuel);
                match eval(env2, body, fuel) {
                    Err(e) => {},
                    Ok(v2) => {
                        lemma_apply_all_well_scoped(v2, vals.drop_first(), fuel);
                    },
                }
            },
        }
    }
}

/// What resolution buys: a term resolved from the empty context evaluates
/// in the empty environment to a value or to an exhausted budget, never to
/// a scope error — `UnboundReference` and `NameMismatch` are caught before
/// evaluation, by the resolver.
pub proof fn lemma_resolution_prevents_scope_errors(b: SpecBuilder, t: SpecTerm, fuel: nat)
    requires
        resolve(Seq::empty(), b) == Ok::<SpecTerm, SpecResolveError>(t),
    ensures
        (match eval(Seq::empty(), t, fuel) {
            Ok(v) => val_well_scoped(v),
            Err(e) => e == SpecEvalError::OutOfFuel,
        }),
{
    lemma_resolve_wf(Seq::empty(), b);
    assert(env_labels(Seq::empty()) =~= Seq::<Seq<char>>::empty());
    lemma_eval_well_scoped(Seq::empty(), t, fuel);
}

/// An executable surface term, built from plain labels; a use occurrence
/// may carry an explicit index for disambiguation.
#[derive(PartialEq, Eq, Debug)]
pub enum TermBuilder {
    Lam { name: String, body: Box<TermBuilder> },
    Neu { name: String, index: Option<usize>, arguments: Vec<TermBuilder> },
    Def { name: String, binding: Box<TermBuilder>, body: Box<TermBuilder> },
}

/// The view of a surface term in the ghost model.
pub open spec fn builder_view(b: TermBuilder) -> SpecBuilder
    decreases b,
{
    match b {
        TermBuilder::Lam { name, body } => SpecBuilder::Lam {
            label: name@,
            body: Box::new(builder_view(*body)),
        },
        TermBuilder::Neu { name, index, arguments } => SpecBuilder::Neu {
            label: name@,
            index: (match index {
                Some(i) => Some(i as nat),
                None => None,
            }),
            args: builders_view(arguments@),
        },
        TermBuilder::Def { name, binding, body } => SpecBuilder::Def {
            label: name@,
            binding: Box::new(builder_view(*binding)),
            body: Box::new(builder_view(*body)),
        },
    }
}

/// The views of a sequence of surface terms, in order.
pub open spec fn builders_view(bs: Seq<TermBuilder>) -> Seq<SpecBuilder>
    decreases bs,
{
    if bs.len() == 0 {
        Seq::empty()
    } else {
        seq![builder_view(bs[0])] + builders_view(bs.drop_first())
    }
}

impl View for TermBuilder {
    type V = SpecBuilder;

    open spec fn view(&self) -> SpecBuilder {
        builder_view(*self)
    }
}

/// `builders_view` maps the sequence pointwise.
pub proof fn lemma_builders_view(bs: Seq<TermBuilder>)
    ensures
        builders_view(bs).len() == bs.len(),
        forall|i: int| 0 <= i < bs.len() ==> builders_view(bs)[i] == builder_view(bs[i]),
    decreases bs,
{
    if bs.len() > 0 {
        lemma_builders_view(bs.drop_first());
    }
}

/// Builds the surface abstraction `λ<name> <body>`.
pub fn lam(name: &str, body: TermBuilder) -> (r: TermBuilder)
    ensures
        r@ == (SpecBuilder::Lam { label: name@, body: Box::new(body@) }),
{
    TermBuilder::Lam { name: name.to_owned(), body: Box::new(body) }
}

/// Builds the surface spine `(<applicant> <arg> ... <arg>)`, the
/// applicant's index left to be resolved automatically.
pub fn neu(applicant: &str, arguments: Vec<TermBuilder>) -> (r: TermBuilder)
    ensures
        r@ == (SpecBuilder::Neu {
            label: applicant@,
            index: None::<nat>,
            args: builders_view(arguments@),
        }),
{
    TermBuilder::Neu { name: applicant.to_owned(), index: None, arguments }
}

/// Builds the surface spine `(<applicant> <arg> ... <arg>)` with an
/// explicit index asserted for the applicant.
pub fn neu_with_index(applicant: &str, index: usize, arguments: Vec<TermBuilder>) -> (r:
    TermBuilder)
    ensures
        r@ == (SpecBuilder::Neu {
            label: applicant@,
            index: Some(index as nat),
            args: builders_view(arguments@),
        }),
{
    TermBuilder::Neu { name: applicant.to_owned(), index: Some(index), arguments }
}

/// Builds a bare surface variable, its index left to be resolved.
pub fn var(name: &str) -> (r: TermBuilder)
    ensures
        r@ == (SpecBuilder::Neu { label: name@, index: None::<nat>, args: Seq::empty() }),
{
    let arguments: Vec<TermBuilder> = Vec::new();
    proof {
        assert(builders_view(arguments@) =~= Seq::<SpecBuilder>::empty());
    }
    TermBuilder::Neu { name: name.to_owned(), index: None, arguments }
}

/// Builds a bare surface variable with an explicit index asserted.
pub fn var_with_index(name: &str, index: usize) -> (r: TermBuilder)
    ensures
        r@ == (SpecBuilder::Neu {
            label: name@,
            index: Some(index as nat),
            args: Seq::empty(),
        }),
{
    let arguments: Vec<TermBuilder> = Vec::new();
    proof {
        assert(builders_view(arguments@) =~= Seq::<SpecBuilder>::empty());
    }
    TermBuilder::Neu { name: name.to_owned(), index: Some(index), arguments }
}

/// Builds the surface binding `def <name> = <binding> in <body>`.
pub fn def(name: &str, binding: TermBuilder, body: TermBuilder) -> (r: TermBuilder)
    ensures
        r@ == (SpecBuilder::Def {
            label: name@,
            binding: Box::new(binding@),
            body: Box::new(body@),
        }),
{
    TermBuilder::Def { name: name.to_owned(), binding: Box::new(binding), body: Box::new(body) }
}

/// Why resolution failed; the executable counterpart of
/// `SpecResolveError`, carrying the offending label, the attempted index if
/// one was given, and the full context at the point of failure.
#[derive(PartialEq, Eq, Debug)]
pub enum ResolveError {
    /// No binder with this label is in scope.
    UnboundName { label: String, context: Vec<String> },
    /// An explicitly supplied index is inconsistent with the context.
    InvalidNameRef { label: String, index: usize, context: Vec<String> },
}

impl View for ResolveError {
    type V = SpecResolveError;

    open spec fn view(&self) -> SpecResolveError {
        match self {
            ResolveError::UnboundName { label, context } => SpecResolveError::UnboundName {
                label: label@,
                context: context.deep_view(),
            },
            ResolveError::InvalidNameRef { label, index, context } => {
                SpecResolveError::InvalidNameRef {
                    label: label@,
                    index: index as nat,
                    context: context.deep_view(),
                }
            },
        }
    }
}

/// The outcome of executable resolution, seen in the ghost model.
pub open spec fn term_result_view(r: Result<Term, ResolveError>) -> Result<
    SpecTerm,
    SpecResolveError,
> {
    match r {
        Ok(t) => Ok(t@),
        Err(e) => Err(e@),
    }
}

/// Scans the context for the nearest binder with the given label.
fn find_position(ctx: &Vec<String>, label: &String) -> (r: Option<usize>)
    ensures
        (match r {
            Some(i) => position_of(ctx.deep_view(), label@) == Some(i as nat),
            None => position_of(ctx.deep_view(), label@) == None::<nat>,
        }),
{
    proof {
        lemma_position_of(ctx.deep_view(), label@);
        assert(ctx.deep_view().len() == ctx@.len());
        assert(forall|j: int| 0 <= j < ctx@.len() ==> ctx.deep_view()[j] == ctx@[j]@);
    }
    let n = ctx.len();
    for i in 0..n
        invariant
            n == ctx@.len(),
            forall|j: int| 0 <= j < i ==> ctx@[j]@ != label@,
    {
        if ctx[i] == *label {
            proof {
                lemma_position_of(ctx.deep_view(), label@);
                assert(forall|j: int| 0 <= j < ctx@.len() ==> ctx.deep_view()[j] == ctx@[j]@);
                assert(ctx.deep_view()[i as int] == label@);
                match position_of(ctx.deep_view(), label@) {
                    Some(k) => {
                        if k < i as nat {
                            assert(ctx@[k as int]@ != label@);
                            assert(false);
                        } else if k > i as nat {
                            assert(ctx.deep_view()[i as int] != label@);
                            assert(false);
                        }
                    },
                    None => {
                        assert(ctx.deep_view()[i as int] != label@);
                        assert(false);
                    },
                }
            }
            return Some(i);
        }
    }
    None
}

/// Resolves the surface term against a context of the labels in scope,
/// nearest first, producing a fully indexed core term: exactly what the
/// ghost `resolve` yields for the same context and term.
pub fn from_term_builder_to_term(ctx: Vec<String>, term: &TermBuilder) -> (r: Result<
    Term,
    ResolveError,
>)
    ensures
        term_result_view(r) == resolve(ctx.deep_view(), term@),
    decreases term, 0nat,
{
    match term {
        TermBuilder::Lam { name, body } => {
            let mut ctx2 = ctx.clone();
            ctx2.insert(0, name.clone());
            proof {
                assert(ctx2.deep_view() =~= seq![name@] + ctx.deep_view());
            }
            match from_term_builder_to_term(ctx2, body) {
                Err(e) => Err(e),
                Ok(t) => Ok(Term::Lam { intro: NameIntro::new(name.as_str()), body: Box::new(t) }),
            }
        },
        TermBuilder::Neu { name, index, arguments } => {
            let applicant = match index {
                Some(i) => {
                    let i = *i;
                    let valid = i < ctx.len() && ctx[i] == *name;
                    if !valid {
                        return Err(ResolveError::InvalidNameRef {
                            label: name.clone(),
                            index: i,
                            context: ctx,
                        });
                    }
                    NameRef::new(name.as_str(), i)
                },
                None => {
                    match find_position(&ctx, name) {
                        Some(i) => NameRef::new(name.as_str(), i),
                        None => {
                            return Err(ResolveError::UnboundName {
                                label: name.clone(),
                                context: ctx,
                            });
                        },
                    }
                },
            };
            proof {
                assert(builders_view(arguments@).skip(0) =~= builders_view(arguments@));
            }
            match resolve_builder_args(&ctx, arguments, 0) {
                Err(e) => Err(e),
                Ok(ts) => Ok(Term::Neu { applicant, arguments: ts }),
            }
        },
        TermBuilder::Def { name, binding, body } => {
            match from_term_builder_to_term(ctx.clone(), binding) {
                Err(e) => Err(e),
                Ok(tb) => {
                    let mut ctx2 = ctx.clone();
                    ctx2.insert(0, name.clone());
                    proof {
                        assert(ctx2.deep_view() =~= seq![name@] + ctx.deep_view());
                    }
                    match from_term_builder_to_term(ctx2, body) {
                        Err(e) => Err(e),
                        Ok(t) => Ok(
                            Term::Def {
                                intro: NameIntro::new(name.as_str()),
                                binding: Box::new(tb),
                                body: Box::new(t),
                            },
                        ),
                    }
                },
            }
        },
    }
}

/// Resolves the argument terms `args[i..]`, left to right, each under the
/// same context; the first failure aborts the rest, as the ghost
/// `resolve_args` does.
fn resolve_builder_args(ctx: &Vec<String>, args: &Vec<TermBuilder>, i: usize) -> (r: Result<
    Vec<Term>,
    ResolveError,
>)
    requires
        i <= args@.len(),
    ensures
        ({
            let expected = resolve_args(ctx.deep_view(), builders_view(args@).skip(i as int));
            match r {
                Ok(ts) => expected == Ok::<Seq<SpecTerm>, SpecResolveError>(
                    crate::syntax::terms_view(ts@),
                ),
                Err(e) => expected == Err::<Seq<SpecTerm>, SpecResolveError>(e@),
            }
        }),
    decreases args, args@.len() - i,
{
    proof {
        lemma_builders_view(args@);
    }
    if i == args.len() {
        let r: Vec<Term> = Vec::new();
        proof {
            assert(builders_view(args@).skip(i as int) =~= Seq::<SpecBuilder>::empty());
            assert(crate::syntax::terms_view(r@) =~= Seq::<SpecTerm>::empty());
        }
        Ok(r)
    } else {
        let ghost s = builders_view(args@).skip(i as int);
        proof {
            assert(s[0] == builder_view(args@[i as int]));
        }
        match from_term_builder_to_term(ctx.clone(), &args[i]) {
            Err(e) => Err(e),
            Ok(t) => {
                proof {
                    assert(s.drop_first() =~= builders_view(args@).skip(i as int + 1));
                }
                match resolve_builder_args(ctx, args, i + 1) {
                    Err(e) => Err(e),
                    Ok(ts) => {
                        let ghost old_ts = ts@;
                        let mut ts = ts;
                        ts.insert(0, t);
                        proof {
                            crate::syntax::lemma_terms_view(ts@);
                            crate::syntax::lemma_terms_view(old_ts);
                            assert(crate::syntax::terms_view(ts@) =~= seq![term_view(t)]
                                + crate::syntax::terms_view(old_ts));
                        }
                        Ok(ts)
                    },
                }
            },
        }
    }
}

} // verus!
