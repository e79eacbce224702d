//! Deterministic textual rendering of terms, values and environments, used
//! for diagnostics: an abstraction prints as `λ<name> <body>`, a bare
//! reference as `<label>#<index>`, a spine as `(<ref> <arg> ... <arg>)`, a
//! binding as `(let <name> = <binding> in <body>)`, and a closure as
//! `λ<env><name> <body>` with the environment listed nearest-first in
//! square brackets. The lambda appears in string literals as the escape
//! `\u{03BB}`, keeping the source ASCII.

use vstd::prelude::*;
use vstd::string::StringExecFns;

use crate::resolution::{ResolveError, SpecResolveError};
use crate::semantics::{SpecBinding, SpecEvalError, SpecTerm, SpecVal};
use crate::syntax::{
    bindings_view, lemma_bindings_view, lemma_terms_view, term_view, terms_view, val_view, Env,
    EnvBinding, EvalError, NameIntro, NameRef, Term, Val,
};

verus! {

/// The single decimal digit for `d`.
pub open spec fn digit_seq(d: nat) -> Seq<char> {
    if d == 0 {
        "0"@
    } else if d == 1 {
        "1"@
    } else if d == 2 {
        "2"@
    } else if d == 3 {
        "3"@
    } else if d == 4 {
        "4"@
    } else if d == 5 {
        "5"@
    } else if d == 6 {
        "6"@
    } else if d == 7 {
        "7"@
    } else if d == 8 {
        "8"@
    } else {
        "9"@
    }
}

/// The decimal rendering of `n`, most significant digit first.
pub open spec fn dec_digits(n: nat) -> Seq<char>
    decreases n,
{
    if n < 10 {
        digit_seq(n)
    } else {
        dec_digits(n / 10) + digit_seq(n % 10)
    }
}

/// The rendering of a reference: `<label>#<index>`.
pub open spec fn render_ref(label: Seq<char>, index: nat) -> Seq<char> {
    label + "#"@ + dec_digits(index)
}

/// The rendering of a core term.
pub open spec fn render_term(t: SpecTerm) -> Seq<char>
    decreases t,
{
    match t {
        SpecTerm::Lam { label, body } => "\u{03BB}"@ + label + " "@ + render_term(*body),
        SpecTerm::Neu { label, index, args } => {
            if args.len() == 0 {
                render_ref(label, index)
            } else {
                "("@ + render_ref(label, index) + render_args(args) + ")"@
            }
        },
        SpecTerm::Def { label, binding, body } => "(let "@ + label + " = "@ + render_term(*binding)
            + " in "@ + render_term(*body) + ")"@,
    }
}

/// The rendering of a spine's arguments: one space before each.
pub open spec fn render_args(args: Seq<SpecTerm>) -> Seq<char>
    decreases args,
{
    if args.len() == 0 {
        Seq::empty()
    } else {
        " "@ + render_term(args[0]) + render_args(args.drop_first())
    }
}

/// The rendering of a closure value: `\u{03BB}<env><name> <body>`.
pub open spec fn render_val(v: SpecVal) -> Seq<char>
    decreases v, 0nat,
{
    match v {
        SpecVal::Lam { env, label, body } => "\u{03BB}"@ + render_env(env) + label + " "@
            + render_term(body),
    }
}

/// The rendering of an environment: its bindings nearest-first, comma
/// separated, in square brackets.
pub open spec fn render_env(env: Seq<SpecBinding>) -> Seq<char>
    decreases env, 1nat,
{
    "["@ + render_bindings(env) + "]"@
}

/// The comma-separated renderings `<name> = <value>` of the entries.
pub open spec fn render_bindings(bs: Seq<SpecBinding>) -> Seq<char>
    decreases bs, 0nat,
{
    if bs.len() == 0 {
        Seq::empty()
    } else if bs.len() == 1 {
        bs[0].label + " = "@ + render_val(bs[0].val)
    } else {
        bs[0].label + " = "@ + render_val(bs[0].val) + ", "@ + render_bindings(bs.drop_first())
    }
}

/// Renders a single decimal digit.
fn digit_string(d: usize) -> (r: String)
    requires
        d < 10,
    ensures
        r@ == digit_seq(d as nat),
{
    if d == 0 {
        "0".to_owned()
    } else if d == 1 {
        "1".to_owned()
    } else if d == 2 {
        "2".to_owned()
    } else if d == 3 {
        "3".to_owned()
    } else if d == 4 {
        "4".to_owned()
    } else if d == 5 {
        "5".to_owned()
    } else if d == 6 {
        "6".to_owned()
    } else if d == 7 {
        "7".to_owned()
    } else if d == 8 {
        "8".to_owned()
    } else {
        "9".to_owned()
    }
}

/// Renders an index in decimal.
fn render_index(n: usize) -> (r: String)
    ensures
        r@ == dec_digits(n as nat),
    decreases n,
{
    if n < 10 {
        digit_string(n)
    } else {
        let mut s = render_index(n / 10);
        let d = digit_string(n % 10);
        s.append(d.as_str());
        s
    }
}

/// Renders a reference as `<label>#<index>`.
fn ref_to_text(x: &NameRef) -> (r: String)
    ensures
        r@ == render_ref(x@.label, x@.index),
{
    let mut s = x.label.clone();
    s.append("#");
    let i = render_index(x.index);
    s.append(i.as_str());
    proof {
        assert(s@ =~= render_ref(x@.label, x@.index));
    }
    s
}

/// Renders a core term.
fn term_to_text(t: &Term) -> (r: String)
    ensures
        r@ == render_term(term_view(*t)),
    decreases t, 0nat,
{
    match t {
        Term::Lam { intro, body } => {
            let mut s = "\u{03BB}".to_owned();
            s.append(intro.label.as_str());
            s.append(" ");
            let b = term_to_text(body);
            s.append(b.as_str());
            proof {
                assert(s@ =~= render_term(term_view(*t)));
            }
            s
        },
        Term::Neu { applicant, arguments } => {
            proof {
                lemma_terms_view(arguments@);
            }
            if arguments.len() == 0 {
                ref_to_text(applicant)
            } else {
                let mut s = "(".to_owned();
                let a = ref_to_text(applicant);
                s.append(a.as_str());
                let rest = term_args_to_text(arguments, 0);
                s.append(rest.as_str());
                s.append(")");
                proof {
                    assert(terms_view(arguments@).skip(0) =~= terms_view(arguments@));
                    assert(s@ =~= render_term(term_view(*t)));
                }
                s
            }
        },
        Term::Def { intro, binding, body } => {
            let mut s = "(let ".to_owned();
            s.append(intro.label.as_str());
            s.append(" = ");
            let b = term_to_text(binding);
            s.append(b.as_str());
            s.append(" in ");
            let c = term_to_text(body);
            s.append(c.as_str());
            s.append(")");
            proof {
                assert(s@ =~= render_term(term_view(*t)));
            }
            s
        },
    }
}

/// Renders the arguments `args[i..]` of a spine, one space before each.
fn term_args_to_text(args: &Vec<Term>, i: usize) -> (r: String)
    requires
        i <= args@.len(),
    ensures
        r@ == render_args(terms_view(args@).skip(i as int)),
    decreases args, args@.len() - i,
{
    proof {
        lemma_terms_view(args@);
    }
    if i == args.len() {
        proof {
            assert(terms_view(args@).skip(i as int) =~= Seq::<SpecTerm>::empty());
        }
        String::new()
    } else {
        let ghost sk = terms_view(args@).skip(i as int);
        let mut s = " ".to_owned();
        let t = term_to_text(&args[i]);
        s.append(t.as_str());
        let rest = term_args_to_text(args, i + 1);
        s.append(rest.as_str());
        proof {
            assert(sk[0] == term_view(args@[i as int]));
            assert(sk.drop_first() =~= terms_view(args@).skip(i as int + 1));
            assert(s@ =~= render_args(sk));
        }
        s
    }
}

/// Renders a closure value.
fn val_to_text(v: &Val) -> (r: String)
    ensures
        r@ == render_val(val_view(*v)),
    decreases v, 0nat,
{
    match v {
        Val::Lam { intro, body, closure } => {
            let mut s = "\u{03BB}".to_owned();
            let e = env_to_text(closure);
            s.append(e.as_str());
            s.append(intro.label.as_str());
            s.append(" ");
            let b = term_to_text(body);
            s.append(b.as_str());
            proof {
                assert(s@ =~= render_val(val_view(*v)));
            }
            s
        },
    }
}

/// Renders an environment in square brackets.
fn env_to_text(e: &Env) -> (r: String)
    ensures
        r@ == render_env(bindings_view(e.bindings@)),
    decreases e, 0nat,
{
    let mut s = "[".to_owned();
    let b = env_bindings_to_text(&e.bindings, 0);
    s.append(b.as_str());
    s.append("]");
    proof {
        assert(bindings_view(e.bindings@).skip(0) =~= bindings_view(e.bindings@));
        assert(s@ =~= render_env(bindings_view(e.bindings@)));
    }
    s
}

/// Renders the entries `bs[i..]`, comma separated.
fn env_bindings_to_text(bs: &Vec<EnvBinding>, i: usize) -> (r: String)
    requires
        i <= bs@.len(),
    ensures
        r@ == render_bindings(bindings_view(bs@).skip(i as int)),
    decreases bs, bs@.len() - i,
{
    proof {
        lemma_bindings_view(bs@);
    }
    if i == bs.len() {
        proof {
            assert(bindings_view(bs@).skip(i as int) =~= Seq::<SpecBinding>::empty());
        }
        String::new()
    } else {
        let ghost sk = bindings_view(bs@).skip(i as int);
        let entry = &bs[i];
        let mut s = entry.intro.label.clone();
        s.append(" = ");
        let v = val_to_text(&entry.val);
        s.append(v.as_str());
        proof {
            assert(sk[0] == bs@[i as int]@);
        }
        if i + 1 == bs.len() {
            proof {
                assert(sk.len() == 1);
                assert(s@ =~= render_bindings(sk));
            }
            s
        } else {
            s.append(", ");
            let rest = env_bindings_to_text(bs, i + 1);
            s.append(rest.as_str());
            proof {
                assert(sk.drop_first() =~= bindings_view(bs@).skip(i as int + 1));
                assert(s@ =~= render_bindings(sk));
            }
            s
        }
    }
}

/// The description of an evaluation failure: the offending index and the
/// labels involved.
pub open spec fn render_eval_error(e: SpecEvalError) -> Seq<char> {
    match e {
        SpecEvalError::OutOfFuel => "evaluation ran out of fuel"@,
        SpecEvalError::UnboundReference { label, index } => {
            "environment doesn't have binding at index `"@ + dec_digits(index) + "` of name `"@
                + label + "`"@
        },
        SpecEvalError::NameMismatch { index, expected, actual } => {
            "environment's binding at index `"@ + dec_digits(index)
                + "` was expected to have the name `"@ + expected
                + "` but it actually has the name `"@ + actual + "`"@
        },
    }
}

/// The rendering of a resolution context: its labels, nearest-first,
/// quoted, comma separated, in square brackets.
pub open spec fn render_context(ctx: Seq<Seq<char>>) -> Seq<char> {
    "["@ + render_context_items(ctx) + "]"@
}

/// The quoted labels of a context, comma separated.
pub open spec fn render_context_items(ctx: Seq<Seq<char>>) -> Seq<char>
    decreases ctx,
{
    if ctx.len() == 0 {
        Seq::empty()
    } else if ctx.len() == 1 {
        "\""@ + ctx[0] + "\""@
    } else {
        "\""@ + ctx[0] + "\""@ + ", "@ + render_context_items(ctx.drop_first())
    }
}

/// The description of a resolution failure: the offending label, the
/// attempted index if one was given, and the context at the point of
/// failure.
pub open spec fn render_resolve_error(e: SpecResolveError) -> Seq<char> {
    match e {
        SpecResolveError::UnboundName { label, context } => {
            "the name ref with label `"@ + label + "` is invalid in the context `"@
                + render_context(context) + "`"@
        },
        SpecResolveError::InvalidNameRef { label, index, context } => {
            "the name ref with label `"@ + label + "` and index `"@ + dec_digits(index)
                + "` is invalid in the context `"@ + render_context(context) + "`"@
        },
    }
}

/// Renders the labels `ctx[i..]`, quoted and comma separated.
fn context_items_to_text(ctx: &Vec<String>, i: usize) -> (r: String)
    requires
        i <= ctx@.len(),
    ensures
        r@ == render_context_items(ctx.deep_view().skip(i as int)),
    decreases ctx@.len() - i,
{
    proof {
        assert(ctx.deep_view().len() == ctx@.len());
    }
    if i == ctx.len() {
        proof {
            assert(ctx.deep_view().skip(i as int) =~= Seq::<Seq<char>>::empty());
        }
        String::new()
    } else {
        let ghost sk = ctx.deep_view().skip(i as int);
        let mut s = "\"".to_owned();
        s.append(ctx[i].as_str());
        s.append("\"");
        proof {
            assert(sk[0] == ctx@[i as int]@);
        }
        if i + 1 == ctx.len() {
            proof {
                assert(sk.len() == 1);
                assert(s@ =~= render_context_items(sk));
            }
            s
        } else {
            s.append(", ");
            let rest = context_items_to_text(ctx, i + 1);
            s.append(rest.as_str());
            proof {
                assert(sk.drop_first() =~= ctx.deep_view().skip(i as int + 1));
                assert(s@ =~= render_context_items(sk));
            }
            s
        }
    }
}

impl EvalError {
    /// A human-readable description of the failure.
    pub fn to_text(&self) -> (r: String)
        ensures
            r@ == render_eval_error(self@),
    {
        match self {
            EvalError::OutOfFuel => "evaluation ran out of fuel".to_owned(),
            EvalError::UnboundReference { label, index } => {
                let mut s = "environment doesn't have binding at index `".to_owned();
                let d = render_index(*index);
                s.append(d.as_str());
                s.append("` of name `");
                s.append(label.as_str());
                s.append("`");
                proof {
                    assert(s@ =~= render_eval_error(self@));
                }
                s
            },
            EvalError::NameMismatch { index, expected, actual } => {
                let mut s = "environment's binding at index `".to_owned();
                let d = render_index(*index);
                s.append(d.as_str());
                s.append("` was expected to have the name `");
                s.append(expected.as_str());
                s.append("` but it actually has the name `");
                s.append(actual.as_str());
                s.append("`");
                proof {
                    assert(s@ =~= render_eval_error(self@));
                }
                s
            },
        }
    }
}

/// Renders a resolution context in square brackets.
fn context_to_text(ctx: &Vec<String>) -> (r: String)
    ensures
        r@ == render_context(ctx.deep_view()),
{
    let mut s = "[".to_owned();
    let items = context_items_to_text(ctx, 0);
    s.append(items.as_str());
    s.append("]");
    proof {
        assert(ctx.deep_view().skip(0) =~= ctx.deep_view());
        assert(s@ =~= render_context(ctx.deep_view()));
    }
    s
}

impl ResolveError {
    /// A human-readable description of the failure, with the full context
    /// at the point it arose.
    pub fn to_text(&self) -> (r: String)
        ensures
            r@ == render_resolve_error(self@),
    {
        match self {
            ResolveError::UnboundName { label, context } => {
                let mut s = "the name ref with label `".to_owned();
                s.append(label.as_str());
                s.append("` is invalid in the context `");
                let c = context_to_text(context);
                s.append(c.as_str());
                s.append("`");
                proof {
                    assert(s@ =~= render_resolve_error(self@));
                }
                s
            },
            ResolveError::InvalidNameRef { label, index, context } => {
                let mut s = "the name ref with label `".to_owned();
                s.append(label.as_str());
                s.append("` and index `");
                let d = render_index(*index);
                s.append(d.as_str());
                s.append("` is invalid in the context `");
                let c = context_to_text(context);
                s.append(c.as_str());
                s.append("`");
                proof {
                    assert(s@ =~= render_resolve_error(self@));
                }
                s
            },
        }
    }
}

impl NameIntro {
    /// The textual form of the name: its label.
    pub fn to_text(&self) -> (r: String)
        ensures
            r@ == self@,
    {
        self.label.clone()
    }
}

impl NameRef {
    /// The textual form `<label>#<index>`.
    pub fn to_text(&self) -> (r: String)
        ensures
            r@ == render_ref(self@.label, self@.index),
    {
        ref_to_text(self)
    }
}

impl Term {
    /// The textual form of the term.
    pub fn to_text(&self) -> (r: String)
        ensures
            r@ == render_term(self@),
    {
        term_to_text(self)
    }
}

impl Val {
    /// The textual form of the value.
    pub fn to_text(&self) -> (r: String)
        ensures
            r@ == render_val(self@),
    {
        val_to_text(self)
    }
}

impl Env {
    /// The textual form of the environment.
    pub fn to_text(&self) -> (r: String)
        ensures
            r@ == render_env(self@),
    {
        env_to_text(self)
    }
}

} // verus!
