//! Executable syntax: names, terms, runtime values and environments,
//! each with a view into the ghost model of `semantics`.

use vstd::prelude::*;

use crate::semantics::{lookup_spec, SpecBinding, SpecEvalError, SpecTerm, SpecVal};

verus! {

/// A binding occurrence of a name: a lambda parameter or the left-hand side
/// of a local binding. Compared by label only.
#[derive(PartialEq, Eq, Debug)]
pub struct NameIntro {
    pub label: String,
}

impl View for NameIntro {
    type V = Seq<char>;

    open spec fn view(&self) -> Seq<char> {
        self.label@
    }
}

impl NameIntro {
    pub fn new(label: &str) -> (r: NameIntro)
        ensures
            r@ == label@,
    {
        NameIntro { label: label.to_owned() }
    }
}

impl Clone for NameIntro {
    fn clone(&self) -> (r: Self)
        ensures
            r@ == self@,
    {
        NameIntro { label: self.label.clone() }
    }
}

/// The ghost content of a use occurrence: its label together with the
/// de Bruijn index it resolved to.
pub struct SpecRef {
    pub label: Seq<char>,
    pub index: nat,
}

/// A use occurrence of a name: the label it was written with plus the
/// distance, in binding layers, to the binder it refers to (the innermost
/// enclosing binder has index 0).
#[derive(PartialEq, Eq, Debug)]
pub struct NameRef {
    pub label: String,
    pub index: usize,
}

impl View for NameRef {
    type V = SpecRef;

    open spec fn view(&self) -> SpecRef {
        SpecRef { label: self.label@, index: self.index as nat }
    }
}

impl NameRef {
    pub fn new(label: &str, index: usize) -> (r: NameRef)
        ensures
            r@ == (SpecRef { label: label@, index: index as nat }),
    {
        NameRef { label: label.to_owned(), index }
    }
}

impl Clone for NameRef {
    fn clone(&self) -> (r: Self)
        ensures
            r@ == self@,
    {
        NameRef { label: self.label.clone(), index: self.index }
    }
}

/// A core term: abstraction, application spine, or local binding. A spine
/// with no arguments is a bare variable reference.
#[derive(PartialEq, Eq, Debug)]
pub enum Term {
    Lam { intro: NameIntro, body: Box<Term> },
    Neu { applicant: NameRef, arguments: Vec<Term> },
    Def { intro: NameIntro, binding: Box<Term>, body: Box<Term> },
}

/// The view of a term in the ghost model.
pub open spec fn term_view(t: Term) -> SpecTerm
    decreases t,
{
    match t {
        Term::Lam { intro, body } => SpecTerm::Lam {
            label: intro@,
            body: Box::new(term_view(*body)),
        },
        Term::Neu { applicant, arguments } => SpecTerm::Neu {
            label: applicant@.label,
            index: applicant@.index,
            args: terms_view(arguments@),
        },
        Term::Def { intro, binding, body } => SpecTerm::Def {
            label: intro@,
            binding: Box::new(term_view(*binding)),
            body: Box::new(term_view(*body)),
        },
    }
}

/// The views of a sequence of terms, in order.
pub open spec fn terms_view(ts: Seq<Term>) -> Seq<SpecTerm>
    decreases ts,
{
    if ts.len() == 0 {
        Seq::empty()
    } else {
        seq![term_view(ts[0])] + terms_view(ts.drop_first())
    }
}

impl View for Term {
    type V = SpecTerm;

    open spec fn view(&self) -> SpecTerm {
        term_view(*self)
    }
}

/// `terms_view` maps the sequence pointwise.
pub proof fn lemma_terms_view(ts: Seq<Term>)
    ensures
        terms_view(ts).len() == ts.len(),
        forall|i: int| 0 <= i < ts.len() ==> terms_view(ts)[i] == ts[i]@,
    decreases ts,
{
    if ts.len() > 0 {
        lemma_terms_view(ts.drop_first());
    }
}

impl Term {
    /// Builds the abstraction `λ<intro> <body>`.
    pub fn lam(intro: NameIntro, body: Term) -> (r: Term)
        ensures
            r@ == (SpecTerm::Lam { label: intro@, body: Box::new(body@) }),
    {
        Term::Lam { intro, body: Box::new(body) }
    }

    /// Builds the application spine `(<applicant> <arg> ... <arg>)`.
    pub fn neu(applicant: NameRef, arguments: Vec<Term>) -> (r: Term)
        ensures
            r@ == (SpecTerm::Neu {
                label: applicant@.label,
                index: applicant@.index,
                args: terms_view(arguments@),
            }),
    {
        Term::Neu { applicant, arguments }
    }

    /// Builds a bare variable reference: a spine with no arguments.
    pub fn var(name: NameRef) -> (r: Term)
        ensures
            r@ == (SpecTerm::Neu { label: name@.label, index: name@.index, args: Seq::empty() }),
    {
        let arguments: Vec<Term> = Vec::new();
        proof {
            assert(terms_view(arguments@) =~= Seq::<SpecTerm>::empty());
        }
        Term::Neu { applicant: name, arguments }
    }

    /// Builds the local binding `def <intro> = <binding> in <body>`.
    pub fn def(intro: NameIntro, binding: Term, body: Term) -> (r: Term)
        ensures
            r@ == (SpecTerm::Def {
                label: intro@,
                binding: Box::new(binding@),
                body: Box::new(body@),
            }),
    {
        Term::Def { intro, binding: Box::new(binding), body: Box::new(body) }
    }

    /// Builds the local binding `let <intro> = <binding> in <body>`; the
    /// `let` and `def` spellings denote the same construct.
    pub fn let_(intro: NameIntro, binding: Term, body: Term) -> (r: Term)
        ensures
            r@ == (SpecTerm::Def {
                label: intro@,
                binding: Box::new(binding@),
                body: Box::new(body@),
            }),
    {
        Term::Def { intro, binding: Box::new(binding), body: Box::new(body) }
    }
}

/// Copies a term; the copy has the same view.
fn clone_term(t: &Term) -> (r: Term)
    ensures
        term_view(r) == term_view(*t),
    decreases t,
{
    match t {
        Term::Lam { intro, body } => Term::Lam {
            intro: intro.clone(),
            body: Box::new(clone_term(body)),
        },
        Term::Neu { applicant, arguments } => Term::Neu {
            applicant: applicant.clone(),
            arguments: clone_terms(arguments),
        },
        Term::Def { intro, binding, body } => Term::Def {
            intro: intro.clone(),
            binding: Box::new(clone_term(binding)),
            body: Box::new(clone_term(body)),
        },
    }
}

/// Copies a sequence of terms; the copy has the same views.
fn clone_terms(ts: &Vec<Term>) -> (r: Vec<Term>)
    ensures
        terms_view(r@) == terms_view(ts@),
    decreases ts,
{
    let mut r: Vec<Term> = Vec::new();
    let n = ts.len();
    for i in 0..n
        invariant
            n == ts@.len(),
            r@.len() == i,
            forall|j: int| 0 <= j < i ==> term_view(r@[j]) == term_view(ts@[j]),
    {
        r.push(clone_term(&ts[i]));
    }
    proof {
        lemma_terms_view(r@);
        lemma_terms_view(ts@);
        assert(terms_view(r@) =~= terms_view(ts@));
    }
    r
}

impl Clone for Term {
    fn clone(&self) -> (r: Self)
        ensures
            r@ == self@,
    {
        clone_term(self)
    }
}

/// A runtime value: the single variant is a closure, an abstraction paired
/// with the environment captured where it was created.
#[derive(PartialEq, Eq, Debug)]
pub enum Val {
    Lam { intro: NameIntro, body: Box<Term>, closure: Box<Env> },
}

/// One environment entry.
#[derive(PartialEq, Eq, Debug)]
pub struct EnvBinding {
    pub intro: NameIntro,
    pub val: Val,
}

/// An environment: an ordered sequence of bindings, most recently bound
/// first. Extension is pure and non-destructive, so closures captured before
/// an extension never observe it.
#[derive(PartialEq, Eq, Debug)]
pub struct Env {
    pub bindings: Vec<EnvBinding>,
}

/// The view of a runtime value in the ghost model.
pub open spec fn val_view(v: Val) -> SpecVal
    decreases v,
{
    match v {
        Val::Lam { intro, body, closure } => SpecVal::Lam {
            env: bindings_view((*closure).bindings@),
            label: intro@,
            body: term_view(*body),
        },
    }
}

/// The views of a sequence of environment entries, in order.
pub open spec fn bindings_view(bs: Seq<EnvBinding>) -> Seq<SpecBinding>
    decreases bs,
{
    if bs.len() == 0 {
        Seq::empty()
    } else {
        seq![SpecBinding { label: bs[0].intro@, val: val_view(bs[0].val) }]
            + bindings_view(bs.drop_first())
    }
}

impl View for Val {
    type V = SpecVal;

    open spec fn view(&self) -> SpecVal {
        val_view(*self)
    }
}

impl View for EnvBinding {
    type V = SpecBinding;

    open spec fn view(&self) -> SpecBinding {
        SpecBinding { label: self.intro@, val: val_view(self.val) }
    }
}

impl View for Env {
    type V = Seq<SpecBinding>;

    open spec fn view(&self) -> Seq<SpecBinding> {
        bindings_view(self.bindings@)
    }
}

/// `bindings_view` maps the sequence pointwise.
pub proof fn lemma_bindings_view(bs: Seq<EnvBinding>)
    ensures
        bindings_view(bs).len() == bs.len(),
        forall|i: int| 0 <= i < bs.len() ==> bindings_view(bs)[i] == bs[i]@,
    decreases bs,
{
    if bs.len() > 0 {
        lemma_bindings_view(bs.drop_first());
    }
}

impl Val {
    /// Builds the closure `λ<closure><intro> <body>`.
    pub fn lam(closure: Env, intro: NameIntro, body: Term) -> (r: Val)
        ensures
            r@ == (SpecVal::Lam { env: closure@, label: intro@, body: body@ }),
    {
        Val::Lam { intro, body: Box::new(body), closure: Box::new(closure) }
    }
}

/// Copies a runtime value; the copy has the same view.
fn clone_val(v: &Val) -> (r: Val)
    ensures
        val_view(r) == val_view(*v),
    decreases v,
{
    match v {
        Val::Lam { intro, body, closure } => Val::Lam {
            intro: intro.clone(),
            body: Box::new(clone_term(body)),
            closure: Box::new(clone_env(closure)),
        },
    }
}

/// Copies an environment; the copy has the same view.
fn clone_env(e: &Env) -> (r: Env)
    ensures
        bindings_view(r.bindings@) == bindings_view(e.bindings@),
    decreases e,
{
    Env { bindings: clone_env_bindings(&e.bindings) }
}

/// Copies a sequence of environment entries; the copy has the same views.
fn clone_env_bindings(bs: &Vec<EnvBinding>) -> (r: Vec<EnvBinding>)
    ensures
        bindings_view(r@) == bindings_view(bs@),
    decreases bs,
{
    let mut r: Vec<EnvBinding> = Vec::new();
    let n = bs.len();
    for i in 0..n
        invariant
            n == bs@.len(),
            r@.len() == i,
            forall|j: int|
                0 <= j < i ==> r@[j].intro@ == bs@[j].intro@ && val_view(r@[j].val) == val_view(
                    bs@[j].val,
                ),
    {
        let entry = &bs[i];
        r.push(EnvBinding { intro: entry.intro.clone(), val: clone_val(&entry.val) });
    }
    proof {
        lemma_bindings_view(r@);
        lemma_bindings_view(bs@);
        assert(bindings_view(r@) =~= bindings_view(bs@));
    }
    r
}

impl Clone for Val {
    fn clone(&self) -> (r: Self)
        ensures
            r@ == self@,
    {
        clone_val(self)
    }
}

impl Clone for EnvBinding {
    fn clone(&self) -> (r: Self)
        ensures
            r@ == self@,
    {
        EnvBinding { intro: self.intro.clone(), val: clone_val(&self.val) }
    }
}

impl Clone for Env {
    fn clone(&self) -> (r: Self)
        ensures
            r@ == self@,
    {
        clone_env(self)
    }
}

impl Default for Env {
    /// The empty environment.
    fn default() -> (r: Env)
        ensures
            r@ == Seq::<SpecBinding>::empty(),
    {
        Env { bindings: Vec::new() }
    }
}

/// Why evaluation stopped without producing a value; the executable
/// counterpart of `SpecEvalError`.
#[derive(PartialEq, Eq, Debug)]
pub enum EvalError {
    /// The step budget handed to the interpreter ran out.
    OutOfFuel,
    /// The reference's index does not exist in the environment.
    UnboundReference { label: String, index: usize },
    /// The entry at the reference's index carries a different label.
    NameMismatch { index: usize, expected: String, actual: String },
}

impl View for EvalError {
    type V = SpecEvalError;

    open spec fn view(&self) -> SpecEvalError {
        match self {
            EvalError::OutOfFuel => SpecEvalError::OutOfFuel,
            EvalError::UnboundReference { label, index } => SpecEvalError::UnboundReference {
                label: label@,
                index: index as nat,
            },
            EvalError::NameMismatch { index, expected, actual } => SpecEvalError::NameMismatch {
                index: index as nat,
                expected: expected@,
                actual: actual@,
            },
        }
    }
}

/// The outcome of an executable evaluation step, seen in the ghost model.
pub open spec fn val_result_view(r: Result<Val, EvalError>) -> Result<SpecVal, SpecEvalError> {
    match r {
        Ok(v) => Ok(v@),
        Err(e) => Err(e@),
    }
}

impl Env {
    /// Builds an environment from its entries, most recently bound first.
    pub fn from_bindings(bindings: Vec<(NameIntro, Val)>) -> (r: Env)
        ensures
            r@.len() == bindings@.len(),
            forall|i: int|
                0 <= i < bindings@.len() ==> r@[i] == (SpecBinding {
                    label: bindings@[i].0@,
                    val: bindings@[i].1@,
                }),
    {
        let mut bs: Vec<EnvBinding> = Vec::new();
        let n = bindings.len();
        for i in 0..n
            invariant
                n == bindings@.len(),
                bs@.len() == i,
                forall|j: int|
                    0 <= j < i ==> bs@[j]@ == (SpecBinding {
                        label: bindings@[j].0@,
                        val: bindings@[j].1@,
                    }),
        {
            let entry = &bindings[i];
            bs.push(EnvBinding { intro: entry.0.clone(), val: entry.1.clone() });
        }
        proof {
            lemma_bindings_view(bs@);
        }
        Env { bindings: bs }
    }

    /// Returns a new environment with `(intro, val)` prepended; the receiver
    /// is not modified, so every holder of it still sees exactly the old
    /// bindings.
    pub fn extend(&self, intro: NameIntro, val: Val) -> (r: Env)
        ensures
            r@ == seq![SpecBinding { label: intro@, val: val@ }] + self@,
    {
        let ghost b = SpecBinding { label: intro@, val: val@ };
        let mut bs = self.bindings.clone();
        bs.insert(0, EnvBinding { intro, val });
        proof {
            lemma_bindings_view(bs@);
            lemma_bindings_view(self.bindings@);
            assert(bindings_view(bs@) =~= seq![b] + bindings_view(self.bindings@));
        }
        Env { bindings: bs }
    }

    /// Fetches the value bound at the reference's index, after checking that
    /// the entry's label matches the reference's label.
    pub fn lookup(&self, x: &NameRef) -> (r: Result<Val, EvalError>)
        ensures
            val_result_view(r) == lookup_spec(self@, x@.label, x@.index),
    {
        proof {
            lemma_bindings_view(self.bindings@);
        }
        if x.index < self.bindings.len() {
            let entry = &self.bindings[x.index];
            if entry.intro.label == x.label {
                Ok(entry.val.clone())
            } else {
                Err(EvalError::NameMismatch {
                    index: x.index,
                    expected: x.label.clone(),
                    actual: entry.intro.label.clone(),
                })
            }
        } else {
            Err(EvalError::UnboundReference { label: x.label.clone(), index: x.index })
        }
    }

    /// Exposes the entries, most recently bound first; read-only.
    pub fn iter(&self) -> (r: &Vec<EnvBinding>)
        ensures
            bindings_view(r@) == self@,
    {
        &self.bindings
    }
}

/// The views of a sequence of runtime values, in order.
pub open spec fn vals_view(vs: Seq<Val>) -> Seq<SpecVal>
    decreases vs,
{
    if vs.len() == 0 {
        Seq::empty()
    } else {
        seq![val_view(vs[0])] + vals_view(vs.drop_first())
    }
}

/// `vals_view` maps the sequence pointwise.
pub proof fn lemma_vals_view(vs: Seq<Val>)
    ensures
        vals_view(vs).len() == vs.len(),
        forall|i: int| 0 <= i < vs.len() ==> vals_view(vs)[i] == vs[i]@,
    decreases vs,
{
    if vs.len() > 0 {
        lemma_vals_view(vs.drop_first());
    }
}

} // verus!
