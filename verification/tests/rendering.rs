use ulc::interpretation::interpret;
use ulc::resolution::{from_term_builder_to_term, lam, var, var_with_index};
use ulc::syntax::{Env, EvalError, NameIntro, NameRef, Term, Val};

const FUEL: u64 = 1000000;

#[test]
fn name_rendering() {
    assert_eq!(NameIntro::new("x").to_text(), "x");
    assert_eq!(NameRef::new("x", 0).to_text(), "x#0");
    assert_eq!(NameRef::new("long", 12).to_text(), "long#12");
    assert_eq!(NameRef::new("n", 105).to_text(), "n#105");
}

#[test]
fn term_rendering() {
    let lam_term = Term::lam(NameIntro::new("x"), Term::neu(NameRef::new("x", 0), vec![]));
    assert_eq!(lam_term.to_text(), "λx x#0");

    let spine = Term::neu(
        NameRef::new("f", 0),
        vec![
            Term::lam(NameIntro::new("z"), Term::neu(NameRef::new("z", 0), vec![])),
            Term::neu(NameRef::new("g", 1), vec![]),
        ],
    );
    assert_eq!(spine.to_text(), "(f#0 λz z#0 g#1)");

    let binding = Term::def(
        NameIntro::new("f"),
        Term::lam(
            NameIntro::new("x"),
            Term::lam(NameIntro::new("y"), Term::neu(NameRef::new("x", 1), vec![])),
        ),
        Term::neu(
            NameRef::new("f", 0),
            vec![Term::lam(
                NameIntro::new("z"),
                Term::neu(NameRef::new("z", 0), vec![]),
            )],
        ),
    );
    assert_eq!(binding.to_text(), "(let f = λx λy x#1 in (f#0 λz z#0))");
}

#[test]
fn value_and_environment_rendering() {
    // Scenario: λx x#0 in the empty environment gives the closure λ[]x x#0.
    let identity = Term::lam(NameIntro::new("x"), Term::neu(NameRef::new("x", 0), vec![]));
    let closure = interpret(&Env::default(), &identity, FUEL).unwrap();
    assert_eq!(closure.to_text(), "λ[]x x#0");

    // The evaluated binding example renders with its captured environments,
    // nearest-first.
    let term = Term::def(
        NameIntro::new("f"),
        Term::lam(
            NameIntro::new("x"),
            Term::lam(NameIntro::new("y"), Term::neu(NameRef::new("x", 1), vec![])),
        ),
        Term::neu(
            NameRef::new("f", 0),
            vec![Term::lam(
                NameIntro::new("z"),
                Term::neu(NameRef::new("z", 0), vec![]),
            )],
        ),
    );
    let val = interpret(&Env::default(), &term, FUEL).unwrap();
    assert_eq!(val.to_text(), "λ[x = λ[f = λ[]x λy x#1]z z#0]y x#1");

    let env = Env::default()
        .extend(NameIntro::new("a"), val.clone())
        .extend(NameIntro::new("b"), interpret(&Env::default(), &identity, FUEL).unwrap());
    assert_eq!(
        env.to_text(),
        "[b = λ[]x x#0, a = λ[x = λ[f = λ[]x λy x#1]z z#0]y x#1]"
    );
}

#[test]
fn evaluation_error_messages() {
    let closure = Val::lam(
        Env::default(),
        NameIntro::new("x"),
        Term::neu(NameRef::new("x", 0), vec![]),
    );
    let env = Env::from_bindings(vec![(NameIntro::new("x"), closure)]);

    let unbound = env.lookup(&NameRef::new("x", 5)).unwrap_err();
    assert_eq!(
        unbound.to_text(),
        "environment doesn't have binding at index `5` of name `x`"
    );

    let mismatch = env.lookup(&NameRef::new("y", 0)).unwrap_err();
    assert_eq!(
        mismatch.to_text(),
        "environment's binding at index `0` was expected to have the name `y` but it actually has the name `x`"
    );

    assert_eq!(EvalError::OutOfFuel.to_text(), "evaluation ran out of fuel");
}

#[test]
fn resolution_error_messages() {
    let unbound = from_term_builder_to_term(Vec::new(), &var("y")).unwrap_err();
    assert_eq!(
        unbound.to_text(),
        "the name ref with label `y` is invalid in the context `[]`"
    );

    let unbound_deeper =
        from_term_builder_to_term(Vec::new(), &lam("a", lam("b", var("c")))).unwrap_err();
    assert_eq!(
        unbound_deeper.to_text(),
        "the name ref with label `c` is invalid in the context `[\"b\", \"a\"]`"
    );

    let invalid =
        from_term_builder_to_term(Vec::new(), &lam("x", var_with_index("x", 1))).unwrap_err();
    assert_eq!(
        invalid.to_text(),
        "the name ref with label `x` and index `1` is invalid in the context `[\"x\"]`"
    );
}
