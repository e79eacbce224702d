use ulc::interpretation::{apply, interpret};
use ulc::resolution::{def, from_term_builder_to_term, lam, neu, var};
use ulc::syntax::{Env, EvalError, NameIntro, NameRef, Term, Val};

const FUEL: u64 = 1000000;

fn assert_interpret(_env: Env, term: Term, expected_val: &Val) {
    let actual_val = interpret(&Env::default(), &term, FUEL);
    assert_eq!(
        actual_val.as_ref(),
        Ok(expected_val),
        "\ninput:\n  {}\nexpected:\n  {}",
        term.to_text(),
        expected_val.to_text(),
    );
}

#[test]
fn test() {
    {
        assert_interpret(
            Env::default(),
            Term::lam(NameIntro::new("x"), Term::neu(NameRef::new("x", 0), vec![])),
            &Val::lam(
                Env::default(),
                NameIntro::new("x"),
                Term::neu(NameRef::new("x", 0), vec![]),
            ),
        );
    }
    {
        // (let f = λx λy x#1 in (f λz z#0))
        let term = Term::let_(
            NameIntro::new("f"),
            // λx λy x#1
            Term::lam(
                NameIntro::new("x"),
                Term::lam(NameIntro::new("y"), Term::neu(NameRef::new("x", 1), vec![])),
            ),
            // (f λz z#0)
            Term::neu(
                NameRef::new("f", 0),
                vec![Term::lam(
                    NameIntro::new("z"),
                    Term::neu(NameRef::new("z", 0), vec![]),
                )],
            ),
        );

        // λ[x = λ[f = λ[]x λy x#1]z z#0]y x#1
        let term_val = Val::lam(
            Env::from_bindings(vec![(
                NameIntro::new("x"),
                // λ[f = λ[]x λy x#1]z z#0
                Val::lam(
                    Env::from_bindings(vec![(
                        NameIntro::new("f"),
                        // λy x#1
                        Val::lam(
                            Env::default(),
                            NameIntro::new("x"),
                            Term::lam(
                                NameIntro::new("y"),
                                Term::neu(NameRef::new("x", 1), vec![]),
                            ),
                        ),
                    )]),
                    NameIntro::new("z"),
                    Term::neu(NameRef::new("z", 0), vec![]),
                ),
            )]),
            NameIntro::new("y"),
            // x#1
            Term::neu(NameRef::new("x", 1), vec![]),
        );
        assert_interpret(Env::default(), term, &term_val);
    }
}

#[test]
fn test1() {
    assert_interpret(
        Env::default(),
        // (def f = λx λy x#1 in (f λz z#0))
        from_term_builder_to_term(
            Vec::new(),
            &def(
                "f",
                lam("x", lam("y", var("x"))),
                neu("f", vec![lam("z", var("z"))]),
            ),
        )
        .unwrap(),
        // λ[x = λ[f = λ[]x λy x#1]z z#0]y x#1
        &Val::lam(
            Env::from_bindings(vec![(
                NameIntro::new("x"),
                // λ[f = λ[]x λy x#1]z z#0
                Val::lam(
                    Env::from_bindings(vec![(
                        NameIntro::new("f"),
                        // λy x#1
                        Val::lam(
                            Env::default(),
                            NameIntro::new("x"),
                            Term::lam(
                                NameIntro::new("y"),
                                Term::neu(NameRef::new("x", 1), vec![]),
                            ),
                        ),
                    )]),
                    NameIntro::new("z"),
                    Term::neu(NameRef::new("z", 0), vec![]),
                ),
            )]),
            NameIntro::new("y"),
            // x#1
            Term::neu(NameRef::new("x", 1), vec![]),
        ),
    );
}

#[test]
fn test2() {
    assert_interpret(
        Env::default(),
        Term::lam(NameIntro::new("x"), Term::neu(NameRef::new("x", 0), vec![])),
        &Val::lam(
            Env::default(),
            NameIntro::new("x"),
            Term::neu(NameRef::new("x", 0), vec![]),
        ),
    );
    assert_interpret(
        Env::default(),
        // (def f = λx λy x#1 in (f λz z#0))
        Term::def(
            NameIntro::new("f"),
            // λx λy x#1
            Term::lam(
                NameIntro::new("x"),
                Term::lam(NameIntro::new("y"), Term::neu(NameRef::new("x", 1), vec![])),
            ),
            // (f λz z#0)
            Term::neu(
                NameRef::new("f", 0),
                vec![Term::lam(
                    NameIntro::new("z"),
                    Term::neu(NameRef::new("z", 0), vec![]),
                )],
            ),
        ),
        // λ[x = λ[f = λ[]x λy x#1]z z#0]y x#1
        &Val::lam(
            Env::from_bindings(vec![(
                NameIntro::new("x"),
                // λ[f = λ[]x λy x#1]z z#0
                Val::lam(
                    Env::from_bindings(vec![(
                        NameIntro::new("f"),
                        // λy x#1
                        Val::lam(
                            Env::default(),
                            NameIntro::new("x"),
                            Term::lam(
                                NameIntro::new("y"),
                                Term::neu(NameRef::new("x", 1), vec![]),
                            ),
                        ),
                    )]),
                    NameIntro::new("z"),
                    Term::neu(NameRef::new("z", 0), vec![]),
                ),
            )]),
            NameIntro::new("y"),
            // x#1
            Term::neu(NameRef::new("x", 1), vec![]),
        ),
    );
}

#[test]
fn empty_spine_returns_looked_up_value() {
    // def f = λx x#0 in f#0 — a zero-argument application is exactly the
    // looked-up value, unchanged.
    let term = Term::def(
        NameIntro::new("f"),
        Term::lam(NameIntro::new("x"), Term::neu(NameRef::new("x", 0), vec![])),
        Term::neu(NameRef::new("f", 0), vec![]),
    );
    let expected = Val::lam(
        Env::default(),
        NameIntro::new("x"),
        Term::neu(NameRef::new("x", 0), vec![]),
    );
    assert_eq!(interpret(&Env::default(), &term, FUEL), Ok(expected));
}

#[test]
fn evaluation_is_deterministic() {
    let term = Term::def(
        NameIntro::new("f"),
        Term::lam(
            NameIntro::new("x"),
            Term::lam(NameIntro::new("y"), Term::neu(NameRef::new("x", 1), vec![])),
        ),
        Term::neu(
            NameRef::new("f", 0),
            vec![Term::lam(
                NameIntro::new("z"),
                Term::neu(NameRef::new("z", 0), vec![]),
            )],
        ),
    );
    let first = interpret(&Env::default(), &term, FUEL);
    let second = interpret(&Env::default(), &term, FUEL);
    assert_eq!(first, second);
}

#[test]
fn extension_does_not_disturb_existing_environment() {
    let bound = Val::lam(
        Env::default(),
        NameIntro::new("x"),
        Term::neu(NameRef::new("x", 0), vec![]),
    );
    let env = Env::default().extend(NameIntro::new("a"), bound.clone());
    let before = env.lookup(&NameRef::new("a", 0));
    let term = Term::neu(NameRef::new("a", 0), vec![]);
    let eval_before = interpret(&env, &term, FUEL);

    let _extended = env.extend(NameIntro::new("b"), bound.clone());

    let after = env.lookup(&NameRef::new("a", 0));
    let eval_after = interpret(&env, &term, FUEL);
    assert_eq!(before, after);
    assert_eq!(eval_before, eval_after);
    assert_eq!(after, Ok(bound));
}

#[test]
fn curry_one_at_a_time_agrees_with_spine() {
    // f = λx λy x#1, applied to two arguments both as one spine and one at
    // a time.
    let f = interpret(
        &Env::default(),
        &Term::lam(
            NameIntro::new("x"),
            Term::lam(NameIntro::new("y"), Term::neu(NameRef::new("x", 1), vec![])),
        ),
        FUEL,
    )
    .unwrap();
    let a = interpret(
        &Env::default(),
        &Term::lam(NameIntro::new("u"), Term::neu(NameRef::new("u", 0), vec![])),
        FUEL,
    )
    .unwrap();
    let b = interpret(
        &Env::default(),
        &Term::lam(NameIntro::new("w"), Term::neu(NameRef::new("w", 0), vec![])),
        FUEL,
    )
    .unwrap();

    let spine = apply(&f, vec![a.clone(), b.clone()], FUEL).unwrap();
    let step1 = apply(&f, vec![a], FUEL).unwrap();
    let step2 = apply(&step1, vec![b], FUEL).unwrap();
    assert_eq!(spine, step2);
}

#[test]
fn unbound_reference_error() {
    // An environment of length 2 queried at index 5.
    let closure = Val::lam(
        Env::default(),
        NameIntro::new("x"),
        Term::neu(NameRef::new("x", 0), vec![]),
    );
    let env = Env::from_bindings(vec![
        (NameIntro::new("x"), closure.clone()),
        (NameIntro::new("y"), closure),
    ]);
    assert_eq!(
        env.lookup(&NameRef::new("x", 5)),
        Err(EvalError::UnboundReference {
            label: String::from("x"),
            index: 5,
        })
    );
}

#[test]
fn name_mismatch_error() {
    // An environment [(x, _)] queried with y#0.
    let closure = Val::lam(
        Env::default(),
        NameIntro::new("x"),
        Term::neu(NameRef::new("x", 0), vec![]),
    );
    let env = Env::from_bindings(vec![(NameIntro::new("x"), closure)]);
    assert_eq!(
        env.lookup(&NameRef::new("y", 0)),
        Err(EvalError::NameMismatch {
            index: 0,
            expected: String::from("y"),
            actual: String::from("x"),
        })
    );
}

#[test]
fn lookup_error_surfaces_through_interpret() {
    // A bare reference into the empty environment fails as the lookup does.
    let term = Term::neu(NameRef::new("x", 0), vec![]);
    assert_eq!(
        interpret(&Env::default(), &term, FUEL),
        Err(EvalError::UnboundReference {
            label: String::from("x"),
            index: 0,
        })
    );
}

#[test]
fn diverging_term_runs_out_of_fuel() {
    // def w = λx (x#0 x#0) in (w#0 λx (x#0 x#0)) loops forever; the budget
    // runs out whatever its size.
    let self_apply = || {
        Term::lam(
            NameIntro::new("x"),
            Term::neu(
                NameRef::new("x", 0),
                vec![Term::neu(NameRef::new("x", 0), vec![])],
            ),
        )
    };
    let term = Term::def(
        NameIntro::new("w"),
        self_apply(),
        Term::neu(NameRef::new("w", 0), vec![self_apply()]),
    );
    assert_eq!(
        interpret(&Env::default(), &term, 500),
        Err(EvalError::OutOfFuel)
    );
    assert_eq!(
        interpret(&Env::default(), &term, 10),
        Err(EvalError::OutOfFuel)
    );
}

#[test]
fn environment_accessors() {
    let closure = Val::lam(
        Env::default(),
        NameIntro::new("x"),
        Term::neu(NameRef::new("x", 0), vec![]),
    );
    let env = Env::default().extend(NameIntro::new("a"), closure.clone());
    let entries = env.iter();
    assert_eq!(entries.len(), 1);
    assert_eq!(entries[0].intro, NameIntro::new("a"));
    assert_eq!(entries[0].val, closure.clone());
    assert_eq!(env.lookup(&NameRef::new("a", 0)), Ok(closure));
}
