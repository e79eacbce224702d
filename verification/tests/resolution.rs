use ulc::resolution::{
    def, from_term_builder_to_term, lam, neu, neu_with_index, var, var_with_index, ResolveError,
};
use ulc::syntax::{NameIntro, NameRef, Term};

#[test]
fn test_var() {
    assert_eq!(
        from_term_builder_to_term(Vec::new(), &lam("x", var("x"))).unwrap(),
        Term::lam(NameIntro::new("x"), Term::var(NameRef::new("x", 0)))
    );
    assert_eq!(
        from_term_builder_to_term(Vec::new(), &def("x", lam("y", var("y")), var("x"))).unwrap(),
        Term::def(
            NameIntro::new("x"),
            Term::lam(NameIntro::new("y"), Term::var(NameRef::new("y", 0))),
            Term::var(NameRef::new("x", 0))
        )
    );
    assert_eq!(
        from_term_builder_to_term(
            Vec::new(),
            &def("x", lam("y", var("y")), neu("x", vec![var("x")]))
        )
        .unwrap(),
        Term::def(
            NameIntro::new("x"),
            Term::lam(NameIntro::new("y"), Term::var(NameRef::new("y", 0))),
            Term::neu(NameRef::new("x", 0), vec![Term::var(NameRef::new("x", 0))])
        )
    );
}

#[test]
fn shadowing_resolves_to_nearest_binder() {
    // λx λx x#0: the inner binder wins.
    assert_eq!(
        from_term_builder_to_term(Vec::new(), &lam("x", lam("x", var("x")))).unwrap(),
        Term::lam(
            NameIntro::new("x"),
            Term::lam(NameIntro::new("x"), Term::var(NameRef::new("x", 0)))
        )
    );
    // λx λy x#1: an outer reference counts the layers in between.
    assert_eq!(
        from_term_builder_to_term(Vec::new(), &lam("x", lam("y", var("x")))).unwrap(),
        Term::lam(
            NameIntro::new("x"),
            Term::lam(NameIntro::new("y"), Term::var(NameRef::new("x", 1)))
        )
    );
}

#[test]
fn unbound_name_is_rejected() {
    assert_eq!(
        from_term_builder_to_term(Vec::new(), &var("y")),
        Err(ResolveError::UnboundName {
            label: String::from("y"),
            context: Vec::new(),
        })
    );
    assert_eq!(
        from_term_builder_to_term(Vec::new(), &lam("x", var("y"))),
        Err(ResolveError::UnboundName {
            label: String::from("y"),
            context: vec![String::from("x")],
        })
    );
}

#[test]
fn explicit_index_is_checked_not_trusted() {
    // A correct explicit index is kept as written.
    assert_eq!(
        from_term_builder_to_term(Vec::new(), &lam("x", lam("y", var_with_index("x", 1)))).unwrap(),
        Term::lam(
            NameIntro::new("x"),
            Term::lam(NameIntro::new("y"), Term::var(NameRef::new("x", 1)))
        )
    );
    // An out-of-range explicit index is rejected.
    assert_eq!(
        from_term_builder_to_term(Vec::new(), &lam("x", var_with_index("x", 1))),
        Err(ResolveError::InvalidNameRef {
            label: String::from("x"),
            index: 1,
            context: vec![String::from("x")],
        })
    );
    // An index pointing at a differently named binder is rejected.
    assert_eq!(
        from_term_builder_to_term(Vec::new(), &lam("x", lam("y", var_with_index("x", 0)))),
        Err(ResolveError::InvalidNameRef {
            label: String::from("x"),
            index: 0,
            context: vec![String::from("y"), String::from("x")],
        })
    );
}

#[test]
fn binding_is_not_recursive() {
    // def x = x in x: the right-hand side cannot see the name it defines.
    assert_eq!(
        from_term_builder_to_term(Vec::new(), &def("x", var("x"), var("x"))),
        Err(ResolveError::UnboundName {
            label: String::from("x"),
            context: Vec::new(),
        })
    );
}

#[test]
fn resolution_round_trip_on_rebuilt_term() {
    // Resolve a surface term with no explicit indices, then write the same
    // term again with the produced indices inserted explicitly: resolution
    // yields the same core term.
    let implicit = lam("x", lam("y", neu("x", vec![var("y"), var("x")])));
    let resolved = from_term_builder_to_term(Vec::new(), &implicit).unwrap();

    let explicit = lam(
        "x",
        lam(
            "y",
            neu_with_index("x", 1, vec![var_with_index("y", 0), var_with_index("x", 1)]),
        ),
    );
    let re_resolved = from_term_builder_to_term(Vec::new(), &explicit).unwrap();
    assert_eq!(resolved, re_resolved);
}

#[test]
fn arguments_resolve_under_the_applicant_context() {
    // (f (f λz z#0)) under def f = λx x#0.
    assert_eq!(
        from_term_builder_to_term(
            Vec::new(),
            &def(
                "f",
                lam("x", var("x")),
                neu("f", vec![neu("f", vec![lam("z", var("z"))])]),
            )
        )
        .unwrap(),
        Term::def(
            NameIntro::new("f"),
            Term::lam(NameIntro::new("x"), Term::var(NameRef::new("x", 0))),
            Term::neu(
                NameRef::new("f", 0),
                vec![Term::neu(
                    NameRef::new("f", 0),
                    vec![Term::lam(
                        NameIntro::new("z"),
                        Term::var(NameRef::new("z", 0))
                    )]
                )]
            )
        )
    );
}
