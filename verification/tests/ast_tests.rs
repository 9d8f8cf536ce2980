use theorem_prover::ast::{Atom, Formula, NumberLit, Symbol, Term, Var};

fn var(name: &str) -> Var {
    Var {
        name: name.to_owned(),
    }
}

fn variable(name: &str) -> Term {
    Term::Var(var(name))
}

fn constant(name: &str) -> Term {
    Term::Const(Symbol::User(name.to_owned()))
}

fn predicate(name: &str) -> Atom {
    Atom::Predicate {
        name: Symbol::User(name.to_owned()),
        args: Vec::new(),
    }
}

fn predicate_with_args(name: &str, args: Vec<Term>) -> Atom {
    Atom::Predicate {
        name: Symbol::User(name.to_owned()),
        args,
    }
}

fn atom_formula(name: &str) -> Formula {
    Formula::atom(name)
}

#[test]
fn formula_constructors_build_expected_ast_shapes() {
    assert_eq!(Formula::atom("p"), atom_formula("p"));
    assert_eq!(
        Formula::predicate("p", vec![variable("X"), constant("a")]),
        Formula::Atom(predicate_with_args("p", vec![variable("X"), constant("a")]))
    );
    assert_eq!(Formula::not(atom_formula("p")), Formula::Not(Box::new(atom_formula("p"))));
    assert_eq!(
        Formula::and(vec![atom_formula("p"), atom_formula("q")]),
        Formula::And(vec![atom_formula("p"), atom_formula("q")])
    );
    assert_eq!(
        Formula::or(vec![atom_formula("p"), atom_formula("q")]),
        Formula::Or(vec![atom_formula("p"), atom_formula("q")])
    );
    assert_eq!(
        Formula::implies(atom_formula("p"), atom_formula("q")),
        Formula::Implies(Box::new(atom_formula("p")), Box::new(atom_formula("q")))
    );
}

#[test]
fn symbols_display_as_stored() {
    assert_eq!((Symbol::User("p".to_owned())).to_string(), "p");
    assert_eq!(
        (Symbol::Defined("$trueish".to_owned())).to_string(),
        "$trueish"
    );
    assert_eq!((Symbol::System("$$sys".to_owned())).to_string(), "$$sys");
}

#[test]
fn terms_display_all_variants() {
    assert_eq!((variable("X")).to_string(), "X");
    assert_eq!((constant("a")).to_string(), "a");
    assert_eq!(
        (Term::Number(NumberLit::Integer("-7".to_owned()))).to_string(),
        "-7"
    );
    assert_eq!(
        (Term::Number(NumberLit::Rational("2/5".to_owned()))).to_string(),
        "2/5"
    );
    assert_eq!(
        (Term::Number(NumberLit::Real("3.14".to_owned()))).to_string(),
        "3.14"
    );
    assert_eq!(
        (Term::DistinctObject("\"obj\"".to_owned())).to_string(),
        "\"obj\""
    );
    assert_eq!(
        (Term::Fun {
                name: Symbol::Defined("$f".to_owned()),
                args: vec![variable("X"), constant("a")],
            }).to_string(),
        "$f(X, a)"
    );
    assert_eq!(
        (Term::Fun {
                name: Symbol::User("c".to_owned()),
                args: Vec::new(),
            }).to_string(),
        "c()"
    );
}

#[test]
fn atoms_display_predicates() {
    assert_eq!((predicate("p")).to_string(), "p");
    assert_eq!(
        (predicate_with_args("p", vec![variable("X"), constant("a")])).to_string(),
        "p(X, a)"
    );
}

#[test]
fn formulas_display_atoms_constants_and_quantifiers() {
    assert_eq!((Formula::True).to_string(), "⊤");
    assert_eq!((Formula::False).to_string(), "⊥");
    assert_eq!((atom_formula("p")).to_string(), "p");
    assert_eq!((Formula::not(atom_formula("p"))).to_string(), "¬p");
    assert_eq!(
        (Formula::not(Formula::and(vec![
                atom_formula("p"),
                atom_formula("q")
            ]))).to_string(),
        "¬(p ∧ q)"
    );
    assert_eq!(
        (Formula::ForAll(
                vec![var("X")],
                Box::new(Formula::Atom(predicate_with_args("p", vec![variable("X")])))
            )).to_string(),
        "∀X. p(X)"
    );
    assert_eq!(
        (Formula::Exists(
                vec![var("X"), var("Y")],
                Box::new(Formula::Atom(predicate_with_args(
                    "q",
                    vec![variable("X"), variable("Y")]
                )))
            )).to_string(),
        "∃X, Y. q(X, Y)"
    );
}

#[test]
fn formulas_display_connectives_with_precedence() {
    assert_eq!(
        (Formula::and(vec![
                atom_formula("p"),
                atom_formula("q"),
                atom_formula("r")
            ])).to_string(),
        "p ∧ q ∧ r"
    );
    assert_eq!(
        (Formula::or(vec![atom_formula("p"), atom_formula("q")])).to_string(),
        "p ∨ q"
    );
    assert_eq!(
        (Formula::implies(atom_formula("p"), atom_formula("q"))).to_string(),
        "p ⇒ q"
    );
    assert_eq!(
        (Formula::implies(Formula::and(vec![atom_formula("p"), atom_formula("q")]), atom_formula("r"))).to_string(),
        "p ∧ q ⇒ r"
    );
    assert_eq!(
        (Formula::and(vec![
                atom_formula("p"),
                Formula::implies(atom_formula("q"), atom_formula("r"))
            ])).to_string(),
        "p ∧ (q ⇒ r)"
    );
    assert_eq!(
        (Formula::ForAll(
                vec![var("X")],
                Box::new(Formula::Implies(
                    Box::new(Formula::Atom(predicate_with_args("p", vec![variable("X")]))),
                    Box::new(atom_formula("q"))
                ))
            )).to_string(),
        "∀X. (p(X) ⇒ q)"
    );
}

#[test]
fn formulas_parenthesize_ambiguous_binary_nesting() {
    assert_eq!(
        (Formula::Implies(
                Box::new(atom_formula("p")),
                Box::new(Formula::Implies(
                    Box::new(atom_formula("q")),
                    Box::new(atom_formula("r"))
                ))
            )).to_string(),
        "p ⇒ (q ⇒ r)"
    );
    assert_eq!(
        (Formula::Implies(
                Box::new(Formula::Implies(
                    Box::new(atom_formula("p")),
                    Box::new(atom_formula("q"))
                )),
                Box::new(atom_formula("r"))
            )).to_string(),
        "p ⇒ q ⇒ r"
    );
}

#[test]
fn term_substitution_replaces_variables_inside_nested_function_arguments() {
    let term = Term::Fun {
        name: Symbol::User("f".to_owned()),
        args: vec![
            variable("X"),
            Term::Fun {
                name: Symbol::User("g".to_owned()),
                args: vec![variable("X"), constant("a")],
            },
        ],
    };

    assert_eq!(
        term.substitute_var("X", &constant("b")),
        Term::Fun {
            name: Symbol::User("f".to_owned()),
            args: vec![
                constant("b"),
                Term::Fun {
                    name: Symbol::User("g".to_owned()),
                    args: vec![constant("b"), constant("a")],
                },
            ],
        }
    );
}

#[test]
fn formula_substitution_stops_at_shadowing_quantifier() {
    let formula = Formula::ForAll(
        vec![var("X")],
        Box::new(Formula::and(vec![
            Formula::predicate("p", vec![variable("X")]),
            Formula::Exists(
                vec![var("X")],
                Box::new(Formula::predicate("q", vec![variable("X")])),
            ),
        ])),
    );

    assert_eq!(
        formula.substitute_var("X", &constant("a")),
        Formula::ForAll(
            vec![var("X")],
            Box::new(Formula::and(vec![
                Formula::predicate("p", vec![variable("X")]),
                Formula::Exists(
                    vec![var("X")],
                    Box::new(Formula::predicate("q", vec![variable("X")])),
                ),
            ]))
        )
    );
}

#[test]
fn formula_substitution_renames_a_bound_variable_that_would_capture() {
    // ∀Y. p(X, Y) with Y put in for X: the bound Y is renamed, so the Y
    // put in stays free.
    let formula = Formula::ForAll(
        vec![var("Y")],
        Box::new(Formula::predicate("p", vec![variable("X"), variable("Y")])),
    );

    let result = formula.substitute_var("X", &variable("Y"));
    assert_eq!(
        result,
        Formula::ForAll(
            vec![var("Y''")],
            Box::new(Formula::predicate("p", vec![variable("Y"), variable("Y''")])),
        )
    );
    assert_ne!(
        result,
        Formula::ForAll(
            vec![var("Y")],
            Box::new(Formula::predicate("p", vec![variable("Y"), variable("Y")])),
        )
    );
}

#[test]
fn formula_substitution_keeps_bound_names_when_nothing_is_captured() {
    let formula = Formula::Exists(
        vec![var("Y"), var("Z")],
        Box::new(Formula::predicate("p", vec![variable("X"), variable("Y"), variable("Z")])),
    );

    assert_eq!(
        formula.substitute_var("X", &Term::Fun {
            name: Symbol::User("f".to_owned()),
            args: vec![variable("W")],
        }),
        Formula::Exists(
            vec![var("Y"), var("Z")],
            Box::new(Formula::predicate(
                "p",
                vec![
                    Term::Fun {
                        name: Symbol::User("f".to_owned()),
                        args: vec![variable("W")],
                    },
                    variable("Y"),
                    variable("Z"),
                ],
            )),
        )
    );
}

#[test]
fn formula_substitution_of_a_variable_by_itself_changes_nothing() {
    let formula = Formula::and(vec![
        Formula::predicate("p", vec![variable("X"), variable("Y")]),
        Formula::ForAll(
            vec![var("Y")],
            Box::new(Formula::predicate("q", vec![variable("X"), variable("Y")])),
        ),
    ]);

    assert_eq!(formula.substitute_var("X", &variable("X")), formula);
}

#[test]
fn simultaneous_substitution_swaps_variables_and_first_entry_counts() {
    let formula = Formula::predicate("p", vec![variable("X"), variable("Y")]);
    let swap = vec![
        ("X".to_owned(), variable("Y")),
        ("Y".to_owned(), variable("X")),
        ("X".to_owned(), constant("a")),
    ];

    assert_eq!(
        formula.substitute_all(&swap),
        Formula::predicate("p", vec![variable("Y"), variable("X")])
    );
}
