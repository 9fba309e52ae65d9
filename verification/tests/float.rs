use hvm_lang::term::book::{Book, Definition, DefinitionBook, Rule};
use hvm_lang::term::transform::float_combinators::{float_child, float_combinator};
use hvm_lang::term::{Name, Op, Tag, Term};
use indexmap::IndexSet;

fn n(s: &str) -> Name {
    Name::new(s)
}

fn var(s: &str) -> Term {
    Term::Var { nam: n(s) }
}

fn rf(s: &str) -> Term {
    Term::Ref { nam: n(s) }
}

fn num(v: u64) -> Term {
    Term::Num { val: v }
}

fn bx(t: Term) -> Box<Term> {
    Box::new(t)
}

fn lam(x: &str, bod: Term) -> Term {
    Term::Lam { tag: Tag::Static, nam: Some(n(x)), bod: bx(bod) }
}

fn app(f: Term, a: Term) -> Term {
    Term::App { tag: Tag::Static, fun: bx(f), arg: bx(a) }
}

fn def(name: &str, body: Term) -> Definition {
    Definition { name: n(name), rules: vec![Rule { pats: vec![], body }], builtin: false }
}

fn book(defs: Vec<Definition>) -> Book {
    Book { defs: DefinitionBook { defs }, adts: vec![], ctrs: vec![], entrypoint: None }
}

fn empty_book() -> Book {
    book(vec![])
}

/// Floats a term as a float child of the definition `f` against an empty
/// book; gives the term and the combinators made.
fn float(mut term: Term) -> (Term, Vec<Definition>) {
    let mut combinators = vec![];
    let mut name_gen = 0;
    float_child(&mut term, &mut combinators, &mut name_gen, &empty_book(), &n("f"), false);
    assert_eq!(name_gen, combinators.len());
    (term, combinators)
}

/// Floats inside a term, as the body of a rule of the definition `f`,
/// against an empty book; gives the term and the combinators made.
fn float_inside(mut term: Term) -> (Term, Vec<Definition>) {
    let mut combinators = vec![];
    let mut name_gen = 0;
    term.float_combinators(&mut combinators, &mut name_gen, &empty_book(), &n("f"), false);
    assert_eq!(name_gen, combinators.len());
    (term, combinators)
}

#[test]
fn numbers_erasers_and_safe_tuples_are_safe() {
    let b = empty_book();
    let mut seen = IndexSet::new();
    assert!(num(1).is_safe(&b, &mut seen));
    assert!(Term::Era.is_safe(&b, &mut seen));
    assert!(Term::Tup { els: vec![num(1), Term::Era] }.is_safe(&b, &mut seen));
    assert!(Term::Sup { tag: Tag::Auto, els: vec![num(1), num(2)] }.is_safe(&b, &mut seen));
    assert!(Term::Tup { els: vec![] }.is_safe(&b, &mut seen));
    assert!(!Term::Tup { els: vec![num(1), var("x")] }.is_safe(&b, &mut seen));
    assert!(!Term::Lst { els: vec![num(1)] }.is_safe(&b, &mut seen));
    assert!(!app(num(1), num(2)).is_safe(&b, &mut seen));
    assert!(!var("x").is_safe(&b, &mut seen));
    assert!(!Term::Nat { val: 1 }.is_safe(&b, &mut seen));
    assert!(seen.is_empty());
}

#[test]
fn safe_lambdas() {
    let b = empty_book();
    let mut seen = IndexSet::new();
    assert!(lam("x", var("x")).is_safe(&b, &mut seen));
    assert!(lam("x", lam("y", var("x"))).is_safe(&b, &mut seen));
    assert!(lam("x", lam("y", num(3))).is_safe(&b, &mut seen));
    // A reference under a lambda is safe without a look at its definition.
    assert!(lam("x", rf("unknown")).is_safe(&b, &mut seen));
    assert!(seen.is_empty());
    assert!(!lam("x", var("z")).is_safe(&b, &mut seen));
    assert!(!lam("x", lam("y", app(var("x"), var("y")))).is_safe(&b, &mut seen));
    assert!(lam("x", var("x")).is_safe_lambda(&b, &mut seen));
    assert!(rf("anything").is_safe_lambda(&b, &mut seen));
    assert!(!var("x").is_safe_lambda(&b, &mut seen));
}

#[test]
fn reference_is_safe_if_its_body_is() {
    let b = book(vec![
        def("one", num(1)),
        def("alias", rf("one")),
        def("call", app(rf("one"), num(2))),
        def("looping", rf("looping")),
        def("ping", rf("pong")),
        def("pong", rf("ping")),
        Definition { name: n("norules"), rules: vec![], builtin: false },
    ]);
    let mut seen = IndexSet::new();
    assert!(rf("one").is_safe(&b, &mut seen));
    // The set holds the chain of references, and is the same afterwards.
    assert!(seen.is_empty());
    assert!(rf("one").is_safe(&b, &mut seen));
    assert!(rf("alias").is_safe(&b, &mut seen));
    assert!(!rf("call").is_safe(&b, &mut seen));
    assert!(!rf("looping").is_safe(&b, &mut seen));
    assert!(!rf("ping").is_safe(&b, &mut seen));
    assert!(!rf("pong").is_safe(&b, &mut seen));
    assert!(!rf("missing").is_safe(&b, &mut seen));
    assert!(!rf("norules").is_safe(&b, &mut seen));
    assert!(seen.is_empty());
}

#[test]
fn reference_on_its_own_chain_is_not_safe() {
    let b = book(vec![def("one", num(1)), def("alias", rf("one"))]);
    let mut seen = IndexSet::new();
    seen.insert("one".to_string());
    assert!(!rf("one").is_safe(&b, &mut seen));
    assert!(!rf("alias").is_safe(&b, &mut seen));
    assert_eq!(seen.iter().collect::<Vec<_>>(), vec!["one"]);
    let mut seen = IndexSet::new();
    seen.insert("other".to_string());
    assert!(rf("alias").is_safe(&b, &mut seen));
    assert_eq!(seen.iter().collect::<Vec<_>>(), vec!["other"]);
}

#[test]
fn sibling_references_are_judged_on_the_same_chain() {
    let b = book(vec![def("one", num(1)), def("two", num(2)), def("pair", Term::Tup { els: vec![rf("one"), rf("one")] })]);
    let mut seen = IndexSet::new();
    assert!(Term::Tup { els: vec![rf("one"), rf("one")] }.is_safe(&b, &mut seen));
    assert!(Term::Sup { tag: Tag::Auto, els: vec![rf("one"), rf("two"), rf("one")] }.is_safe(&b, &mut seen));
    assert!(Term::Tup { els: vec![rf("pair"), rf("pair"), rf("one")] }.is_safe(&b, &mut seen));
    assert!(!Term::Tup { els: vec![rf("one"), var("x"), rf("two")] }.is_safe(&b, &mut seen));
    assert!(seen.is_empty());
}

#[test]
fn combinators_are_closed_balanced_and_no_references() {
    assert!(lam("x", var("x")).is_combinator());
    assert!(num(1).is_combinator());
    assert!(app(rf("f"), num(1)).is_combinator());
    assert!(!rf("f").is_combinator());
    assert!(!var("x").is_combinator());
    assert!(!lam("x", var("y")).is_combinator());
    let declared = Term::Chn { tag: Tag::Static, nam: n("a"), bod: bx(Term::Era) };
    let used = Term::Lnk { nam: n("a") };
    assert!(!declared.is_combinator());
    assert!(!used.is_combinator());
    assert!(declared.has_unscoped_diff());
    assert!(used.has_unscoped_diff());
    let both = Term::Chn { tag: Tag::Static, nam: n("a"), bod: bx(Term::Lnk { nam: n("a") }) };
    assert!(!both.has_unscoped_diff());
    assert!(both.is_combinator());
    let crossed = app(
        Term::Chn { tag: Tag::Static, nam: n("a"), bod: bx(Term::Lnk { nam: n("b") }) },
        Term::Chn { tag: Tag::Static, nam: n("b"), bod: bx(Term::Lnk { nam: n("a") }) },
    );
    assert!(!crossed.has_unscoped_diff());
    assert!(!num(1).has_unscoped_diff());
}

#[test]
fn float_combinator_moves_the_term_out() {
    let mut term = app(num(1), num(2));
    let mut combinators = vec![def("earlier", Term::Era)];
    let mut name_gen = 0;
    float_combinator(&n("main"), &mut name_gen, &mut term, true, &mut combinators);
    assert_eq!(term, rf("main$C0"));
    assert_eq!(name_gen, 1);
    assert_eq!(combinators.len(), 2);
    assert_eq!(
        combinators[1],
        Definition {
            name: n("main$C0"),
            rules: vec![Rule { pats: vec![], body: app(num(1), num(2)) }],
            builtin: true,
        }
    );
    let mut term = num(3);
    float_combinator(&n("main"), &mut name_gen, &mut term, false, &mut combinators);
    assert_eq!(term, rf("main$C1"));
    assert_eq!(combinators[2].name, n("main$C1"));
}

#[test]
fn safe_lambda_stays_in_place() {
    let (term, combs) = float(lam("x", var("x")));
    assert_eq!(term, lam("x", var("x")));
    assert!(combs.is_empty());
}

#[test]
fn lambda_with_open_application_stays_in_place() {
    let t = lam("x", lam("y", app(var("x"), var("y"))));
    let (term, combs) = float_inside(t.clone());
    assert_eq!(term, t);
    assert!(combs.is_empty());
    let mut b = book(vec![def("f", t.clone())]);
    b.float_combinators();
    assert_eq!(b, book(vec![def("f", t)]));
}

#[test]
fn unsafe_closed_lambda_is_extracted_where_it_is_a_child() {
    let t = lam("x", lam("y", app(var("x"), var("y"))));
    let (term, combs) = float(t.clone());
    assert_eq!(term, rf("f$C0"));
    assert_eq!(combs, vec![def("f$C0", t)]);
}

#[test]
fn closed_application_is_extracted() {
    let t = app(lam("x", var("x")), lam("y", var("y")));
    let (term, combs) = float(t.clone());
    assert_eq!(term, rf("f$C0"));
    assert_eq!(combs, vec![def("f$C0", t)]);
}

#[test]
fn children_are_floated_before_their_parent() {
    // ((1 2) (3 4)): the argument first, then the function, then the whole.
    let t = app(app(num(1), num(2)), app(num(3), num(4)));
    let (term, combs) = float(t);
    assert_eq!(term, rf("f$C1"));
    assert_eq!(
        combs,
        vec![def("f$C0", app(num(3), num(4))), def("f$C1", app(app(num(1), num(2)), rf("f$C0")))]
    );
}

#[test]
fn application_spine_is_walked_flat() {
    // (g (1 2) x (3 4)): outermost argument first; the inner applications of
    // the spine are not float children themselves.
    let t = app(app(app(rf("g"), app(num(1), num(2))), var("x")), app(num(3), num(4)));
    let (term, combs) = float_inside(lam("x", t));
    assert_eq!(
        term,
        lam("x", app(app(app(rf("g"), rf("f$C1")), var("x")), rf("f$C0")))
    );
    assert_eq!(combs, vec![def("f$C0", app(num(3), num(4))), def("f$C1", app(num(1), num(2)))]);
}

#[test]
fn every_kind_of_child_is_floated() {
    let c = || app(num(1), num(2));
    let t = lam(
        "v",
        Term::Tup {
            els: vec![
                Term::Let { nam: Some(n("a")), val: bx(c()), nxt: bx(var("v")) },
                Term::Opx { opr: Op::Add, fst: bx(var("v")), snd: bx(c()) },
                Term::Mat {
                    arg: bx(var("v")),
                    bnd: n("v"),
                    with: vec![],
                    arms: vec![(Some(n("A")), vec![], c()), (Some(n("B")), vec![Some(n("v.x"))], var("v.x"))],
                },
                Term::Swt {
                    arg: bx(var("v")),
                    bnd: n("v"),
                    with: vec![],
                    pred: Some(n("v-1")),
                    arms: vec![c(), var("v-1")],
                },
                Term::Lst { els: vec![c(), var("v")] },
                Term::Sup { tag: Tag::Auto, els: vec![var("v"), c()] },
            ],
        },
    );
    let (term, combs) = float_inside(t);
    assert_eq!(combs.len(), 6);
    for (i, d) in combs.iter().enumerate() {
        assert_eq!(d.name, n(&format!("f$C{}", i)));
        assert_eq!(d.rules[0].body, c());
    }
    assert_eq!(
        term.display(),
        "λv (let a = f$C0; v, (+ v f$C1), match v = v { A: f$C2; B: v.x }, switch v = v { 0: f$C3; _: v-1 }, [f$C4, v], {v f$C5})"
    );
}

#[test]
fn book_floating_skips_bodies_and_entrypoint() {
    let closed = || app(lam("x", var("x")), lam("y", var("y")));
    let mut b = book(vec![
        def("main", Term::Tup { els: vec![closed()] }),
        def("whole", closed()),
        def("inner", Term::Tup { els: vec![closed(), num(1)] }),
        def("two", lam("a", app(app(var("a"), closed()), closed()))),
    ]);
    b.entrypoint = Some(n("main"));
    b.float_combinators();
    let names: Vec<_> = b.defs.defs.iter().map(|d| d.name.clone()).collect();
    assert_eq!(
        names,
        vec![n("main"), n("whole"), n("inner"), n("two"), n("inner$C0"), n("two$C0"), n("two$C1")]
    );
    // The definition where the program starts is left alone.
    assert_eq!(b.defs.defs[0].rules[0].body, Term::Tup { els: vec![closed()] });
    // The body of a rule is itself never moved out.
    assert_eq!(b.defs.defs[1].rules[0].body, closed());
    assert_eq!(b.defs.defs[2].rules[0].body, Term::Tup { els: vec![rf("inner$C0"), num(1)] });
    assert_eq!(
        b.defs.defs[3].rules[0].body,
        lam("a", app(app(var("a"), rf("two$C1")), rf("two$C0")))
    );
    assert_eq!(b.defs.defs[4], def("inner$C0", closed()));
    assert_eq!(b.entrypoint, Some(n("main")));
}

#[test]
fn builtin_is_inherited_and_safety_uses_the_book() {
    let mut b = book(vec![
        Definition {
            name: n("prim"),
            rules: vec![Rule { pats: vec![], body: Term::Tup { els: vec![app(num(1), num(2))] } }],
            builtin: true,
        },
        def("one", num(1)),
        def("call", app(num(1), num(2))),
        // A tuple of references to safe bodies is safe and stays, however
        // often it stands there; one with a reference to an unsafe body
        // goes.
        def(
            "user",
            Term::Lst {
                els: vec![
                    Term::Tup { els: vec![rf("one")] },
                    Term::Tup { els: vec![rf("one")] },
                    Term::Tup { els: vec![rf("one"), rf("call")] },
                ],
            },
        ),
    ]);
    b.float_combinators();
    let prim_comb = b.defs.get(&n("prim$C0")).unwrap();
    assert!(prim_comb.builtin);
    let user = b.defs.get(&n("user")).unwrap();
    assert_eq!(
        user.rules[0].body,
        Term::Lst {
            els: vec![
                Term::Tup { els: vec![rf("one")] },
                Term::Tup { els: vec![rf("one")] },
                rf("user$C0"),
            ],
        }
    );
    let comb = b.defs.get(&n("user$C0")).unwrap();
    assert!(!comb.builtin);
    assert_eq!(comb.rules[0].body, Term::Tup { els: vec![rf("one"), rf("call")] });
    assert!(b.defs.get(&n("user$C1")).is_none());
}

#[test]
fn safe_term_is_never_moved_out() {
    // d := ((A, 1) (A, 1)) with A := 1: both tuples are safe, so both stay.
    let pair = || Term::Tup { els: vec![rf("A"), num(1)] };
    let d = || app(pair(), pair());
    let mut b = book(vec![def("A", num(1)), def("d", d())]);
    b.float_combinators();
    assert_eq!(b, book(vec![def("A", num(1)), def("d", d())]));
    // The same as float children of a bigger term: only the application goes.
    let mut b = book(vec![def("A", num(1)), def("e", Term::Lst { els: vec![d(), pair()] })]);
    b.float_combinators();
    assert_eq!(
        b,
        book(vec![
            def("A", num(1)),
            def("e", Term::Lst { els: vec![rf("e$C0"), pair()] }),
            def("e$C0", d()),
        ])
    );
    let mut seen = IndexSet::new();
    assert!(pair().is_safe(&b, &mut seen));
}

#[test]
fn float_combinator_counts_from_any_number() {
    let mut term = num(9);
    let mut combinators = vec![];
    let mut name_gen = 3;
    float_combinator(&n("f"), &mut name_gen, &mut term, false, &mut combinators);
    assert_eq!(term, rf("f$C3"));
    assert_eq!(name_gen, 4);
    assert_eq!(combinators, vec![def("f$C3", num(9))]);
}

#[test]
fn floating_is_deterministic() {
    let make = || {
        book(vec![def(
            "f",
            lam("a", Term::Tup { els: vec![app(num(1), num(2)), app(var("a"), app(num(3), num(4)))] }),
        )])
    };
    let mut one = make();
    let mut two = make();
    one.float_combinators();
    two.float_combinators();
    assert_eq!(one, two);
    assert_eq!(one.display(), two.display());
    assert_eq!(one.display(), "(f) = λa (f$C0, (a f$C1))\n\n(f$C0) = (1 2)\n\n(f$C1) = (3 4)");
}

#[test]
fn new_definitions_go_in_by_name() {
    let c = |v: u64| app(num(v), num(v));
    let many = Term::Tup { els: (0..12).map(|v| c(v)).collect() };
    let mut b = book(vec![def("z", many), def("a", Term::Tup { els: vec![c(100)] })]);
    b.float_combinators();
    let names: Vec<String> = b.defs.defs.iter().map(|d| d.name.0.clone()).collect();
    assert_eq!(
        names,
        vec![
            "z", "a", "a$C0", "z$C0", "z$C1", "z$C10", "z$C11", "z$C2", "z$C3", "z$C4", "z$C5",
            "z$C6", "z$C7", "z$C8", "z$C9"
        ]
    );
    assert_eq!(b.defs.get(&n("z$C10")).unwrap().rules[0].body, c(10));
    assert_eq!(b.defs.get(&n("a$C0")).unwrap().rules[0].body, c(100));
}

#[test]
fn names_are_ordered_by_their_characters() {
    assert!(n("a").le(&n("a")));
    assert!(n("a").le(&n("b")));
    assert!(!n("b").le(&n("a")));
    assert!(n("a").le(&n("ab")));
    assert!(!n("ab").le(&n("a")));
    assert!(n("").le(&n("a")));
    assert!(n("f$C10").le(&n("f$C2")));
    assert!(n("Z").le(&n("a")));
    assert!(n("z").le(&n("λ")));
    assert!(!n("λ").le(&n("z")));
    for (x, y) in [("abc", "abd"), ("", ""), ("x$C1", "x$C10"), ("é", "z"), ("a", "λ")] {
        assert_eq!(n(x).le(&n(y)), x <= y);
        assert_eq!(n(y).le(&n(x)), y <= x);
    }
}

/// Puts each combinator back in place of the reference to it.
fn put_back(term: &mut Term, combinators: &[Definition]) {
    if let Term::Ref { nam } = term {
        if let Some(comb) = combinators.iter().find(|d| d.name == *nam) {
            *term = comb.rules[0].body.clone();
            put_back(term, combinators);
            return;
        }
    }
    for i in 0..term.children().len() {
        put_back(term.children_mut(i), combinators);
    }
}

#[test]
fn floated_rule_with_combinators_put_back_is_the_rule() {
    let c = |v: u64| app(num(v), num(v));
    let bodies = vec![
        lam("a", app(app(var("a"), app(c(1), c(2))), lam("b", app(var("b"), c(3))))),
        Term::Tup { els: vec![c(4), Term::Lst { els: vec![c(5), lam("x", lam("y", app(var("x"), var("y"))))] }] },
        Term::Let { nam: Some(n("v")), val: bx(c(6)), nxt: bx(Term::Sup { tag: Tag::Auto, els: vec![var("v"), c(7)] }) },
        app(rf("other"), app(rf("other"), num(1))),
    ];
    for (k, body) in bodies.into_iter().enumerate() {
        let mut b = book(vec![def("other", num(0)), def("f", body.clone())]);
        b.float_combinators();
        let combinators: Vec<Definition> =
            b.defs.defs.iter().filter(|d| d.name.0.starts_with("f$C")).cloned().collect();
        assert!(!combinators.is_empty(), "body {} floats nothing", k);
        let mut floated = b.defs.get(&n("f")).unwrap().rules[0].body.clone();
        assert_ne!(floated, body);
        put_back(&mut floated, &combinators);
        assert_eq!(floated, body);
    }
}
