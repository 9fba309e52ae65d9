use hvm_lang::diagnostics::{DiagnosticKind, Severity};
use hvm_lang::term::book::{Adt, Adts, Book, Constructors, Definition, DefinitionBook, Rule};
use hvm_lang::term::transform::fix_match_terms::{
    fixed_match_arms, match_field, rebuild_ctr, Ctx, FixMatchErr,
};
use hvm_lang::term::{MatchRule, Name, Tag, Term};

fn n(s: &str) -> Name {
    Name::new(s)
}

fn var(s: &str) -> Term {
    Term::Var { nam: n(s) }
}

fn rf(s: &str) -> Term {
    Term::Ref { nam: n(s) }
}

fn bx(t: Term) -> Box<Term> {
    Box::new(t)
}

fn app(f: Term, a: Term) -> Term {
    Term::App { tag: Tag::Static, fun: bx(f), arg: bx(a) }
}

/// `data List = (Cons h t) | Nil` and `data Bool = True | False`.
fn tables() -> (Constructors, Adts) {
    let list = Adt { ctrs: vec![(n("Cons"), vec![n("h"), n("t")]), (n("Nil"), vec![])], builtin: false };
    let boolean = Adt { ctrs: vec![(n("True"), vec![]), (n("False"), vec![])], builtin: false };
    let ctrs = vec![
        (n("Cons"), n("List")),
        (n("Nil"), n("List")),
        (n("True"), n("Bool")),
        (n("False"), n("Bool")),
    ];
    (ctrs, vec![(n("List"), list), (n("Bool"), boolean)])
}

fn arm(ctr: &str, body: Term) -> MatchRule {
    (Some(n(ctr)), vec![], body)
}

fn mat(arg: Term, bnd: &str, arms: Vec<MatchRule>) -> Term {
    Term::Mat { arg: bx(arg), bnd: n(bnd), with: vec![], arms }
}

fn cons_fields() -> Vec<Option<Name>> {
    vec![Some(n("x.h")), Some(n("x.t"))]
}

#[test]
fn match_field_joins_with_a_dot() {
    assert_eq!(match_field(&n("x"), &n("h")), n("x.h"));
    assert_eq!(match_field(&n("%matched"), &n("tail")), n("%matched.tail"));
}

#[test]
fn rebuild_ctr_applies_constructor_to_field_vars() {
    assert_eq!(rebuild_ctr(&n("x"), &n("Nil"), &vec![]), rf("Nil"));
    assert_eq!(
        rebuild_ctr(&n("x"), &n("Cons"), &vec![n("h"), n("t")]),
        app(app(rf("Cons"), var("x.h")), var("x.t"))
    );
}

/// `match x { Cons: (A x.h x.t); Nil: B }`.
#[test]
fn complete_match_is_put_in_declaration_order() {
    let (ctrs, adts) = tables();
    let body = app(app(rf("A"), var("x.h")), var("x.t"));
    let mut t = mat(var("x"), "x", vec![arm("Cons", body.clone()), arm("Nil", rf("B"))]);
    let errs = t.fix_match_terms(&ctrs, &adts);
    assert_eq!(errs, vec![]);
    assert_eq!(
        t,
        Term::Mat {
            arg: bx(var("x")),
            bnd: n("x"),
            with: vec![],
            arms: vec![(Some(n("Cons")), cons_fields(), body), (Some(n("Nil")), vec![], rf("B"))],
        }
    );
}

#[test]
fn arms_out_of_order_are_reordered() {
    let (ctrs, adts) = tables();
    let mut t = mat(var("x"), "x", vec![arm("Nil", rf("B")), arm("Cons", var("x.h"))]);
    let errs = t.fix_match_terms(&ctrs, &adts);
    assert_eq!(errs, vec![]);
    match &t {
        Term::Mat { arms, .. } => {
            assert_eq!(arms.len(), 2);
            assert_eq!(arms[0], (Some(n("Cons")), cons_fields(), var("x.h")));
            assert_eq!(arms[1], (Some(n("Nil")), vec![], rf("B")));
        }
        other => panic!("not a match: {:?}", other),
    }
}

/// `match x { Nil: B }`.
#[test]
fn missing_constructor_is_non_exhaustive() {
    let (ctrs, adts) = tables();
    let mut t = mat(var("x"), "x", vec![arm("Nil", rf("B"))]);
    let errs = t.fix_match_terms(&ctrs, &adts);
    assert_eq!(errs, vec![FixMatchErr::NonExhaustiveMatch { typ: n("List"), missing: n("Cons") }]);
    assert_eq!(
        t,
        Term::Mat {
            arg: bx(var("x")),
            bnd: n("x"),
            with: vec![],
            arms: vec![(Some(n("Cons")), cons_fields(), Term::Error), (Some(n("Nil")), vec![], rf("B"))],
        }
    );
}

/// `match x { Cons: a; Cons: b; Nil: c }`.
#[test]
fn repeated_constructor_is_redundant() {
    let (ctrs, adts) = tables();
    let mut t = mat(
        var("x"),
        "x",
        vec![arm("Cons", rf("a")), arm("Cons", rf("b")), arm("Nil", rf("c"))],
    );
    let errs = t.fix_match_terms(&ctrs, &adts);
    assert_eq!(errs, vec![FixMatchErr::RedundantArm { ctr: n("Cons") }]);
    match &t {
        Term::Mat { arms, .. } => {
            assert_eq!(arms[0], (Some(n("Cons")), cons_fields(), rf("a")));
            assert_eq!(arms[1], (Some(n("Nil")), vec![], rf("c")));
        }
        other => panic!("not a match: {:?}", other),
    }
}

/// `match x { y: (f y); Cons: z }`: the first arm is a variable, so the
/// match gives way to that arm's body, with `x` for `y`.
#[test]
fn variable_first_arm_is_irrefutable() {
    let (ctrs, adts) = tables();
    let mut t = mat(var("x"), "x", vec![arm("y", app(rf("f"), var("y"))), arm("Cons", rf("z"))]);
    let errs = t.fix_match_terms(&ctrs, &adts);
    assert_eq!(errs, vec![FixMatchErr::IrrefutableMatch { var: Some(n("y")) }]);
    assert_eq!(t, app(rf("f"), var("x")));
}

#[test]
fn wildcard_first_arm_is_irrefutable() {
    let (ctrs, adts) = tables();
    let mut t = mat(var("x"), "x", vec![(None, vec![], rf("k"))]);
    let errs = t.fix_match_terms(&ctrs, &adts);
    assert_eq!(errs, vec![FixMatchErr::IrrefutableMatch { var: None }]);
    assert_eq!(t, rf("k"));
}

/// `match x { Nil: a; y: (g y); Cons: c }`.
#[test]
fn variable_arm_covers_the_rest_and_hides_what_follows() {
    let (ctrs, adts) = tables();
    let mut t = mat(
        var("x"),
        "x",
        vec![arm("Nil", rf("a")), arm("y", app(rf("g"), var("y"))), arm("Cons", rf("c"))],
    );
    let errs = t.fix_match_terms(&ctrs, &adts);
    assert_eq!(errs, vec![FixMatchErr::UnreachableMatchArms { var: Some(n("y")) }]);
    match &t {
        Term::Mat { arms, .. } => {
            assert_eq!(
                arms[0],
                (
                    Some(n("Cons")),
                    cons_fields(),
                    app(rf("g"), app(app(rf("Cons"), var("x.h")), var("x.t")))
                )
            );
            assert_eq!(arms[1], (Some(n("Nil")), vec![], rf("a")));
        }
        other => panic!("not a match: {:?}", other),
    }
}

#[test]
fn last_variable_arm_gives_no_warning() {
    let (ctrs, adts) = tables();
    let mut t = mat(var("x"), "x", vec![arm("Cons", rf("a")), (None, vec![], rf("d"))]);
    let errs = t.fix_match_terms(&ctrs, &adts);
    assert_eq!(errs, vec![]);
    match &t {
        Term::Mat { arms, .. } => {
            assert_eq!(arms[0], (Some(n("Cons")), cons_fields(), rf("a")));
            assert_eq!(arms[1], (Some(n("Nil")), vec![], rf("d")));
        }
        other => panic!("not a match: {:?}", other),
    }
}

#[test]
fn constructor_of_another_type_is_a_mismatch() {
    let (ctrs, adts) = tables();
    let mut t = mat(
        var("x"),
        "x",
        vec![arm("Cons", rf("a")), arm("True", rf("b")), arm("Nil", rf("c"))],
    );
    let errs = t.fix_match_terms(&ctrs, &adts);
    assert_eq!(
        errs,
        vec![FixMatchErr::AdtMismatch { expected: n("List"), found: n("Bool"), ctr: n("True") }]
    );
    match &t {
        Term::Mat { arms, .. } => {
            assert_eq!(arms.len(), 2);
            assert_eq!(arms[0].2, rf("a"));
            assert_eq!(arms[1].2, rf("c"));
        }
        other => panic!("not a match: {:?}", other),
    }
}

#[test]
fn errors_come_in_order_arms_first_missing_last() {
    let (ctrs, adts) = tables();
    let mut t = mat(
        var("x"),
        "x",
        vec![arm("Nil", rf("a")), arm("False", rf("b")), arm("Nil", rf("c"))],
    );
    let errs = t.fix_match_terms(&ctrs, &adts);
    assert_eq!(
        errs,
        vec![
            FixMatchErr::AdtMismatch { expected: n("List"), found: n("Bool"), ctr: n("False") },
            FixMatchErr::RedundantArm { ctr: n("Nil") },
            FixMatchErr::NonExhaustiveMatch { typ: n("List"), missing: n("Cons") },
        ]
    );
}

#[test]
fn argument_that_is_no_variable_is_hoisted() {
    let (ctrs, adts) = tables();
    let scrutinee = app(rf("Foo"), var("y"));
    let mut t = mat(scrutinee.clone(), "%matched", vec![arm("True", rf("a")), arm("False", rf("b"))]);
    let errs = t.fix_match_terms(&ctrs, &adts);
    assert_eq!(errs, vec![]);
    assert_eq!(
        t,
        Term::Let {
            nam: Some(n("%matched")),
            val: bx(scrutinee),
            nxt: bx(Term::Mat {
                arg: bx(var("%matched")),
                bnd: n("%matched"),
                with: vec![],
                arms: vec![(Some(n("True")), vec![], rf("a")), (Some(n("False")), vec![], rf("b"))],
            }),
        }
    );
}

#[test]
fn switch_gets_its_pred_name_and_is_hoisted() {
    let (ctrs, adts) = tables();
    let mut t = Term::Swt {
        arg: bx(var("n")),
        bnd: n("n"),
        with: vec![],
        pred: None,
        arms: vec![rf("B"), rf("C"), rf("D")],
    };
    assert_eq!(t.fix_match_terms(&ctrs, &adts), vec![]);
    assert_eq!(
        t,
        Term::Swt {
            arg: bx(var("n")),
            bnd: n("n"),
            with: vec![],
            pred: Some(n("n-2")),
            arms: vec![rf("B"), rf("C"), rf("D")],
        }
    );
    let scrutinee = app(rf("Foo"), var("y"));
    let mut t = Term::Swt {
        arg: bx(scrutinee.clone()),
        bnd: n("%matched"),
        with: vec![],
        pred: None,
        arms: vec![rf("B"), rf("D")],
    };
    assert_eq!(t.fix_match_terms(&ctrs, &adts), vec![]);
    assert_eq!(
        t,
        Term::Let {
            nam: Some(n("%matched")),
            val: bx(scrutinee),
            nxt: bx(Term::Swt {
                arg: bx(var("%matched")),
                bnd: n("%matched"),
                with: vec![],
                pred: Some(n("%matched-1")),
                arms: vec![rf("B"), rf("D")],
            }),
        }
    );
}

/// A match inside the arm of a match: the inner one is elaborated first.
#[test]
fn nested_matches_are_elaborated_inside_out() {
    let (ctrs, adts) = tables();
    let inner = mat(var("b"), "b", vec![arm("True", rf("t"))]);
    let mut t = mat(var("x"), "x", vec![arm("Nil", inner), arm("Cons", rf("c"))]);
    let errs = t.fix_match_terms(&ctrs, &adts);
    assert_eq!(
        errs,
        vec![FixMatchErr::NonExhaustiveMatch { typ: n("Bool"), missing: n("False") }]
    );
    assert_eq!(
        t.display(),
        "match x = x { Cons: c; Nil: match b = b { True: t; False: <Invalid> } }"
    );
}

#[test]
fn matches_under_other_terms_are_reached() {
    let (ctrs, adts) = tables();
    let m = || mat(var("x"), "x", vec![(None, vec![], rf("k"))]);
    let mut t = Term::Lam {
        tag: Tag::Static,
        nam: Some(n("x")),
        bod: bx(Term::Tup { els: vec![m(), app(m(), Term::Lst { els: vec![m()] })] }),
    };
    let errs = t.fix_match_terms(&ctrs, &adts);
    assert_eq!(errs.len(), 3);
    assert_eq!(t.display(), "λx (k, (k [k]))");
}

#[test]
fn match_without_arms_and_other_terms_stay() {
    let (ctrs, adts) = tables();
    let mut t = mat(var("x"), "x", vec![]);
    assert_eq!(t.fix_match_terms(&ctrs, &adts), vec![]);
    assert_eq!(t, mat(var("x"), "x", vec![]));
    let mut t = app(rf("f"), var("x"));
    let mut errs = vec![];
    t.fix_match(&mut errs, &ctrs, &adts);
    assert_eq!(errs, vec![]);
    assert_eq!(t, app(rf("f"), var("x")));
}

#[test]
fn fixed_match_arms_gives_bodies_per_constructor() {
    let (ctrs, adts) = tables();
    let mut rules = vec![arm("Nil", rf("a")), arm("v", var("v")), arm("Cons", rf("never"))];
    let mut errs = vec![];
    let bodies = fixed_match_arms(&n("x"), &mut rules, &n("List"), &adts[0].1, &ctrs, &mut errs);
    assert_eq!(
        bodies,
        vec![Some(app(app(rf("Cons"), var("x.h")), var("x.t"))), Some(rf("a"))]
    );
    assert_eq!(errs, vec![FixMatchErr::UnreachableMatchArms { var: Some(n("v")) }]);
    assert_eq!(rules.len(), 2);
    let mut rules = vec![arm("Nil", rf("a"))];
    let mut errs = vec![];
    let bodies = fixed_match_arms(&n("x"), &mut rules, &n("List"), &adts[0].1, &ctrs, &mut errs);
    assert_eq!(bodies, vec![None, Some(rf("a"))]);
    assert_eq!(errs, vec![]);
}

#[test]
fn messages_of_findings() {
    assert_eq!(
        FixMatchErr::AdtMismatch { expected: n("List"), found: n("Bool"), ctr: n("True") }
            .to_string_verbose(false),
        "Type mismatch in 'match' expression: Expected a constructor of type 'List', found 'True' of type 'Bool'"
    );
    assert_eq!(
        FixMatchErr::NonExhaustiveMatch { typ: n("List"), missing: n("Cons") }.to_string_verbose(true),
        "Non-exhaustive 'match' expression of type 'List'. Case 'Cons' not covered."
    );
    assert_eq!(
        FixMatchErr::IrrefutableMatch { var: Some(n("y")) }.to_string_verbose(false),
        "Irrefutable 'match' expression. All cases after 'y' will be ignored. If this is not a mistake, consider using a 'let' expression instead."
    );
    assert_eq!(
        FixMatchErr::UnreachableMatchArms { var: None }.to_string_verbose(false),
        "Unreachable arms in 'match' expression. All cases after '*' will be ignored."
    );
    assert_eq!(
        FixMatchErr::RedundantArm { ctr: n("Cons") }.to_string_verbose(false),
        "Redundant arm in 'match' expression. Case 'Cons' appears more than once."
    );
}

fn book_with(bodies: Vec<(&str, Term)>) -> Book {
    let (ctrs, adts) = tables();
    let defs = bodies
        .into_iter()
        .map(|(name, body)| Definition {
            name: n(name),
            rules: vec![Rule { pats: vec![], body }],
            builtin: false,
        })
        .collect();
    Book { defs: DefinitionBook { defs }, adts, ctrs, entrypoint: None }
}

#[test]
fn pass_with_warnings_only_goes_on() {
    let book = book_with(vec![
        ("a", mat(var("x"), "x", vec![arm("Cons", rf("p")), arm("Cons", rf("q")), arm("Nil", rf("r"))])),
        ("b", mat(var("x"), "x", vec![(None, vec![], rf("k"))])),
    ]);
    let mut ctx = Ctx::new(book);
    assert_eq!(ctx.fix_match_terms(), Ok(()));
    let kinds: Vec<_> = ctx.info.entries.iter().map(|d| (d.kind, d.rule_name.clone())).collect();
    assert_eq!(
        kinds,
        vec![
            (DiagnosticKind::RedundantMatch, Some(n("a"))),
            (DiagnosticKind::IrrefutableMatch, Some(n("b"))),
        ]
    );
    assert!(ctx.info.entries.iter().all(|d| d.severity() == Severity::Warning));
    assert_eq!(
        ctx.info.entries[0].message,
        "Redundant arm in 'match' expression. Case 'Cons' appears more than once."
    );
    assert_eq!(ctx.book.defs.defs[1].rules[0].body, rf("k"));
}

#[test]
fn pass_with_an_error_fails_with_all_diagnostics() {
    let book = book_with(vec![
        ("a", mat(var("x"), "x", vec![(None, vec![], rf("k"))])),
        ("b", mat(var("x"), "x", vec![arm("Nil", rf("r"))])),
        ("c", mat(var("x"), "x", vec![arm("True", rf("r")), arm("Nil", rf("s")), arm("False", rf("t"))])),
    ]);
    let mut ctx = Ctx::new(book);
    let failure = ctx.fix_match_terms().unwrap_err();
    let kinds: Vec<_> = failure.entries.iter().map(|d| (d.kind, d.rule_name.clone())).collect();
    assert_eq!(
        kinds,
        vec![
            (DiagnosticKind::IrrefutableMatch, Some(n("a"))),
            (DiagnosticKind::NonExhaustiveMatch, Some(n("b"))),
            (DiagnosticKind::AdtMismatch, Some(n("c"))),
        ]
    );
    assert_eq!(failure.entries[1].severity(), Severity::Error);
    assert_eq!(failure.entries[2].severity(), Severity::Error);
    assert!(ctx.info.entries.is_empty());
    // The book was rewritten all the same, with the placeholder where no arm was found.
    assert_eq!(ctx.book.defs.defs[1].rules[0].body.display(), "match x = x { Cons: <Invalid>; Nil: r }");
}

#[test]
fn elaboration_is_deterministic() {
    let make = || {
        book_with(vec![(
            "a",
            mat(var("x"), "x", vec![arm("Nil", rf("a")), arm("y", var("y")), arm("Cons", rf("c"))]),
        )])
    };
    let mut one = Ctx::new(make());
    let mut two = Ctx::new(make());
    assert_eq!(one.fix_match_terms(), two.fix_match_terms());
    assert_eq!(one.book, two.book);
    assert_eq!(one.info, two.info);
}
