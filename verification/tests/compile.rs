use hvm_lang::diagnostics::{DiagnosticKind, Severity};
use hvm_lang::term::book::{Adt, Book, Definition, DefinitionBook, Rule};
use hvm_lang::term::transform::fix_match_terms::Ctx;
use hvm_lang::term::{MatchRule, Name, Tag, Term};

fn n(s: &str) -> Name {
    Name::new(s)
}

fn var(s: &str) -> Term {
    Term::Var { nam: n(s) }
}

fn rf(s: &str) -> Term {
    Term::Ref { nam: n(s) }
}

fn num(v: u64) -> Term {
    Term::Num { val: v }
}

fn bx(t: Term) -> Box<Term> {
    Box::new(t)
}

fn lam(x: &str, bod: Term) -> Term {
    Term::Lam { tag: Tag::Static, nam: Some(n(x)), bod: bx(bod) }
}

fn app(f: Term, a: Term) -> Term {
    Term::App { tag: Tag::Static, fun: bx(f), arg: bx(a) }
}

fn arm(ctr: &str, fields: &[&str], body: Term) -> MatchRule {
    (Some(n(ctr)), fields.iter().map(|f| Some(n(f))).collect(), body)
}

fn book(bodies: Vec<(&str, Term)>) -> Book {
    let list = Adt { ctrs: vec![(n("Cons"), vec![n("h"), n("t")]), (n("Nil"), vec![])], builtin: false };
    let defs = bodies
        .into_iter()
        .map(|(name, body)| Definition {
            name: n(name),
            rules: vec![Rule { pats: vec![], body }],
            builtin: false,
        })
        .collect();
    Book {
        defs: DefinitionBook { defs },
        adts: vec![(n("List"), list)],
        ctrs: vec![(n("Cons"), n("List")), (n("Nil"), n("List"))],
        entrypoint: Some(n("main")),
    }
}

fn list_match(arms: Vec<MatchRule>) -> Term {
    lam("x", Term::Mat { arg: bx(var("x")), bnd: n("x"), with: vec![], arms })
}

#[test]
fn passes_run_in_order_on_a_good_book() {
    let sum = list_match(vec![
        arm("Nil", &[], app(num(1), num(2))),
        arm("Cons", &["x.h", "x.t"], app(var("x.h"), var("x.t"))),
    ]);
    let mut ctx = Ctx::new(book(vec![("main", rf("sum")), ("sum", sum)]));
    assert_eq!(ctx.desugar(), Ok(()));
    assert!(ctx.info.entries.is_empty());
    assert_eq!(
        ctx.book.display(),
        "(main) = sum\n\n(sum) = λx match x = x { Cons: (x.h x.t); Nil: sum$C0 }\n\n(sum$C0) = (1 2)"
    );
}

#[test]
fn warnings_do_not_stop_the_passes() {
    let m = list_match(vec![arm("Nil", &[], num(0)), (Some(n("rest")), vec![], app(num(1), num(2)))]);
    let mut ctx = Ctx::new(book(vec![("f", m), ("g", list_match(vec![(None, vec![], num(3))]))]));
    assert_eq!(ctx.desugar(), Ok(()));
    let kinds: Vec<_> = ctx.info.entries.iter().map(|d| d.kind).collect();
    assert_eq!(kinds, vec![DiagnosticKind::IrrefutableMatch]);
    assert!(ctx.info.entries.iter().all(|d| d.severity() == Severity::Warning));
    assert_eq!(
        ctx.book.display(),
        "(f) = λx match x = x { Cons: f$C0; Nil: 0 }\n\n(g) = λx 3\n\n(f$C0) = (1 2)"
    );
}

#[test]
fn scope_failure_stops_before_the_elaboration() {
    let bad = list_match(vec![arm("Nil", &[], var("free"))]);
    let before = book(vec![("f", bad.clone()), ("g", app(var("y"), Term::Lnk { nam: n("c") }))]);
    let mut ctx = Ctx::new(book(vec![("f", bad), ("g", app(var("y"), Term::Lnk { nam: n("c") }))]));
    let failure = ctx.desugar().unwrap_err();
    let found: Vec<_> =
        failure.entries.iter().map(|d| (d.kind, d.rule_name.clone(), d.message.clone())).collect();
    assert_eq!(
        found,
        vec![
            (DiagnosticKind::UnboundVariable, Some(n("f")), "Unbound variable 'free'".to_string()),
            (DiagnosticKind::UnboundVariable, Some(n("g")), "Unbound variable 'y'".to_string()),
            (
                DiagnosticKind::UnboundUnscopedVariable,
                Some(n("g")),
                "Unbound unscoped variable '$c'".to_string()
            ),
        ]
    );
    // No later pass has touched the book.
    assert_eq!(ctx.book, before);
    assert!(ctx.info.entries.is_empty());
}

#[test]
fn match_failure_stops_before_the_floating() {
    let m = list_match(vec![arm("Nil", &[], app(num(1), num(2)))]);
    let mut ctx = Ctx::new(book(vec![("f", m)]));
    let failure = ctx.desugar().unwrap_err();
    let kinds: Vec<_> = failure.entries.iter().map(|d| d.kind).collect();
    assert_eq!(kinds, vec![DiagnosticKind::NonExhaustiveMatch]);
    // The match was elaborated, but nothing was floated.
    assert_eq!(ctx.book.display(), "(f) = λx match x = x { Cons: <Invalid>; Nil: (1 2) }");
}

#[test]
fn scope_pass_alone_records_and_fails() {
    let mut ctx = Ctx::new(book(vec![("f", lam("x", var("x")))]));
    assert_eq!(ctx.check_unbound_vars(), Ok(()));
    assert!(ctx.info.entries.is_empty());
    let mut ctx = Ctx::new(book(vec![("f", var("x"))]));
    let failure = ctx.check_unbound_vars().unwrap_err();
    assert_eq!(failure.entries.len(), 1);
    assert_eq!(failure.entries[0].severity(), Severity::Error);
}

#[test]
fn the_passes_are_deterministic() {
    let make = || {
        let m = list_match(vec![
            arm("Nil", &[], app(num(1), num(2))),
            (Some(n("rest")), vec![], Term::Tup { els: vec![var("rest"), app(num(3), num(4))] }),
        ]);
        Ctx::new(book(vec![("main", rf("f")), ("f", m)]))
    };
    let mut one = make();
    let mut two = make();
    assert_eq!(one.desugar(), two.desugar());
    assert_eq!(one.book, two.book);
    assert_eq!(one.info, two.info);
    assert_eq!(one.book.display_pretty(), two.book.display_pretty());
}
