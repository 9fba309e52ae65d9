use hvm_lang::term::book::{Definition, DefinitionBook, Pattern, Rule};
use hvm_lang::term::check::unbound_vars::{check_uses, ScopeError, ScopeReport};
use hvm_lang::term::{Name, Op, Tag, Term};

fn n(s: &str) -> Name {
    Name::new(s)
}

fn var(s: &str) -> Term {
    Term::Var { nam: n(s) }
}

fn bx(t: Term) -> Box<Term> {
    Box::new(t)
}

fn lam(x: &str, bod: Term) -> Term {
    Term::Lam { tag: Tag::Static, nam: Some(n(x)), bod: bx(bod) }
}

fn app(f: Term, a: Term) -> Term {
    Term::App { tag: Tag::Static, fun: bx(f), arg: bx(a) }
}

fn chn(x: &str, bod: Term) -> Term {
    Term::Chn { tag: Tag::Static, nam: n(x), bod: bx(bod) }
}

fn lnk(x: &str) -> Term {
    Term::Lnk { nam: n(x) }
}

#[test]
fn closed_terms_pass() {
    assert_eq!(lam("x", var("x")).check_unbound_vars(), Ok(()));
    assert_eq!(lam("x", lam("y", app(var("x"), var("y")))).check_unbound_vars(), Ok(()));
    assert_eq!(Term::Era.check_unbound_vars(), Ok(()));
    assert_eq!(Term::Ref { nam: n("f") }.check_unbound_vars(), Ok(()));
}

#[test]
fn unbound_variable_is_reported() {
    assert_eq!(
        var("x").check_unbound_vars(),
        Err(vec![ScopeError::UnboundVariable(n("x"))])
    );
    assert_eq!(
        lam("x", var("y")).check_unbound_vars(),
        Err(vec![ScopeError::UnboundVariable(n("y"))])
    );
}

#[test]
fn all_failures_are_collected_in_walk_order() {
    let t = app(app(var("a"), lam("b", var("b"))), app(var("c"), var("a")));
    assert_eq!(
        t.check_unbound_vars(),
        Err(vec![
            ScopeError::UnboundVariable(n("a")),
            ScopeError::UnboundVariable(n("c")),
            ScopeError::UnboundVariable(n("a")),
        ])
    );
}

#[test]
fn eraser_binder_binds_nothing() {
    let t = Term::Lam { tag: Tag::Static, nam: None, bod: bx(var("x")) };
    assert_eq!(t.check_unbound_vars(), Err(vec![ScopeError::UnboundVariable(n("x"))]));
}

#[test]
fn let_binds_only_what_follows() {
    let ok = Term::Let { nam: Some(n("x")), val: bx(Term::Num { val: 1 }), nxt: bx(var("x")) };
    assert_eq!(ok.check_unbound_vars(), Ok(()));
    let bad = Term::Let { nam: Some(n("x")), val: bx(var("x")), nxt: bx(var("x")) };
    assert_eq!(bad.check_unbound_vars(), Err(vec![ScopeError::UnboundVariable(n("x"))]));
    let used = Term::Use { nam: n("x"), val: bx(Term::Num { val: 1 }), nxt: bx(var("x")) };
    assert_eq!(used.check_unbound_vars(), Ok(()));
}

#[test]
fn shadowing_is_undone_on_leaving_the_binder() {
    // ((λx λx x) x): the last x is outside both binders.
    let t = app(lam("x", lam("x", var("x"))), var("x"));
    assert_eq!(t.check_unbound_vars(), Err(vec![ScopeError::UnboundVariable(n("x"))]));
    // λx ((λx x) x): the last x is still inside the outer binder.
    let t = lam("x", app(lam("x", var("x")), var("x")));
    assert_eq!(t.check_unbound_vars(), Ok(()));
}

#[test]
fn tuple_let_and_dup_bind_their_names() {
    let ltp = Term::Ltp {
        bnd: vec![Some(n("a")), None, Some(n("b"))],
        val: bx(Term::Tup { els: vec![Term::Era, Term::Era, Term::Era] }),
        nxt: bx(app(var("a"), var("b"))),
    };
    assert_eq!(ltp.check_unbound_vars(), Ok(()));
    let dup = Term::Dup {
        tag: Tag::Auto,
        bnd: vec![Some(n("a")), Some(n("b"))],
        val: bx(var("a")),
        nxt: bx(Term::Sup { tag: Tag::Auto, els: vec![var("a"), var("b"), var("c")] }),
    };
    assert_eq!(
        dup.check_unbound_vars(),
        Err(vec![ScopeError::UnboundVariable(n("a")), ScopeError::UnboundVariable(n("c"))])
    );
}

#[test]
fn match_fields_bind_in_their_arm_only() {
    let m = Term::Mat {
        arg: bx(var("x")),
        bnd: n("x"),
        with: vec![],
        arms: vec![
            (Some(n("Cons")), vec![Some(n("x.h")), Some(n("x.t"))], app(var("x.h"), var("x.t"))),
            (Some(n("Nil")), vec![], var("x.h")),
        ],
    };
    assert_eq!(
        lam("x", m).check_unbound_vars(),
        Err(vec![ScopeError::UnboundVariable(n("x.h"))])
    );
}

#[test]
fn switch_pred_binds_in_last_arm_only() {
    let s = Term::Swt {
        arg: bx(var("n")),
        bnd: n("n"),
        with: vec![],
        pred: Some(n("n-1")),
        arms: vec![var("n-1"), var("n-1")],
    };
    assert_eq!(
        lam("n", s).check_unbound_vars(),
        Err(vec![ScopeError::UnboundVariable(n("n-1"))])
    );
}

#[test]
fn operator_and_list_children_are_walked() {
    let t = Term::Opx {
        opr: Op::Mul,
        fst: bx(Term::Lst { els: vec![var("p"), Term::Num { val: 1 }] }),
        snd: bx(var("q")),
    };
    assert_eq!(
        t.check_unbound_vars(),
        Err(vec![ScopeError::UnboundVariable(n("p")), ScopeError::UnboundVariable(n("q"))])
    );
}

#[test]
fn unscoped_use_needs_a_declaration() {
    assert_eq!(
        lnk("a").check_unbound_vars(),
        Err(vec![ScopeError::UnboundUnscopedVariable(n("a"))])
    );
    // The declaration may stand anywhere in the term, also after the use.
    let t = app(lnk("a"), chn("a", Term::Era));
    assert_eq!(t.check_unbound_vars(), Ok(()));
    let t = chn("a", lnk("a"));
    assert_eq!(t.check_unbound_vars(), Ok(()));
}

#[test]
fn declared_but_unused_channel_is_permitted() {
    assert_eq!(chn("a", Term::Era).check_unbound_vars(), Ok(()));
}

#[test]
fn each_unbound_channel_is_reported_once_after_the_variables() {
    let t = app(app(lnk("b"), var("v")), app(lnk("a"), app(lnk("b"), chn("c", lnk("c")))));
    assert_eq!(
        t.check_unbound_vars(),
        Err(vec![
            ScopeError::UnboundVariable(n("v")),
            ScopeError::UnboundUnscopedVariable(n("b")),
            ScopeError::UnboundUnscopedVariable(n("a")),
        ])
    );
}

#[test]
fn channels_are_not_lexical() {
    // A variable of the same name as a channel is still unbound.
    let t = chn("a", var("a"));
    assert_eq!(t.check_unbound_vars(), Err(vec![ScopeError::UnboundVariable(n("a"))]));
}

#[test]
fn check_uses_restores_scope_and_fills_report() {
    let mut scope = vec![n("outer")];
    let mut report = ScopeReport::new();
    let t = lam("x", app(app(var("x"), var("outer")), app(var("free"), chn("c", lnk("d")))));
    check_uses(&t, &mut scope, &mut report);
    assert_eq!(scope, vec![n("outer")]);
    assert_eq!(report.unbound, vec![n("free")]);
    assert_eq!(report.declared, vec![n("c")]);
    assert_eq!(report.used, vec![n("d")]);
    assert_eq!(
        report.errors(),
        vec![ScopeError::UnboundVariable(n("free")), ScopeError::UnboundUnscopedVariable(n("d"))]
    );
}

#[test]
fn scope_error_messages() {
    assert_eq!(ScopeError::UnboundVariable(n("x")).message(), "Unbound variable 'x'");
    assert_eq!(
        ScopeError::UnboundUnscopedVariable(n("x")).message(),
        "Unbound unscoped variable '$x'"
    );
}

#[test]
fn rule_patterns_bind_the_body() {
    let rule = Rule {
        pats: vec![
            Pattern::Ctr(n("Cons"), vec![Pattern::Var(Some(n("h"))), Pattern::Var(None)]),
            Pattern::Tup(vec![Pattern::Var(Some(n("a"))), Pattern::Num(1)]),
            Pattern::Lst(vec![Pattern::Var(Some(n("l")))]),
            Pattern::Str("s".to_string()),
        ],
        body: app(app(var("h"), var("a")), app(var("l"), var("t"))),
    };
    assert_eq!(rule.check_unbound_vars(), Err(vec![ScopeError::UnboundVariable(n("t"))]));
}

#[test]
fn book_check_names_the_definition() {
    let good = Definition {
        name: n("good"),
        rules: vec![Rule { pats: vec![Pattern::Var(Some(n("x")))], body: var("x") }],
        builtin: false,
    };
    let bad = Definition {
        name: n("bad"),
        rules: vec![
            Rule { pats: vec![], body: var("y") },
            Rule { pats: vec![], body: app(lnk("c"), var("z")) },
        ],
        builtin: false,
    };
    let only_good = DefinitionBook { defs: vec![good.clone()] };
    assert_eq!(only_good.check_unbound_vars(), Ok(()));
    let book = DefinitionBook { defs: vec![good, bad] };
    assert_eq!(
        book.check_unbound_vars(),
        Err(vec![
            (n("bad"), ScopeError::UnboundVariable(n("y"))),
            (n("bad"), ScopeError::UnboundVariable(n("z"))),
            (n("bad"), ScopeError::UnboundUnscopedVariable(n("c"))),
        ])
    );
    assert_eq!(DefinitionBook::new().check_unbound_vars(), Ok(()));
}
