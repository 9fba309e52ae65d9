use hvm_lang::diagnostics::{DiagnosticKind, Diagnostics, ErrorType, Severity, WarningType};
use hvm_lang::term::book::{find_adt, find_ctr, Adt, Definition, DefinitionBook, Rule};
use hvm_lang::term::text::{decimal_string, indented};
use hvm_lang::term::{Name, Op, Tag, Term};

fn n(s: &str) -> Name {
    Name::new(s)
}

fn var(s: &str) -> Term {
    Term::Var { nam: n(s) }
}

fn bx(t: Term) -> Box<Term> {
    Box::new(t)
}

fn lam(x: &str, bod: Term) -> Term {
    Term::Lam { tag: Tag::Static, nam: Some(n(x)), bod: bx(bod) }
}

fn app(f: Term, a: Term) -> Term {
    Term::App { tag: Tag::Static, fun: bx(f), arg: bx(a) }
}

fn shown(ts: Vec<&Term>) -> Vec<String> {
    ts.into_iter().map(|t| t.display()).collect()
}

#[test]
fn children_in_the_order_the_term_holds_them() {
    assert_eq!(shown(app(var("f"), var("x")).children()), vec!["f", "x"]);
    assert_eq!(shown(lam("x", var("b")).children()), vec!["b"]);
    let l = Term::Let { nam: None, val: bx(var("v")), nxt: bx(var("n")) };
    assert_eq!(shown(l.children()), vec!["v", "n"]);
    let o = Term::Opx { opr: Op::Sub, fst: bx(var("a")), snd: bx(var("b")) };
    assert_eq!(shown(o.children()), vec!["a", "b"]);
    let m = Term::Mat {
        arg: bx(var("s")),
        bnd: n("s"),
        with: vec![],
        arms: vec![(Some(n("A")), vec![], var("p")), (Some(n("B")), vec![], var("q"))],
    };
    assert_eq!(shown(m.children()), vec!["s", "p", "q"]);
    let s = Term::Swt { arg: bx(var("s")), bnd: n("s"), with: vec![], pred: None, arms: vec![var("z"), var("d")] };
    assert_eq!(shown(s.children()), vec!["s", "z", "d"]);
    assert_eq!(shown(Term::Tup { els: vec![var("a"), var("b"), var("c")] }.children()), vec!["a", "b", "c"]);
    assert!(var("x").children().is_empty());
    assert!(Term::Num { val: 1 }.children().is_empty());
}

#[test]
fn float_children_flatten_the_spine() {
    // (h a1 a2 a3): an, ..., a1, and the head last.
    let t = app(app(app(var("h"), var("a1")), var("a2")), var("a3"));
    assert_eq!(shown(t.float_children()), vec!["a3", "a2", "a1", "h"]);
    // Under lambdas, the float children are those of the body.
    let t = lam("x", lam("y", app(var("x"), var("y"))));
    assert_eq!(shown(t.float_children()), vec!["y", "x"]);
    let t = lam("x", var("x"));
    assert!(t.float_children().is_empty());
    let t = Term::Chn { tag: Tag::Static, nam: n("c"), bod: bx(Term::Tup { els: vec![var("a"), var("b")] }) };
    assert_eq!(shown(t.float_children()), vec!["a", "b"]);
    // The spine ignores the tags of the inner applications.
    let inner = Term::App { tag: Tag::Named(n("t")), fun: bx(var("h")), arg: bx(var("a1")) };
    assert_eq!(shown(app(inner, var("a2")).float_children()), vec!["a2", "a1", "h"]);
}

#[test]
fn float_children_mut_rewrites_in_place() {
    let mut t = app(app(app(var("h"), var("a1")), var("a2")), var("a3"));
    let count = t.float_children().len();
    assert_eq!(count, 4);
    for i in 0..count {
        let child = t.float_children_mut(i);
        *child = Term::Num { val: i as u64 };
    }
    assert_eq!(t.display(), "(3 2 1 0)");
    let mut t = lam("x", Term::Mat {
        arg: bx(var("s")),
        bnd: n("s"),
        with: vec![],
        arms: vec![(Some(n("A")), vec![Some(n("s.f"))], var("p")), (Some(n("B")), vec![], var("q"))],
    });
    *t.float_children_mut(2) = var("new");
    *t.float_children_mut(0) = var("arg");
    assert_eq!(t.display(), "λx match s = arg { A: p; B: new }");
}

#[test]
fn children_mut_rewrites_in_place() {
    let mut t = app(var("f"), var("x"));
    *t.children_mut(0) = var("g");
    *t.children_mut(1) = var("y");
    assert_eq!(t, app(var("g"), var("y")));
    let mut t = lam("x", var("b"));
    *t.children_mut(0) = Term::Era;
    assert_eq!(t, lam("x", Term::Era));
    let mut t = Term::Lst { els: vec![var("a"), var("b")] };
    *t.children_mut(1) = Term::Era;
    assert_eq!(t.display(), "[a, *]");
}

#[test]
fn substitution_stops_at_rebinding() {
    let to = Term::Num { val: 7 };
    let mut t = app(var("x"), lam("x", var("x")));
    t.subst(&n("x"), &to);
    assert_eq!(t.display(), "(7 λx x)");
    let mut t = Term::Let { nam: Some(n("x")), val: bx(var("x")), nxt: bx(var("x")) };
    t.subst(&n("x"), &to);
    assert_eq!(t.display(), "let x = 7; x");
    let mut t = Term::Dup {
        tag: Tag::Auto,
        bnd: vec![Some(n("a")), Some(n("x"))],
        val: bx(var("x")),
        nxt: bx(app(var("a"), var("x"))),
    };
    t.subst(&n("x"), &to);
    assert_eq!(t.display(), "let {a x} = 7; (a x)");
    let mut t = Term::Mat {
        arg: bx(var("x")),
        bnd: n("m"),
        with: vec![],
        arms: vec![(Some(n("A")), vec![Some(n("x"))], var("x")), (Some(n("B")), vec![], var("x"))],
    };
    t.subst(&n("x"), &to);
    assert_eq!(t.display(), "match m = 7 { A: x; B: 7 }");
    let mut t = Term::Swt {
        arg: bx(var("x")),
        bnd: n("s"),
        with: vec![],
        pred: Some(n("x")),
        arms: vec![var("x"), var("x")],
    };
    t.subst(&n("x"), &to);
    assert_eq!(t.display(), "switch s = 7 { 0: 7; _: x }");
}

#[test]
fn substitution_never_touches_channels_or_references() {
    let to = Term::Num { val: 7 };
    let mut t = Term::Chn {
        tag: Tag::Static,
        nam: n("x"),
        bod: bx(Term::Tup { els: vec![Term::Lnk { nam: n("x") }, Term::Ref { nam: n("x") }, var("x")] }),
    };
    t.subst(&n("x"), &to);
    assert_eq!(t.display(), "λ$x ($x, x, 7)");
    match &t {
        Term::Chn { bod, .. } => match &**bod {
            Term::Tup { els } => assert_eq!(els[1], Term::Ref { nam: n("x") }),
            other => panic!("not a tuple: {:?}", other),
        },
        other => panic!("not a channel: {:?}", other),
    }
}

#[test]
fn clone_is_a_deep_copy() {
    let t = lam("x", Term::Mat {
        arg: bx(var("x")),
        bnd: n("x"),
        with: vec![n("w")],
        arms: vec![(Some(n("A")), vec![None, Some(n("x.f"))], Term::Str { val: "s".to_string() })],
    });
    let mut copy = t.clone();
    assert_eq!(copy, t);
    *copy.float_children_mut(0) = Term::Era;
    assert_ne!(copy, t);
}

#[test]
fn decimal_text_and_indentation() {
    assert_eq!(decimal_string(0), "0");
    assert_eq!(decimal_string(9), "9");
    assert_eq!(decimal_string(10), "10");
    assert_eq!(decimal_string(12345678901234567890), "12345678901234567890");
    assert_eq!(indented(2, 4), 6);
    assert_eq!(indented(usize::MAX - 1, 4), usize::MAX);
}

#[test]
fn definition_book_lookup_and_insert() {
    let d = |name: &str, v: u64| Definition {
        name: n(name),
        rules: vec![Rule { pats: vec![], body: Term::Num { val: v } }],
        builtin: false,
    };
    let mut book = DefinitionBook::new();
    assert!(book.get(&n("a")).is_none());
    book.insert(d("a", 1));
    book.insert(d("b", 2));
    book.insert(d("a", 3));
    assert_eq!(book.defs.len(), 2);
    assert_eq!(book.get(&n("a")), Some(&d("a", 3)));
    assert_eq!(book.get(&n("b")), Some(&d("b", 2)));
    assert!(book.get(&n("c")).is_none());
}

#[test]
fn table_lookups_take_the_first_entry() {
    let ctrs = vec![(n("A"), n("T")), (n("B"), n("T")), (n("A"), n("U"))];
    assert_eq!(find_ctr(&ctrs, &n("A")), Some(&n("T")));
    assert_eq!(find_ctr(&ctrs, &n("B")), Some(&n("T")));
    assert_eq!(find_ctr(&ctrs, &n("C")), None);
    let adts = vec![(n("T"), Adt { ctrs: vec![(n("A"), vec![])], builtin: false })];
    assert!(find_adt(&adts, &n("T")).is_some());
    assert!(find_adt(&adts, &n("U")).is_none());
}

#[test]
fn diagnostics_fail_only_on_errors_since_the_pass_began() {
    let mut info = Diagnostics::new();
    info.start_pass();
    info.add_rule_warning(WarningType::UnusedDefinition, "unused".to_string(), n("a"));
    info.add_rule_warning(WarningType::RepeatedBind, "again".to_string(), n("a"));
    assert!(!info.has_errors());
    assert_eq!(info.fatal(), Ok(()));
    assert_eq!(info.entries.len(), 2);
    assert_eq!(info.entries[0].kind, DiagnosticKind::UnusedDefinition);
    assert_eq!(info.entries[0].severity(), Severity::Warning);
    info.add_rule_error(ErrorType::UnboundVariable, "unbound".to_string(), n("b"));
    assert!(info.has_errors());
    // A new pass looks only at what is recorded from now on.
    info.start_pass();
    assert!(!info.has_errors());
    assert_eq!(info.fatal(), Ok(()));
    info.add_rule_error(ErrorType::UnboundUnscopedVariable, "channel".to_string(), n("c"));
    let failure = info.fatal().unwrap_err();
    assert_eq!(failure.entries.len(), 4);
    assert_eq!(failure.entries[3].kind, DiagnosticKind::UnboundUnscopedVariable);
    assert_eq!(failure.entries[3].severity(), Severity::Error);
    assert_eq!(failure.entries[3].rule_name, Some(n("c")));
    assert_eq!(failure.entries[3].message, "channel");
    assert!(info.entries.is_empty());
}
