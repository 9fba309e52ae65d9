use hvm_lang::term::book::{Book, Definition, DefinitionBook, Pattern, Rule};
use hvm_lang::term::{Name, Op, Tag, Term};

fn n(s: &str) -> Name {
    Name::new(s)
}

fn var(s: &str) -> Term {
    Term::Var { nam: n(s) }
}

fn bx(t: Term) -> Box<Term> {
    Box::new(t)
}

fn lam(x: &str, bod: Term) -> Term {
    Term::Lam { tag: Tag::Static, nam: Some(n(x)), bod: bx(bod) }
}

fn app(f: Term, a: Term) -> Term {
    Term::App { tag: Tag::Static, fun: bx(f), arg: bx(a) }
}

#[test]
fn display_lambda_and_vars() {
    assert_eq!(lam("x", var("x")).display(), "λx x");
    let eraser = Term::Lam { tag: Tag::Static, nam: None, bod: bx(Term::Era) };
    assert_eq!(eraser.display(), "λ* *");
    let tagged = Term::Lam { tag: Tag::Named(n("foo")), nam: Some(n("x")), bod: bx(var("x")) };
    assert_eq!(tagged.display(), "#foo λx x");
    let numbered = Term::Lam { tag: Tag::Numeric(12), nam: Some(n("x")), bod: bx(var("x")) };
    assert_eq!(numbered.display(), "#12 λx x");
}

#[test]
fn display_channels_with_dollar() {
    let t = Term::Chn { tag: Tag::Static, nam: n("a"), bod: bx(Term::Lnk { nam: n("a") }) };
    assert_eq!(t.display(), "λ$a $a");
    assert_eq!(t.display_pretty(0), "λ$a $a");
}

#[test]
fn display_application_spine_is_flat() {
    let t = app(app(var("f"), var("x")), var("y"));
    assert_eq!(t.display(), "(f x y)");
    let mixed = Term::App {
        tag: Tag::Named(n("t")),
        fun: bx(app(var("f"), var("x"))),
        arg: bx(var("y")),
    };
    assert_eq!(mixed.display(), "#t ((f x) y)");
    assert_eq!(mixed.display_pretty(0), "#t ((f x) y)");
}

#[test]
fn display_let_use_and_tuples() {
    let t = Term::Let { nam: Some(n("x")), val: bx(Term::Num { val: 1 }), nxt: bx(var("x")) };
    assert_eq!(t.display(), "let x = 1; x");
    assert_eq!(t.display_pretty(2), "let x = 1;\n  x");
    let u = Term::Use { nam: n("x"), val: bx(Term::Num { val: 1 }), nxt: bx(var("x")) };
    assert_eq!(u.display(), "use x = 1; x");
    assert_eq!(u.display_pretty(0), "use x = 1;\nx");
    let ltp = Term::Ltp {
        bnd: vec![Some(n("a")), None, Some(n("c"))],
        val: bx(Term::Tup { els: vec![var("p"), var("q"), var("r")] }),
        nxt: bx(var("a")),
    };
    assert_eq!(ltp.display(), "let (a, *, c) = (p, q, r); a");
    assert_eq!(ltp.display_pretty(1), "let (a, *, c) = (p q r);\n a");
}

#[test]
fn display_dup_and_sup() {
    let dup = Term::Dup {
        tag: Tag::Named(n("d")),
        bnd: vec![Some(n("a")), Some(n("b"))],
        val: bx(var("x")),
        nxt: bx(Term::Sup { tag: Tag::Named(n("d")), els: vec![var("a"), var("b")] }),
    };
    assert_eq!(dup.display(), "let #d{a b} = x; #d{a b}");
    assert_eq!(dup.display_pretty(0), "let #d {a b} = x;\n#d {a b}");
    let auto = Term::Sup { tag: Tag::Auto, els: vec![var("a"), var("b")] };
    assert_eq!(auto.display(), "{a b}");
}

#[test]
fn display_numbers_strings_lists_ops() {
    assert_eq!(Term::Num { val: 0 }.display(), "0");
    assert_eq!(Term::Num { val: 42 }.display(), "42");
    assert_eq!(Term::Num { val: u64::MAX }.display(), "18446744073709551615");
    assert_eq!(Term::Nat { val: 1000 }.display(), "#1000");
    assert_eq!(Term::Str { val: "a\"b\n".to_string() }.display(), "\"a\\\"b\\n\"");
    assert_eq!(Term::Lst { els: vec![Term::Num { val: 1 }, Term::Num { val: 2 }] }.display(), "[1, 2]");
    assert_eq!(
        Term::Lst { els: vec![Term::Num { val: 1 }, Term::Num { val: 2 }] }.display_pretty(0),
        "[1 2]"
    );
    assert_eq!(Term::Lst { els: vec![] }.display(), "[]");
    let op = Term::Opx { opr: Op::Add, fst: bx(var("a")), snd: bx(Term::Num { val: 1 }) };
    assert_eq!(op.display(), "(+ a 1)");
    assert_eq!(op.display_pretty(4), "(+ a 1)");
    let shl = Term::Opx { opr: Op::Shl, fst: bx(var("a")), snd: bx(var("b")) };
    assert_eq!(shl.display(), "(<< a b)");
    assert_eq!(Term::Era.display(), "*");
    assert_eq!(Term::Error.display(), "<Invalid>");
    assert_eq!(Term::Error.display_pretty(0), "<Error>");
    assert_eq!(Term::Ref { nam: n("Main") }.display(), "Main");
}

#[test]
fn display_match_dense_and_pretty() {
    let m = Term::Mat {
        arg: bx(var("x")),
        bnd: n("x"),
        with: vec![],
        arms: vec![
            (Some(n("Cons")), vec![Some(n("x.h")), Some(n("x.t"))], var("x.h")),
            (Some(n("Nil")), vec![], Term::Num { val: 0 }),
        ],
    };
    assert_eq!(m.display(), "match x = x { Cons: x.h; Nil: 0 }");
    assert_eq!(m.display_pretty(0), "match x = x {\n  Cons: x.h;\n  Nil: 0;\n}");
    assert_eq!(m.display_pretty(2), "match x = x {\n    Cons: x.h;\n    Nil: 0;\n  }");
    let w = Term::Mat {
        arg: bx(var("x")),
        bnd: n("x"),
        with: vec![n("a"), n("b")],
        arms: vec![(None, vec![], var("a"))],
    };
    assert_eq!(w.display(), "match x = x with a, b { *: a }");
    assert_eq!(w.display_pretty(0), "match x = x with a, b{\n  *: a;\n}");
}

#[test]
fn display_switch_dense_and_pretty() {
    let s = Term::Swt {
        arg: bx(var("n")),
        bnd: n("n"),
        with: vec![],
        pred: Some(n("n-2")),
        arms: vec![var("a"), var("b"), var("n-2")],
    };
    assert_eq!(s.display(), "switch n = n { 0: a; 1: b; _: n-2 }");
    assert_eq!(s.display_pretty(0), "switch n = n {\n  0: a;\n  1: b;\n  _: n-2;\n}");
    let w = Term::Swt {
        arg: bx(var("n")),
        bnd: n("n"),
        with: vec![n("k")],
        pred: None,
        arms: vec![var("k")],
    };
    assert_eq!(w.display(), "switch n = n with k { _: k }");
    assert_eq!(w.display_pretty(0), "switch n = n  with k{\n  _: k;\n}");
}

#[test]
fn nested_match_indents_by_four() {
    let inner = Term::Mat {
        arg: bx(var("y")),
        bnd: n("y"),
        with: vec![],
        arms: vec![(Some(n("A")), vec![], Term::Num { val: 1 })],
    };
    let outer = Term::Mat {
        arg: bx(var("x")),
        bnd: n("x"),
        with: vec![],
        arms: vec![(Some(n("B")), vec![], inner)],
    };
    assert_eq!(
        outer.display_pretty(0),
        "match x = x {\n  B: match y = y {\n      A: 1;\n    };\n}"
    );
}

#[test]
fn tag_display_and_padding() {
    assert_eq!(Tag::Named(n("a")).display(), "#a");
    assert_eq!(Tag::Named(n("a")).display_padded(), "#a ");
    assert_eq!(Tag::Numeric(7).display(), "#7");
    assert_eq!(Tag::Numeric(7).display_padded(), "#7 ");
    assert_eq!(Tag::Auto.display(), "");
    assert_eq!(Tag::Auto.display_padded(), "");
    assert_eq!(Tag::Static.display(), "");
    assert_eq!(Tag::Static.display_padded(), "");
}

#[test]
fn pattern_display() {
    assert_eq!(Pattern::Var(None).display(), "*");
    assert_eq!(Pattern::Var(Some(n("x"))).display(), "x");
    assert_eq!(Pattern::Num(3).display(), "3");
    assert_eq!(Pattern::Str("hi".to_string()).display(), "\"hi\"");
    let ctr = Pattern::Ctr(n("Cons"), vec![Pattern::Var(Some(n("h"))), Pattern::Var(None)]);
    assert_eq!(ctr.display(), "(Cons h *)");
    assert_eq!(Pattern::Ctr(n("Nil"), vec![]).display(), "(Nil)");
    let tup = Pattern::Tup(vec![Pattern::Num(1), Pattern::Var(Some(n("y")))]);
    assert_eq!(tup.display(), "(1, y)");
    let lst = Pattern::Lst(vec![Pattern::Num(1), Pattern::Num(2)]);
    assert_eq!(lst.display(), "[1, 2]");
}

fn sample_book() -> Book {
    let id = Definition {
        name: n("id"),
        rules: vec![Rule { pats: vec![Pattern::Var(Some(n("x")))], body: var("x") }],
        builtin: false,
    };
    let two = Definition {
        name: n("f"),
        rules: vec![
            Rule { pats: vec![Pattern::Num(0)], body: Term::Num { val: 1 } },
            Rule {
                pats: vec![Pattern::Var(Some(n("k")))],
                body: Term::Let { nam: Some(n("a")), val: bx(var("k")), nxt: bx(var("a")) },
            },
        ],
        builtin: false,
    };
    Book {
        defs: DefinitionBook { defs: vec![id, two] },
        adts: vec![],
        ctrs: vec![],
        entrypoint: None,
    }
}

#[test]
fn rule_definition_and_book_display() {
    let book = sample_book();
    let id = &book.defs.defs[0];
    assert_eq!(id.rules[0].display(&id.name), "(id x) = x");
    assert_eq!(id.rules[0].display_pretty(&id.name), "(id x) =\n  x");
    let f = &book.defs.defs[1];
    assert_eq!(f.display(), "(f 0) = 1\n(f k) = let a = k; a");
    assert_eq!(f.display_pretty(), "(f 0) =\n  1\n(f k) =\n  let a = k;\n  a");
    assert_eq!(book.display(), "(id x) = x\n\n(f 0) = 1\n(f k) = let a = k; a");
    assert_eq!(
        book.display_pretty(),
        "(id x) =\n  x\n\n(f 0) =\n  1\n(f k) =\n  let a = k;\n  a"
    );
}

#[test]
fn book_printing_follows_insertion_order() {
    let mut defs = DefinitionBook::new();
    for name in ["zeta", "alpha", "mid"] {
        defs.insert(Definition {
            name: n(name),
            rules: vec![Rule { pats: vec![], body: Term::Era }],
            builtin: false,
        });
    }
    assert_eq!(defs.display(), "(zeta) = *\n\n(alpha) = *\n\n(mid) = *");
    defs.insert(Definition {
        name: n("alpha"),
        rules: vec![Rule { pats: vec![], body: Term::Num { val: 5 } }],
        builtin: false,
    });
    assert_eq!(defs.display(), "(zeta) = *\n\n(alpha) = 5\n\n(mid) = *");
}

#[test]
fn printing_is_deterministic() {
    let book = sample_book();
    assert_eq!(book.display(), book.display());
    assert_eq!(book.display_pretty(), book.display_pretty());
}
