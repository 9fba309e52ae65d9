use hvm_lang::encode::{encode, op_number, EncodeError, Encoder};
use hvm_lang::net::{
    enter, kind, port, CON, DUP, ERA, LABEL_MASK, NUM, NUMOP, REF, ROOT, TAG_MASK,
};
use hvm_lang::term::{Name, Op, Tag, Term};

fn n(s: &str) -> Name {
    Name::new(s)
}

fn var(s: &str) -> Term {
    Term::Var { nam: n(s) }
}

fn num(v: u64) -> Term {
    Term::Num { val: v }
}

fn bx(t: Term) -> Box<Term> {
    Box::new(t)
}

fn lam(x: &str, bod: Term) -> Term {
    Term::Lam { tag: Tag::Static, nam: Some(n(x)), bod: bx(bod) }
}

fn app(f: Term, a: Term) -> Term {
    Term::App { tag: Tag::Static, fun: bx(f), arg: bx(a) }
}

fn chn(x: &str, bod: Term) -> Term {
    Term::Chn { tag: Tag::Static, nam: n(x), bod: bx(bod) }
}

fn lnk(x: &str) -> Term {
    Term::Lnk { nam: n(x) }
}

/// `λx x`: one CON node with slot 1 linked to slot 2, and slot 0 linked to
/// the root.
#[test]
fn encode_identity_lambda() {
    let (inet, names) = encode(&lam("x", var("x"))).unwrap();
    assert_eq!(inet.nodes, vec![2, 4, 0, ERA, 1, 6, 5, CON]);
    assert!(names.is_empty());
    let node = 1;
    assert_eq!(kind(&inet, node), CON);
    assert_eq!(enter(&inet, port(node, 1)), port(node, 2));
    assert_eq!(enter(&inet, port(node, 2)), port(node, 1));
    assert_eq!(enter(&inet, port(node, 0)), ROOT);
    assert_eq!(enter(&inet, ROOT), port(node, 0));
}

#[test]
fn encode_leaves() {
    let (inet, _) = encode(&num(7)).unwrap();
    assert_eq!(inet.nodes, vec![2, 4, 0, ERA, 1, 5, 6, NUM | 7]);
    let (inet, _) = encode(&num(LABEL_MASK)).unwrap();
    assert_eq!(inet.nodes[7], NUM | LABEL_MASK);
    let (inet, _) = encode(&Term::Era).unwrap();
    assert_eq!(inet.nodes, vec![2, 4, 0, ERA, 1, 5, 6, ERA]);
    let (inet, names) = encode(&Term::Ref { nam: n("f") }).unwrap();
    assert_eq!(inet.nodes, vec![2, 4, 0, ERA, 1, 5, 6, REF]);
    assert_eq!(names, vec![n("f")]);
}

#[test]
fn unused_binder_is_linked_to_an_eraser() {
    let t = Term::Lam { tag: Tag::Static, nam: None, bod: bx(num(1)) };
    let (inet, _) = encode(&t).unwrap();
    assert_eq!(
        inet.nodes,
        vec![2, 4, 0, ERA, 1, 12, 8, CON, 6, 9, 10, NUM | 1, 5, 13, 14, ERA]
    );
    let (named, _) = encode(&lam("x", num(1))).unwrap();
    assert_eq!(named.nodes, inet.nodes);
}

#[test]
fn encode_application() {
    // ((λx x) 1): the argument at slot 0, the function at slot 2, slot 1 upward.
    let (inet, _) = encode(&app(lam("x", var("x")), num(1))).unwrap();
    assert_eq!(
        inet.nodes,
        vec![2, 5, 0, ERA, 12, 1, 8, CON, 6, 10, 9, CON, 4, 13, 14, NUM | 1]
    );
    let a = 1;
    assert_eq!(enter(&inet, port(a, 1)), ROOT);
    assert_eq!(kind(&inet, enter(&inet, port(a, 0)) >> 2), NUM | 1);
    assert_eq!(kind(&inet, enter(&inet, port(a, 2)) >> 2), CON);
}

#[test]
fn encode_operation() {
    let t = lam("x", Term::Opx { opr: Op::Mul, fst: bx(var("x")), snd: bx(num(3)) });
    let (inet, _) = encode(&t).unwrap();
    let l = 1;
    let o = 2;
    assert_eq!(kind(&inet, o), NUMOP | 2);
    assert_eq!(op_number(Op::Add), 0);
    assert_eq!(op_number(Op::Shr), 15);
    // The first operand is the variable, the second the number, slot 2 the result.
    assert_eq!(enter(&inet, port(o, 0)), port(l, 1));
    assert_eq!(kind(&inet, enter(&inet, port(o, 1)) >> 2), NUM | 3);
    assert_eq!(enter(&inet, port(o, 2)), port(l, 2));
}

#[test]
fn references_share_their_label_by_name() {
    let t = app(app(Term::Ref { nam: n("f") }, Term::Ref { nam: n("g") }), Term::Ref { nam: n("f") });
    let (inet, names) = encode(&t).unwrap();
    assert_eq!(names, vec![n("f"), n("g")]);
    let kinds: Vec<u64> = (1..inet.nodes.len() as u64 / 4).map(|node| kind(&inet, node)).collect();
    assert_eq!(kinds, vec![CON, CON, REF, REF | 1, REF]);
}

#[test]
fn duplication_and_superposition_share_labels_by_tag() {
    // let #d{a b} = 7; #d{a b}
    let t = Term::Dup {
        tag: Tag::Named(n("d")),
        bnd: vec![Some(n("a")), Some(n("b"))],
        val: bx(num(7)),
        nxt: bx(Term::Sup { tag: Tag::Named(n("d")), els: vec![var("a"), var("b")] }),
    };
    let (inet, _) = encode(&t).unwrap();
    let dup = 1;
    let sup = 3;
    assert_eq!(kind(&inet, dup), DUP | 1);
    assert_eq!(kind(&inet, 2), NUM | 7);
    assert_eq!(kind(&inet, sup), DUP | 1);
    assert_eq!(enter(&inet, port(dup, 0)), port(2, 0));
    assert_eq!(enter(&inet, port(dup, 1)), port(sup, 1));
    assert_eq!(enter(&inet, port(dup, 2)), port(sup, 2));
    assert_eq!(enter(&inet, ROOT), port(sup, 0));
}

#[test]
fn labels_of_tags() {
    let mut enc = Encoder::new();
    let static_sup = Term::Sup { tag: Tag::Static, els: vec![num(1), num(2)] };
    let auto_sup = Term::Sup { tag: Tag::Auto, els: vec![num(1), num(2)] };
    let named = |s: &str| Term::Sup { tag: Tag::Named(n(s)), els: vec![num(1), num(2)] };
    let numbered = |k: u32| Term::Sup { tag: Tag::Numeric(k), els: vec![num(1), num(2)] };
    let mut kinds = vec![];
    for t in [static_sup, named("x"), auto_sup.clone(), numbered(9), named("x"), auto_sup, numbered(9), named("y")] {
        let p = enc.encode_term(&t, ROOT).unwrap().unwrap();
        kinds.push(kind(&enc.inet, p >> 2));
    }
    assert_eq!(
        kinds,
        vec![DUP, DUP | 1, DUP | 2, DUP | 3, DUP | 1, DUP | 4, DUP | 3, DUP | 5]
    );
    assert!(kinds.iter().all(|k| k & TAG_MASK == DUP));
    let tagged = Term::Lam { tag: Tag::Named(n("x")), nam: None, bod: bx(Term::Era) };
    let p = enc.encode_term(&tagged, ROOT).unwrap().unwrap();
    assert_eq!(kind(&enc.inet, p >> 2), CON | 1);
}

#[test]
fn channels_are_linked_at_the_end() {
    let (inet, _) = encode(&chn("a", lnk("a"))).unwrap();
    assert_eq!(inet.nodes, vec![2, 4, 0, ERA, 1, 6, 5, CON]);
    // The use may come before the declaration.
    let (inet, _) = encode(&app(lnk("a"), chn("a", num(1)))).unwrap();
    let a = 1;
    let c = 2;
    assert_eq!(enter(&inet, port(a, 2)), port(c, 1));
    assert_eq!(enter(&inet, port(c, 1)), port(a, 2));
    assert_eq!(enter(&inet, port(a, 0)), port(c, 0));
}

#[test]
fn every_link_goes_both_ways() {
    let t = lam(
        "f",
        lam("x", app(var("f"), Term::Opx { opr: Op::Add, fst: bx(var("x")), snd: bx(chn("c", lnk("c"))) })),
    );
    let (inet, _) = encode(&t).unwrap();
    assert_eq!(inet.nodes.len() % 4, 0);
    for p in 0..inet.nodes.len() as u64 {
        if p & 3 != 3 {
            assert_eq!(enter(&inet, enter(&inet, p)), p, "port {}", p);
        }
    }
}

#[test]
fn encoding_is_deterministic() {
    let t = lam("f", app(var("f"), app(Term::Ref { nam: n("g") }, num(5))));
    assert_eq!(encode(&t).unwrap().0.nodes, encode(&t).unwrap().0.nodes);
    assert_eq!(encode(&t).unwrap().1, encode(&t).unwrap().1);
}

fn failure(t: &Term) -> EncodeError {
    match encode(t) {
        Ok(_) => panic!("encoded"),
        Err(e) => e,
    }
}

#[test]
fn encode_failures() {
    assert_eq!(failure(&var("x")), EncodeError::UnboundVariable(n("x")));
    assert_eq!(failure(&lam("x", app(var("x"), var("x")))), EncodeError::VariableUsedTwice(n("x")));
    assert_eq!(failure(&num(LABEL_MASK + 1)), EncodeError::NumberTooLarge(LABEL_MASK + 1));
    assert_eq!(failure(&lnk("a")), EncodeError::UnpairedChannel(n("a")));
    assert_eq!(failure(&chn("a", num(1))), EncodeError::UnpairedChannel(n("a")));
    assert_eq!(failure(&app(lnk("a"), lnk("a"))), EncodeError::ChannelUsedTwice(n("a")));
    assert_eq!(
        failure(&app(chn("a", num(1)), chn("a", num(2)))),
        EncodeError::ChannelDeclaredTwice(n("a"))
    );
    let unsupported = vec![
        Term::Let { nam: None, val: bx(num(1)), nxt: bx(num(2)) },
        Term::Tup { els: vec![num(1), num(2)] },
        Term::Lst { els: vec![] },
        Term::Nat { val: 1 },
        Term::Str { val: String::new() },
        Term::Error,
        Term::Sup { tag: Tag::Auto, els: vec![num(1), num(2), num(3)] },
        Term::Dup { tag: Tag::Auto, bnd: vec![None], val: bx(num(1)), nxt: bx(num(2)) },
        lam("x", Term::Use { nam: n("y"), val: bx(num(1)), nxt: bx(var("x")) }),
    ];
    for t in unsupported {
        assert_eq!(failure(&t), EncodeError::Unsupported);
    }
}

#[test]
fn shadowing_uses_the_innermost_binder() {
    // λx λx x: the inner binder is used, the outer one is erased.
    let (inet, _) = encode(&lam("x", lam("x", var("x")))).unwrap();
    let outer = 1;
    let inner = 2;
    assert_eq!(enter(&inet, port(inner, 1)), port(inner, 2));
    assert_eq!(kind(&inet, enter(&inet, port(outer, 1)) >> 2), ERA);
}
