use hvm_lang::net::{
    addr, enter, kind, link, new_inet, new_node, port, slot, CON, DUP, ERA, LABEL_MASK, NUM,
    NUMOP, REF, ROOT, TAG, TAG_MASK, TAG_WIDTH,
};

#[test]
fn new_net_has_deadlocked_root() {
    let inet = new_inet();
    assert_eq!(inet.nodes, vec![2, 1, 0, ERA]);
    assert_eq!(ROOT, 1);
    assert_eq!(enter(&inet, ROOT), ROOT);
    assert_eq!(enter(&inet, 0), 2);
    assert_eq!(enter(&inet, 2), 0);
    assert_eq!(kind(&inet, 0), ERA);
}

#[test]
fn kind_constants_are_bit_exact() {
    assert_eq!(TAG_WIDTH, 4);
    assert_eq!(TAG, 60);
    assert_eq!(ERA, 0);
    assert_eq!(CON, 1 << 60);
    assert_eq!(DUP, 2 << 60);
    assert_eq!(REF, 3 << 60);
    assert_eq!(NUM, 4 << 60);
    assert_eq!(NUMOP, 5 << 60);
    assert_eq!(LABEL_MASK, (1 << 60) - 1);
    assert_eq!(TAG_MASK, !LABEL_MASK);
    assert_eq!((NUM | 42) & TAG_MASK, NUM);
    assert_eq!((NUM | 42) & LABEL_MASK, 42);
}

#[test]
fn port_packs_address_and_slot() {
    assert_eq!(port(0, 1), 1);
    assert_eq!(port(1, 0), 4);
    assert_eq!(port(1, 2), 6);
    assert_eq!(port(5, 3), 23);
    assert_eq!(addr(23), 5);
    assert_eq!(slot(23), 3);
    for node in [0u64, 1, 7, 1 << 40, (1 << 62) - 1] {
        for s in 0..4u64 {
            assert_eq!(addr(port(node, s)), node);
            assert_eq!(slot(port(node, s)), s);
        }
    }
}

#[test]
fn new_node_appends_four_words() {
    let mut inet = new_inet();
    let a = new_node(&mut inet, CON);
    assert_eq!(a, 1);
    assert_eq!(inet.nodes, vec![2, 1, 0, ERA, 4, 5, 6, CON]);
    let b = new_node(&mut inet, NUM | 7);
    assert_eq!(b, 2);
    assert_eq!(inet.nodes.len(), 12);
    assert_eq!(&inet.nodes[8..], &[8, 9, 10, NUM | 7]);
    assert_eq!(kind(&inet, a), CON);
    assert_eq!(kind(&inet, b), NUM | 7);
    assert_eq!(enter(&inet, port(b, 1)), port(b, 1));
}

#[test]
fn link_is_symmetric() {
    let mut inet = new_inet();
    let a = new_node(&mut inet, CON);
    let b = new_node(&mut inet, DUP);
    link(&mut inet, port(a, 0), port(b, 2));
    assert_eq!(enter(&inet, port(a, 0)), port(b, 2));
    assert_eq!(enter(&inet, port(b, 2)), port(a, 0));
    link(&mut inet, port(a, 1), port(a, 1));
    assert_eq!(enter(&inet, port(a, 1)), port(a, 1));
}

/// The net of the identity: one CON node whose slot 1 (the binder) is
/// linked to its slot 2 (the body), and whose slot 0 is linked to the root.
#[test]
fn net_of_identity_lambda() {
    let mut inet = new_inet();
    let lam = new_node(&mut inet, CON);
    link(&mut inet, port(lam, 1), port(lam, 2));
    link(&mut inet, port(lam, 0), ROOT);
    assert_eq!(inet.nodes.len(), 8);
    assert_eq!(kind(&inet, lam) & TAG_MASK, CON);
    assert_eq!(enter(&inet, port(lam, 1)), port(lam, 2));
    assert_eq!(enter(&inet, port(lam, 2)), port(lam, 1));
    assert_eq!(enter(&inet, port(lam, 0)), ROOT);
    assert_eq!(enter(&inet, ROOT), port(lam, 0));
    assert_eq!(inet.nodes, vec![2, 4, 0, ERA, 1, 6, 5, CON]);
}
