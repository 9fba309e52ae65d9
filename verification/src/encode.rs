//! The net builder: the encoding of a term into the words of a net.
//!
//! A term is encoded at a port `up`, the place in the net where it is
//! attached. The encoding of a term either gives back the port of the term,
//! which is then linked to `up`, or records `up` as the use of a variable or
//! of a channel, to be linked when the binder is left or when the whole
//! term is done.
//!
//! The forms that have an encoding are lambdas, variables, applications,
//! duplications and superpositions of two, numbers, numeric operations,
//! erasers, references, and the declarations and uses of unscoped channels.
//! Every variable may be used once; a binder that is not used is linked to
//! an eraser.
use vstd::prelude::*;
use crate::net::{
    addr_of, link, new_inet, new_node, port, port_of, well_formed, INet, NodeKind, Port, CON, DUP,
    ERA, LABEL_MASK, NUM, NUMOP, REF, ROOT,
};
use crate::term::book::{lemma_position_absent, lemma_position_found, position};
use crate::term::{
    idents, opt_ident, opt_idents, terms_view, Ident, Name, Op, Tag, TagView, Term, TermView,
};

verus! {

/// Why a term could not be encoded.
#[derive(Debug, PartialEq, Eq)]
pub enum EncodeError {
    /// The term, or a term inside it, has a form without an encoding.
    Unsupported,
    /// A variable that no binder around it declares.
    UnboundVariable(Name),
    /// A variable that is used a second time.
    VariableUsedTwice(Name),
    /// An unscoped channel that is declared a second time.
    ChannelDeclaredTwice(Name),
    /// An unscoped channel that is used a second time.
    ChannelUsedTwice(Name),
    /// An unscoped channel that is declared and not used, or used and not
    /// declared.
    UnpairedChannel(Name),
    /// A number that does not fit in the label bits of a word.
    NumberTooLarge(u64),
    /// More labels or names than fit in the label bits of a word.
    TooManyLabels,
}

pub enum EncodeErrorView {
    Unsupported,
    UnboundVariable(Ident),
    VariableUsedTwice(Ident),
    ChannelDeclaredTwice(Ident),
    ChannelUsedTwice(Ident),
    UnpairedChannel(Ident),
    NumberTooLarge(u64),
    TooManyLabels,
}

impl View for EncodeError {
    type V = EncodeErrorView;

    open spec fn view(&self) -> EncodeErrorView {
        match self {
            EncodeError::Unsupported => EncodeErrorView::Unsupported,
            EncodeError::UnboundVariable(n) => EncodeErrorView::UnboundVariable(n@),
            EncodeError::VariableUsedTwice(n) => EncodeErrorView::VariableUsedTwice(n@),
            EncodeError::ChannelDeclaredTwice(n) => EncodeErrorView::ChannelDeclaredTwice(n@),
            EncodeError::ChannelUsedTwice(n) => EncodeErrorView::ChannelUsedTwice(n@),
            EncodeError::UnpairedChannel(n) => EncodeErrorView::UnpairedChannel(n@),
            EncodeError::NumberTooLarge(v) => EncodeErrorView::NumberTooLarge(*v),
            EncodeError::TooManyLabels => EncodeErrorView::TooManyLabels,
        }
    }
}

/// A binder that the encoding is inside of: its name, the port that stands
/// for the variable, and the port where the variable is used, once it is.
#[derive(Debug)]
pub struct Binder {
    pub nam: Name,
    pub port: Port,
    pub used: Option<Port>,
}

pub struct BinderView {
    pub nam: Ident,
    pub port: Port,
    pub used: Option<Port>,
}

impl View for Binder {
    type V = BinderView;

    open spec fn view(&self) -> BinderView {
        BinderView { nam: self.nam@, port: self.port, used: self.used }
    }
}

/// An unscoped channel: its name, the port where it is declared and the
/// port where it is used, once they are known.
#[derive(Debug)]
pub struct Channel {
    pub nam: Name,
    pub decl: Option<Port>,
    pub used: Option<Port>,
}

pub struct ChannelView {
    pub nam: Ident,
    pub decl: Option<Port>,
    pub used: Option<Port>,
}

impl View for Channel {
    type V = ChannelView;

    open spec fn view(&self) -> ChannelView {
        ChannelView { nam: self.nam@, decl: self.decl, used: self.used }
    }
}

pub open spec fn binders_view(s: Seq<Binder>) -> Seq<BinderView> {
    Seq::new(s.len(), |i: int| s[i]@)
}

pub open spec fn channels_view(s: Seq<Channel>) -> Seq<ChannelView> {
    Seq::new(s.len(), |i: int| s[i]@)
}

pub open spec fn tags_view(s: Seq<Tag>) -> Seq<TagView> {
    Seq::new(s.len(), |i: int| s[i]@)
}

/// The state of an encoding: the net built so far, the binders that the
/// encoding is inside of, the unscoped channels met so far, the table of
/// the names that the reference nodes stand for, and the table of the tags
/// that the labels stand for.
#[derive(Debug)]
pub struct Encoder {
    pub inet: INet,
    pub scope: Vec<Binder>,
    pub chans: Vec<Channel>,
    pub names: Vec<Name>,
    pub labels: Vec<Tag>,
}

pub struct EncoderView {
    pub net: Seq<u64>,
    pub scope: Seq<BinderView>,
    pub chans: Seq<ChannelView>,
    pub names: Seq<Ident>,
    pub labels: Seq<TagView>,
}

impl View for Encoder {
    type V = EncoderView;

    open spec fn view(&self) -> EncoderView {
        EncoderView {
            net: self.inet@,
            scope: binders_view(self.scope@),
            chans: channels_view(self.chans@),
            names: idents(self.names@),
            labels: tags_view(self.labels@),
        }
    }
}

/// Whether a port lies in the net.
pub open spec fn in_net(p: Port, net: Seq<u64>) -> bool {
    p < net.len()
}

pub open spec fn opt_in_net(p: Option<Port>, net: Seq<u64>) -> bool {
    match p {
        Some(p) => in_net(p, net),
        None => true,
    }
}

/// Whether a state is sound: the net is laid out in whole nodes, and every
/// port that the state holds lies in the net.
pub open spec fn sound(st: EncoderView) -> bool {
    &&& well_formed(st.net)
    &&& forall|i: int|
        0 <= i < st.scope.len() ==> in_net((#[trigger] st.scope[i]).port, st.net) && opt_in_net(
            st.scope[i].used,
            st.net,
        )
    &&& forall|i: int|
        0 <= i < st.chans.len() ==> opt_in_net((#[trigger] st.chans[i]).decl, st.net)
            && opt_in_net(st.chans[i].used, st.net)
}

/// The state with a node of the given kind added at the end of the net.
pub open spec fn with_node(st: EncoderView, kind: NodeKind) -> EncoderView {
    let node = addr_of(st.net.len() as u64);
    EncoderView {
        net: st.net + seq![port_of(node, 0), port_of(node, 1), port_of(node, 2), kind],
        ..st
    }
}

/// The address of the node that `with_node` adds.
pub open spec fn next_node(st: EncoderView) -> u64 {
    addr_of(st.net.len() as u64)
}

/// The state with two ports linked.
pub open spec fn with_link(st: EncoderView, a: Port, b: Port) -> EncoderView {
    EncoderView { net: st.net.update(a as int, b).update(b as int, a), ..st }
}

/// The state with the port `up` linked to the port of a term, where the
/// encoding of the term gave one back.
pub open spec fn with_local_link(st: EncoderView, up: Port, r: Option<Port>) -> EncoderView {
    match r {
        Some(p) => with_link(st, up, p),
        None => st,
    }
}

/// The label of a numeric operation.
pub open spec fn op_label(opr: Op) -> u64 {
    match opr {
        Op::Add => 0,
        Op::Sub => 1,
        Op::Mul => 2,
        Op::Div => 3,
        Op::Rem => 4,
        Op::Eql => 5,
        Op::Neq => 6,
        Op::Ltn => 7,
        Op::Gtn => 8,
        Op::Lte => 9,
        Op::Gte => 10,
        Op::And => 11,
        Op::Or => 12,
        Op::Xor => 13,
        Op::Shl => 14,
        Op::Shr => 15,
    }
}

/// What the encoding of a term gives: the port of the term, if it has one
/// to be linked, and the state after it.
pub struct Encoded {
    pub port: Option<Port>,
    pub state: EncoderView,
}

/// A label, with the state after its tag was looked up.
pub struct Labelled {
    pub label: u64,
    pub state: EncoderView,
}

/// The label of a tag. The tag that the compiler puts in where nothing is
/// to be told apart has the label 0. Each other tag stands in the table of
/// labels, and its label is its position there, counted from 1: a tag that
/// the user wrote is entered when it is first met, and an automatic tag is
/// entered anew each time, so that no two of them share a label.
pub open spec fn tag_label(tag: TagView, st: EncoderView) -> Result<Labelled, EncodeErrorView> {
    match tag {
        TagView::Static => Ok(Labelled { label: 0, state: st }),
        TagView::Auto => entered_label(tag, st),
        _ => match position(st.labels, tag) {
            Some(i) => if i + 1 > LABEL_MASK {
                Err(EncodeErrorView::TooManyLabels)
            } else {
                Ok(Labelled { label: (i + 1) as u64, state: st })
            },
            None => entered_label(tag, st),
        },
    }
}

/// The label of a tag that is entered at the end of the table of labels.
pub open spec fn entered_label(tag: TagView, st: EncoderView) -> Result<Labelled, EncodeErrorView> {
    if st.labels.len() + 1 > LABEL_MASK {
        Err(EncodeErrorView::TooManyLabels)
    } else {
        Ok(
            Labelled {
                label: (st.labels.len() + 1) as u64,
                state: EncoderView { labels: st.labels.push(tag), ..st },
            },
        )
    }
}

/// The label of a reference to a definition: the position of its name in
/// the table of names, where the name is entered when it is first met.
pub open spec fn name_label(nam: Ident, st: EncoderView) -> Result<Labelled, EncodeErrorView> {
    match position(st.names, nam) {
        Some(i) => if i > LABEL_MASK {
            Err(EncodeErrorView::TooManyLabels)
        } else {
            Ok(Labelled { label: i as u64, state: st })
        },
        None => if st.names.len() > LABEL_MASK {
            Err(EncodeErrorView::TooManyLabels)
        } else {
            Ok(
                Labelled {
                    label: st.names.len() as u64,
                    state: EncoderView { names: st.names.push(nam), ..st },
                },
            )
        },
    }
}

/// The position of the innermost binder of a name, if there is one.
pub open spec fn find_binder(scope: Seq<BinderView>, nam: Ident) -> Option<int>
    decreases scope.len(),
{
    if scope.len() == 0 {
        None
    } else if scope.last().nam == nam {
        Some(scope.len() - 1)
    } else {
        find_binder(scope.drop_last(), nam)
    }
}

/// The names of the channels, in order.
pub open spec fn channel_names(chans: Seq<ChannelView>) -> Seq<Ident> {
    Seq::new(chans.len(), |i: int| chans[i].nam)
}

/// The state with the port `p` linked to a new eraser node.
pub open spec fn with_eraser(st: EncoderView, p: Port) -> EncoderView {
    with_link(with_node(st, ERA), p, port_of(next_node(st), 0))
}

/// The state inside one binder more: the name stands for the port.
pub open spec fn with_binder(st: EncoderView, nam: Option<Ident>, p: Port) -> EncoderView {
    match nam {
        Some(n) => EncoderView {
            scope: st.scope.push(BinderView { nam: n, port: p, used: None }),
            ..st
        },
        None => st,
    }
}

/// The state after a binder is left: the port that stands for the variable
/// is linked to the port where the variable was used, or to an eraser where
/// it was not used, or where the binder has no name.
pub open spec fn without_binder(st: EncoderView, nam: Option<Ident>, p: Port) -> EncoderView {
    match nam {
        Some(n) => {
            let b = st.scope.last();
            let left = EncoderView { scope: st.scope.drop_last(), ..st };
            match b.used {
                Some(u) => with_link(left, b.port, u),
                None => with_eraser(left, b.port),
            }
        },
        None => with_eraser(st, p),
    }
}

/// The state with the use of a variable recorded at the port `up`.
pub open spec fn with_var_use(nam: Ident, up: Port, st: EncoderView) -> Result<
    EncoderView,
    EncodeErrorView,
> {
    match find_binder(st.scope, nam) {
        None => Err(EncodeErrorView::UnboundVariable(nam)),
        Some(i) => if st.scope[i].used is Some {
            Err(EncodeErrorView::VariableUsedTwice(nam))
        } else {
            Ok(
                EncoderView {
                    scope: st.scope.update(
                        i,
                        BinderView { nam: st.scope[i].nam, port: st.scope[i].port, used: Some(up) },
                    ),
                    ..st
                },
            )
        },
    }
}

/// The state with the declaration of a channel recorded at the port `p`.
pub open spec fn with_channel_decl(nam: Ident, p: Port, st: EncoderView) -> Result<
    EncoderView,
    EncodeErrorView,
> {
    match position(channel_names(st.chans), nam) {
        Some(i) => if st.chans[i].decl is Some {
            Err(EncodeErrorView::ChannelDeclaredTwice(nam))
        } else {
            Ok(
                EncoderView {
                    chans: st.chans.update(
                        i,
                        ChannelView { nam: st.chans[i].nam, decl: Some(p), used: st.chans[i].used },
                    ),
                    ..st
                },
            )
        },
        None => Ok(
            EncoderView {
                chans: st.chans.push(ChannelView { nam, decl: Some(p), used: None }),
                ..st
            },
        ),
    }
}

/// The state with the use of a channel recorded at the port `up`.
pub open spec fn with_channel_use(nam: Ident, up: Port, st: EncoderView) -> Result<
    EncoderView,
    EncodeErrorView,
> {
    match position(channel_names(st.chans), nam) {
        Some(i) => if st.chans[i].used is Some {
            Err(EncodeErrorView::ChannelUsedTwice(nam))
        } else {
            Ok(
                EncoderView {
                    chans: st.chans.update(
                        i,
                        ChannelView { nam: st.chans[i].nam, decl: st.chans[i].decl, used: Some(up) },
                    ),
                    ..st
                },
            )
        },
        None => Ok(
            EncoderView {
                chans: st.chans.push(ChannelView { nam, decl: None, used: Some(up) }),
                ..st
            },
        ),
    }
}

/// The encoding of a term at the port `up`, from the state `st`.
///
/// - A lambda is a CON node: slot 0 is the port of the term, slot 1 stands
///   for the variable, slot 2 is where the body is attached.
/// - The declaration of a channel is a CON node wired in the same way; its
///   slot 1 is recorded as the declaration of the channel.
/// - A variable records `up` as its use with its innermost binder. The use
///   of a channel records `up` as the use of the channel.
/// - An application is a CON node: the argument is attached at slot 0, the
///   function at slot 2, and slot 1 is the port of the term. The function
///   is encoded before the argument.
/// - A duplication is a DUP node: the value is attached at slot 0, slots 1
///   and 2 stand for the two variables, and the port of the term is that of
///   what follows. A superposition is a DUP node: its elements are attached
///   at slots 1 and 2, and slot 0 is the port of the term.
/// - A number is a NUM node with the number as its label, an eraser an ERA
///   node, a reference a REF node with the label of its name; slot 0 is the
///   port of the term.
/// - A numeric operation is a NUMOP node with the operation as its label:
///   the operands are attached at slots 0 and 1, slot 2 is the port of the
///   term.
pub open spec fn encoded(t: TermView, up: Port, st: EncoderView) -> Result<Encoded, EncodeErrorView>
    decreases t,
{
    match t {
        TermView::Lam { tag, nam, bod } => match tag_label(tag, st) {
            Err(e) => Err(e),
            Ok(l) => {
                let node = next_node(l.state);
                let inside = with_binder(
                    with_node(l.state, CON | l.label),
                    nam,
                    port_of(node, 1),
                );
                match encoded(*bod, port_of(node, 2), inside) {
                    Err(e) => Err(e),
                    Ok(b) => Ok(
                        Encoded {
                            port: Some(port_of(node, 0)),
                            state: without_binder(
                                with_local_link(b.state, port_of(node, 2), b.port),
                                nam,
                                port_of(node, 1),
                            ),
                        },
                    ),
                }
            },
        },
        TermView::Var { nam } => match with_var_use(nam, up, st) {
            Err(e) => Err(e),
            Ok(s) => Ok(Encoded { port: None, state: s }),
        },
        TermView::Chn { tag, nam, bod } => match tag_label(tag, st) {
            Err(e) => Err(e),
            Ok(l) => {
                let node = next_node(l.state);
                match with_channel_decl(nam, port_of(node, 1), with_node(l.state, CON | l.label)) {
                    Err(e) => Err(e),
                    Ok(inside) => match encoded(*bod, port_of(node, 2), inside) {
                        Err(e) => Err(e),
                        Ok(b) => Ok(
                            Encoded {
                                port: Some(port_of(node, 0)),
                                state: with_local_link(b.state, port_of(node, 2), b.port),
                            },
                        ),
                    },
                }
            },
        },
        TermView::Lnk { nam } => match with_channel_use(nam, up, st) {
            Err(e) => Err(e),
            Ok(s) => Ok(Encoded { port: None, state: s }),
        },
        TermView::App { tag, fun, arg } => match tag_label(tag, st) {
            Err(e) => Err(e),
            Ok(l) => {
                let node = next_node(l.state);
                match encoded(*fun, port_of(node, 2), with_node(l.state, CON | l.label)) {
                    Err(e) => Err(e),
                    Ok(f) => match encoded(
                        *arg,
                        port_of(node, 0),
                        with_local_link(f.state, port_of(node, 2), f.port),
                    ) {
                        Err(e) => Err(e),
                        Ok(a) => Ok(
                            Encoded {
                                port: Some(port_of(node, 1)),
                                state: with_local_link(a.state, port_of(node, 0), a.port),
                            },
                        ),
                    },
                }
            },
        },
        TermView::Dup { tag, bnd, val, nxt } => if bnd.len() != 2 {
            Err(EncodeErrorView::Unsupported)
        } else {
            match tag_label(tag, st) {
                Err(e) => Err(e),
                Ok(l) => {
                    let node = next_node(l.state);
                    match encoded(*val, port_of(node, 0), with_node(l.state, DUP | l.label)) {
                        Err(e) => Err(e),
                        Ok(v) => {
                            let inside = with_binder(
                                with_binder(
                                    with_local_link(v.state, port_of(node, 0), v.port),
                                    bnd[0],
                                    port_of(node, 1),
                                ),
                                bnd[1],
                                port_of(node, 2),
                            );
                            match encoded(*nxt, up, inside) {
                                Err(e) => Err(e),
                                Ok(n) => Ok(
                                    Encoded {
                                        port: n.port,
                                        state: without_binder(
                                            without_binder(n.state, bnd[1], port_of(node, 2)),
                                            bnd[0],
                                            port_of(node, 1),
                                        ),
                                    },
                                ),
                            }
                        },
                    }
                },
            }
        },
        TermView::Sup { tag, els } => if els.len() != 2 {
            Err(EncodeErrorView::Unsupported)
        } else {
            match tag_label(tag, st) {
                Err(e) => Err(e),
                Ok(l) => {
                    let node = next_node(l.state);
                    match encoded(els[0], port_of(node, 1), with_node(l.state, DUP | l.label)) {
                        Err(e) => Err(e),
                        Ok(x) => match encoded(
                            els[1],
                            port_of(node, 2),
                            with_local_link(x.state, port_of(node, 1), x.port),
                        ) {
                            Err(e) => Err(e),
                            Ok(y) => Ok(
                                Encoded {
                                    port: Some(port_of(node, 0)),
                                    state: with_local_link(y.state, port_of(node, 2), y.port),
                                },
                            ),
                        },
                    }
                },
            }
        },
        TermView::Num { val } => if val > LABEL_MASK {
            Err(EncodeErrorView::NumberTooLarge(val))
        } else {
            Ok(Encoded { port: Some(port_of(next_node(st), 0)), state: with_node(st, NUM | val) })
        },
        TermView::Era => Ok(
            Encoded { port: Some(port_of(next_node(st), 0)), state: with_node(st, ERA) },
        ),
        TermView::Ref { nam } => match name_label(nam, st) {
            Err(e) => Err(e),
            Ok(l) => Ok(
                Encoded {
                    port: Some(port_of(next_node(l.state), 0)),
                    state: with_node(l.state, REF | l.label),
                },
            ),
        },
        TermView::Opx { opr, fst, snd } => {
            let node = next_node(st);
            match encoded(*fst, port_of(node, 0), with_node(st, NUMOP | op_label(opr))) {
                Err(e) => Err(e),
                Ok(a) => match encoded(
                    *snd,
                    port_of(node, 1),
                    with_local_link(a.state, port_of(node, 0), a.port),
                ) {
                    Err(e) => Err(e),
                    Ok(b) => Ok(
                        Encoded {
                            port: Some(port_of(node, 2)),
                            state: with_local_link(b.state, port_of(node, 1), b.port),
                        },
                    ),
                },
            }
        },
        _ => Err(EncodeErrorView::Unsupported),
    }
}

/// The state with the first `k` channels linked, each from its declaration
/// to its use.
pub open spec fn with_channels_linked(st: EncoderView, k: int) -> Result<
    EncoderView,
    EncodeErrorView,
>
    decreases k,
{
    if k <= 0 {
        Ok(st)
    } else {
        match with_channels_linked(st, k - 1) {
            Err(e) => Err(e),
            Ok(s) => {
                let c = st.chans[k - 1];
                match (c.decl, c.used) {
                    (Some(d), Some(u)) => Ok(with_link(s, d, u)),
                    _ => Err(EncodeErrorView::UnpairedChannel(c.nam)),
                }
            },
        }
    }
}

/// The state that an encoding begins from: the net with its root node, and
/// nothing else.
pub open spec fn initial_state() -> EncoderView {
    EncoderView {
        net: seq![2u64, 1u64, 0u64, ERA],
        scope: Seq::empty(),
        chans: Seq::empty(),
        names: Seq::empty(),
        labels: Seq::empty(),
    }
}

/// A net with the table of the names that its reference nodes stand for.
pub struct NetView {
    pub net: Seq<u64>,
    pub names: Seq<Ident>,
}

/// The net of a term: the term is encoded at the root port, and after
/// that each channel is linked from its declaration to its use.
pub open spec fn encoded_net(t: TermView) -> Result<NetView, EncodeErrorView> {
    match encoded(t, ROOT, initial_state()) {
        Err(e) => Err(e),
        Ok(r) => {
            let whole = with_local_link(r.state, ROOT, r.port);
            match with_channels_linked(whole, whole.chans.len() as int) {
                Err(e) => Err(e),
                Ok(s) => Ok(NetView { net: s.net, names: s.names }),
            }
        },
    }
}

impl Encoder {
    /// The state that an encoding begins from.
    pub fn new() -> (r: Encoder)
        ensures
            r@ == initial_state(),
            sound(r@),
    {
        let r = Encoder {
            inet: new_inet(),
            scope: Vec::new(),
            chans: Vec::new(),
            names: Vec::new(),
            labels: Vec::new(),
        };
        proof {
            assert(r@.scope =~= Seq::empty());
            assert(r@.chans =~= Seq::empty());
            assert(r@.names =~= Seq::empty());
            assert(r@.labels =~= Seq::empty());
        }
        r
    }

    /// Adds a node of the given kind at the end of the net.
    fn add_node(&mut self, kind: NodeKind) -> (node: u64)
        requires
            sound(old(self)@),
        ensures
            final(self)@ == with_node(old(self)@, kind),
            node == next_node(old(self)@),
            sound(final(self)@),
            final(self)@.net.len() == old(self)@.net.len() + 4,
            forall|s: u64| 0 <= s < 4 ==> #[trigger] port_of(node, s) == old(self)@.net.len() + s,
    {
        new_node(&mut self.inet, kind)
    }

    /// Links two ports of the net.
    fn link_ports(&mut self, a: Port, b: Port)
        requires
            sound(old(self)@),
            in_net(a, old(self)@.net),
            in_net(b, old(self)@.net),
        ensures
            final(self)@ == with_link(old(self)@, a, b),
            sound(final(self)@),
            final(self)@.net.len() == old(self)@.net.len(),
    {
        link(&mut self.inet, a, b);
    }

    /// Links the port `up` to the port of a term, where the encoding of the
    /// term gave one back.
    fn link_local(&mut self, up: Port, r: Option<Port>)
        requires
            sound(old(self)@),
            in_net(up, old(self)@.net),
            opt_in_net(r, old(self)@.net),
        ensures
            final(self)@ == with_local_link(old(self)@, up, r),
            sound(final(self)@),
            final(self)@.net.len() == old(self)@.net.len(),
    {
        match r {
            Some(p) => {
                self.link_ports(up, p);
            },
            None => {},
        }
    }

    /// Links a port to a new eraser node.
    fn link_eraser(&mut self, p: Port)
        requires
            sound(old(self)@),
            in_net(p, old(self)@.net),
        ensures
            final(self)@ == with_eraser(old(self)@, p),
            sound(final(self)@),
            final(self)@.net.len() == old(self)@.net.len() + 4,
    {
        let era = self.add_node(ERA);
        let principal = port(era, 0);
        self.link_ports(p, principal);
    }

    /// Enters a tag at the end of the table of labels.
    fn enter_label(&mut self, tag: Tag) -> (r: Result<u64, EncodeError>)
        requires
            sound(old(self)@),
        ensures
            match r {
                Ok(l) => entered_label(tag@, old(self)@) == Ok::<Labelled, EncodeErrorView>(
                    Labelled { label: l, state: final(self)@ },
                )
                    && sound(final(self)@)
                    && final(self)@.net == old(self)@.net
                    && final(self)@.scope == old(self)@.scope,
                Err(e) => entered_label(tag@, old(self)@) == Err::<Labelled, EncodeErrorView>(e@),
            },
    {
        let len = self.labels.len();
        if len as u64 >= LABEL_MASK {
            return Err(EncodeError::TooManyLabels);
        }
        self.labels.push(tag);
        proof {
            assert(self@.labels =~= old(self)@.labels.push(tag@));
        }
        Ok(len as u64 + 1)
    }

    /// Gives the label of a tag.
    fn label_of(&mut self, tag: &Tag) -> (r: Result<u64, EncodeError>)
        requires
            sound(old(self)@),
        ensures
            match r {
                Ok(l) => tag_label(tag@, old(self)@) == Ok::<Labelled, EncodeErrorView>(
                    Labelled { label: l, state: final(self)@ },
                )
                    && sound(final(self)@)
                    && final(self)@.net == old(self)@.net
                    && final(self)@.scope == old(self)@.scope,
                Err(e) => tag_label(tag@, old(self)@) == Err::<Labelled, EncodeErrorView>(e@),
            },
    {
        match tag {
            Tag::Static => Ok(0),
            Tag::Auto => self.enter_label(Tag::Auto),
            _ => {
                let ghost keys = self@.labels;
                let mut i: usize = 0;
                while i < self.labels.len()
                    invariant
                        i <= self.labels.len(),
                        *self == *old(self),
                        sound(old(self)@),
                        !(tag@ is Static),
                        !(tag@ is Auto),
                        keys == self@.labels,
                        forall|j: int| 0 <= j < i ==> keys[j] != tag@,
                    decreases self.labels.len() - i,
                {
                    if self.labels[i].same(tag) {
                        proof {
                            lemma_position_found(keys, tag@, i as int);
                        }
                        if i as u64 >= LABEL_MASK {
                            return Err(EncodeError::TooManyLabels);
                        }
                        return Ok(i as u64 + 1);
                    }
                    i += 1;
                }
                proof {
                    lemma_position_absent(keys, tag@);
                }
                self.enter_label(tag.clone())
            },
        }
    }

    /// Gives the label of a reference to a definition.
    fn name_index(&mut self, nam: &Name) -> (r: Result<u64, EncodeError>)
        requires
            sound(old(self)@),
        ensures
            match r {
                Ok(l) => name_label(nam@, old(self)@) == Ok::<Labelled, EncodeErrorView>(
                    Labelled { label: l, state: final(self)@ },
                )
                    && sound(final(self)@)
                    && final(self)@.net == old(self)@.net
                    && final(self)@.scope == old(self)@.scope,
                Err(e) => name_label(nam@, old(self)@) == Err::<Labelled, EncodeErrorView>(e@),
            },
    {
        let ghost keys = self@.names;
        let mut i: usize = 0;
        while i < self.names.len()
            invariant
                i <= self.names.len(),
                *self == *old(self),
                sound(old(self)@),
                keys == self@.names,
                forall|j: int| 0 <= j < i ==> keys[j] != nam@,
            decreases self.names.len() - i,
        {
            if self.names[i].same(nam) {
                proof {
                    lemma_position_found(keys, nam@, i as int);
                }
                if i as u64 > LABEL_MASK {
                    return Err(EncodeError::TooManyLabels);
                }
                return Ok(i as u64);
            }
            i += 1;
        }
        proof {
            lemma_position_absent(keys, nam@);
        }
        let len = self.names.len();
        if len as u64 > LABEL_MASK {
            return Err(EncodeError::TooManyLabels);
        }
        self.names.push(nam.clone());
        proof {
            assert(self@.names =~= old(self)@.names.push(nam@));
        }
        Ok(len as u64)
    }

    /// Enters a binder: the name stands for the port.
    fn push_binder(&mut self, nam: &Option<Name>, p: Port)
        requires
            sound(old(self)@),
            in_net(p, old(self)@.net),
        ensures
            final(self)@ == with_binder(old(self)@, opt_ident(*nam), p),
            sound(final(self)@),
            final(self)@.net == old(self)@.net,
            final(self)@.scope.len() == old(self)@.scope.len() + if nam is Some {
                1int
            } else {
                0int
            },
    {
        match nam {
            Some(n) => {
                self.scope.push(Binder { nam: n.clone(), port: p, used: None });
                proof {
                    assert(self@.scope =~= old(self)@.scope.push(
                        BinderView { nam: n@, port: p, used: None },
                    ));
                }
            },
            None => {},
        }
    }

    /// Leaves a binder: the port that stands for the variable is linked to
    /// the port where the variable was used, or to an eraser.
    fn leave_binder(&mut self, nam: &Option<Name>, p: Port)
        requires
            sound(old(self)@),
            in_net(p, old(self)@.net),
            nam is Some ==> old(self)@.scope.len() > 0,
        ensures
            final(self)@ == without_binder(old(self)@, opt_ident(*nam), p),
            sound(final(self)@),
            final(self)@.net.len() >= old(self)@.net.len(),
            final(self)@.scope.len() == old(self)@.scope.len() - if nam is Some {
                1int
            } else {
                0int
            },
    {
        match nam {
            Some(_) => {
                let ghost last = self@.scope.last();
                let b = self.scope.pop().unwrap();
                proof {
                    assert(b@ == last);
                    assert(self@.scope =~= old(self)@.scope.drop_last());
                    assert(old(self)@.scope[old(self)@.scope.len() - 1] == last);
                }
                match b.used {
                    Some(u) => {
                        self.link_ports(b.port, u);
                    },
                    None => {
                        self.link_eraser(b.port);
                    },
                }
            },
            None => {
                self.link_eraser(p);
            },
        }
    }

    /// Records the use of a variable at the port `up`.
    fn use_var(&mut self, nam: &Name, up: Port) -> (r: Result<(), EncodeError>)
        requires
            sound(old(self)@),
            in_net(up, old(self)@.net),
        ensures
            match r {
                Ok(_) => with_var_use(nam@, up, old(self)@) == Ok::<EncoderView, EncodeErrorView>(
                    final(self)@,
                )
                    && sound(final(self)@)
                    && final(self)@.net == old(self)@.net
                    && final(self)@.scope.len() == old(self)@.scope.len(),
                Err(e) => with_var_use(nam@, up, old(self)@) == Err::<EncoderView, EncodeErrorView>(
                    e@,
                ),
            },
    {
        let ghost scope = self@.scope;
        let mut i: usize = self.scope.len();
        proof {
            assert(scope.take(scope.len() as int) =~= scope);
        }
        while i > 0
            invariant
                i <= self.scope.len(),
                *self == *old(self),
                sound(old(self)@),
                in_net(up, old(self)@.net),
                scope == self@.scope,
                find_binder(scope, nam@) == find_binder(scope.take(i as int), nam@),
            decreases i,
        {
            proof {
                assert(scope.take(i as int).drop_last() =~= scope.take(i - 1));
                assert(scope.take(i as int).last() == scope[i - 1]);
            }
            if self.scope[i - 1].nam.same(nam) {
                match self.scope[i - 1].used {
                    Some(_) => {
                        return Err(EncodeError::VariableUsedTwice(nam.clone()));
                    },
                    None => {
                        let p = self.scope[i - 1].port;
                        let name = self.scope[i - 1].nam.clone();
                        self.scope.set(i - 1, Binder { nam: name, port: p, used: Some(up) });
                        proof {
                            assert(self@.scope =~= scope.update(
                                i - 1,
                                BinderView { nam: scope[i - 1].nam, port: p, used: Some(up) },
                            ));
                        }
                        return Ok(());
                    },
                }
            }
            i -= 1;
        }
        Err(EncodeError::UnboundVariable(nam.clone()))
    }

    /// The position of a channel in the table of channels, if it is there.
    fn find_channel(&self, nam: &Name) -> (r: Option<usize>)
        ensures
            match r {
                Some(i) => position(channel_names(self@.chans), nam@) == Some(i as int) && i
                    < self.chans.len(),
                None => position(channel_names(self@.chans), nam@) is None,
            },
    {
        let ghost keys = channel_names(self@.chans);
        let mut i: usize = 0;
        while i < self.chans.len()
            invariant
                i <= self.chans.len(),
                keys == channel_names(self@.chans),
                forall|j: int| 0 <= j < i ==> keys[j] != nam@,
            decreases self.chans.len() - i,
        {
            if self.chans[i].nam.same(nam) {
                proof {
                    lemma_position_found(keys, nam@, i as int);
                }
                return Some(i);
            }
            i += 1;
        }
        proof {
            lemma_position_absent(keys, nam@);
        }
        None
    }

    /// Records the declaration of a channel at the port `p`.
    fn declare_channel(&mut self, nam: &Name, p: Port) -> (r: Result<(), EncodeError>)
        requires
            sound(old(self)@),
            in_net(p, old(self)@.net),
        ensures
            match r {
                Ok(_) => with_channel_decl(nam@, p, old(self)@) == Ok::<
                    EncoderView,
                    EncodeErrorView,
                >(final(self)@) && sound(final(self)@) && final(self)@.net == old(self)@.net
                    && final(self)@.scope == old(self)@.scope,
                Err(e) => with_channel_decl(nam@, p, old(self)@) == Err::<
                    EncoderView,
                    EncodeErrorView,
                >(e@),
            },
    {
        let ghost chans = self@.chans;
        match self.find_channel(nam) {
            Some(i) => {
                match self.chans[i].decl {
                    Some(_) => Err(EncodeError::ChannelDeclaredTwice(nam.clone())),
                    None => {
                        let used = self.chans[i].used;
                        let name = self.chans[i].nam.clone();
                        self.chans.set(i, Channel { nam: name, decl: Some(p), used });
                        proof {
                            assert(self@.chans =~= chans.update(
                                i as int,
                                ChannelView { nam: chans[i as int].nam, decl: Some(p), used },
                            ));
                        }
                        Ok(())
                    },
                }
            },
            None => {
                self.chans.push(Channel { nam: nam.clone(), decl: Some(p), used: None });
                proof {
                    assert(self@.chans =~= chans.push(
                        ChannelView { nam: nam@, decl: Some(p), used: None },
                    ));
                }
                Ok(())
            },
        }
    }

    /// Records the use of a channel at the port `up`.
    fn use_channel(&mut self, nam: &Name, up: Port) -> (r: Result<(), EncodeError>)
        requires
            sound(old(self)@),
            in_net(up, old(self)@.net),
        ensures
            match r {
                Ok(_) => with_channel_use(nam@, up, old(self)@) == Ok::<
                    EncoderView,
                    EncodeErrorView,
                >(final(self)@) && sound(final(self)@) && final(self)@.net == old(self)@.net
                    && final(self)@.scope == old(self)@.scope,
                Err(e) => with_channel_use(nam@, up, old(self)@) == Err::<
                    EncoderView,
                    EncodeErrorView,
                >(e@),
            },
    {
        let ghost chans = self@.chans;
        match self.find_channel(nam) {
            Some(i) => {
                match self.chans[i].used {
                    Some(_) => Err(EncodeError::ChannelUsedTwice(nam.clone())),
                    None => {
                        let decl = self.chans[i].decl;
                        let name = self.chans[i].nam.clone();
                        self.chans.set(i, Channel { nam: name, decl, used: Some(up) });
                        proof {
                            assert(self@.chans =~= chans.update(
                                i as int,
                                ChannelView { nam: chans[i as int].nam, decl, used: Some(up) },
                            ));
                        }
                        Ok(())
                    },
                }
            },
            None => {
                self.chans.push(Channel { nam: nam.clone(), decl: None, used: Some(up) });
                proof {
                    assert(self@.chans =~= chans.push(
                        ChannelView { nam: nam@, decl: None, used: Some(up) },
                    ));
                }
                Ok(())
            },
        }
    }
}

impl Encoder {
    /// Encodes a term at the port `up`. Gives back the port of the term,
    /// if it has one to be linked to `up`.
    pub fn encode_term(&mut self, term: &Term, up: Port) -> (r: Result<Option<Port>, EncodeError>)
        requires
            sound(old(self)@),
            in_net(up, old(self)@.net),
        ensures
            match r {
                Ok(p) => {
                    &&& encoded(term@, up, old(self)@) == Ok::<Encoded, EncodeErrorView>(
                        Encoded { port: p, state: final(self)@ },
                    )
                    &&& sound(final(self)@)
                    &&& final(self)@.net.len() >= old(self)@.net.len()
                    &&& final(self)@.scope.len() == old(self)@.scope.len()
                    &&& opt_in_net(p, final(self)@.net)
                },
                Err(e) => encoded(term@, up, old(self)@) == Err::<Encoded, EncodeErrorView>(e@),
            },
        decreases term, 1nat,
    {
        match term {
            Term::Lam { .. } => self.encode_lam(term, up),
            Term::Var { nam } => {
                match self.use_var(nam, up) {
                    Ok(_) => Ok(None),
                    Err(e) => Err(e),
                }
            },
            Term::Chn { .. } => self.encode_chn(term, up),
            Term::Lnk { nam } => {
                match self.use_channel(nam, up) {
                    Ok(_) => Ok(None),
                    Err(e) => Err(e),
                }
            },
            Term::App { .. } => self.encode_app(term, up),
            Term::Dup { .. } => self.encode_dup(term, up),
            Term::Sup { .. } => self.encode_sup(term, up),
            Term::Num { val } => {
                if *val > LABEL_MASK {
                    return Err(EncodeError::NumberTooLarge(*val));
                }
                let node = self.add_node(NUM | *val);
                Ok(Some(port(node, 0)))
            },
            Term::Era => {
                let node = self.add_node(ERA);
                Ok(Some(port(node, 0)))
            },
            Term::Ref { nam } => {
                let label = match self.name_index(nam) {
                    Ok(l) => l,
                    Err(e) => {
                        return Err(e);
                    },
                };
                let node = self.add_node(REF | label);
                Ok(Some(port(node, 0)))
            },
            Term::Opx { .. } => self.encode_opx(term, up),
            _ => Err(EncodeError::Unsupported),
        }
    }

    /// Encodes a lambda.
    fn encode_lam(&mut self, term: &Term, up: Port) -> (r: Result<Option<Port>, EncodeError>)
        requires
            sound(old(self)@),
            in_net(up, old(self)@.net),
            term is Lam,
        ensures
            match r {
                Ok(p) => {
                    &&& encoded(term@, up, old(self)@) == Ok::<Encoded, EncodeErrorView>(
                        Encoded { port: p, state: final(self)@ },
                    )
                    &&& sound(final(self)@)
                    &&& final(self)@.net.len() >= old(self)@.net.len()
                    &&& final(self)@.scope.len() == old(self)@.scope.len()
                    &&& opt_in_net(p, final(self)@.net)
                },
                Err(e) => encoded(term@, up, old(self)@) == Err::<Encoded, EncodeErrorView>(e@),
            },
        decreases term, 0nat,
    {
        match term {
            Term::Lam { tag, nam, bod } => {
                let label = match self.label_of(tag) {
                    Ok(l) => l,
                    Err(e) => {
                        return Err(e);
                    },
                };
                let node = self.add_node(CON | label);
                let var_port = port(node, 1);
                let body_port = port(node, 2);
                self.push_binder(nam, var_port);
                let b = match self.encode_term(bod, body_port) {
                    Ok(b) => b,
                    Err(e) => {
                        return Err(e);
                    },
                };
                self.link_local(body_port, b);
                self.leave_binder(nam, var_port);
                Ok(Some(port(node, 0)))
            },
            _ => Err(EncodeError::Unsupported),
        }
    }

    /// Encodes the declaration of a channel.
    fn encode_chn(&mut self, term: &Term, up: Port) -> (r: Result<Option<Port>, EncodeError>)
        requires
            sound(old(self)@),
            in_net(up, old(self)@.net),
            term is Chn,
        ensures
            match r {
                Ok(p) => {
                    &&& encoded(term@, up, old(self)@) == Ok::<Encoded, EncodeErrorView>(
                        Encoded { port: p, state: final(self)@ },
                    )
                    &&& sound(final(self)@)
                    &&& final(self)@.net.len() >= old(self)@.net.len()
                    &&& final(self)@.scope.len() == old(self)@.scope.len()
                    &&& opt_in_net(p, final(self)@.net)
                },
                Err(e) => encoded(term@, up, old(self)@) == Err::<Encoded, EncodeErrorView>(e@),
            },
        decreases term, 0nat,
    {
        match term {
            Term::Chn { tag, nam, bod } => {
                let label = match self.label_of(tag) {
                    Ok(l) => l,
                    Err(e) => {
                        return Err(e);
                    },
                };
                let node = self.add_node(CON | label);
                let body_port = port(node, 2);
                match self.declare_channel(nam, port(node, 1)) {
                    Ok(_) => {},
                    Err(e) => {
                        return Err(e);
                    },
                }
                let b = match self.encode_term(bod, body_port) {
                    Ok(b) => b,
                    Err(e) => {
                        return Err(e);
                    },
                };
                self.link_local(body_port, b);
                Ok(Some(port(node, 0)))
            },
            _ => Err(EncodeError::Unsupported),
        }
    }

    /// Encodes an application.
    fn encode_app(&mut self, term: &Term, up: Port) -> (r: Result<Option<Port>, EncodeError>)
        requires
            sound(old(self)@),
            in_net(up, old(self)@.net),
            term is App,
        ensures
            match r {
                Ok(p) => {
                    &&& encoded(term@, up, old(self)@) == Ok::<Encoded, EncodeErrorView>(
                        Encoded { port: p, state: final(self)@ },
                    )
                    &&& sound(final(self)@)
                    &&& final(self)@.net.len() >= old(self)@.net.len()
                    &&& final(self)@.scope.len() == old(self)@.scope.len()
                    &&& opt_in_net(p, final(self)@.net)
                },
                Err(e) => encoded(term@, up, old(self)@) == Err::<Encoded, EncodeErrorView>(e@),
            },
        decreases term, 0nat,
    {
        match term {
            Term::App { tag, fun, arg } => {
                let label = match self.label_of(tag) {
                    Ok(l) => l,
                    Err(e) => {
                        return Err(e);
                    },
                };
                let node = self.add_node(CON | label);
                let fun_port = port(node, 2);
                let arg_port = port(node, 0);
                let f = match self.encode_term(fun, fun_port) {
                    Ok(f) => f,
                    Err(e) => {
                        return Err(e);
                    },
                };
                self.link_local(fun_port, f);
                let a = match self.encode_term(arg, arg_port) {
                    Ok(a) => a,
                    Err(e) => {
                        return Err(e);
                    },
                };
                self.link_local(arg_port, a);
                Ok(Some(port(node, 1)))
            },
            _ => Err(EncodeError::Unsupported),
        }
    }

    /// Encodes a duplication.
    fn encode_dup(&mut self, term: &Term, up: Port) -> (r: Result<Option<Port>, EncodeError>)
        requires
            sound(old(self)@),
            in_net(up, old(self)@.net),
            term is Dup,
        ensures
            match r {
                Ok(p) => {
                    &&& encoded(term@, up, old(self)@) == Ok::<Encoded, EncodeErrorView>(
                        Encoded { port: p, state: final(self)@ },
                    )
                    &&& sound(final(self)@)
                    &&& final(self)@.net.len() >= old(self)@.net.len()
                    &&& final(self)@.scope.len() == old(self)@.scope.len()
                    &&& opt_in_net(p, final(self)@.net)
                },
                Err(e) => encoded(term@, up, old(self)@) == Err::<Encoded, EncodeErrorView>(e@),
            },
        decreases term, 0nat,
    {
        match term {
            Term::Dup { tag, bnd, val, nxt } => {
                proof {
                    assert(opt_idents(bnd@).len() == bnd.len());
                }
                if bnd.len() != 2 {
                    return Err(EncodeError::Unsupported);
                }
                let label = match self.label_of(tag) {
                    Ok(l) => l,
                    Err(e) => {
                        return Err(e);
                    },
                };
                let node = self.add_node(DUP | label);
                let val_port = port(node, 0);
                let fst_port = port(node, 1);
                let snd_port = port(node, 2);
                let v = match self.encode_term(val, val_port) {
                    Ok(v) => v,
                    Err(e) => {
                        return Err(e);
                    },
                };
                self.link_local(val_port, v);
                self.push_binder(&bnd[0], fst_port);
                self.push_binder(&bnd[1], snd_port);
                let n = match self.encode_term(nxt, up) {
                    Ok(n) => n,
                    Err(e) => {
                        return Err(e);
                    },
                };
                self.leave_binder(&bnd[1], snd_port);
                self.leave_binder(&bnd[0], fst_port);
                Ok(n)
            },
            _ => Err(EncodeError::Unsupported),
        }
    }

    /// Encodes a superposition.
    fn encode_sup(&mut self, term: &Term, up: Port) -> (r: Result<Option<Port>, EncodeError>)
        requires
            sound(old(self)@),
            in_net(up, old(self)@.net),
            term is Sup,
        ensures
            match r {
                Ok(p) => {
                    &&& encoded(term@, up, old(self)@) == Ok::<Encoded, EncodeErrorView>(
                        Encoded { port: p, state: final(self)@ },
                    )
                    &&& sound(final(self)@)
                    &&& final(self)@.net.len() >= old(self)@.net.len()
                    &&& final(self)@.scope.len() == old(self)@.scope.len()
                    &&& opt_in_net(p, final(self)@.net)
                },
                Err(e) => encoded(term@, up, old(self)@) == Err::<Encoded, EncodeErrorView>(e@),
            },
        decreases term, 0nat,
    {
        match term {
            Term::Sup { tag, els } => {
                proof {
                    assert(terms_view(els@).len() == els.len());
                }
                if els.len() != 2 {
                    return Err(EncodeError::Unsupported);
                }
                let label = match self.label_of(tag) {
                    Ok(l) => l,
                    Err(e) => {
                        return Err(e);
                    },
                };
                let node = self.add_node(DUP | label);
                let fst_port = port(node, 1);
                let snd_port = port(node, 2);
                let x = match self.encode_term(&els[0], fst_port) {
                    Ok(x) => x,
                    Err(e) => {
                        return Err(e);
                    },
                };
                self.link_local(fst_port, x);
                let y = match self.encode_term(&els[1], snd_port) {
                    Ok(y) => y,
                    Err(e) => {
                        return Err(e);
                    },
                };
                self.link_local(snd_port, y);
                Ok(Some(port(node, 0)))
            },
            _ => Err(EncodeError::Unsupported),
        }
    }

    /// Encodes a numeric operation.
    fn encode_opx(&mut self, term: &Term, up: Port) -> (r: Result<Option<Port>, EncodeError>)
        requires
            sound(old(self)@),
            in_net(up, old(self)@.net),
            term is Opx,
        ensures
            match r {
                Ok(p) => {
                    &&& encoded(term@, up, old(self)@) == Ok::<Encoded, EncodeErrorView>(
                        Encoded { port: p, state: final(self)@ },
                    )
                    &&& sound(final(self)@)
                    &&& final(self)@.net.len() >= old(self)@.net.len()
                    &&& final(self)@.scope.len() == old(self)@.scope.len()
                    &&& opt_in_net(p, final(self)@.net)
                },
                Err(e) => encoded(term@, up, old(self)@) == Err::<Encoded, EncodeErrorView>(e@),
            },
        decreases term, 0nat,
    {
        match term {
            Term::Opx { opr, fst, snd } => {
                let node = self.add_node(NUMOP | op_number(*opr));
                let fst_port = port(node, 0);
                let snd_port = port(node, 1);
                let a = match self.encode_term(fst, fst_port) {
                    Ok(a) => a,
                    Err(e) => {
                        return Err(e);
                    },
                };
                self.link_local(fst_port, a);
                let b = match self.encode_term(snd, snd_port) {
                    Ok(b) => b,
                    Err(e) => {
                        return Err(e);
                    },
                };
                self.link_local(snd_port, b);
                Ok(Some(port(node, 2)))
            },
            _ => Err(EncodeError::Unsupported),
        }
    }
}

/// The label of a numeric operation.
pub fn op_number(opr: Op) -> (r: u64)
    ensures
        r == op_label(opr),
{
    match opr {
        Op::Add => 0,
        Op::Sub => 1,
        Op::Mul => 2,
        Op::Div => 3,
        Op::Rem => 4,
        Op::Eql => 5,
        Op::Neq => 6,
        Op::Ltn => 7,
        Op::Gtn => 8,
        Op::Lte => 9,
        Op::Gte => 10,
        Op::And => 11,
        Op::Or => 12,
        Op::Xor => 13,
        Op::Shl => 14,
        Op::Shr => 15,
    }
}

/// Encodes a term into a net. Gives the net and the table of the names
/// that its reference nodes stand for: the label of a reference node is the
/// position of the name in the table.
pub fn encode(term: &Term) -> (r: Result<(INet, Vec<Name>), EncodeError>)
    ensures
        match r {
            Ok(out) => encoded_net(term@) == Ok::<NetView, EncodeErrorView>(
                NetView { net: out.0@, names: idents(out.1@) },
            ) && well_formed(out.0@),
            Err(e) => encoded_net(term@) == Err::<NetView, EncodeErrorView>(e@),
        },
{
    let mut enc = Encoder::new();
    let top = match enc.encode_term(term, ROOT) {
        Ok(p) => p,
        Err(e) => {
            return Err(e);
        },
    };
    enc.link_local(ROOT, top);
    let ghost whole = enc@;
    let mut k: usize = 0;
    while k < enc.chans.len()
        invariant
            k <= enc.chans.len(),
            sound(enc@),
            sound(whole),
            enc@.chans == whole.chans,
            enc@.net.len() == whole.net.len(),
            with_channels_linked(whole, k as int) == Ok::<EncoderView, EncodeErrorView>(enc@),
            encoded(term@, ROOT, initial_state()) matches Ok(r) && with_local_link(
                r.state,
                ROOT,
                r.port,
            ) == whole,
        decreases enc.chans.len() - k,
    {
        let decl = enc.chans[k].decl;
        let used = enc.chans[k].used;
        proof {
            assert(whole.chans[k as int] == enc.chans@[k as int]@);
        }
        match (decl, used) {
            (Some(d), Some(u)) => {
                enc.link_ports(d, u);
            },
            _ => {
                let name = enc.chans[k].nam.clone();
                proof {
                    let n = whole.chans.len() as int;
                    lemma_channels_fail(whole, k as int + 1, n);
                }
                return Err(EncodeError::UnpairedChannel(name));
            },
        }
        k += 1;
    }
    Ok((enc.inet, enc.names))
}

/// Where the linking of the first channels fails, the linking of more
/// channels fails in the same way.
proof fn lemma_channels_fail(st: EncoderView, k: int, n: int)
    requires
        k <= n,
        with_channels_linked(st, k) is Err,
    ensures
        with_channels_linked(st, n) == with_channels_linked(st, k),
    decreases n - k,
{
    if k < n {
        lemma_channels_fail(st, k, n - 1);
    }
}

} // verus!
