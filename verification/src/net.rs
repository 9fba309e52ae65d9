//! The interaction net as a flat array of 64-bit words.
//!
//! A node takes four consecutive words: its three ports (slots 0, 1 and 2)
//! and its kind. A port is named by the index of its word, that is, by the
//! address of its node shifted left by two, with the slot in the low two
//! bits. The word of a port holds the port it is linked to.
use vstd::prelude::*;

verus! {

pub type NodeVal = u64;

pub type NodeKind = NodeVal;

pub type Port = NodeVal;

pub type NodeId = NodeVal;

pub type SlotId = NodeVal;

/// The net: the words of its nodes, node after node.
#[derive(Clone, Debug)]
pub struct INet {
    pub nodes: Vec<NodeVal>,
}

impl View for INet {
    type V = Seq<NodeVal>;

    open spec fn view(&self) -> Seq<NodeVal> {
        self.nodes@
    }
}

/// A node read back from the net: its kind and, for each slot, what the slot
/// is linked to, as text.
#[derive(Debug)]
pub struct INode {
    pub kind: NodeKind,
    pub ports: [String; 3],
}

pub type INodes = Vec<INode>;

/// The root port: slot 1 of the deadlocked root node at address 0.
pub const ROOT: Port = 1;

/// The number of bits, at the top of a kind word, that hold the node's tag.
pub const TAG_WIDTH: u32 = 4;

/// The number of bits, at the bottom of a kind word, that hold the label.
pub const TAG: u32 = 64 - TAG_WIDTH;

pub const ERA: NodeKind = 0 << TAG;

pub const CON: NodeKind = 1 << TAG;

pub const DUP: NodeKind = 2 << TAG;

pub const REF: NodeKind = 3 << TAG;

pub const NUM: NodeKind = 4 << TAG;

pub const NUMOP: NodeKind = 5 << TAG;

pub const LABEL_MASK: NodeKind = u64::MAX >> TAG_WIDTH;

pub const TAG_MASK: NodeKind = !LABEL_MASK;

/// The port of a node at a slot, as a number.
pub open spec fn port_of(node: NodeId, slot: SlotId) -> Port {
    (node << 2) | slot
}

/// The address of the node that a port belongs to.
pub open spec fn addr_of(port: Port) -> NodeId {
    port >> 2
}

/// The slot of a port.
pub open spec fn slot_of(port: Port) -> SlotId {
    port & 3
}

/// A net is laid out in whole nodes, the first of which is the root node.
pub open spec fn well_formed(net: Seq<NodeVal>) -> bool {
    net.len() >= 4 && net.len() % 4 == 0
}

/// Create a new net, with a deadlocked root node.
pub fn new_inet() -> (inet: INet)
    ensures
        inet@ == seq![2u64, 1u64, 0u64, ERA],
        well_formed(inet@),
{
    let mut nodes: Vec<NodeVal> = Vec::new();
    nodes.push(2);
    nodes.push(1);
    nodes.push(0);
    nodes.push(ERA);
    assert(nodes@ =~= seq![2u64, 1u64, 0u64, ERA]);
    INet { nodes }
}

/// Allocates a new node of the given kind at the end of the net, each of its
/// ports linked to itself, and returns its address.
pub fn new_node(inet: &mut INet, kind: NodeKind) -> (node: NodeId)
    ensures
        node == addr_of(old(inet)@.len() as u64),
        final(inet)@ == old(inet)@ + seq![port_of(node, 0), port_of(node, 1), port_of(node, 2), kind],
        well_formed(old(inet)@) ==> {
            &&& well_formed(final(inet)@)
            &&& node * 4 == old(inet)@.len()
            &&& forall|s: u64| 0 <= s < 4 ==> #[trigger] port_of(node, s) == old(inet)@.len() + s
        },
{
    let len: u64 = inet.nodes.len() as u64;
    let node: u64 = addr(len);
    inet.nodes.push(port(node, 0));
    inet.nodes.push(port(node, 1));
    inet.nodes.push(port(node, 2));
    inet.nodes.push(kind);
    let grown: usize = inet.nodes.len();
    proof {
        assert(final(inet)@ =~= old(inet)@ + seq![
            port_of(node, 0),
            port_of(node, 1),
            port_of(node, 2),
            kind,
        ]);
        if well_formed(old(inet)@) {
            assert(len % 4 == 0 ==> (len >> 2) * 4 == len) by (bit_vector);
            assert forall|s: u64| 0 <= s < 4 implies #[trigger] port_of(node, s) == len + s by {
                assert(len % 4 == 0 && s < 4 ==> ((len >> 2) << 2) | s == len + s) by (bit_vector);
            }
        }
    }
    node
}

/// Builds a port (an address / slot pair).
pub fn port(node: NodeId, slot: SlotId) -> (p: Port)
    ensures
        p == port_of(node, slot),
{
    (node << 2) | slot
}

/// Returns the address of a port.
pub fn addr(port: Port) -> (node: NodeId)
    ensures
        node == addr_of(port),
{
    port >> 2
}

/// Returns the slot of a port.
pub fn slot(port: Port) -> (s: SlotId)
    ensures
        s == slot_of(port),
{
    port & 3
}

/// Enters a port, returning the port on the other side.
pub fn enter(inet: &INet, port: Port) -> (other: Port)
    requires
        port < inet@.len(),
    ensures
        other == inet@[port as int],
{
    let len: usize = inet.nodes.len();
    inet.nodes[port as usize]
}

/// Kind of the node.
pub fn kind(inet: &INet, node: NodeId) -> (k: NodeKind)
    requires
        port_of(node, 3) < inet@.len(),
    ensures
        k == inet@[port_of(node, 3) as int],
{
    let len: usize = inet.nodes.len();
    inet.nodes[port(node, 3) as usize]
}

/// Links two ports.
pub fn link(inet: &mut INet, ptr_a: Port, ptr_b: Port)
    requires
        ptr_a < old(inet)@.len(),
        ptr_b < old(inet)@.len(),
    ensures
        final(inet)@ == old(inet)@.update(ptr_a as int, ptr_b).update(ptr_b as int, ptr_a),
        well_formed(old(inet)@) ==> well_formed(final(inet)@),
{
    let len: usize = inet.nodes.len();
    inet.nodes.set(ptr_a as usize, ptr_b);
    inet.nodes.set(ptr_b as usize, ptr_a);
}

/// A port keeps its address and its slot: of a node whose address fits in
/// 62 bits and a slot below 4, the port gives both back.
pub proof fn lemma_port_round_trip(node: NodeId, slot: SlotId)
    requires
        node < 0x4000_0000_0000_0000,
        slot < 4,
    ensures
        addr_of(port_of(node, slot)) == node,
        slot_of(port_of(node, slot)) == slot,
{
    assert(node < 0x4000_0000_0000_0000 && slot < 4 ==> ((node << 2) | slot) >> 2 == node)
        by (bit_vector);
    assert(node < 0x4000_0000_0000_0000 && slot < 4 ==> ((node << 2) | slot) & 3 == slot)
        by (bit_vector);
}

/// Every port is the port of its address at its slot.
pub proof fn lemma_port_of_parts(p: Port)
    ensures
        port_of(addr_of(p), slot_of(p)) == p,
        slot_of(p) < 4,
        addr_of(p) < 0x4000_0000_0000_0000,
{
    assert(((p >> 2) << 2) | (p & 3) == p) by (bit_vector);
    assert(p & 3 < 4) by (bit_vector);
    assert(p >> 2 < 0x4000_0000_0000_0000) by (bit_vector);
}

/// After a link each of the two ports leads to the other.
pub proof fn lemma_link_enters(net: Seq<NodeVal>, a: Port, b: Port)
    requires
        a < net.len(),
        b < net.len(),
    ensures
        net.update(a as int, b).update(b as int, a)[b as int] == a,
        net.update(a as int, b).update(b as int, a)[a as int] == b,
{
}

/// The kinds are told apart by the tag bits alone, and a label that fits
/// under the tag leaves the tag as it is.
pub proof fn lemma_kind_tags(label: u64)
    requires
        label <= LABEL_MASK,
    ensures
        ERA == 0,
        CON == 0x1000_0000_0000_0000,
        DUP == 0x2000_0000_0000_0000,
        REF == 0x3000_0000_0000_0000,
        NUM == 0x4000_0000_0000_0000,
        NUMOP == 0x5000_0000_0000_0000,
        LABEL_MASK == 0x0fff_ffff_ffff_ffff,
        TAG_MASK == 0xf000_0000_0000_0000,
        (CON | label) & TAG_MASK == CON,
        (DUP | label) & TAG_MASK == DUP,
        (REF | label) & TAG_MASK == REF,
        (NUM | label) & TAG_MASK == NUM,
        (NUMOP | label) & TAG_MASK == NUMOP,
        (CON | label) & LABEL_MASK == label,
        (DUP | label) & LABEL_MASK == label,
        (REF | label) & LABEL_MASK == label,
        (NUM | label) & LABEL_MASK == label,
        (NUMOP | label) & LABEL_MASK == label,
{
    assert(0u64 << 60u32 == 0) by (bit_vector);
    assert(1u64 << 60u32 == 0x1000_0000_0000_0000) by (bit_vector);
    assert(2u64 << 60u32 == 0x2000_0000_0000_0000) by (bit_vector);
    assert(3u64 << 60u32 == 0x3000_0000_0000_0000) by (bit_vector);
    assert(4u64 << 60u32 == 0x4000_0000_0000_0000) by (bit_vector);
    assert(5u64 << 60u32 == 0x5000_0000_0000_0000) by (bit_vector);
    assert(0xffff_ffff_ffff_ffffu64 >> 4u32 == 0x0fff_ffff_ffff_ffff) by (bit_vector);
    assert(!0x0fff_ffff_ffff_ffffu64 == 0xf000_0000_0000_0000) by (bit_vector);
    assert(label <= 0x0fff_ffff_ffff_ffffu64 ==> {
        &&& (0x1000_0000_0000_0000u64 | label) & 0xf000_0000_0000_0000 == 0x1000_0000_0000_0000
        &&& (0x2000_0000_0000_0000u64 | label) & 0xf000_0000_0000_0000 == 0x2000_0000_0000_0000
        &&& (0x3000_0000_0000_0000u64 | label) & 0xf000_0000_0000_0000 == 0x3000_0000_0000_0000
        &&& (0x4000_0000_0000_0000u64 | label) & 0xf000_0000_0000_0000 == 0x4000_0000_0000_0000
        &&& (0x5000_0000_0000_0000u64 | label) & 0xf000_0000_0000_0000 == 0x5000_0000_0000_0000
        &&& (0x1000_0000_0000_0000u64 | label) & 0x0fff_ffff_ffff_ffff == label
        &&& (0x2000_0000_0000_0000u64 | label) & 0x0fff_ffff_ffff_ffff == label
        &&& (0x3000_0000_0000_0000u64 | label) & 0x0fff_ffff_ffff_ffff == label
        &&& (0x4000_0000_0000_0000u64 | label) & 0x0fff_ffff_ffff_ffff == label
        &&& (0x5000_0000_0000_0000u64 | label) & 0x0fff_ffff_ffff_ffff == label
    }) by (bit_vector);
}

} // verus!
