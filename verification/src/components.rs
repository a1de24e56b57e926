use vstd::prelude::*;
use crate::consts::EMPTYNODE;

verus! {

/// A wire as the network build assembles it, before simulation starts.
#[derive(Clone)]
pub struct NodeDefinition {
    /// Summed polygon area of the wire's segments.
    pub area: u64,
    /// The wire's number, or `EMPTYNODE` while no segment has defined it.
    pub num: u16,
    pub pullup: bool,
    pub state: bool,
    /// Indices of the transistors whose gate is this wire.
    pub gates: Vec<u16>,
    /// First and last coordinate of each segment, kept for inspection.
    pub segs: Vec<(u16, u16)>,
}

impl Default for NodeDefinition {
    fn default() -> (def: Self)
        ensures
            def.is_blank(),
    {
        NodeDefinition {
            area: 0,
            num: EMPTYNODE,
            pullup: false,
            state: false,
            gates: Vec::new(),
            segs: Vec::new(),
        }
    }
}

impl NodeDefinition {
    /// A slot that no segment has touched.
    pub open spec fn is_blank(self) -> bool {
        &&& self.area == 0
        &&& self.num == EMPTYNODE
        &&& !self.pullup
        &&& !self.state
        &&& self.gates@.len() == 0
        &&& self.segs@.len() == 0
    }
}

/// A wire of the running network.
pub struct Node {
    /// Current logical level.
    pub state: bool,
    pub pullup: bool,
    pub pulldown: bool,
    pub floating: bool,
    /// Capacitance weight used when nothing drives the wire's group.
    pub area: u64,
    /// Indices of the transistors whose gate is this wire.
    pub gates: Vec<u16>,
}

impl Node {
    /// Starts a wire from its definition: it floats and nothing pulls it down.
    pub fn new(def: NodeDefinition) -> (node: Self)
        ensures
            node.state == def.state,
            node.pullup == def.pullup,
            !node.pulldown,
            node.floating,
            node.area == def.area,
            node.gates == def.gates,
    {
        Node {
            state: def.state,
            pullup: def.pullup,
            pulldown: false,
            floating: true,
            area: def.area,
            gates: def.gates,
        }
    }
}

/// A transistor as the definition tables give it.
pub struct TransistorDefinition {
    pub name: String,
    pub gate: u16,
    pub c1: u16,
    pub c2: u16,
}

/// A bidirectional switch between `c1` and `c2`, closed while `on`.
pub struct Transistor {
    pub on: bool,
    pub c1: u16,
    pub c2: u16,
    pub gate: u16,
}

} // verus!
