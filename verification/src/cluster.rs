//! The static cluster descriptor: one node, a fixed slot range, nothing read
//! back at runtime. Building the value is the library's work; serializing it
//! to disk is the caller's.

use vstd::prelude::*;

verus! {

/// One node of the cluster descriptor.
#[derive(Debug)]
pub struct ClusterNode {
    pub node_id: String,
    pub node_validation: u32,
    pub address: String,
    pub slots: [u32; 2],
}

/// The whole cluster descriptor.
#[derive(Debug)]
pub struct ClusterConfig {
    pub cluster_validation: u32,
    pub nodes: Vec<ClusterNode>,
}

impl ClusterConfig {
    /// The descriptor for a single fresh node: validation fields zero and the
    /// full slot range, from 0 to 16383, on that one node.
    pub fn single_node(node_id: String, address: String) -> (r: ClusterConfig)
        ensures
            r.cluster_validation == 0,
            r.nodes@.len() == 1,
            r.nodes@[0].node_id@ == node_id@,
            r.nodes@[0].node_validation == 0,
            r.nodes@[0].address@ == address@,
            r.nodes@[0].slots@ == seq![0u32, 16383u32],
    {
        let node = ClusterNode { node_id, node_validation: 0, address, slots: [0, 16383] };
        proof {
            assert(node.slots@ =~= seq![0u32, 16383u32]);
        }
        let mut nodes: Vec<ClusterNode> = Vec::new();
        nodes.push(node);
        ClusterConfig { cluster_validation: 0, nodes }
    }
}

} // verus!
