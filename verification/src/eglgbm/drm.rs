//! The nodes of a graphics device.
use vstd::prelude::*;

verus! {

/// The number of the node for rendering.
pub const DRM_NODE_RENDER: u32 = 2;

/// A graphics device: which of its nodes are there, and their paths.
#[derive(Debug)]
pub struct DrmDevice {
    pub available_nodes: u32,
    pub nodes: Vec<String>,
}

impl DrmDevice {
    /// Whether a node is there.
    pub open spec fn has_node(self, node: u32) -> bool {
        self.available_nodes & (1u32 << node) != 0
    }

    /// The path of the node for rendering, if it is there.
    pub fn render_node(&self) -> (r: Option<&String>)
        requires
            self.has_node(DRM_NODE_RENDER) ==> self.nodes.len() > DRM_NODE_RENDER,
        ensures
            r == (if self.has_node(DRM_NODE_RENDER) {
                Some(&self.nodes@[DRM_NODE_RENDER as int])
            } else {
                None
            }),
    {
        self.get_node(DRM_NODE_RENDER)
    }

    /// The path of a node, if it is there.
    pub fn get_node(&self, node: u32) -> (r: Option<&String>)
        requires
            node < 32,
            self.has_node(node) ==> node < self.nodes.len(),
        ensures
            r == (if self.has_node(node) {
                Some(&self.nodes@[node as int])
            } else {
                None
            }),
    {
        if self.available_nodes & (1u32 << node) == 0 {
            None
        } else {
            Some(&self.nodes[node as usize])
        }
    }
}

} // verus!
