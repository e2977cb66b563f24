//! Tree nodes.

use crate::float::{F32, F64};
use vstd::prelude::*;

verus! {

/// What a node is: a split or a leaf.
#[derive(Debug, Clone, Copy, PartialEq, Eq, Structural)]
pub enum NodeType {
    /// A split.
    Internal {
        /// Feature that the split looks at.
        feature_idx: usize,
        /// Rows whose bin is at most this go left.
        bin_threshold: u8,
        /// Rows whose raw value is at most this go left.
        split_value: F64,
        /// Index of the left child.
        left_child: usize,
        /// Index of the right child.
        right_child: usize,
        /// Whether missing values (bin 0) go left.
        default_left: bool,
        /// The gain of the split.
        gain: F32,
    },
    /// A leaf.
    Leaf {
        /// What the leaf predicts.
        value: F32,
    },
}

/// A node of a tree.
#[derive(Debug, Clone, Copy, PartialEq, Eq, Structural)]
pub struct Node {
    /// Split or leaf.
    pub node_type: NodeType,
    /// Distance from the root.
    pub depth: usize,
    /// Number of rows in the node.
    pub num_samples: usize,
    /// Gradient sum of the rows.
    pub sum_gradients: F32,
    /// Hessian sum of the rows.
    pub sum_hessians: F32,
}

/// What [`Node::split_info`] gives: feature, bin threshold, split value, left
/// child, right child, direction of missing values, gain.
pub type SplitFields = (usize, u8, F64, usize, usize, bool, F32);

impl Node {
    /// A leaf.
    pub fn leaf(value: F32, depth: usize, num_samples: usize, sum_g: F32, sum_h: F32) -> (node: Node)
        ensures
            node == (Node {
                node_type: NodeType::Leaf { value },
                depth,
                num_samples,
                sum_gradients: sum_g,
                sum_hessians: sum_h,
            }),
    {
        Node { node_type: NodeType::Leaf { value }, depth, num_samples, sum_gradients: sum_g, sum_hessians: sum_h }
    }

    /// A split.
    pub fn internal(
        feature_idx: usize,
        bin_threshold: u8,
        split_value: F64,
        left_child: usize,
        right_child: usize,
        default_left: bool,
        gain: F32,
        depth: usize,
        num_samples: usize,
        sum_g: F32,
        sum_h: F32,
    ) -> (node: Node)
        ensures
            node == (Node {
                node_type: NodeType::Internal {
                    feature_idx,
                    bin_threshold,
                    split_value,
                    left_child,
                    right_child,
                    default_left,
                    gain,
                },
                depth,
                num_samples,
                sum_gradients: sum_g,
                sum_hessians: sum_h,
            }),
    {
        Node {
            node_type: NodeType::Internal {
                feature_idx,
                bin_threshold,
                split_value,
                left_child,
                right_child,
                default_left,
                gain,
            },
            depth,
            num_samples,
            sum_gradients: sum_g,
            sum_hessians: sum_h,
        }
    }

    /// Whether this is a leaf.
    pub fn is_leaf(&self) -> (leaf: bool)
        ensures
            leaf == (self.node_type is Leaf),
    {
        match self.node_type {
            NodeType::Leaf { .. } => true,
            NodeType::Internal { .. } => false,
        }
    }

    /// What a leaf predicts; `None` for a split.
    pub fn leaf_value(&self) -> (value: Option<F32>)
        ensures
            value == (match self.node_type {
                NodeType::Leaf { value } => Some(value),
                NodeType::Internal { .. } => None,
            }),
    {
        match self.node_type {
            NodeType::Leaf { value } => Some(value),
            NodeType::Internal { .. } => None,
        }
    }

    /// The fields of a split; `None` for a leaf.
    pub fn split_info(&self) -> (fields: Option<SplitFields>)
        ensures
            fields == (match self.node_type {
                NodeType::Internal {
                    feature_idx,
                    bin_threshold,
                    split_value,
                    left_child,
                    right_child,
                    default_left,
                    gain,
                } => Some((feature_idx, bin_threshold, split_value, left_child, right_child, default_left, gain)),
                NodeType::Leaf { .. } => None,
            }),
    {
        match self.node_type {
            NodeType::Internal {
                feature_idx,
                bin_threshold,
                split_value,
                left_child,
                right_child,
                default_left,
                gain,
            } => Some((feature_idx, bin_threshold, split_value, left_child, right_child, default_left, gain)),
            NodeType::Leaf { .. } => None,
        }
    }
}

} // verus!
