//! Edges of the graph and the limit of a link query.

use crate::node::{Node, NodeID};
use vstd::prelude::*;

verus! {

/// The semantics of a link, one bit each.
#[derive(Clone, Copy, Debug, PartialEq, Eq, Structural, Hash)]
pub struct RelFlags(pub u64);

impl RelFlags {
    /// The flags of that bit pattern.
    pub fn from(bits: u64) -> (r: RelFlags)
        ensures
            r.0 == bits,
    {
        RelFlags(bits)
    }

    /// The bit pattern.
    pub fn as_u64(&self) -> (r: u64)
        ensures
            r == self.0,
    {
        self.0
    }

    /// Whether `self` has a flag in common with `other`.
    pub fn intersects(&self, other: RelFlags) -> (b: bool)
        ensures
            b == (self.0 & other.0 != 0),
    {
        self.0 & other.0 != 0
    }
}

/// How many edges a link query returns, and from which rank on.
#[derive(Clone, Copy, Debug, PartialEq, Eq, Structural)]
pub enum EdgeLimit {
    Unlimited,
    Limit(usize),
    LimitAndOffset { limit: usize, offset: usize },
}

impl EdgeLimit {
    /// The number of edges asked for, if there is a bound.
    pub open spec fn limit_spec(&self) -> Option<usize> {
        match *self {
            EdgeLimit::Unlimited => None,
            EdgeLimit::Limit(limit) => Some(limit),
            EdgeLimit::LimitAndOffset { limit, .. } => Some(limit),
        }
    }

    /// The number of leading edges to pass over, if one was given.
    pub open spec fn offset_spec(&self) -> Option<usize> {
        match *self {
            EdgeLimit::Unlimited => None,
            EdgeLimit::Limit(_) => None,
            EdgeLimit::LimitAndOffset { offset, .. } => Some(offset),
        }
    }

    /// The number of edges asked for, if there is a bound.
    pub fn limit(&self) -> (r: Option<usize>)
        ensures
            r == self.limit_spec(),
    {
        match *self {
            EdgeLimit::Unlimited => None,
            EdgeLimit::Limit(limit) => Some(limit),
            EdgeLimit::LimitAndOffset { limit, .. } => Some(limit),
        }
    }

    /// The number of leading edges to pass over, if one was given.
    pub fn offset(&self) -> (r: Option<usize>)
        ensures
            r == self.offset_spec(),
    {
        match *self {
            EdgeLimit::Unlimited => None,
            EdgeLimit::Limit(_) => None,
            EdgeLimit::LimitAndOffset { offset, .. } => Some(offset),
        }
    }
}

/// An edge by the identities of its ends.
#[derive(Clone, Copy, Debug, PartialEq, Eq, Structural, Hash)]
pub struct SmallEdge {
    pub from: NodeID,
    pub to: NodeID,
    pub rel_flags: RelFlags,
}

/// A `SmallEdge` with the text of the link.
#[derive(Debug, PartialEq, Eq, Hash)]
pub struct SmallEdgeWithLabel {
    pub from: NodeID,
    pub to: NodeID,
    pub rel_flags: RelFlags,
    pub label: String,
}

/// What a `SmallEdgeWithLabel` holds.
pub struct LabelledEdgeView {
    pub from: NodeID,
    pub to: NodeID,
    pub rel_flags: RelFlags,
    pub label: Seq<char>,
}

impl View for SmallEdgeWithLabel {
    type V = LabelledEdgeView;

    open spec fn view(&self) -> LabelledEdgeView {
        LabelledEdgeView {
            from: self.from,
            to: self.to,
            rel_flags: self.rel_flags,
            label: self.label@,
        }
    }
}

impl Clone for SmallEdgeWithLabel {
    fn clone(&self) -> (r: SmallEdgeWithLabel)
        ensures
            r@ == self@,
    {
        SmallEdgeWithLabel {
            from: self.from,
            to: self.to,
            rel_flags: self.rel_flags,
            label: self.label.clone(),
        }
    }
}

/// A stored edge: both ends by name, the flags and text of the link, and
/// the score by which edges are ranked. A larger score is better.
#[derive(Debug, PartialEq, Eq, Hash)]
pub struct Edge {
    pub from: Node,
    pub to: Node,
    pub rel_flags: RelFlags,
    pub label: String,
    pub sort_score: u64,
}

/// What an `Edge` holds.
pub struct EdgeView {
    pub from: Seq<u8>,
    pub to: Seq<u8>,
    pub rel_flags: RelFlags,
    pub label: Seq<char>,
    pub sort_score: u64,
}

impl View for Edge {
    type V = EdgeView;

    open spec fn view(&self) -> EdgeView {
        EdgeView {
            from: self.from@,
            to: self.to@,
            rel_flags: self.rel_flags,
            label: self.label@,
            sort_score: self.sort_score,
        }
    }
}

impl Clone for Edge {
    fn clone(&self) -> (r: Edge)
        ensures
            r@ == self@,
    {
        Edge {
            from: self.from.clone(),
            to: self.to.clone(),
            rel_flags: self.rel_flags,
            label: self.label.clone(),
            sort_score: self.sort_score,
        }
    }
}

} // verus!
