//! Property targets: which property of which live node an effective value
//! or an animation track addresses, the value kinds a property holds, and
//! the ways a set of values can be refused.

use vstd::prelude::*;
use crate::ident::NodeKey;

verus! {

/// An animatable document property.
#[derive(Debug, Clone, Copy, PartialEq, Eq, PartialOrd, Ord, Hash, Structural)]
pub enum PropertyKey {
    X,
    Y,
    Width,
    Height,
    Opacity,
    Fills,
    LensOps,
    PathGeometry,
}

/// One property of one runtime node.
#[derive(Debug, Clone, Copy, PartialEq, Eq, PartialOrd, Ord, Hash, Structural)]
pub struct PropertyTarget {
    pub node: NodeKey,
    pub property: PropertyKey,
}

impl PropertyTarget {
    pub fn new(node: NodeKey, property: PropertyKey) -> (target: Self)
        ensures
            target == (PropertyTarget { node, property }),
    {
        PropertyTarget { node, property }
    }
}

/// The kind of a complete property value.
#[derive(Debug, Clone, Copy, PartialEq, Eq, Hash, Structural)]
pub enum PropertyValueKind {
    AxisBinding,
    SizeIntent,
    Number,
    Paints,
    LensOps,
    PathGeometry,
}

/// The edge an axis pin is measured from.
#[derive(Debug, Clone, Copy, PartialEq, Eq, Hash, Structural)]
pub enum AnchorEdge {
    Start,
    Center,
    End,
}

/// Why a set of effective property values was refused.
#[derive(Debug, Clone, PartialEq, Eq)]
pub enum PropertyError {
    DuplicateTarget { target: PropertyTarget },
    StaleTarget { target: PropertyTarget },
    WrongValueKind { target: PropertyTarget, expected: PropertyValueKind, actual: PropertyValueKind },
    Inapplicable { target: PropertyTarget },
    InvalidValue { target: PropertyTarget },
    /// The combined values leave one node in an invalid state.
    InvalidEffectiveState { node: NodeKey, properties: Vec<PropertyKey> },
}

} // verus!
