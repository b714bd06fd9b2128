//! The ways in which an operation of this crate can fail.
use vstd::prelude::*;

verus! {

/// A failure that the caller can inspect and recover from.
#[derive(Clone, Copy, Debug, PartialEq, Eq, Structural)]
pub enum LayoutError {
    /// The node does not belong to the tree it was handed to.
    UnknownNode,
    /// An option has a name that is not recognised, or a value is malformed:
    /// it is of the wrong kind, or out of the range that its place allows.
    InvalidOption,
    /// A symbolic value names no variant of the property it is given for.
    InvalidEnumValue,
    /// The node to attach already has a parent.
    DuplicateAttachment,
    /// No layout has been computed for the node.
    NotYetComputed,
}

impl LayoutError {
    /// The text of the short description of each failure.
    pub open spec fn description_spec(self) -> Seq<char> {
        match self {
            LayoutError::UnknownNode => "node does not belong to this tree"@,
            LayoutError::InvalidOption => "unrecognised option or malformed value"@,
            LayoutError::InvalidEnumValue => "unrecognised symbolic value"@,
            LayoutError::DuplicateAttachment => "node already has a parent"@,
            LayoutError::NotYetComputed => "layout has not been computed"@,
        }
    }

    /// A short description, for messages.
    pub fn description(&self) -> (r: &'static str)
        ensures
            r@ == self.description_spec(),
    {
        match self {
            LayoutError::UnknownNode => "node does not belong to this tree",
            LayoutError::InvalidOption => "unrecognised option or malformed value",
            LayoutError::InvalidEnumValue => "unrecognised symbolic value",
            LayoutError::DuplicateAttachment => "node already has a parent",
            LayoutError::NotYetComputed => "layout has not been computed",
        }
    }
}

} // verus!
