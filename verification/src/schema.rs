//! Enumerations shared by the syntax tree and the normalized model.
use vstd::prelude::*;

verus! {

/// Direction of a component port.
#[derive(Debug, Clone, Copy, PartialEq, Eq, Structural)]
pub enum PortDirection {
    In,
    Out,
}

/// Visibility of an event.
#[derive(Debug, Clone, Copy, PartialEq, Eq, Structural)]
pub enum Visibility {
    Public,
    Internal,
}

/// Whether a propagation step stays local or crosses a runtime boundary.
#[derive(Debug, Clone, Copy, PartialEq, Eq, Structural)]
pub enum ConnectionLocality {
    Local,
    NonLocal,
}

} // verus!
