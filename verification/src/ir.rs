//! The normalized model: resolved, fully qualified, with defaults applied.
//! Downstream tools read this model only.
use vstd::prelude::*;
use crate::ast::ContractBag;
use crate::name_map::NameMap;
use crate::schema::{ConnectionLocality, PortDirection, Visibility};
use crate::value::Value;

verus! {

/// A resolved bundle of specifications.
#[derive(Debug, PartialEq)]
pub struct NormalizedSpec {
    pub version: String,
    pub entry_package: String,
    pub events: NameMap<NormalizedEvent>,
    pub components: NameMap<NormalizedComponent>,
    pub connections: Vec<NormalizedConnection>,
    pub non_local_connections: Vec<NormalizedConnection>,
    pub imports: Vec<String>,
    pub import_graph: Vec<(String, Vec<String>)>,
}

/// A resolved event.
#[derive(Debug, PartialEq)]
pub struct NormalizedEvent {
    pub package: String,
    pub name: String,
    pub qualified_name: String,
    pub source_path: String,
    pub fields: Vec<NormalizedField>,
    pub visibility: Visibility,
    pub version: Option<String>,
    pub deprecated_since: Option<String>,
    pub deprecated_note: Option<String>,
    pub doc: Option<String>,
    pub kind: Option<String>,
    pub contracts: ContractBag,
}

/// A field of a resolved event.
#[derive(Debug, Clone, PartialEq, Eq)]
pub struct NormalizedField {
    pub name: String,
    pub field_type: String,
    pub doc: Option<String>,
}

/// A resolved component.
#[derive(Debug, PartialEq)]
pub struct NormalizedComponent {
    pub package: String,
    pub name: String,
    pub qualified_name: String,
    pub source_path: String,
    pub uses: NameMap<NormalizedComponentUse>,
    pub ports: NameMap<NormalizedPort>,
    pub state_fields: NameMap<NormalizedStateField>,
    pub transitions: NameMap<NormalizedTransition>,
    pub persistence: Option<NormalizedPersistence>,
    pub assumptions: Vec<Value>,
    pub doc: Option<String>,
    pub inbound_events: Vec<String>,
    pub outbound_events: Vec<String>,
}

/// A resolved port.
#[derive(Debug, PartialEq)]
pub struct NormalizedPort {
    pub component_name: String,
    pub name: String,
    pub qualified_name: String,
    pub direction: PortDirection,
    pub event: String,
    pub contracts: ContractBag,
    pub doc: Option<String>,
}

/// A resolved subcomponent instance.
#[derive(Debug, Clone, PartialEq, Eq)]
pub struct NormalizedComponentUse {
    pub name: String,
    pub component: String,
    pub doc: Option<String>,
}

/// A resolved state field.
#[derive(Debug, Clone, PartialEq, Eq)]
pub struct NormalizedStateField {
    pub component_name: String,
    pub name: String,
    pub field_type: String,
    pub doc: Option<String>,
}

/// A resolved transition.
#[derive(Debug, PartialEq)]
pub struct NormalizedTransition {
    pub component_name: String,
    pub name: String,
    pub on: String,
    pub emits: Vec<String>,
    pub reads: Vec<String>,
    pub writes: Vec<String>,
    pub requires: Vec<Value>,
    pub ensures: Vec<Value>,
    pub doc: Option<String>,
}

/// Resolved durable state.
#[derive(Debug, Clone, PartialEq, Eq)]
pub struct NormalizedPersistence {
    pub durable: Vec<String>,
    pub doc: Option<String>,
}

/// A resolved propagation step.
#[derive(Debug, PartialEq)]
pub struct NormalizedConnection {
    pub within_component: String,
    pub from_target: String,
    pub from_component: String,
    pub from_port: String,
    pub to_target: String,
    pub to_component: String,
    pub to_port: String,
    pub locality: ConnectionLocality,
    pub contracts: ContractBag,
    pub doc: Option<String>,
}

/// Two connections agree on everything, contracts compared by content.
pub open spec fn same_connection(a: NormalizedConnection, b: NormalizedConnection) -> bool {
    &&& a.within_component == b.within_component
    &&& a.from_target == b.from_target
    &&& a.from_component == b.from_component
    &&& a.from_port == b.from_port
    &&& a.to_target == b.to_target
    &&& a.to_component == b.to_component
    &&& a.to_port == b.to_port
    &&& a.locality == b.locality
    &&& a.contracts@ == b.contracts@
    &&& a.doc == b.doc
}

impl NormalizedConnection {
    /// A copy of the connection.
    pub fn copy(&self) -> (r: Self)
        ensures
            same_connection(r, *self),
    {
        NormalizedConnection {
            within_component: self.within_component.clone(),
            from_target: self.from_target.clone(),
            from_component: self.from_component.clone(),
            from_port: self.from_port.clone(),
            to_target: self.to_target.clone(),
            to_component: self.to_component.clone(),
            to_port: self.to_port.clone(),
            locality: self.locality,
            contracts: self.contracts.clone(),
            doc: self.doc.clone(),
        }
    }
}

} // verus!
