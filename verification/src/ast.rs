//! The syntax tree: what a Hoonoki YAML file literally says.
use vstd::prelude::*;
use crate::schema::{ConnectionLocality, PortDirection, Visibility};
use crate::value::{Value, ValueModel, value_model, items_model};

verus! {

/// Contracts attached to an element, keyed by contract name in increasing
/// key order (`delivery`, `must_reply`, `timeout`, ...).
#[derive(Debug, PartialEq, Default)]
pub struct ContractBag {
    pub entries: Vec<(String, Value)>,
}

/// The contents of a list of contract entries.
pub open spec fn bag_model(s: Seq<(String, Value)>) -> Seq<(Seq<char>, ValueModel)> {
    s.map_values(|e: (String, Value)| (e.0@, value_model(e.1)))
}

impl View for ContractBag {
    type V = Seq<(Seq<char>, ValueModel)>;

    open spec fn view(&self) -> Seq<(Seq<char>, ValueModel)> {
        bag_model(self.entries@)
    }
}

/// The value of the first entry with key `key`.
pub open spec fn bag_get(s: Seq<(String, Value)>, key: Seq<char>) -> Option<Value>
    decreases s.len(),
{
    if s.len() == 0 {
        None
    } else if s[0].0@ == key {
        Some(s[0].1)
    } else {
        bag_get(s.drop_first(), key)
    }
}

impl ContractBag {
    /// A bag without contracts.
    pub fn new() -> (r: Self)
        ensures
            r.entries@.len() == 0,
    {
        ContractBag { entries: Vec::new() }
    }

    /// The contract stored under `key`.
    pub fn get(&self, key: &str) -> (r: Option<&Value>)
        ensures
            r matches Some(v) ==> bag_get(self.entries@, key@) == Some(*v),
            r is None ==> bag_get(self.entries@, key@) is None,
    {
        let mut i: usize = 0;
        assert(self.entries@.skip(0) =~= self.entries@);
        while i < self.entries.len()
            invariant
                i <= self.entries@.len(),
                bag_get(self.entries@, key@) == bag_get(self.entries@.skip(i as int), key@),
            decreases self.entries@.len() - i,
        {
            assert(self.entries@.skip(i as int).drop_first() =~= self.entries@.skip(i + 1));
            assert(self.entries@.skip(i as int)[0] == self.entries@[i as int]);
            if crate::text::str_equal(self.entries[i].0.as_str(), key) {
                return Some(&self.entries[i].1);
            }
            i = i + 1;
        }
        None
    }
}

impl Clone for ContractBag {
    fn clone(&self) -> (r: Self)
        ensures
            r@ == self@,
    {
        let mut out: Vec<(String, Value)> = Vec::new();
        let mut i: usize = 0;
        while i < self.entries.len()
            invariant
                i <= self.entries@.len(),
                out@.len() == i,
                forall|j: int|
                    0 <= j < i ==> (#[trigger] out@[j]).0 == self.entries@[j].0 && value_model(
                        out@[j].1,
                    ) == value_model(self.entries@[j].1),
            decreases self.entries@.len() - i,
        {
            let k = self.entries[i].0.clone();
            let v = self.entries[i].1.clone();
            out.push((k, v));
            i = i + 1;
        }
        let r = ContractBag { entries: out };
        assert(r@ =~= self@);
        r
    }
}

/// A copy of a list of annotation values.
pub fn clone_values(v: &Vec<Value>) -> (r: Vec<Value>)
    ensures
        items_model(r@) == items_model(v@),
{
    let mut out: Vec<Value> = Vec::new();
    let mut i: usize = 0;
    while i < v.len()
        invariant
            i <= v@.len(),
            out@.len() == i,
            forall|j: int| 0 <= j < i ==> value_model(#[trigger] out@[j]) == value_model(v@[j]),
        decreases v@.len() - i,
    {
        out.push(v[i].clone());
        i = i + 1;
    }
    proof {
        lemma_items_model_pointwise(out@, v@);
    }
    out
}

/// Two lists whose values have equal contents have equal contents.
pub proof fn lemma_items_model_pointwise(a: Seq<Value>, b: Seq<Value>)
    requires
        a.len() == b.len(),
        forall|j: int| 0 <= j < a.len() ==> value_model(#[trigger] a[j]) == value_model(b[j]),
    ensures
        items_model(a) == items_model(b),
    decreases a.len(),
{
    if a.len() > 0 {
        assert forall|j: int| 0 <= j < a.drop_first().len() implies value_model(
            #[trigger] a.drop_first()[j],
        ) == value_model(b.drop_first()[j]) by {
            assert(a.drop_first()[j] == a[j + 1]);
            assert(b.drop_first()[j] == b[j + 1]);
        }
        lemma_items_model_pointwise(a.drop_first(), b.drop_first());
    }
}

/// One parsed Hoonoki file.
#[derive(Debug, PartialEq)]
pub struct Spec {
    pub version: String,
    pub package: String,
    pub events: Vec<Event>,
    pub components: Vec<Component>,
    pub connections: Vec<Connection>,
    pub types: Vec<(String, String)>,
    pub contracts: ContractBag,
    pub assumptions: Vec<Value>,
    pub imports: Vec<String>,
}

/// A typed interaction.
#[derive(Debug, PartialEq)]
pub struct Event {
    pub name: String,
    pub fields: Vec<Field>,
    pub visibility: Visibility,
    pub version: Option<String>,
    pub deprecated: Option<Deprecation>,
    pub doc: Option<String>,
    pub kind: Option<String>,
    pub contracts: ContractBag,
}

/// A field of an event.
#[derive(Debug, Clone, PartialEq, Eq)]
pub struct Field {
    pub name: String,
    pub field_type: String,
    pub doc: Option<String>,
}

/// A stateful computational unit.
#[derive(Debug, PartialEq)]
pub struct Component {
    pub name: String,
    pub uses: Vec<ComponentUse>,
    pub ports: Vec<Port>,
    pub state: State,
    pub transitions: Vec<Transition>,
    pub persistence: Option<Persistence>,
    pub assumptions: Vec<Value>,
    pub doc: Option<String>,
}

/// A named subcomponent instance used inside a component.
#[derive(Debug, Clone, PartialEq, Eq)]
pub struct ComponentUse {
    pub name: String,
    pub component: String,
    pub doc: Option<String>,
}

/// A single-event boundary of a component.
#[derive(Debug, PartialEq)]
pub struct Port {
    pub name: String,
    pub direction: PortDirection,
    pub event: String,
    pub contracts: ContractBag,
    pub doc: Option<String>,
}

/// The explicit state of a component.
#[derive(Debug, Clone, PartialEq, Eq)]
pub struct State {
    pub fields: Vec<StateField>,
    pub doc: Option<String>,
}

/// A field of component state.
#[derive(Debug, Clone, PartialEq, Eq)]
pub struct StateField {
    pub name: String,
    pub field_type: String,
    pub doc: Option<String>,
}

/// A declared stateful step triggered by an input event.
#[derive(Debug, PartialEq)]
pub struct Transition {
    pub name: String,
    pub on: String,
    pub emits: Vec<String>,
    pub reads: Vec<String>,
    pub writes: Vec<String>,
    pub requires: Vec<Value>,
    pub ensures: Vec<Value>,
    pub doc: Option<String>,
}

/// A declared propagation step inside an enclosing component.
#[derive(Debug, PartialEq)]
pub struct Connection {
    pub within: String,
    pub from: String,
    pub to: String,
    pub locality: ConnectionLocality,
    pub contracts: ContractBag,
    pub doc: Option<String>,
}

/// A named group of components.
#[derive(Debug, PartialEq)]
pub struct Actor {
    pub name: String,
    pub components: Vec<String>,
    pub role_selector: Option<String>,
    pub routing: Option<Value>,
    pub doc: Option<String>,
}

/// The durable part of a component's state.
#[derive(Debug, Clone, PartialEq, Eq)]
pub struct Persistence {
    pub durable: Vec<String>,
    pub doc: Option<String>,
}

/// Deprecation metadata of an event.
#[derive(Debug, Clone, PartialEq, Eq)]
pub struct Deprecation {
    pub since: Option<String>,
    pub note: Option<String>,
}

} // verus!
