//! Static validation of a normalized model: versions, connection directions
//! and events, state references, durable state and declared reply paths.
use vstd::prelude::*;
use crate::ast::Spec;
use crate::diagnostics::{Diagnostic, DiagnosticModel, DiagnosticSet, plain_error};
use crate::ir::{NormalizedComponent, NormalizedConnection, NormalizedPort, NormalizedSpec, NormalizedStateField, NormalizedTransition};
use crate::name_map::{NameMap, has_key, lookup};
use crate::normalize::{ConnFold, ConnModel, SourceFile, all_decls, bundle_diags, components_built, components_of, conn_entry_ok, conns_in_file, conns_upto, connection_step, dm, inline_files, normalize, normalized_from, push_diag, views};
use crate::name_map::{keys_of, keys_sorted};
use crate::resolve::spec_resolve;
use crate::schema::{PortDirection, Visibility};
use crate::text::str_equal;
use crate::contracts::{has_must_reply, spec_has_must_reply};

verus! {

/// The component of a resolved spec with qualified name `name`.
pub open spec fn component_named(n: NormalizedSpec, name: Seq<char>) -> Option<NormalizedComponent> {
    lookup(n.components@, name)
}

/// A connection whose source and destination components are defined and
/// declare the source and destination ports.
pub open spec fn endpoint_resolves(n: NormalizedSpec, c: NormalizedConnection) -> bool {
    &&& component_named(n, c.from_component@) matches Some(fc) && has_key(fc.ports@, c.from_port@)
    &&& component_named(n, c.to_component@) matches Some(tc) && has_key(tc.ports@, c.to_port@)
}

/// A connection whose enclosing component, source and destination
/// components, and source and destination ports are all defined.
pub open spec fn connection_resolves(n: NormalizedSpec, c: NormalizedConnection) -> bool {
    &&& component_named(n, c.within_component@) is Some
    &&& endpoint_resolves(n, c)
    &&& (c.from_target@ == "self"@ ==> c.from_component@ == c.within_component@)
}

/// Every connection endpoint of the model names a defined component and port
/// (what static validation reads of a model).
pub open spec fn endpoints_wf(n: NormalizedSpec) -> bool {
    forall|i: int| 0 <= i < n.connections@.len() ==> endpoint_resolves(n, #[trigger] n.connections@[i])
}

/// Every connection of the model resolves (what normalization guarantees).
pub open spec fn model_wf(n: NormalizedSpec) -> bool {
    forall|i: int| 0 <= i < n.connections@.len() ==> connection_resolves(n, #[trigger] n.connections@[i])
}

/// Whether every connection of the model resolves (a model built by
/// normalization always does).
pub fn connections_resolve(spec: &NormalizedSpec) -> (r: bool)
    ensures
        r == model_wf(*spec),
{
    let mut i: usize = 0;
    while i < spec.connections.len()
        invariant
            i <= spec.connections@.len(),
            forall|j: int| 0 <= j < i ==> connection_resolves(*spec, #[trigger] spec.connections@[j]),
        decreases spec.connections@.len() - i,
    {
        let c = &spec.connections[i];
        if spec.components.get(c.within_component.as_str()).is_none() {
            return false;
        }
        let ok_from = match spec.components.get(c.from_component.as_str()) {
            Some(fc) => fc.ports.contains_key(c.from_port.as_str()),
            None => false,
        };
        let ok_to = match spec.components.get(c.to_component.as_str()) {
            Some(tc) => tc.ports.contains_key(c.to_port.as_str()),
            None => false,
        };
        if !ok_from || !ok_to {
            return false;
        }
        if str_equal(c.from_target.as_str(), "self") && !str_equal(c.from_component.as_str(), c.within_component.as_str()) {
            return false;
        }
        i = i + 1;
    }
    true
}

/// Whether every connection endpoint of the model names a defined component
/// and port.
pub fn endpoints_resolve(spec: &NormalizedSpec) -> (r: bool)
    ensures
        r == endpoints_wf(*spec),
{
    let mut i: usize = 0;
    while i < spec.connections.len()
        invariant
            i <= spec.connections@.len(),
            forall|j: int| 0 <= j < i ==> endpoint_resolves(*spec, #[trigger] spec.connections@[j]),
        decreases spec.connections@.len() - i,
    {
        let c = &spec.connections[i];
        let ok_from = match spec.components.get(c.from_component.as_str()) {
            Some(fc) => fc.ports.contains_key(c.from_port.as_str()),
            None => false,
        };
        let ok_to = match spec.components.get(c.to_component.as_str()) {
            Some(tc) => tc.ports.contains_key(c.to_port.as_str()),
            None => false,
        };
        if !ok_from || !ok_to {
            return false;
        }
        i = i + 1;
    }
    true
}

/// A model whose connections all resolve has resolving endpoints.
pub proof fn lemma_resolved_endpoints(n: NormalizedSpec)
    requires
        model_wf(n),
    ensures
        endpoints_wf(n),
{
    assert forall|i: int| 0 <= i < n.connections@.len() implies endpoint_resolves(n, #[trigger] n.connections@[i]) by {
        assert(connection_resolves(n, n.connections@[i]));
    }
}

// ---------------------------------------------------------------------------
// Event versions.

/// The message for a public event without a version.
pub open spec fn missing_version_message(q: Seq<char>) -> Seq<char> {
    "Public event `"@ + q + "` must declare a `version` field."@
}

/// The diagnostics for the public events without a version, in order.
pub open spec fn event_version_diags(evs: Seq<(Seq<char>, crate::ir::NormalizedEvent)>) -> Seq<DiagnosticModel>
    decreases evs.len(),
{
    if evs.len() == 0 {
        Seq::empty()
    } else {
        let prev = event_version_diags(evs.drop_last());
        let e = evs.last().1;
        if e.visibility == Visibility::Public && e.version is None {
            prev.push(plain_error("HNK2101"@, missing_version_message(e.qualified_name@)))
        } else {
            prev
        }
    }
}

fn validate_event_versions(spec: &NormalizedSpec, diagnostics: &mut Vec<Diagnostic>)
    ensures
        dm(final(diagnostics)@) == dm(old(diagnostics)@) + event_version_diags(spec.events@),
{
    let ghost start = dm(diagnostics@);
    let n = spec.events.len();
    let mut i: usize = 0;
    while i < n
        invariant
            n == spec.events@.len(),
            i <= n,
            dm(diagnostics@) == start + event_version_diags(spec.events@.take(i as int)),
        decreases n - i,
    {
        assert(spec.events@.take(i + 1).drop_last() =~= spec.events@.take(i as int));
        let e = spec.events.value_at(i);
        if matches!(e.visibility, Visibility::Public) && e.version.is_none() {
            let mut m = String::new();
            m.append("Public event `");
            m.append(e.qualified_name.as_str());
            m.append("` must declare a `version` field.");
            push_diag(diagnostics, Diagnostic::error("HNK2101", m));
        }
        assert(dm(diagnostics@) =~= start + event_version_diags(spec.events@.take(i + 1)));
        i = i + 1;
    }
    assert(spec.events@.take(n as int) =~= spec.events@);
}

// ---------------------------------------------------------------------------
// Connections.

/// The port at the given end of a resolving connection.
pub open spec fn port_of(n: NormalizedSpec, comp: Seq<char>, port: Seq<char>) -> crate::ir::NormalizedPort {
    lookup(component_named(n, comp)->Some_0.ports@, port)->Some_0
}

/// The diagnostics for one connection: a source that is not an `out` port, a
/// destination that is not an `in` port, and differing events.
pub open spec fn connection_check_diags(n: NormalizedSpec, c: NormalizedConnection) -> Seq<DiagnosticModel> {
    let fp = port_of(n, c.from_component@, c.from_port@);
    let tp = port_of(n, c.to_component@, c.to_port@);
    let d1: Seq<DiagnosticModel> = if fp.direction != PortDirection::Out {
        seq![plain_error("HNK2103"@, "Connection source `"@ + c.from_target@ + "."@ + c.from_port@ + "` inside `"@
            + c.within_component@ + "` must be an `out` port."@)]
    } else {
        Seq::empty()
    };
    let d2: Seq<DiagnosticModel> = if tp.direction != PortDirection::In {
        seq![plain_error("HNK2104"@, "Connection destination `"@ + c.to_target@ + "."@ + c.to_port@ + "` inside `"@
            + c.within_component@ + "` must be an `in` port."@)]
    } else {
        Seq::empty()
    };
    let d3: Seq<DiagnosticModel> = if fp.event@ != tp.event@ {
        seq![plain_error("HNK2105"@, "Connection `"@ + c.from_target@ + "::"@ + c.from_port@ + "` -> `"@ + c.to_target@
            + "::"@ + c.to_port@ + "` inside `"@ + c.within_component@ + "` carries event `"@ + fp.event@
            + "` on the source port, but the destination declares `"@ + tp.event@ + "`."@)]
    } else {
        Seq::empty()
    };
    d1 + d2 + d3
}

/// The connection diagnostics for a list of connections, in order.
pub open spec fn connections_check_diags(n: NormalizedSpec, cs: Seq<NormalizedConnection>) -> Seq<DiagnosticModel>
    decreases cs.len(),
{
    if cs.len() == 0 {
        Seq::empty()
    } else {
        connections_check_diags(n, cs.drop_last()) + connection_check_diags(n, cs.last())
    }
}

/// The port of a component under `port`, which the caller knows exists.
fn port_in<'a>(spec: &'a NormalizedSpec, comp: &String, port: &String) -> (r: &'a crate::ir::NormalizedPort)
    requires
        component_named(*spec, comp@) matches Some(c) && has_key(c.ports@, port@),
    ensures
        *r == port_of(*spec, comp@, port@),
{
    let c = spec.components.get(comp.as_str()).unwrap();
    let p = c.ports.get(port.as_str());
    proof {
        if p is None {
            crate::name_map::lemma_lookup_present(c.ports@, port@);
        }
    }
    p.unwrap()
}

fn validate_connections(spec: &NormalizedSpec, diagnostics: &mut Vec<Diagnostic>)
    requires
        endpoints_wf(*spec),
    ensures
        dm(final(diagnostics)@) == dm(old(diagnostics)@) + connections_check_diags(*spec, spec.connections@),
{
    let ghost start = dm(diagnostics@);
    let mut i: usize = 0;
    while i < spec.connections.len()
        invariant
            endpoints_wf(*spec),
            i <= spec.connections@.len(),
            dm(diagnostics@) == start + connections_check_diags(*spec, spec.connections@.take(i as int)),
        decreases spec.connections@.len() - i,
    {
        assert(spec.connections@.take(i + 1).drop_last() =~= spec.connections@.take(i as int));
        let c = &spec.connections[i];
        assert(endpoint_resolves(*spec, *c));
        let fp = port_in(spec, &c.from_component, &c.from_port);
        let tp = port_in(spec, &c.to_component, &c.to_port);
        let ghost before = dm(diagnostics@);
        if !matches!(fp.direction, PortDirection::Out) {
            let mut m = String::new();
            m.append("Connection source `");
            m.append(c.from_target.as_str());
            m.append(".");
            m.append(c.from_port.as_str());
            m.append("` inside `");
            m.append(c.within_component.as_str());
            m.append("` must be an `out` port.");
            push_diag(diagnostics, Diagnostic::error("HNK2103", m));
        }
        if !matches!(tp.direction, PortDirection::In) {
            let mut m = String::new();
            m.append("Connection destination `");
            m.append(c.to_target.as_str());
            m.append(".");
            m.append(c.to_port.as_str());
            m.append("` inside `");
            m.append(c.within_component.as_str());
            m.append("` must be an `in` port.");
            push_diag(diagnostics, Diagnostic::error("HNK2104", m));
        }
        if !str_equal(fp.event.as_str(), tp.event.as_str()) {
            let mut m = String::new();
            m.append("Connection `");
            m.append(c.from_target.as_str());
            m.append("::");
            m.append(c.from_port.as_str());
            m.append("` -> `");
            m.append(c.to_target.as_str());
            m.append("::");
            m.append(c.to_port.as_str());
            m.append("` inside `");
            m.append(c.within_component.as_str());
            m.append("` carries event `");
            m.append(fp.event.as_str());
            m.append("` on the source port, but the destination declares `");
            m.append(tp.event.as_str());
            m.append("`.");
            push_diag(diagnostics, Diagnostic::error("HNK2105", m));
        }
        assert(dm(diagnostics@) =~= before + connection_check_diags(*spec, *c));
        assert(dm(diagnostics@) =~= start + connections_check_diags(*spec, spec.connections@.take(i + 1)));
        i = i + 1;
    }
    assert(spec.connections@.take(spec.connections@.len() as int) =~= spec.connections@);
}


// ---------------------------------------------------------------------------
// Transitions.

/// Some port of the list has the direction and carries the event.
pub open spec fn port_declares(ports: Seq<(Seq<char>, NormalizedPort)>, dir: PortDirection, event: Seq<char>) -> bool {
    exists|k: int| 0 <= k < ports.len() && (#[trigger] ports[k]).1.direction == dir && ports[k].1.event@ == event
}

/// The message for a transition that reads or writes an undefined field.
pub open spec fn undefined_field_message(q: Seq<char>, tname: Seq<char>, verb: Seq<char>, field: Seq<char>) -> Seq<char> {
    "Transition `"@ + q + "."@ + tname + "` "@ + verb + " undefined state field `"@ + field + "`."@
}

/// The diagnostics for the fields of `fields` that are not state fields.
pub open spec fn field_diags(
    code: Seq<char>,
    verb: Seq<char>,
    q: Seq<char>,
    tname: Seq<char>,
    states: Seq<(Seq<char>, NormalizedStateField)>,
    fields: Seq<String>,
) -> Seq<DiagnosticModel>
    decreases fields.len(),
{
    if fields.len() == 0 {
        Seq::empty()
    } else {
        let prev = field_diags(code, verb, q, tname, states, fields.drop_last());
        if has_key(states, fields.last()@) {
            prev
        } else {
            prev.push(plain_error(code, undefined_field_message(q, tname, verb, fields.last()@)))
        }
    }
}

/// The message for a transition whose trigger event has no `in` port.
pub open spec fn unheard_event_message(q: Seq<char>, tname: Seq<char>, on: Seq<char>) -> Seq<char> {
    "Transition `"@ + q + "."@ + tname + "` listens to event `"@ + on + "`, but no `in` port on that component declares it."@
}

/// The message for a transition that emits an event with no `out` port.
pub open spec fn unsent_event_message(q: Seq<char>, tname: Seq<char>, event: Seq<char>) -> Seq<char> {
    "Transition `"@ + q + "."@ + tname + "` emits event `"@ + event + "`, but no `out` port on that component declares it."@
}

/// The diagnostics for the emitted events that no `out` port carries.
pub open spec fn emit_diags(c: NormalizedComponent, tname: Seq<char>, emits: Seq<String>) -> Seq<DiagnosticModel>
    decreases emits.len(),
{
    if emits.len() == 0 {
        Seq::empty()
    } else {
        let prev = emit_diags(c, tname, emits.drop_last());
        if port_declares(c.ports@, PortDirection::Out, emits.last()@) {
            prev
        } else {
            prev.push(plain_error("HNK2109"@, unsent_event_message(c.qualified_name@, tname, emits.last()@)))
        }
    }
}

/// The diagnostics for one transition of a component: reads, writes, the
/// trigger event, then the emitted events.
pub open spec fn transition_diags(c: NormalizedComponent, t: NormalizedTransition) -> Seq<DiagnosticModel> {
    let q = c.qualified_name@;
    field_diags("HNK2106"@, "reads"@, q, t.name@, c.state_fields@, t.reads@)
        + field_diags("HNK2107"@, "writes"@, q, t.name@, c.state_fields@, t.writes@)
        + (if port_declares(c.ports@, PortDirection::In, t.on@) {
            Seq::empty()
        } else {
            seq![plain_error("HNK2108"@, unheard_event_message(q, t.name@, t.on@))]
        })
        + emit_diags(c, t.name@, t.emits@)
}

/// The diagnostics for the transitions `ts` of component `c`, in order.
pub open spec fn component_transition_diags(c: NormalizedComponent, ts: Seq<(Seq<char>, NormalizedTransition)>) -> Seq<DiagnosticModel>
    decreases ts.len(),
{
    if ts.len() == 0 {
        Seq::empty()
    } else {
        component_transition_diags(c, ts.drop_last()) + transition_diags(c, ts.last().1)
    }
}

/// The transition diagnostics of the components `cs`, in order.
pub open spec fn transitions_diags(cs: Seq<(Seq<char>, NormalizedComponent)>) -> Seq<DiagnosticModel>
    decreases cs.len(),
{
    if cs.len() == 0 {
        Seq::empty()
    } else {
        transitions_diags(cs.drop_last()) + component_transition_diags(cs.last().1, cs.last().1.transitions@)
    }
}

fn check_fields(
    code: &str,
    verb: &str,
    q: &String,
    tname: &String,
    states: &NameMap<NormalizedStateField>,
    fields: &Vec<String>,
    diagnostics: &mut Vec<Diagnostic>,
)
    ensures
        dm(final(diagnostics)@) == dm(old(diagnostics)@) + field_diags(code@, verb@, q@, tname@, states@, fields@),
{
    let ghost start = dm(diagnostics@);
    let mut i: usize = 0;
    while i < fields.len()
        invariant
            i <= fields@.len(),
            dm(diagnostics@) == start + field_diags(code@, verb@, q@, tname@, states@, fields@.take(i as int)),
        decreases fields@.len() - i,
    {
        assert(fields@.take(i + 1).drop_last() =~= fields@.take(i as int));
        let f = &fields[i];
        if !states.contains_key(f.as_str()) {
            let mut m = String::new();
            m.append("Transition `");
            m.append(q.as_str());
            m.append(".");
            m.append(tname.as_str());
            m.append("` ");
            m.append(verb);
            m.append(" undefined state field `");
            m.append(f.as_str());
            m.append("`.");
            push_diag(diagnostics, Diagnostic::error(code, m));
        }
        assert(dm(diagnostics@) =~= start + field_diags(code@, verb@, q@, tname@, states@, fields@.take(i + 1)));
        i = i + 1;
    }
    assert(fields@.take(fields@.len() as int) =~= fields@);
}

/// Whether some port of the map has the direction and carries the event.
fn has_port(ports: &NameMap<NormalizedPort>, dir: PortDirection, event: &str) -> (r: bool)
    ensures
        r == port_declares(ports@, dir, event@),
{
    let mut k: usize = 0;
    while k < ports.len()
        invariant
            k <= ports@.len(),
            forall|j: int| 0 <= j < k ==> !((#[trigger] ports@[j]).1.direction == dir && ports@[j].1.event@ == event@),
        decreases ports@.len() - k,
    {
        let p = ports.value_at(k);
        if p.direction == dir && str_equal(p.event.as_str(), event) {
            return true;
        }
        k = k + 1;
    }
    false
}

fn check_emits(c: &NormalizedComponent, tname: &String, emits: &Vec<String>, diagnostics: &mut Vec<Diagnostic>)
    ensures
        dm(final(diagnostics)@) == dm(old(diagnostics)@) + emit_diags(*c, tname@, emits@),
{
    let ghost start = dm(diagnostics@);
    let mut i: usize = 0;
    while i < emits.len()
        invariant
            i <= emits@.len(),
            dm(diagnostics@) == start + emit_diags(*c, tname@, emits@.take(i as int)),
        decreases emits@.len() - i,
    {
        assert(emits@.take(i + 1).drop_last() =~= emits@.take(i as int));
        let e = &emits[i];
        if !has_port(&c.ports, PortDirection::Out, e.as_str()) {
            let mut m = String::new();
            m.append("Transition `");
            m.append(c.qualified_name.as_str());
            m.append(".");
            m.append(tname.as_str());
            m.append("` emits event `");
            m.append(e.as_str());
            m.append("`, but no `out` port on that component declares it.");
            push_diag(diagnostics, Diagnostic::error("HNK2109", m));
        }
        assert(dm(diagnostics@) =~= start + emit_diags(*c, tname@, emits@.take(i + 1)));
        i = i + 1;
    }
    assert(emits@.take(emits@.len() as int) =~= emits@);
}

fn check_transition(c: &NormalizedComponent, t: &NormalizedTransition, diagnostics: &mut Vec<Diagnostic>)
    ensures
        dm(final(diagnostics)@) == dm(old(diagnostics)@) + transition_diags(*c, *t),
{
    let ghost start = dm(diagnostics@);
    check_fields("HNK2106", "reads", &c.qualified_name, &t.name, &c.state_fields, &t.reads, diagnostics);
    check_fields("HNK2107", "writes", &c.qualified_name, &t.name, &c.state_fields, &t.writes, diagnostics);
    let ghost mid = dm(diagnostics@);
    if !has_port(&c.ports, PortDirection::In, t.on.as_str()) {
        let mut m = String::new();
        m.append("Transition `");
        m.append(c.qualified_name.as_str());
        m.append(".");
        m.append(t.name.as_str());
        m.append("` listens to event `");
        m.append(t.on.as_str());
        m.append("`, but no `in` port on that component declares it.");
        push_diag(diagnostics, Diagnostic::error("HNK2108", m));
    }
    check_emits(c, &t.name, &t.emits, diagnostics);
    assert(dm(diagnostics@) =~= start + transition_diags(*c, *t));
}

fn validate_transitions(spec: &NormalizedSpec, diagnostics: &mut Vec<Diagnostic>)
    ensures
        dm(final(diagnostics)@) == dm(old(diagnostics)@) + transitions_diags(spec.components@),
{
    let ghost start = dm(diagnostics@);
    let n = spec.components.len();
    let mut i: usize = 0;
    while i < n
        invariant
            n == spec.components@.len(),
            i <= n,
            dm(diagnostics@) == start + transitions_diags(spec.components@.take(i as int)),
        decreases n - i,
    {
        assert(spec.components@.take(i + 1).drop_last() =~= spec.components@.take(i as int));
        let c = spec.components.value_at(i);
        let ghost mid = dm(diagnostics@);
        let m = c.transitions.len();
        let mut j: usize = 0;
        while j < m
            invariant
                m == c.transitions@.len(),
                j <= m,
                dm(diagnostics@) == mid + component_transition_diags(*c, c.transitions@.take(j as int)),
            decreases m - j,
        {
            assert(c.transitions@.take(j + 1).drop_last() =~= c.transitions@.take(j as int));
            check_transition(c, c.transitions.value_at(j), diagnostics);
            assert(dm(diagnostics@) =~= mid + component_transition_diags(*c, c.transitions@.take(j + 1)));
            j = j + 1;
        }
        assert(c.transitions@.take(m as int) =~= c.transitions@);
        assert(dm(diagnostics@) =~= start + transitions_diags(spec.components@.take(i + 1)));
        i = i + 1;
    }
    assert(spec.components@.take(n as int) =~= spec.components@);
}

// ---------------------------------------------------------------------------
// Durable state.

/// The message for a durable field that is not a state field.
pub open spec fn undefined_durable_message(q: Seq<char>, field: Seq<char>) -> Seq<char> {
    "Component `"@ + q + "` marks undefined state field `"@ + field + "` as durable."@
}

/// The diagnostics for the durable fields that are not state fields.
pub open spec fn durable_diags(q: Seq<char>, states: Seq<(Seq<char>, NormalizedStateField)>, fields: Seq<String>) -> Seq<DiagnosticModel>
    decreases fields.len(),
{
    if fields.len() == 0 {
        Seq::empty()
    } else {
        let prev = durable_diags(q, states, fields.drop_last());
        if has_key(states, fields.last()@) {
            prev
        } else {
            prev.push(plain_error("HNK2110"@, undefined_durable_message(q, fields.last()@)))
        }
    }
}

/// The durable-state diagnostics of the components `cs`, in order.
pub open spec fn persistence_diags(cs: Seq<(Seq<char>, NormalizedComponent)>) -> Seq<DiagnosticModel>
    decreases cs.len(),
{
    if cs.len() == 0 {
        Seq::empty()
    } else {
        let c = cs.last().1;
        persistence_diags(cs.drop_last()) + match c.persistence {
            Some(p) => durable_diags(c.qualified_name@, c.state_fields@, p.durable@),
            None => Seq::empty(),
        }
    }
}

fn validate_persistence(spec: &NormalizedSpec, diagnostics: &mut Vec<Diagnostic>)
    ensures
        dm(final(diagnostics)@) == dm(old(diagnostics)@) + persistence_diags(spec.components@),
{
    let ghost start = dm(diagnostics@);
    let n = spec.components.len();
    let mut i: usize = 0;
    while i < n
        invariant
            n == spec.components@.len(),
            i <= n,
            dm(diagnostics@) == start + persistence_diags(spec.components@.take(i as int)),
        decreases n - i,
    {
        assert(spec.components@.take(i + 1).drop_last() =~= spec.components@.take(i as int));
        let c = spec.components.value_at(i);
        let ghost mid = dm(diagnostics@);
        if let Some(p) = &c.persistence {
            let mut j: usize = 0;
            while j < p.durable.len()
                invariant
                    c.persistence == Some(*p),
                    j <= p.durable@.len(),
                    dm(diagnostics@) == mid + durable_diags(c.qualified_name@, c.state_fields@, p.durable@.take(j as int)),
                decreases p.durable@.len() - j,
            {
                assert(p.durable@.take(j + 1).drop_last() =~= p.durable@.take(j as int));
                let f = &p.durable[j];
                if !c.state_fields.contains_key(f.as_str()) {
                    let mut m = String::new();
                    m.append("Component `");
                    m.append(c.qualified_name.as_str());
                    m.append("` marks undefined state field `");
                    m.append(f.as_str());
                    m.append("` as durable.");
                    push_diag(diagnostics, Diagnostic::error("HNK2110", m));
                }
                assert(dm(diagnostics@) =~= mid + durable_diags(c.qualified_name@, c.state_fields@, p.durable@.take(j + 1)));
                j = j + 1;
            }
            assert(p.durable@.take(p.durable@.len() as int) =~= p.durable@);
        }
        assert(dm(diagnostics@) =~= start + persistence_diags(spec.components@.take(i + 1)));
        i = i + 1;
    }
    assert(spec.components@.take(n as int) =~= spec.components@);
}


// ---------------------------------------------------------------------------
// Reply paths.

/// The component of the model under `name` (meaningful where it exists).
pub open spec fn comp_of(n: NormalizedSpec, name: Seq<char>) -> NormalizedComponent {
    component_named(n, name)->Some_0
}

/// The names of the `out` ports of the list that carry `event`, in order.
pub open spec fn out_port_names(ports: Seq<(Seq<char>, NormalizedPort)>, event: Seq<char>) -> Seq<Seq<char>>
    decreases ports.len(),
{
    if ports.len() == 0 {
        Seq::empty()
    } else {
        let prev = out_port_names(ports.drop_last(), event);
        let p = ports.last().1;
        if p.direction == PortDirection::Out && p.event@ == event {
            prev.push(p.name@)
        } else {
            prev
        }
    }
}

/// A connection inside `scope` that leaves the endpoint `st` (a target and
/// a port) towards a port carrying `event`.
pub open spec fn carries(n: NormalizedSpec, scope: Seq<char>, st: (Seq<char>, Seq<char>), c: NormalizedConnection, event: Seq<char>) -> bool {
    &&& c.within_component@ == scope
    &&& c.from_target@ == st.0
    &&& c.from_port@ == st.1
    &&& port_of(n, c.to_component@, c.to_port@).event@ == event
}

/// Connection `i` takes `event` from `st` straight back to the enclosing
/// component.
pub open spec fn reply_via(n: NormalizedSpec, scope: Seq<char>, st: (Seq<char>, Seq<char>), event: Seq<char>, i: int) -> bool {
    &&& 0 <= i < n.connections@.len()
    &&& carries(n, scope, st, n.connections@[i], event)
    &&& n.connections@[i].to_target@ == "self"@
}

/// Some connection takes `event` from `st` back to the enclosing component.
pub open spec fn replies_from(n: NormalizedSpec, scope: Seq<char>, st: (Seq<char>, Seq<char>), event: Seq<char>) -> bool {
    exists|i: int| #[trigger] reply_via(n, scope, st, event, i)
}

/// Connection `i` takes `event` from `st` to an instance, whose `k`-th `out`
/// port carrying `event` is `st2`.
pub open spec fn forward_via(
    n: NormalizedSpec,
    scope: Seq<char>,
    st: (Seq<char>, Seq<char>),
    st2: (Seq<char>, Seq<char>),
    event: Seq<char>,
    i: int,
    k: int,
) -> bool {
    let c = n.connections@[i];
    let names = out_port_names(comp_of(n, c.to_component@).ports@, event);
    &&& 0 <= i < n.connections@.len()
    &&& carries(n, scope, st, c, event)
    &&& c.to_target@ != "self"@
    &&& 0 <= k < names.len()
    &&& st2 == (c.to_target@, names[k])
}

/// `event` travels on from endpoint `st` to endpoint `st2` in one step.
pub open spec fn forwards(n: NormalizedSpec, scope: Seq<char>, st: (Seq<char>, Seq<char>), st2: (Seq<char>, Seq<char>), event: Seq<char>) -> bool {
    exists|i: int, k: int| #[trigger] forward_via(n, scope, st, st2, event, i, k)
}

/// A chain of endpoints, each reached from the one before in one step.
pub open spec fn is_route(n: NormalizedSpec, scope: Seq<char>, event: Seq<char>, path: Seq<(Seq<char>, Seq<char>)>) -> bool {
    &&& path.len() > 0
    &&& forall|j: int| 0 <= j < path.len() - 1 ==> forwards(n, scope, #[trigger] path[j], path[j + 1], event)
}

/// A route from `start` that ends at `x`.
pub open spec fn route_to(
    n: NormalizedSpec,
    scope: Seq<char>,
    event: Seq<char>,
    start: (Seq<char>, Seq<char>),
    path: Seq<(Seq<char>, Seq<char>)>,
    x: (Seq<char>, Seq<char>),
) -> bool {
    is_route(n, scope, event, path) && path[0] == start && path.last() == x
}

/// Endpoint `x` is reached from `start` by `event` inside `scope`.
pub open spec fn reachable(n: NormalizedSpec, scope: Seq<char>, event: Seq<char>, start: (Seq<char>, Seq<char>), x: (Seq<char>, Seq<char>)) -> bool {
    exists|path: Seq<(Seq<char>, Seq<char>)>| #[trigger] route_to(n, scope, event, start, path, x)
}

/// `event`, sent from endpoint `start` inside `scope`, can come back to the
/// enclosing component along declared connections.
pub open spec fn routes_back(n: NormalizedSpec, scope: Seq<char>, start: (Seq<char>, Seq<char>), event: Seq<char>) -> bool {
    exists|x: (Seq<char>, Seq<char>)| #[trigger] reachable(n, scope, event, start, x) && replies_from(n, scope, x, event)
}

/// The pairs of strings as pairs of character sequences.
pub open spec fn pair_views(s: Seq<(String, String)>) -> Seq<(Seq<char>, Seq<char>)> {
    s.map_values(|e: (String, String)| (e.0@, e.1@))
}

/// Every endpoint that a step from connection `cs[i]` can reach.
pub open spec fn forward_states(n: NormalizedSpec, cs: Seq<NormalizedConnection>, event: Seq<char>) -> Seq<(Seq<char>, Seq<char>)>
    decreases cs.len(),
{
    if cs.len() == 0 {
        Seq::empty()
    } else {
        let c = cs.last();
        forward_states(n, cs.drop_last(), event) + out_port_names(comp_of(n, c.to_component@).ports@, event).map_values(
            |nm: Seq<char>| (c.to_target@, nm),
        )
    }
}

proof fn lemma_forward_states(n: NormalizedSpec, cs: Seq<NormalizedConnection>, event: Seq<char>, i: int, k: int)
    requires
        0 <= i < cs.len(),
        0 <= k < out_port_names(comp_of(n, cs[i].to_component@).ports@, event).len(),
    ensures
        forward_states(n, cs, event).contains((cs[i].to_target@, out_port_names(comp_of(n, cs[i].to_component@).ports@, event)[k])),
    decreases cs.len(),
{
    let names = out_port_names(comp_of(n, cs[i].to_component@).ports@, event);
    let prev = forward_states(n, cs.drop_last(), event);
    if i == cs.len() - 1 {
        let tail = names.map_values(|nm: Seq<char>| (cs[i].to_target@, nm));
        assert(forward_states(n, cs, event)[prev.len() + k] == tail[k]);
    } else {
        assert(cs.drop_last()[i] == cs[i]);
        lemma_forward_states(n, cs.drop_last(), event, i, k);
        let x = (cs[i].to_target@, names[k]);
        let j = choose|j: int| 0 <= j < prev.len() && prev[j] == x;
        assert(forward_states(n, cs, event)[j] == x);
    }
}

proof fn lemma_no_dup_subset_len<A>(a: Seq<A>, b: Seq<A>)
    requires
        a.no_duplicates(),
        forall|x: A| a.contains(x) ==> b.contains(x),
    ensures
        a.len() <= b.len(),
{
    broadcast use vstd::seq_lib::seq_to_set_is_finite;
    a.unique_seq_to_set();
    b.lemma_cardinality_of_set();
    assert(a.to_set().subset_of(b.to_set())) by {
        assert forall|x: A| a.to_set().contains(x) implies b.to_set().contains(x) by {
            assert(a.contains(x));
        }
    }
    vstd::set_lib::lemma_len_subset(a.to_set(), b.to_set());
}

/// The names of the `out` ports of a component that carry `event`.
fn output_ports_for_event(component: &NormalizedComponent, event: &str) -> (r: Vec<String>)
    ensures
        views(r@) == out_port_names(component.ports@, event@),
{
    let mut r: Vec<String> = Vec::new();
    let mut k: usize = 0;
    while k < component.ports.len()
        invariant
            k <= component.ports@.len(),
            views(r@) == out_port_names(component.ports@.take(k as int), event@),
        decreases component.ports@.len() - k,
    {
        assert(component.ports@.take(k + 1).drop_last() =~= component.ports@.take(k as int));
        let p = component.ports.value_at(k);
        if matches!(p.direction, PortDirection::Out) && str_equal(p.event.as_str(), event) {
            r.push(p.name.clone());
        }
        assert(views(r@) =~= out_port_names(component.ports@.take(k + 1), event@));
        k = k + 1;
    }
    assert(component.ports@.take(component.ports@.len() as int) =~= component.ports@);
    r
}

/// Whether `reached` holds the endpoint.
fn holds_state(reached: &Vec<(String, String)>, target: &String, port: &String) -> (r: bool)
    ensures
        r == pair_views(reached@).contains((target@, port@)),
{
    let mut j: usize = 0;
    while j < reached.len()
        invariant
            j <= reached@.len(),
            forall|x: int| 0 <= x < j ==> pair_views(reached@)[x] != (target@, port@),
        decreases reached@.len() - j,
    {
        if str_equal(reached[j].0.as_str(), target.as_str()) && str_equal(reached[j].1.as_str(), port.as_str()) {
            assert(pair_views(reached@)[j as int] == (target@, port@));
            return true;
        }
        j = j + 1;
    }
    false
}

/// The invariant of the search: `reached` starts at `start`, holds each
/// endpoint once, each one reached from `start`, all among the endpoints
/// that a step can reach.
pub open spec fn search_ok(
    n: NormalizedSpec,
    scope: Seq<char>,
    event: Seq<char>,
    start: (Seq<char>, Seq<char>),
    reached: Seq<(Seq<char>, Seq<char>)>,
) -> bool {
    &&& reached.len() > 0
    &&& reached[0] == start
    &&& reached.no_duplicates()
    &&& forall|x: (Seq<char>, Seq<char>)| #[trigger] reached.contains(x) ==> reachable(n, scope, event, start, x)
    &&& forall|x: (Seq<char>, Seq<char>)| #[trigger] reached.contains(x) ==> (seq![start] + forward_states(n, n.connections@, event)).contains(x)
}

proof fn lemma_route_extend(
    n: NormalizedSpec,
    scope: Seq<char>,
    event: Seq<char>,
    start: (Seq<char>, Seq<char>),
    st: (Seq<char>, Seq<char>),
    st2: (Seq<char>, Seq<char>),
    i: int,
    k: int,
)
    requires
        reachable(n, scope, event, start, st),
        forward_via(n, scope, st, st2, event, i, k),
    ensures
        reachable(n, scope, event, start, st2),
{
    let path = choose|path: Seq<(Seq<char>, Seq<char>)>| #[trigger] route_to(n, scope, event, start, path, st);
    let p2 = path.push(st2);
    assert(forwards(n, scope, st, st2, event));
    assert forall|j: int| 0 <= j < p2.len() - 1 implies forwards(n, scope, #[trigger] p2[j], p2[j + 1], event) by {
        if j < path.len() - 1 {
            assert(p2[j] == path[j] && p2[j + 1] == path[j + 1]);
        } else {
            assert(p2[j] == st && p2[j + 1] == st2);
        }
    }
    assert(route_to(n, scope, event, start, p2, st2));
}

/// The closure of the search: every endpoint before `u` in `reached` sends
/// nothing back, and every step from it stays in `reached`.
pub open spec fn processed(
    n: NormalizedSpec,
    scope: Seq<char>,
    event: Seq<char>,
    reached: Seq<(Seq<char>, Seq<char>)>,
    u: int,
) -> bool {
    forall|j: int| 0 <= j < u ==> {
        &&& !replies_from(n, scope, #[trigger] reached[j], event)
        &&& forall|st2: (Seq<char>, Seq<char>)| forwards(n, scope, reached[j], st2, event) ==> reached.contains(st2)
    }
}

proof fn lemma_closed_search(
    n: NormalizedSpec,
    scope: Seq<char>,
    event: Seq<char>,
    start: (Seq<char>, Seq<char>),
    reached: Seq<(Seq<char>, Seq<char>)>,
)
    requires
        reached.len() > 0,
        reached[0] == start,
        processed(n, scope, event, reached, reached.len() as int),
    ensures
        !routes_back(n, scope, start, event),
{
    assert forall|x: (Seq<char>, Seq<char>)| #[trigger] reachable(n, scope, event, start, x) implies !replies_from(n, scope, x, event) by {
        let path = choose|path: Seq<(Seq<char>, Seq<char>)>| #[trigger] route_to(n, scope, event, start, path, x);
        lemma_route_in_reached(n, scope, event, reached, path, path.len() - 1);
        let j = choose|j: int| 0 <= j < reached.len() && reached[j] == path[path.len() - 1];
        assert(!replies_from(n, scope, reached[j], event));
    }
}

proof fn lemma_route_in_reached(
    n: NormalizedSpec,
    scope: Seq<char>,
    event: Seq<char>,
    reached: Seq<(Seq<char>, Seq<char>)>,
    path: Seq<(Seq<char>, Seq<char>)>,
    m: int,
)
    requires
        reached.len() > 0,
        is_route(n, scope, event, path),
        path[0] == reached[0],
        0 <= m < path.len(),
        processed(n, scope, event, reached, reached.len() as int),
    ensures
        reached.contains(path[m]),
    decreases m,
{
    if m == 0 {
        assert(reached[0] == path[0]);
    } else {
        lemma_route_in_reached(n, scope, event, reached, path, m - 1);
        let j = choose|j: int| 0 <= j < reached.len() && reached[j] == path[m - 1];
        assert(forwards(n, scope, path[m - 1], path[m], event));
        assert(forwards(n, scope, reached[j], path[m], event));
    }
}

/// Follows one endpoint of the search: whether a connection from it sends
/// the event straight back; otherwise adds every endpoint one step away.
fn follow_state(
    spec: &NormalizedSpec,
    scope: &str,
    event: &str,
    reached: &mut Vec<(String, String)>,
    u: usize,
    Ghost(start): Ghost<(Seq<char>, Seq<char>)>,
) -> (r: bool)
    requires
        endpoints_wf(*spec),
        u < old(reached)@.len(),
        search_ok(*spec, scope@, event@, start, pair_views(old(reached)@)),
    ensures
        search_ok(*spec, scope@, event@, start, pair_views(final(reached)@)),
        pair_views(final(reached)@).take(old(reached)@.len() as int) == pair_views(old(reached)@),
        old(reached)@.len() <= final(reached)@.len(),
        r ==> replies_from(*spec, scope@, pair_views(old(reached)@)[u as int], event@),
        !r ==> !replies_from(*spec, scope@, pair_views(old(reached)@)[u as int], event@),
        !r ==> forall|st2: (Seq<char>, Seq<char>)| forwards(*spec, scope@, pair_views(old(reached)@)[u as int], st2, event@)
            ==> #[trigger] pair_views(final(reached)@).contains(st2),
{
    let ghost n = *spec;
    let ghost old_r = pair_views(reached@);
    let ghost st = old_r[u as int];
    let ghost universe = seq![start] + forward_states(n, n.connections@, event@);
    let target = reached[u].0.clone();
    let port = reached[u].1.clone();
    assert(st == (target@, port@));
    assert(old_r.contains(st));
    let mut ci: usize = 0;
    while ci < spec.connections.len()
        invariant
            endpoints_wf(n),
            n == *spec,
            ci <= n.connections@.len(),
            old_r == pair_views(old(reached)@),
            u < old_r.len(),
            st == old_r[u as int],
            st == (target@, port@),
            reachable(n, scope@, event@, start, st),
            search_ok(n, scope@, event@, start, pair_views(reached@)),
            pair_views(reached@).take(old_r.len() as int) == old_r,
            old_r.len() <= pair_views(reached@).len(),
            universe == seq![start] + forward_states(n, n.connections@, event@),
            forall|i: int| 0 <= i < ci ==> !#[trigger] reply_via(n, scope@, st, event@, i),
            forall|i: int, k: int, st2: (Seq<char>, Seq<char>)| 0 <= i < ci && #[trigger] forward_via(n, scope@, st, st2, event@, i, k)
                ==> pair_views(reached@).contains(st2),
        decreases n.connections@.len() - ci,
    {
        let c = &spec.connections[ci];
        assert(endpoint_resolves(n, *c));
        let ghost ghost_ci = ci as int;
        let relevant = str_equal(c.within_component.as_str(), scope) && str_equal(c.from_target.as_str(), target.as_str())
            && str_equal(c.from_port.as_str(), port.as_str());
        if relevant {
            let tp = port_in(spec, &c.to_component, &c.to_port);
            if str_equal(tp.event.as_str(), event) {
                assert(carries(n, scope@, st, *c, event@));
                if str_equal(c.to_target.as_str(), "self") {
                    assert(reply_via(n, scope@, st, event@, ci as int));
                    return true;
                }
                let comp = spec.components.get(c.to_component.as_str()).unwrap();
                let names = output_ports_for_event(comp, event);
                let ghost before = pair_views(reached@);
                let mut k: usize = 0;
                while k < names.len()
                    invariant
                        endpoints_wf(n),
                        n == *spec,
                        ghost_ci == ci,
                        0 <= ci < n.connections@.len(),
                        *c == n.connections@[ci as int],
                        component_named(n, c.to_component@) == Some(*comp),
                        views(names@) == out_port_names(comp.ports@, event@),
                        carries(n, scope@, st, *c, event@),
                        c.to_target@ != "self"@,
                        k <= names@.len(),
                        st == (target@, port@),
                        reachable(n, scope@, event@, start, st),
                        search_ok(n, scope@, event@, start, pair_views(reached@)),
                        pair_views(reached@).take(before.len() as int) == before,
                        before.len() <= pair_views(reached@).len(),
                        universe == seq![start] + forward_states(n, n.connections@, event@),
                        forall|kk: int| 0 <= kk < k ==> pair_views(reached@).contains((c.to_target@, #[trigger] views(names@)[kk])),
                    decreases names@.len() - k,
                {
                    let ghost st2 = (c.to_target@, names@[k as int]@);
                    assert(views(names@)[k as int] == names@[k as int]@);
                    assert(forward_via(n, scope@, st, st2, event@, ci as int, k as int));
                    proof {
                        lemma_route_extend(n, scope@, event@, start, st, st2, ci as int, k as int);
                        lemma_forward_states(n, n.connections@, event@, ci as int, k as int);
                        let fs = forward_states(n, n.connections@, event@);
                        let j = choose|j: int| 0 <= j < fs.len() && fs[j] == st2;
                        assert(universe[j + 1] == st2);
                    }
                    let ghost prev = pair_views(reached@);
                    if !holds_state(reached, &c.to_target, &names[k]) {
                        reached.push((c.to_target.clone(), names[k].clone()));
                        proof {
                            let now = pair_views(reached@);
                            assert(now =~= prev.push(st2));
                            assert forall|x: (Seq<char>, Seq<char>)| #[trigger] now.contains(x) implies reachable(n, scope@, event@, start, x)
                                && universe.contains(x) by {
                                let j = choose|j: int| 0 <= j < now.len() && now[j] == x;
                                if j < prev.len() {
                                    assert(prev[j] == x);
                                    assert(prev.contains(x));
                                }
                            }
                            assert forall|a: int, b: int| 0 <= a < b < now.len() implies now[a] != now[b] by {
                                if b == prev.len() {
                                    assert(prev[a] == now[a]);
                                    assert(prev.contains(now[a]));
                                }
                            }
                            assert(now.take(before.len() as int) =~= before) by {
                                assert(now.take(prev.len() as int) =~= prev);
                                assert(prev.take(before.len() as int) == before);
                            }
                            assert forall|kk: int| 0 <= kk < k + 1 implies now.contains((c.to_target@, #[trigger] views(names@)[kk])) by {
                                if kk < k {
                                    let x = (c.to_target@, views(names@)[kk]);
                                    assert(prev.contains(x));
                                    let j = choose|j: int| 0 <= j < prev.len() && prev[j] == x;
                                    assert(now[j] == x);
                                } else {
                                    assert(now[prev.len() as int] == st2);
                                }
                            }
                        }
                    }
                    k = k + 1;
                }
                proof {
                    let now = pair_views(reached@);
                    assert(now.take(old_r.len() as int) =~= old_r) by {
                        assert(now.take(before.len() as int) == before);
                        assert(before.take(old_r.len() as int) == old_r);
                    }
                    assert forall|i: int, kk: int, st2: (Seq<char>, Seq<char>)|
                        0 <= i < ci + 1 && #[trigger] forward_via(n, scope@, st, st2, event@, i, kk) implies now.contains(st2) by {
                        if i < ci {
                            assert(before.contains(st2));
                            let j = choose|j: int| 0 <= j < before.len() && before[j] == st2;
                            assert(now[j] == st2);
                        } else {
                            assert(views(names@)[kk] == out_port_names(comp.ports@, event@)[kk]);
                            assert(now.contains((c.to_target@, views(names@)[kk])));
                        }
                    }
                }
            } else {
                assert(!carries(n, scope@, st, *c, event@));
            }
        } else {
            assert(!carries(n, scope@, st, *c, event@));
        }
        ci = ci + 1;
    }
    proof {
        assert forall|st2: (Seq<char>, Seq<char>)| forwards(n, scope@, st, st2, event@) implies #[trigger] pair_views(reached@).contains(st2) by {
            let (i, k) = choose|i: int, k: int| #[trigger] forward_via(n, scope@, st, st2, event@, i, k);
        }
        assert(!replies_from(n, scope@, st, event@));
    }
    false
}

/// Whether `event`, sent from the port `source_port` of the instance
/// `source_target` inside the component `within_component`, can come back
/// to that component along declared connections.
fn can_route_event_back(
    spec: &NormalizedSpec,
    within_component: &str,
    source_target: &String,
    source_port: &String,
    event: &str,
) -> (r: bool)
    requires
        endpoints_wf(*spec),
    ensures
        r == routes_back(*spec, within_component@, (source_target@, source_port@), event@),
{
    let ghost n = *spec;
    let ghost start = (source_target@, source_port@);
    let ghost universe = seq![start] + forward_states(n, n.connections@, event@);
    let mut reached: Vec<(String, String)> = Vec::new();
    reached.push((source_target.clone(), source_port.clone()));
    proof {
        let rv = pair_views(reached@);
        assert(rv =~= seq![start]);
        let path = seq![start];
        assert(route_to(n, within_component@, event@, start, path, start));
        assert forall|x: (Seq<char>, Seq<char>)| #[trigger] rv.contains(x) implies reachable(n, within_component@, event@, start, x)
            && universe.contains(x) by {
            assert(x == start);
            assert(universe[0] == start);
        }
    }
    let mut u: usize = 0;
    while u < reached.len()
        invariant
            endpoints_wf(n),
            n == *spec,
            start == (source_target@, source_port@),
            u <= reached@.len(),
            search_ok(n, within_component@, event@, start, pair_views(reached@)),
            processed(n, within_component@, event@, pair_views(reached@), u as int),
            universe == seq![start] + forward_states(n, n.connections@, event@),
        decreases 2 * universe.len() - reached@.len() - u,
    {
        let ghost before = pair_views(reached@);
        proof {
            lemma_no_dup_subset_len(before, universe);
        }
        let back = follow_state(spec, within_component, event, &mut reached, u, Ghost(start));
        let ghost now = pair_views(reached@);
        proof {
            lemma_no_dup_subset_len(now, universe);
        }
        if back {
            proof {
                let x = before[u as int];
                assert(before.contains(x));
                assert(reachable(n, within_component@, event@, start, x));
                assert(replies_from(n, within_component@, x, event@));
                assert(routes_back(n, within_component@, start, event@));
            }
            return true;
        }
        proof {
            assert forall|j: int| 0 <= j < u + 1 implies {
                &&& !replies_from(n, within_component@, #[trigger] now[j], event@)
                &&& forall|st2: (Seq<char>, Seq<char>)| forwards(n, within_component@, now[j], st2, event@) ==> now.contains(st2)
            } by {
                assert(now[j] == before[j]);
                if j < u {
                    assert forall|st2: (Seq<char>, Seq<char>)| forwards(n, within_component@, now[j], st2, event@) implies now.contains(st2) by {
                        assert(before.contains(st2));
                        let x = choose|x: int| 0 <= x < before.len() && before[x] == st2;
                        assert(now[x] == st2);
                    }
                }
            }
        }
        u = u + 1;
    }
    proof {
        lemma_closed_search(n, within_component@, event@, start, pair_views(reached@));
    }
    false
}


/// Reply port `k` of the list sends `emitted` from the destination of `c`
/// back to the enclosing component `q`.
pub open spec fn port_reply(n: NormalizedSpec, q: Seq<char>, c: NormalizedConnection, names: Seq<Seq<char>>, emitted: Seq<char>, k: int) -> bool {
    0 <= k < names.len() && routes_back(n, q, (c.to_target@, names[k]), emitted)
}

/// The `e`-th event emitted by transition `tr` of `comp` comes back to `q`
/// through the `k`-th `out` port that carries it.
pub open spec fn emit_reply(n: NormalizedSpec, q: Seq<char>, c: NormalizedConnection, comp: NormalizedComponent, tr: NormalizedTransition, e: int, k: int) -> bool {
    0 <= e < tr.emits@.len() && port_reply(n, q, c, out_port_names(comp.ports@, tr.emits@[e]@), tr.emits@[e]@, k)
}

/// The `t`-th transition of the destination of `c`, triggered by `event`,
/// answers back to `q`.
pub open spec fn transition_reply(n: NormalizedSpec, q: Seq<char>, c: NormalizedConnection, event: Seq<char>, t: int, e: int, k: int) -> bool {
    let comp = comp_of(n, c.to_component@);
    &&& 0 <= t < comp.transitions@.len()
    &&& comp.transitions@[t].1.on@ == event
    &&& emit_reply(n, q, c, comp, comp.transitions@[t].1, e, k)
}

/// A declared reply path for `event` sent from port `pname` of component
/// `q`: through connection `i`, transition `t`, emitted event `e` and reply
/// port `k`.
pub open spec fn reply_path_via(n: NormalizedSpec, q: Seq<char>, pname: Seq<char>, event: Seq<char>, i: int, t: int, e: int, k: int) -> bool {
    let c = n.connections@[i];
    &&& 0 <= i < n.connections@.len()
    &&& c.within_component@ == q
    &&& c.from_target@ == "self"@
    &&& c.from_port@ == pname
    &&& transition_reply(n, q, c, event, t, e, k)
}

/// Some reply path is declared for `event` sent from port `pname` of `q`.
pub open spec fn has_reply_path(n: NormalizedSpec, q: Seq<char>, pname: Seq<char>, event: Seq<char>) -> bool {
    exists|i: int, t: int, e: int, k: int| #[trigger] reply_path_via(n, q, pname, event, i, t, e, k)
}

fn reply_via_ports(spec: &NormalizedSpec, q: &str, c: &NormalizedConnection, names: &Vec<String>, emitted: &String) -> (r: bool)
    requires
        endpoints_wf(*spec),
    ensures
        r == exists|k: int| #[trigger] port_reply(*spec, q@, *c, views(names@), emitted@, k),
{
    let mut k: usize = 0;
    while k < names.len()
        invariant
            endpoints_wf(*spec),
            k <= names@.len(),
            forall|kk: int| 0 <= kk < k ==> !#[trigger] port_reply(*spec, q@, *c, views(names@), emitted@, kk),
        decreases names@.len() - k,
    {
        assert(views(names@)[k as int] == names@[k as int]@);
        if can_route_event_back(spec, q, &c.to_target, &names[k], emitted.as_str()) {
            assert(port_reply(*spec, q@, *c, views(names@), emitted@, k as int));
            return true;
        }
        k = k + 1;
    }
    false
}

fn reply_via_transition(
    spec: &NormalizedSpec,
    q: &str,
    c: &NormalizedConnection,
    comp: &NormalizedComponent,
    tr: &NormalizedTransition,
) -> (r: bool)
    requires
        endpoints_wf(*spec),
    ensures
        r == exists|e: int, k: int| #[trigger] emit_reply(*spec, q@, *c, *comp, *tr, e, k),
{
    let mut e: usize = 0;
    while e < tr.emits.len()
        invariant
            endpoints_wf(*spec),
            e <= tr.emits@.len(),
            forall|ee: int, k: int| 0 <= ee < e ==> !#[trigger] emit_reply(*spec, q@, *c, *comp, *tr, ee, k),
        decreases tr.emits@.len() - e,
    {
        let emitted = &tr.emits[e];
        let names = output_ports_for_event(comp, emitted.as_str());
        if reply_via_ports(spec, q, c, &names, emitted) {
            proof {
                let k = choose|k: int| #[trigger] port_reply(*spec, q@, *c, views(names@), emitted@, k);
                assert(emit_reply(*spec, q@, *c, *comp, *tr, e as int, k));
            }
            return true;
        }
        assert forall|ee: int, k: int| 0 <= ee < e + 1 implies !#[trigger] emit_reply(*spec, q@, *c, *comp, *tr, ee, k) by {
            if ee == e {
                if emit_reply(*spec, q@, *c, *comp, *tr, ee, k) {
                    assert(port_reply(*spec, q@, *c, views(names@), emitted@, k));
                }
            }
        }
        e = e + 1;
    }
    false
}

fn reply_via_connection(spec: &NormalizedSpec, q: &str, c: &NormalizedConnection, event: &str) -> (r: bool)
    requires
        endpoints_wf(*spec),
        component_named(*spec, c.to_component@) is Some,
    ensures
        r == exists|t: int, e: int, k: int| #[trigger] transition_reply(*spec, q@, *c, event@, t, e, k),
{
    let comp = spec.components.get(c.to_component.as_str()).unwrap();
    let mut t: usize = 0;
    while t < comp.transitions.len()
        invariant
            endpoints_wf(*spec),
            component_named(*spec, c.to_component@) == Some(*comp),
            t <= comp.transitions@.len(),
            forall|tt: int, e: int, k: int| 0 <= tt < t ==> !#[trigger] transition_reply(*spec, q@, *c, event@, tt, e, k),
        decreases comp.transitions@.len() - t,
    {
        let tr = comp.transitions.value_at(t);
        if str_equal(tr.on.as_str(), event) {
            if reply_via_transition(spec, q, c, comp, tr) {
                proof {
                    let (e, k) = choose|e: int, k: int| #[trigger] emit_reply(*spec, q@, *c, *comp, *tr, e, k);
                    assert(transition_reply(*spec, q@, *c, event@, t as int, e, k));
                }
                return true;
            }
        }
        assert forall|tt: int, e: int, k: int| 0 <= tt < t + 1 implies !#[trigger] transition_reply(*spec, q@, *c, event@, tt, e, k) by {
            if tt == t && transition_reply(*spec, q@, *c, event@, tt, e, k) {
                assert(emit_reply(*spec, q@, *c, *comp, *tr, e, k));
            }
        }
        t = t + 1;
    }
    false
}

/// Whether a reply path is declared for `requested_event` sent from port
/// `requester_port` of component `requester_component`: a connection of
/// that component from `self.<port>` to an instance, a transition of the
/// instance's component triggered by the event, an event it emits, and an
/// `out` port carrying that event from which it travels back.
fn has_declared_reply_path(spec: &NormalizedSpec, requester_component: &str, requester_port: &str, requested_event: &str) -> (r: bool)
    requires
        endpoints_wf(*spec),
    ensures
        r == has_reply_path(*spec, requester_component@, requester_port@, requested_event@),
{
    let ghost n = *spec;
    let mut i: usize = 0;
    while i < spec.connections.len()
        invariant
            endpoints_wf(n),
            n == *spec,
            i <= n.connections@.len(),
            forall|ii: int, t: int, e: int, k: int| 0 <= ii < i ==> !#[trigger] reply_path_via(n, requester_component@, requester_port@, requested_event@, ii, t, e, k),
        decreases n.connections@.len() - i,
    {
        let c = &spec.connections[i];
        assert(endpoint_resolves(n, *c));
        let outbound = str_equal(c.within_component.as_str(), requester_component) && str_equal(c.from_target.as_str(), "self")
            && str_equal(c.from_port.as_str(), requester_port);
        if outbound {
            if reply_via_connection(spec, requester_component, c, requested_event) {
                proof {
                    let (t, e, k) = choose|t: int, e: int, k: int| #[trigger] transition_reply(n, requester_component@, *c, requested_event@, t, e, k);
                    assert(reply_path_via(n, requester_component@, requester_port@, requested_event@, i as int, t, e, k));
                }
                return true;
            }
        }
        assert forall|ii: int, t: int, e: int, k: int| 0 <= ii < i + 1 implies !#[trigger] reply_path_via(
            n,
            requester_component@,
            requester_port@,
            requested_event@,
            ii,
            t,
            e,
            k,
        ) by {
            if ii == i && reply_path_via(n, requester_component@, requester_port@, requested_event@, ii, t, e, k) {
                assert(transition_reply(n, requester_component@, *c, requested_event@, t, e, k));
            }
        }
        i = i + 1;
    }
    false
}

/// The message for a `must_reply` port without a declared reply path.
pub open spec fn missing_reply_message(q: Seq<char>, pname: Seq<char>, event: Seq<char>) -> Seq<char> {
    "Port `"@ + q + "."@ + pname + "` declares `must_reply` for event `"@ + event
        + "`, but no reply path is declared back to that component."@
}

/// The reply-path diagnostics for the ports `ps` of component `c`.
pub open spec fn port_reply_diags(n: NormalizedSpec, c: NormalizedComponent, ps: Seq<(Seq<char>, NormalizedPort)>) -> Seq<DiagnosticModel>
    decreases ps.len(),
{
    if ps.len() == 0 {
        Seq::empty()
    } else {
        let prev = port_reply_diags(n, c, ps.drop_last());
        let p = ps.last().1;
        if p.direction == PortDirection::Out && spec_has_must_reply(p.contracts) && !has_reply_path(
            n,
            c.qualified_name@,
            p.name@,
            p.event@,
        ) {
            prev.push(plain_error("HNK2111"@, missing_reply_message(c.qualified_name@, p.name@, p.event@)))
        } else {
            prev
        }
    }
}

/// The reply-path diagnostics of the components `cs`, in order.
pub open spec fn must_reply_diags(n: NormalizedSpec, cs: Seq<(Seq<char>, NormalizedComponent)>) -> Seq<DiagnosticModel>
    decreases cs.len(),
{
    if cs.len() == 0 {
        Seq::empty()
    } else {
        must_reply_diags(n, cs.drop_last()) + port_reply_diags(n, cs.last().1, cs.last().1.ports@)
    }
}

fn validate_must_reply(spec: &NormalizedSpec, diagnostics: &mut Vec<Diagnostic>)
    requires
        endpoints_wf(*spec),
    ensures
        dm(final(diagnostics)@) == dm(old(diagnostics)@) + must_reply_diags(*spec, spec.components@),
{
    let ghost start = dm(diagnostics@);
    let n = spec.components.len();
    let mut i: usize = 0;
    while i < n
        invariant
            endpoints_wf(*spec),
            n == spec.components@.len(),
            i <= n,
            dm(diagnostics@) == start + must_reply_diags(*spec, spec.components@.take(i as int)),
        decreases n - i,
    {
        assert(spec.components@.take(i + 1).drop_last() =~= spec.components@.take(i as int));
        let c = spec.components.value_at(i);
        let ghost mid = dm(diagnostics@);
        let m = c.ports.len();
        let mut j: usize = 0;
        while j < m
            invariant
                endpoints_wf(*spec),
                m == c.ports@.len(),
                j <= m,
                dm(diagnostics@) == mid + port_reply_diags(*spec, *c, c.ports@.take(j as int)),
            decreases m - j,
        {
            assert(c.ports@.take(j + 1).drop_last() =~= c.ports@.take(j as int));
            let p = c.ports.value_at(j);
            if matches!(p.direction, PortDirection::Out) && has_must_reply(&p.contracts) {
                if !has_declared_reply_path(spec, c.qualified_name.as_str(), p.name.as_str(), p.event.as_str()) {
                    let mut msg = String::new();
                    msg.append("Port `");
                    msg.append(c.qualified_name.as_str());
                    msg.append(".");
                    msg.append(p.name.as_str());
                    msg.append("` declares `must_reply` for event `");
                    msg.append(p.event.as_str());
                    msg.append("`, but no reply path is declared back to that component.");
                    push_diag(diagnostics, Diagnostic::error("HNK2111", msg));
                }
            }
            assert(dm(diagnostics@) =~= mid + port_reply_diags(*spec, *c, c.ports@.take(j + 1)));
            j = j + 1;
        }
        assert(c.ports@.take(m as int) =~= c.ports@);
        assert(dm(diagnostics@) =~= start + must_reply_diags(*spec, spec.components@.take(i + 1)));
        i = i + 1;
    }
    assert(spec.components@.take(n as int) =~= spec.components@);
}

// ---------------------------------------------------------------------------
// The whole validation.

/// Every diagnostic that validation raises for a resolved model, in order:
/// event versions, connections, transitions, durable state, reply paths.
pub open spec fn validation_diags(n: NormalizedSpec) -> Seq<DiagnosticModel> {
    event_version_diags(n.events@) + connections_check_diags(n, n.connections@) + transitions_diags(n.components@)
        + persistence_diags(n.components@) + must_reply_diags(n, n.components@)
}

/// Validates a model whose connection endpoints all resolve.
pub fn validate_normalized(spec: &NormalizedSpec) -> (r: DiagnosticSet)
    requires
        endpoints_wf(*spec),
    ensures
        r@ == validation_diags(*spec),
{
    let mut diagnostics: Vec<Diagnostic> = Vec::new();
    validate_event_versions(spec, &mut diagnostics);
    validate_connections(spec, &mut diagnostics);
    validate_transitions(spec, &mut diagnostics);
    validate_persistence(spec, &mut diagnostics);
    validate_must_reply(spec, &mut diagnostics);
    assert(dm(diagnostics@) =~= validation_diags(*spec));
    DiagnosticSet::new(diagnostics)
}


// ---------------------------------------------------------------------------
// Normalized models resolve.

/// The resolved names of a connection name defined components and ports.
pub open spec fn conn_model_ok(m: ConnModel, comps: Seq<(Seq<char>, NormalizedComponent)>) -> bool {
    &&& lookup(comps, m.within) is Some
    &&& lookup(comps, m.from_component) matches Some(fc) && has_key(fc.ports@, m.from_port)
    &&& lookup(comps, m.to_component) matches Some(tc) && has_key(tc.ports@, m.to_port)
    &&& (m.from_target == "self"@ ==> m.from_component == m.within)
}

/// Each resolved component is stored under its qualified name.
pub open spec fn named_by_qualified_name(comps: Seq<(Seq<char>, NormalizedComponent)>) -> bool {
    forall|i: int| 0 <= i < comps.len() ==> (#[trigger] comps[i]).1.qualified_name@ == comps[i].0
}

proof fn lemma_lookup_entry<V>(s: Seq<(Seq<char>, V)>, k: Seq<char>)
    requires
        lookup(s, k) is Some,
    ensures
        exists|i: int| 0 <= i < s.len() && (#[trigger] s[i]).0 == k && s[i].1 == lookup(s, k)->Some_0,
    decreases s.len(),
{
    if s[0].0 != k {
        lemma_lookup_entry(s.drop_first(), k);
        let i = choose|i: int| 0 <= i < s.drop_first().len() && (#[trigger] s.drop_first()[i]).0 == k
            && s.drop_first()[i].1 == lookup(s.drop_first(), k)->Some_0;
        assert(s[i + 1] == s.drop_first()[i]);
    } else {
        assert(s[0].0 == k);
    }
}

proof fn lemma_lookup_named(comps: Seq<(Seq<char>, NormalizedComponent)>, k: Seq<char>)
    requires
        named_by_qualified_name(comps),
        lookup(comps, k) is Some,
    ensures
        (lookup(comps, k)->Some_0).qualified_name@ == k,
{
    lemma_lookup_entry(comps, k);
    let i = choose|i: int| 0 <= i < comps.len() && (#[trigger] comps[i]).0 == k && comps[i].1 == lookup(comps, k)->Some_0;
}

proof fn lemma_connection_step_ok(
    package: Seq<char>,
    conn: crate::ast::Connection,
    comps: Seq<(Seq<char>, NormalizedComponent)>,
    comp_keys: Seq<Seq<char>>,
)
    requires
        named_by_qualified_name(comps),
        connection_step(package, conn, comps, comp_keys).0 is Some,
    ensures
        conn_model_ok(connection_step(package, conn, comps, comp_keys).0->Some_0, comps),
{
    let (w, ds) = spec_resolve(package, conn.within@, comp_keys, "component"@, "enclosing component"@);
    let wn = w->Some_0;
    let wc = lookup(comps, wn)->Some_0;
    lemma_lookup_named(comps, wn);
    assert(lookup(comps, wc.qualified_name@) == Some(wc));
}

proof fn lemma_conns_in_file_ok(
    st: ConnFold,
    files: Seq<SourceFile>,
    fi: int,
    m: int,
    comps: Seq<(Seq<char>, NormalizedComponent)>,
    comp_keys: Seq<Seq<char>>,
)
    requires
        named_by_qualified_name(comps),
        forall|j: int| 0 <= j < st.built.len() ==> conn_model_ok(#[trigger] st.built[j].0, comps),
    ensures
        forall|j: int| 0 <= j < conns_in_file(st, files, fi, m, comps, comp_keys).built.len()
            ==> conn_model_ok(#[trigger] conns_in_file(st, files, fi, m, comps, comp_keys).built[j].0, comps),
    decreases m,
{
    if m > 0 {
        lemma_conns_in_file_ok(st, files, fi, m - 1, comps, comp_keys);
        let prev = conns_in_file(st, files, fi, m - 1, comps, comp_keys);
        let conn = files[fi].spec.connections@[m - 1];
        let step = connection_step(files[fi].package@, conn, comps, comp_keys);
        if step.0 is Some {
            lemma_connection_step_ok(files[fi].package@, conn, comps, comp_keys);
            let next = conns_in_file(st, files, fi, m, comps, comp_keys);
            assert forall|j: int| 0 <= j < next.built.len() implies conn_model_ok(#[trigger] next.built[j].0, comps) by {
                if j < prev.built.len() {
                    assert(next.built[j] == prev.built[j]);
                }
            }
        }
    }
}

proof fn lemma_conns_upto_ok(files: Seq<SourceFile>, n: int, comps: Seq<(Seq<char>, NormalizedComponent)>, comp_keys: Seq<Seq<char>>)
    requires
        named_by_qualified_name(comps),
    ensures
        forall|j: int| 0 <= j < conns_upto(files, n, comps, comp_keys).built.len()
            ==> conn_model_ok(#[trigger] conns_upto(files, n, comps, comp_keys).built[j].0, comps),
    decreases n,
{
    if n > 0 {
        lemma_conns_upto_ok(files, n - 1, comps, comp_keys);
        lemma_conns_in_file_ok(
            conns_upto(files, n - 1, comps, comp_keys),
            files,
            n - 1,
            files[n - 1].spec.connections@.len() as int,
            comps,
            comp_keys,
        );
    }
}

/// Every connection of a normalized model resolves: its enclosing
/// component, its two components and its two ports are defined, and a
/// `self` source is the enclosing component.
pub proof fn lemma_normalized_connections_resolve(
    n: NormalizedSpec,
    files: Seq<SourceFile>,
    ei: int,
    graph: Seq<(String, Vec<String>)>,
)
    requires
        keys_sorted(n.components@),
        normalized_from(n, files, ei, graph),
    ensures
        model_wf(n),
{
    let ed = all_decls(files, true);
    let cd = all_decls(files, false);
    let comps = n.components@;
    let conns = conns_upto(files, files.len() as int, comps, keys_of(cd.map));
    assert(named_by_qualified_name(comps)) by {
        assert forall|i: int| 0 <= i < comps.len() implies (#[trigger] comps[i]).1.qualified_name@ == comps[i].0 by {
            assert(components_built(comps, cd.map, files, keys_of(ed.map), keys_of(cd.map)));
        }
    }
    lemma_conns_upto_ok(files, files.len() as int, comps, keys_of(cd.map));
    assert forall|i: int| 0 <= i < n.connections@.len() implies connection_resolves(n, #[trigger] n.connections@[i]) by {
        assert(conn_entry_ok(n.connections@[i], conns.built[i], files));
        assert(conn_model_ok(conns.built[i].0, comps));
    }
}

/// What validating `spec` reports: the normalization diagnostics of the
/// specification read as a bundle of one file when there are any, and
/// otherwise the validation diagnostics of its normalized model.
pub open spec fn validate_outcome(spec: Spec, d: Seq<DiagnosticModel>) -> bool {
    exists|files: Seq<SourceFile>, comps: Seq<(Seq<char>, NormalizedComponent)>|
        #![trigger inline_files(spec, files), components_of(files, comps)]
        inline_files(spec, files) && components_of(files, comps) && if bundle_diags(files, 0, comps).len() > 0 {
            d == bundle_diags(files, 0, comps)
        } else {
            exists|m: NormalizedSpec| #[trigger] normalized_from(m, files, 0, Seq::empty()) && m.components@ == comps
                && d == validation_diags(m)
        }
}

/// Validates a specification: normalizes it, reports the normalization
/// diagnostics when there are any, and otherwise validates the model.
pub fn validate(spec: &Spec) -> (r: DiagnosticSet)
    ensures
        validate_outcome(*spec, r@),
{
    match normalize(spec) {
        Ok(normalized) => {
            // The map's length carries its ordering invariant.
            let _ = normalized.components.len();
            proof {
                let files = choose|files: Seq<SourceFile>| #[trigger] inline_files(*spec, files) && normalized_from(normalized, files, 0, Seq::empty())
                    && bundle_diags(files, 0, normalized.components@).len() == 0;
                lemma_normalized_connections_resolve(normalized, files, 0, Seq::empty());
                lemma_resolved_endpoints(normalized);
            }
            let r = validate_normalized(&normalized);
            proof {
                let files = choose|files: Seq<SourceFile>| #[trigger] inline_files(*spec, files) && normalized_from(normalized, files, 0, Seq::empty())
                    && bundle_diags(files, 0, normalized.components@).len() == 0;
                assert(components_of(files, normalized.components@));
                assert(normalized_from(normalized, files, 0, Seq::empty()));
            }
            r
        },
        Err(diagnostics) => {
            proof {
                let files = choose|files: Seq<SourceFile>| #[trigger] inline_files(*spec, files) && (exists|comps: Seq<(Seq<char>, NormalizedComponent)>|
                    components_of(files, comps) && diagnostics@ == bundle_diags(files, 0, comps) && diagnostics@.len() > 0);
                let comps = choose|comps: Seq<(Seq<char>, NormalizedComponent)>| components_of(files, comps) && diagnostics@ == bundle_diags(files, 0, comps)
                    && diagnostics@.len() > 0;
                assert(inline_files(*spec, files) && components_of(files, comps));
            }
            diagnostics
        },
    }
}

} // verus!
