//! Models that agree in everything that validation reads: names and keys,
//! port directions and events, transition triggers, emitted events and state
//! references, durable state, instances and connection endpoints. Validation
//! gives such models the same diagnostics.
use vstd::prelude::*;
use crate::ast::ContractBag;
use crate::contracts::spec_has_must_reply;
use crate::diagnostics::DiagnosticModel;
use crate::ir::{
    NormalizedComponent, NormalizedComponentUse, NormalizedConnection, NormalizedEvent, NormalizedPersistence, NormalizedPort, NormalizedSpec,
    NormalizedStateField, NormalizedTransition,
};
use crate::name_map::{has_key, lookup};
use crate::ast::Component;
use crate::normalize::{
    ConnFold, SourceFile, component_built, connection_step, conns_in_file, conns_upto, target_resolution, components_built, decl_component, persistence_built, port_built, ports_fold, ports_match, state_fold, state_match,
    transition_built, transitions_fold, transitions_match, use_built, uses_fold, uses_match, views,
};
use crate::resolve::{spec_parse_endpoint, spec_resolve};
use crate::value::{Value, untag, value_as_bool, value_model};
use crate::validate::{
    carries, comp_of, component_named, component_transition_diags, connection_check_diags, connections_check_diags, durable_diags, emit_diags,
    emit_reply, event_version_diags, field_diags, forward_via, forwards, has_reply_path, is_route, must_reply_diags, out_port_names,
    persistence_diags, port_declares, port_of, port_reply, port_reply_diags, reachable, replies_from, reply_path_via, reply_via, route_to,
    routes_back, transition_diags, transition_reply, transitions_diags, validation_diags,
};

verus! {

/// Two entry lists with the same keys, position by position.
pub open spec fn same_keys<A, B>(a: Seq<(Seq<char>, A)>, b: Seq<(Seq<char>, B)>) -> bool {
    &&& a.len() == b.len()
    &&& forall|i: int| 0 <= i < a.len() ==> (#[trigger] a[i]).0 == b[i].0
}

/// Two ports with the same name, direction, event and contracts.
pub open spec fn port_agree(a: NormalizedPort, b: NormalizedPort) -> bool {
    &&& a.name@ == b.name@
    &&& a.direction == b.direction
    &&& a.event@ == b.event@
    &&& a.contracts@ == b.contracts@
}

/// Port lists that agree position by position.
pub open spec fn ports_agree(a: Seq<(Seq<char>, NormalizedPort)>, b: Seq<(Seq<char>, NormalizedPort)>) -> bool {
    &&& same_keys(a, b)
    &&& forall|i: int| 0 <= i < a.len() ==> port_agree(#[trigger] a[i].1, b[i].1)
}

/// Two transitions with the same name, trigger, emitted events and state
/// references.
pub open spec fn transition_agree(a: NormalizedTransition, b: NormalizedTransition) -> bool {
    &&& a.name@ == b.name@
    &&& a.on@ == b.on@
    &&& views(a.emits@) == views(b.emits@)
    &&& a.reads@ == b.reads@
    &&& a.writes@ == b.writes@
}

/// Transition lists that agree position by position.
pub open spec fn transitions_agree(a: Seq<(Seq<char>, NormalizedTransition)>, b: Seq<(Seq<char>, NormalizedTransition)>) -> bool {
    &&& same_keys(a, b)
    &&& forall|i: int| 0 <= i < a.len() ==> transition_agree(#[trigger] a[i].1, b[i].1)
}

/// Instance lists with the same names and instantiated components.
pub open spec fn uses_agree(a: Seq<(Seq<char>, NormalizedComponentUse)>, b: Seq<(Seq<char>, NormalizedComponentUse)>) -> bool {
    &&& same_keys(a, b)
    &&& forall|i: int| 0 <= i < a.len() ==> (#[trigger] a[i]).1.component@ == b[i].1.component@
}

/// Durable state declared in both or in neither, with the same fields.
pub open spec fn persistence_agree(a: Option<NormalizedPersistence>, b: Option<NormalizedPersistence>) -> bool {
    match (a, b) {
        (Some(x), Some(y)) => x.durable@ == y.durable@,
        (None, None) => true,
        _ => false,
    }
}

/// Two components that agree in everything validation reads of them.
pub open spec fn comp_agree(a: NormalizedComponent, b: NormalizedComponent) -> bool {
    &&& a.qualified_name@ == b.qualified_name@
    &&& uses_agree(a.uses@, b.uses@)
    &&& ports_agree(a.ports@, b.ports@)
    &&& same_keys(a.state_fields@, b.state_fields@)
    &&& transitions_agree(a.transitions@, b.transitions@)
    &&& persistence_agree(a.persistence, b.persistence)
}

/// Component lists that agree position by position.
pub open spec fn comps_agree(a: Seq<(Seq<char>, NormalizedComponent)>, b: Seq<(Seq<char>, NormalizedComponent)>) -> bool {
    &&& same_keys(a, b)
    &&& forall|i: int| 0 <= i < a.len() ==> comp_agree(#[trigger] a[i].1, b[i].1)
}

/// Two connections with the same endpoints.
pub open spec fn conn_agree(a: NormalizedConnection, b: NormalizedConnection) -> bool {
    &&& a.within_component@ == b.within_component@
    &&& a.from_target@ == b.from_target@
    &&& a.from_component@ == b.from_component@
    &&& a.from_port@ == b.from_port@
    &&& a.to_target@ == b.to_target@
    &&& a.to_component@ == b.to_component@
    &&& a.to_port@ == b.to_port@
}

/// Connection lists that agree position by position.
pub open spec fn conns_agree(a: Seq<NormalizedConnection>, b: Seq<NormalizedConnection>) -> bool {
    &&& a.len() == b.len()
    &&& forall|i: int| 0 <= i < a.len() ==> conn_agree(#[trigger] a[i], b[i])
}

/// Event lists with the same names, visibilities and versions.
pub open spec fn events_agree(a: Seq<(Seq<char>, NormalizedEvent)>, b: Seq<(Seq<char>, NormalizedEvent)>) -> bool {
    &&& a.len() == b.len()
    &&& forall|i: int| 0 <= i < a.len() ==> {
        &&& (#[trigger] a[i]).1.qualified_name@ == b[i].1.qualified_name@
        &&& a[i].1.visibility == b[i].1.visibility
        &&& a[i].1.version == b[i].1.version
    }
}

/// Two models that agree in everything validation reads.
pub open spec fn models_agree(n1: NormalizedSpec, n2: NormalizedSpec) -> bool {
    &&& events_agree(n1.events@, n2.events@)
    &&& comps_agree(n1.components@, n2.components@)
    &&& conns_agree(n1.connections@, n2.connections@)
}

// ---------------------------------------------------------------------------
// Lookups.

/// Looking up a key in two lists with the same keys finds the same position.
pub proof fn lemma_lookup_pair<A, B>(a: Seq<(Seq<char>, A)>, b: Seq<(Seq<char>, B)>, k: Seq<char>) -> (i: int)
    requires
        same_keys(a, b),
    ensures
        (lookup(a, k) is Some) == (lookup(b, k) is Some),
        lookup(a, k) is Some ==> 0 <= i < a.len() && lookup(a, k) == Some(a[i].1) && lookup(b, k) == Some(b[i].1),
        has_key(a, k) == has_key(b, k),
    decreases a.len(),
{
    assert(has_key(a, k) ==> has_key(b, k)) by {
        if has_key(a, k) {
            let j = choose|j: int| 0 <= j < a.len() && #[trigger] a[j].0 == k;
            assert(b[j].0 == k);
        }
    }
    assert(has_key(b, k) ==> has_key(a, k)) by {
        if has_key(b, k) {
            let j = choose|j: int| 0 <= j < b.len() && #[trigger] b[j].0 == k;
            assert(a[j].0 == k);
        }
    }
    if a.len() == 0 {
        -1
    } else if a[0].0 == k {
        0
    } else {
        let (ta, tb) = (a.drop_first(), b.drop_first());
        assert(same_keys(ta, tb)) by {
            assert forall|i: int| 0 <= i < ta.len() implies (#[trigger] ta[i]).0 == tb[i].0 by {
                assert(ta[i] == a[i + 1] && tb[i] == b[i + 1]);
            }
        }
        let j = lemma_lookup_pair(ta, tb, k);
        if lookup(a, k) is Some {
            assert(ta[j] == a[j + 1] && tb[j] == b[j + 1]);
        }
        j + 1
    }
}

/// The components under one name in two agreeing component lists agree.
pub proof fn lemma_comp_of_agree(n1: NormalizedSpec, n2: NormalizedSpec, name: Seq<char>)
    requires
        comps_agree(n1.components@, n2.components@),
    ensures
        comp_agree(comp_of(n1, name), comp_of(n2, name)),
        (component_named(n1, name) is Some) == (component_named(n2, name) is Some),
{
    let i = lemma_lookup_pair(n1.components@, n2.components@, name);
    if lookup(n1.components@, name) is Some {
        assert(comp_agree(n1.components@[i].1, n2.components@[i].1));
    } else {
        assert(lookup(n1.components@, name) == lookup(n2.components@, name));
    }
}

/// The ports under one name in two agreeing port lists agree.
pub proof fn lemma_port_lookup_agree(a: Seq<(Seq<char>, NormalizedPort)>, b: Seq<(Seq<char>, NormalizedPort)>, p: Seq<char>)
    requires
        ports_agree(a, b),
    ensures
        port_agree(lookup(a, p)->Some_0, lookup(b, p)->Some_0),
{
    let i = lemma_lookup_pair(a, b, p);
    if lookup(a, p) is Some {
        assert(port_agree(a[i].1, b[i].1));
    } else {
        assert(lookup(a, p) == lookup(b, p));
    }
}

/// The port at one end of a connection agrees in agreeing models.
pub proof fn lemma_port_of_agree(n1: NormalizedSpec, n2: NormalizedSpec, comp: Seq<char>, port: Seq<char>)
    requires
        comps_agree(n1.components@, n2.components@),
    ensures
        port_agree(port_of(n1, comp, port), port_of(n2, comp, port)),
{
    lemma_comp_of_agree(n1, n2, comp);
    lemma_port_lookup_agree(comp_of(n1, comp).ports@, comp_of(n2, comp).ports@, port);
}

// ---------------------------------------------------------------------------
// Contracts.

proof fn lemma_untag_bool(a: Value, b: Value)
    requires
        value_model(a) == value_model(b),
    ensures
        value_as_bool(a) == value_as_bool(b),
    decreases a,
{
    match a {
        Value::Tagged(_, ia) => {
            match b {
                Value::Tagged(_, ib) => {
                    lemma_untag_bool(*ia, *ib);
                },
                _ => {},
            }
        },
        _ => {},
    }
}

proof fn lemma_bag_get_agree(a: Seq<(String, Value)>, b: Seq<(String, Value)>, key: Seq<char>)
    requires
        crate::ast::bag_model(a) == crate::ast::bag_model(b),
    ensures
        (crate::ast::bag_get(a, key) is Some) == (crate::ast::bag_get(b, key) is Some),
        crate::ast::bag_get(a, key) is Some ==> value_model(crate::ast::bag_get(a, key)->Some_0) == value_model(
            crate::ast::bag_get(b, key)->Some_0,
        ),
    decreases a.len(),
{
    assert(crate::ast::bag_model(a).len() == a.len() && crate::ast::bag_model(b).len() == b.len());
    if a.len() > 0 {
        assert(crate::ast::bag_model(a)[0] == crate::ast::bag_model(b)[0]);
        assert(crate::ast::bag_model(a.drop_first()) =~= crate::ast::bag_model(a).drop_first());
        assert(crate::ast::bag_model(b.drop_first()) =~= crate::ast::bag_model(b).drop_first());
        lemma_bag_get_agree(a.drop_first(), b.drop_first(), key);
    }
}

/// Whether a bag declares `must_reply` depends only on its contents.
pub proof fn lemma_must_reply_agree(a: ContractBag, b: ContractBag)
    requires
        a@ == b@,
    ensures
        spec_has_must_reply(a) == spec_has_must_reply(b),
{
    lemma_bag_get_agree(a.entries@, b.entries@, "must_reply"@);
    if crate::ast::bag_get(a.entries@, "must_reply"@) is Some {
        lemma_untag_bool(crate::ast::bag_get(a.entries@, "must_reply"@)->Some_0, crate::ast::bag_get(b.entries@, "must_reply"@)->Some_0);
    }
}

// ---------------------------------------------------------------------------
// Validation gives agreeing models the same diagnostics.

proof fn lemma_event_version_agree(a: Seq<(Seq<char>, NormalizedEvent)>, b: Seq<(Seq<char>, NormalizedEvent)>)
    requires
        events_agree(a, b),
    ensures
        event_version_diags(a) == event_version_diags(b),
    decreases a.len(),
{
    if a.len() > 0 {
        let (da, db) = (a.drop_last(), b.drop_last());
        assert(events_agree(da, db)) by {
            assert forall|i: int| 0 <= i < da.len() implies {
                &&& (#[trigger] da[i]).1.qualified_name@ == db[i].1.qualified_name@
                &&& da[i].1.visibility == db[i].1.visibility
                &&& da[i].1.version == db[i].1.version
            } by {
                assert(da[i] == a[i] && db[i] == b[i]);
            }
        }
        lemma_event_version_agree(da, db);
        assert(a.last() == a[a.len() - 1] && b.last() == b[b.len() - 1]);
    }
}

proof fn lemma_connections_check_agree(n1: NormalizedSpec, n2: NormalizedSpec, cs1: Seq<NormalizedConnection>, cs2: Seq<NormalizedConnection>)
    requires
        comps_agree(n1.components@, n2.components@),
        conns_agree(cs1, cs2),
    ensures
        connections_check_diags(n1, cs1) == connections_check_diags(n2, cs2),
    decreases cs1.len(),
{
    if cs1.len() > 0 {
        let (d1, d2) = (cs1.drop_last(), cs2.drop_last());
        assert(conns_agree(d1, d2)) by {
            assert forall|i: int| 0 <= i < d1.len() implies conn_agree(#[trigger] d1[i], d2[i]) by {
                assert(d1[i] == cs1[i] && d2[i] == cs2[i]);
            }
        }
        lemma_connections_check_agree(n1, n2, d1, d2);
        let (c1, c2) = (cs1.last(), cs2.last());
        assert(conn_agree(cs1[cs1.len() - 1], cs2[cs2.len() - 1]));
        lemma_port_of_agree(n1, n2, c1.from_component@, c1.from_port@);
        lemma_port_of_agree(n1, n2, c1.to_component@, c1.to_port@);
        assert(connection_check_diags(n1, c1) == connection_check_diags(n2, c2));
    }
}

proof fn lemma_field_diags_agree(
    code: Seq<char>,
    verb: Seq<char>,
    q: Seq<char>,
    tname: Seq<char>,
    s1: Seq<(Seq<char>, NormalizedStateField)>,
    s2: Seq<(Seq<char>, NormalizedStateField)>,
    fields: Seq<String>,
)
    requires
        same_keys(s1, s2),
    ensures
        field_diags(code, verb, q, tname, s1, fields) == field_diags(code, verb, q, tname, s2, fields),
    decreases fields.len(),
{
    if fields.len() > 0 {
        lemma_field_diags_agree(code, verb, q, tname, s1, s2, fields.drop_last());
        lemma_lookup_pair(s1, s2, fields.last()@);
    }
}

proof fn lemma_durable_diags_agree(q: Seq<char>, s1: Seq<(Seq<char>, NormalizedStateField)>, s2: Seq<(Seq<char>, NormalizedStateField)>, fields: Seq<String>)
    requires
        same_keys(s1, s2),
    ensures
        durable_diags(q, s1, fields) == durable_diags(q, s2, fields),
    decreases fields.len(),
{
    if fields.len() > 0 {
        lemma_durable_diags_agree(q, s1, s2, fields.drop_last());
        lemma_lookup_pair(s1, s2, fields.last()@);
    }
}

proof fn lemma_port_declares_agree(a: Seq<(Seq<char>, NormalizedPort)>, b: Seq<(Seq<char>, NormalizedPort)>, dir: crate::schema::PortDirection, ev: Seq<char>)
    requires
        ports_agree(a, b),
    ensures
        port_declares(a, dir, ev) == port_declares(b, dir, ev),
{
    if port_declares(a, dir, ev) {
        let k = choose|k: int| 0 <= k < a.len() && (#[trigger] a[k]).1.direction == dir && a[k].1.event@ == ev;
        assert(port_agree(a[k].1, b[k].1));
        assert(0 <= k < b.len() && b[k].1.direction == dir && b[k].1.event@ == ev);
    }
    if port_declares(b, dir, ev) {
        let k = choose|k: int| 0 <= k < b.len() && (#[trigger] b[k]).1.direction == dir && b[k].1.event@ == ev;
        assert(port_agree(a[k].1, b[k].1));
        assert(0 <= k < a.len() && a[k].1.direction == dir && a[k].1.event@ == ev);
    }
}

proof fn lemma_emit_diags_agree(c1: NormalizedComponent, c2: NormalizedComponent, tname: Seq<char>, e1: Seq<String>, e2: Seq<String>)
    requires
        comp_agree(c1, c2),
        views(e1) == views(e2),
    ensures
        emit_diags(c1, tname, e1) == emit_diags(c2, tname, e2),
    decreases e1.len(),
{
    assert(e1.len() == views(e1).len() && e2.len() == views(e2).len());
    if e1.len() > 0 {
        assert(views(e1.drop_last()) =~= views(e1).drop_last());
        assert(views(e2.drop_last()) =~= views(e2).drop_last());
        lemma_emit_diags_agree(c1, c2, tname, e1.drop_last(), e2.drop_last());
        assert(views(e1)[e1.len() - 1] == e1.last()@);
        assert(views(e2)[e2.len() - 1] == e2.last()@);
        lemma_port_declares_agree(c1.ports@, c2.ports@, crate::schema::PortDirection::Out, e1.last()@);
    }
}

proof fn lemma_transition_diags_agree(c1: NormalizedComponent, c2: NormalizedComponent, t1: NormalizedTransition, t2: NormalizedTransition)
    requires
        comp_agree(c1, c2),
        transition_agree(t1, t2),
    ensures
        transition_diags(c1, t1) == transition_diags(c2, t2),
{
    let q = c1.qualified_name@;
    lemma_field_diags_agree("HNK2106"@, "reads"@, q, t1.name@, c1.state_fields@, c2.state_fields@, t1.reads@);
    lemma_field_diags_agree("HNK2107"@, "writes"@, q, t1.name@, c1.state_fields@, c2.state_fields@, t1.writes@);
    lemma_port_declares_agree(c1.ports@, c2.ports@, crate::schema::PortDirection::In, t1.on@);
    lemma_emit_diags_agree(c1, c2, t1.name@, t1.emits@, t2.emits@);
}

proof fn lemma_component_transitions_agree(
    c1: NormalizedComponent,
    c2: NormalizedComponent,
    ts1: Seq<(Seq<char>, NormalizedTransition)>,
    ts2: Seq<(Seq<char>, NormalizedTransition)>,
)
    requires
        comp_agree(c1, c2),
        transitions_agree(ts1, ts2),
    ensures
        component_transition_diags(c1, ts1) == component_transition_diags(c2, ts2),
    decreases ts1.len(),
{
    if ts1.len() > 0 {
        let (d1, d2) = (ts1.drop_last(), ts2.drop_last());
        assert(transitions_agree(d1, d2)) by {
            assert forall|i: int| 0 <= i < d1.len() implies (#[trigger] d1[i]).0 == d2[i].0 by {
                assert(d1[i] == ts1[i] && d2[i] == ts2[i]);
            }
            assert forall|i: int| 0 <= i < d1.len() implies transition_agree(#[trigger] d1[i].1, d2[i].1) by {
                assert(d1[i] == ts1[i] && d2[i] == ts2[i]);
            }
        }
        lemma_component_transitions_agree(c1, c2, d1, d2);
        assert(transition_agree(ts1[ts1.len() - 1].1, ts2[ts2.len() - 1].1));
        lemma_transition_diags_agree(c1, c2, ts1.last().1, ts2.last().1);
    }
}

proof fn lemma_comps_drop_last(a: Seq<(Seq<char>, NormalizedComponent)>, b: Seq<(Seq<char>, NormalizedComponent)>)
    requires
        comps_agree(a, b),
        a.len() > 0,
    ensures
        comps_agree(a.drop_last(), b.drop_last()),
        comp_agree(a.last().1, b.last().1),
{
    let (d1, d2) = (a.drop_last(), b.drop_last());
    assert forall|i: int| 0 <= i < d1.len() implies (#[trigger] d1[i]).0 == d2[i].0 by {
        assert(d1[i] == a[i] && d2[i] == b[i]);
    }
    assert forall|i: int| 0 <= i < d1.len() implies comp_agree(#[trigger] d1[i].1, d2[i].1) by {
        assert(d1[i] == a[i] && d2[i] == b[i]);
    }
    assert(comp_agree(a[a.len() - 1].1, b[b.len() - 1].1));
}

proof fn lemma_transitions_diags_agree(a: Seq<(Seq<char>, NormalizedComponent)>, b: Seq<(Seq<char>, NormalizedComponent)>)
    requires
        comps_agree(a, b),
    ensures
        transitions_diags(a) == transitions_diags(b),
    decreases a.len(),
{
    if a.len() > 0 {
        lemma_comps_drop_last(a, b);
        lemma_transitions_diags_agree(a.drop_last(), b.drop_last());
        lemma_component_transitions_agree(a.last().1, b.last().1, a.last().1.transitions@, b.last().1.transitions@);
    }
}

proof fn lemma_persistence_diags_agree(a: Seq<(Seq<char>, NormalizedComponent)>, b: Seq<(Seq<char>, NormalizedComponent)>)
    requires
        comps_agree(a, b),
    ensures
        persistence_diags(a) == persistence_diags(b),
    decreases a.len(),
{
    if a.len() > 0 {
        lemma_comps_drop_last(a, b);
        lemma_persistence_diags_agree(a.drop_last(), b.drop_last());
        let (c1, c2) = (a.last().1, b.last().1);
        match (c1.persistence, c2.persistence) {
            (Some(p1), Some(p2)) => {
                lemma_durable_diags_agree(c1.qualified_name@, c1.state_fields@, c2.state_fields@, p1.durable@);
            },
            _ => {},
        }
    }
}

proof fn lemma_out_port_names_agree(a: Seq<(Seq<char>, NormalizedPort)>, b: Seq<(Seq<char>, NormalizedPort)>, ev: Seq<char>)
    requires
        ports_agree(a, b),
    ensures
        out_port_names(a, ev) == out_port_names(b, ev),
    decreases a.len(),
{
    if a.len() > 0 {
        let (d1, d2) = (a.drop_last(), b.drop_last());
        assert(ports_agree(d1, d2)) by {
            assert forall|i: int| 0 <= i < d1.len() implies (#[trigger] d1[i]).0 == d2[i].0 by {
                assert(d1[i] == a[i] && d2[i] == b[i]);
            }
            assert forall|i: int| 0 <= i < d1.len() implies port_agree(#[trigger] d1[i].1, d2[i].1) by {
                assert(d1[i] == a[i] && d2[i] == b[i]);
            }
        }
        lemma_out_port_names_agree(d1, d2, ev);
        assert(port_agree(a[a.len() - 1].1, b[b.len() - 1].1));
    }
}

/// Two models whose components and connections agree.
pub open spec fn topology_agree(n1: NormalizedSpec, n2: NormalizedSpec) -> bool {
    comps_agree(n1.components@, n2.components@) && conns_agree(n1.connections@, n2.connections@)
}

proof fn lemma_carries_agree(
    n1: NormalizedSpec,
    n2: NormalizedSpec,
    q: Seq<char>,
    st: (Seq<char>, Seq<char>),
    c1: NormalizedConnection,
    c2: NormalizedConnection,
    ev: Seq<char>,
)
    requires
        topology_agree(n1, n2),
        conn_agree(c1, c2),
    ensures
        carries(n1, q, st, c1, ev) == carries(n2, q, st, c2, ev),
        out_port_names(comp_of(n1, c1.to_component@).ports@, ev) == out_port_names(comp_of(n2, c2.to_component@).ports@, ev),
{
    lemma_port_of_agree(n1, n2, c1.to_component@, c1.to_port@);
    lemma_comp_of_agree(n1, n2, c1.to_component@);
    lemma_out_port_names_agree(comp_of(n1, c1.to_component@).ports@, comp_of(n2, c1.to_component@).ports@, ev);
}

proof fn lemma_forward_via_agree(
    n1: NormalizedSpec,
    n2: NormalizedSpec,
    q: Seq<char>,
    st: (Seq<char>, Seq<char>),
    st2: (Seq<char>, Seq<char>),
    ev: Seq<char>,
    i: int,
    k: int,
)
    requires
        topology_agree(n1, n2),
    ensures
        forward_via(n1, q, st, st2, ev, i, k) == forward_via(n2, q, st, st2, ev, i, k),
        reply_via(n1, q, st, ev, i) == reply_via(n2, q, st, ev, i),
{
    if 0 <= i < n1.connections@.len() {
        assert(conn_agree(n1.connections@[i], n2.connections@[i]));
        lemma_carries_agree(n1, n2, q, st, n1.connections@[i], n2.connections@[i], ev);
    }
}

proof fn lemma_routes_agree(n1: NormalizedSpec, n2: NormalizedSpec)
    requires
        topology_agree(n1, n2),
    ensures
        forall|q: Seq<char>, st: (Seq<char>, Seq<char>), ev: Seq<char>| #[trigger] routes_back(n1, q, st, ev) == routes_back(n2, q, st, ev),
{
    assert forall|q: Seq<char>, st: (Seq<char>, Seq<char>), st2: (Seq<char>, Seq<char>), ev: Seq<char>| #[trigger] forwards(n1, q, st, st2, ev)
        == forwards(n2, q, st, st2, ev) by {
        if forwards(n1, q, st, st2, ev) {
            let (i, k) = choose|i: int, k: int| #[trigger] forward_via(n1, q, st, st2, ev, i, k);
            lemma_forward_via_agree(n1, n2, q, st, st2, ev, i, k);
            assert(forward_via(n2, q, st, st2, ev, i, k));
        }
        if forwards(n2, q, st, st2, ev) {
            let (i, k) = choose|i: int, k: int| #[trigger] forward_via(n2, q, st, st2, ev, i, k);
            lemma_forward_via_agree(n1, n2, q, st, st2, ev, i, k);
            assert(forward_via(n1, q, st, st2, ev, i, k));
        }
    }
    assert forall|q: Seq<char>, st: (Seq<char>, Seq<char>), ev: Seq<char>| #[trigger] replies_from(n1, q, st, ev) == replies_from(n2, q, st, ev) by {
        if replies_from(n1, q, st, ev) {
            let i = choose|i: int| #[trigger] reply_via(n1, q, st, ev, i);
            lemma_forward_via_agree(n1, n2, q, st, st, ev, i, 0);
            assert(reply_via(n2, q, st, ev, i));
        }
        if replies_from(n2, q, st, ev) {
            let i = choose|i: int| #[trigger] reply_via(n2, q, st, ev, i);
            lemma_forward_via_agree(n1, n2, q, st, st, ev, i, 0);
            assert(reply_via(n1, q, st, ev, i));
        }
    }
    assert forall|q: Seq<char>, ev: Seq<char>, start: (Seq<char>, Seq<char>), x: (Seq<char>, Seq<char>)| #[trigger] reachable(n1, q, ev, start, x)
        == reachable(n2, q, ev, start, x) by {
        assert forall|path: Seq<(Seq<char>, Seq<char>)>| #[trigger] route_to(n1, q, ev, start, path, x) == route_to(n2, q, ev, start, path, x) by {
            assert(is_route(n1, q, ev, path) == is_route(n2, q, ev, path));
        }
        if reachable(n1, q, ev, start, x) {
            let path = choose|path: Seq<(Seq<char>, Seq<char>)>| #[trigger] route_to(n1, q, ev, start, path, x);
            assert(route_to(n2, q, ev, start, path, x));
        }
        if reachable(n2, q, ev, start, x) {
            let path = choose|path: Seq<(Seq<char>, Seq<char>)>| #[trigger] route_to(n2, q, ev, start, path, x);
            assert(route_to(n1, q, ev, start, path, x));
        }
    }
    assert forall|q: Seq<char>, st: (Seq<char>, Seq<char>), ev: Seq<char>| #[trigger] routes_back(n1, q, st, ev) == routes_back(n2, q, st, ev) by {
        if routes_back(n1, q, st, ev) {
            let x = choose|x: (Seq<char>, Seq<char>)| #[trigger] reachable(n1, q, ev, st, x) && replies_from(n1, q, x, ev);
            assert(reachable(n2, q, ev, st, x) && replies_from(n2, q, x, ev));
        }
        if routes_back(n2, q, st, ev) {
            let x = choose|x: (Seq<char>, Seq<char>)| #[trigger] reachable(n2, q, ev, st, x) && replies_from(n2, q, x, ev);
            assert(reachable(n1, q, ev, st, x) && replies_from(n1, q, x, ev));
        }
    }
}

proof fn lemma_reply_path_via_agree(n1: NormalizedSpec, n2: NormalizedSpec, q: Seq<char>, p: Seq<char>, ev: Seq<char>, i: int, t: int, e: int, k: int)
    requires
        topology_agree(n1, n2),
        forall|q: Seq<char>, st: (Seq<char>, Seq<char>), ev: Seq<char>| #[trigger] routes_back(n1, q, st, ev) == routes_back(n2, q, st, ev),
    ensures
        reply_path_via(n1, q, p, ev, i, t, e, k) == reply_path_via(n2, q, p, ev, i, t, e, k),
{
    if 0 <= i < n1.connections@.len() {
        let (c1, c2) = (n1.connections@[i], n2.connections@[i]);
        assert(conn_agree(c1, c2));
        lemma_comp_of_agree(n1, n2, c1.to_component@);
        let (comp1, comp2) = (comp_of(n1, c1.to_component@), comp_of(n2, c2.to_component@));
        if 0 <= t < comp1.transitions@.len() {
            let (tr1, tr2) = (comp1.transitions@[t].1, comp2.transitions@[t].1);
            assert(transition_agree(tr1, tr2));
            assert(tr1.emits@.len() == views(tr1.emits@).len() && tr2.emits@.len() == views(tr2.emits@).len());
            if 0 <= e < tr1.emits@.len() {
                let em = tr1.emits@[e]@;
                assert(views(tr1.emits@)[e] == em && views(tr2.emits@)[e] == tr2.emits@[e]@);
                lemma_out_port_names_agree(comp1.ports@, comp2.ports@, em);
                let names = out_port_names(comp1.ports@, em);
                if 0 <= k < names.len() {
                    assert(routes_back(n1, q, (c1.to_target@, names[k]), em) == routes_back(n2, q, (c2.to_target@, names[k]), em));
                }
                assert(emit_reply(n1, q, c1, comp1, tr1, e, k) == emit_reply(n2, q, c2, comp2, tr2, e, k));
            }
            assert(emit_reply(n1, q, c1, comp1, tr1, e, k) == emit_reply(n2, q, c2, comp2, tr2, e, k));
        }
        assert(transition_reply(n1, q, c1, ev, t, e, k) == transition_reply(n2, q, c2, ev, t, e, k));
    }
}

proof fn lemma_reply_paths_agree(n1: NormalizedSpec, n2: NormalizedSpec)
    requires
        topology_agree(n1, n2),
    ensures
        forall|q: Seq<char>, p: Seq<char>, ev: Seq<char>| #[trigger] has_reply_path(n1, q, p, ev) == has_reply_path(n2, q, p, ev),
{
    lemma_routes_agree(n1, n2);
    assert forall|q: Seq<char>, p: Seq<char>, ev: Seq<char>| #[trigger] has_reply_path(n1, q, p, ev) == has_reply_path(n2, q, p, ev) by {
        if has_reply_path(n1, q, p, ev) {
            let (i, t, e, k) = choose|i: int, t: int, e: int, k: int| #[trigger] reply_path_via(n1, q, p, ev, i, t, e, k);
            lemma_reply_path_via_agree(n1, n2, q, p, ev, i, t, e, k);
            assert(reply_path_via(n2, q, p, ev, i, t, e, k));
        }
        if has_reply_path(n2, q, p, ev) {
            let (i, t, e, k) = choose|i: int, t: int, e: int, k: int| #[trigger] reply_path_via(n2, q, p, ev, i, t, e, k);
            lemma_reply_path_via_agree(n1, n2, q, p, ev, i, t, e, k);
            assert(reply_path_via(n1, q, p, ev, i, t, e, k));
        }
    }
}

proof fn lemma_port_reply_diags_agree(
    n1: NormalizedSpec,
    n2: NormalizedSpec,
    c1: NormalizedComponent,
    c2: NormalizedComponent,
    ps1: Seq<(Seq<char>, NormalizedPort)>,
    ps2: Seq<(Seq<char>, NormalizedPort)>,
)
    requires
        c1.qualified_name@ == c2.qualified_name@,
        ports_agree(ps1, ps2),
        forall|q: Seq<char>, p: Seq<char>, ev: Seq<char>| #[trigger] has_reply_path(n1, q, p, ev) == has_reply_path(n2, q, p, ev),
    ensures
        port_reply_diags(n1, c1, ps1) == port_reply_diags(n2, c2, ps2),
    decreases ps1.len(),
{
    if ps1.len() > 0 {
        let (d1, d2) = (ps1.drop_last(), ps2.drop_last());
        assert(ports_agree(d1, d2)) by {
            assert forall|i: int| 0 <= i < d1.len() implies (#[trigger] d1[i]).0 == d2[i].0 by {
                assert(d1[i] == ps1[i] && d2[i] == ps2[i]);
            }
            assert forall|i: int| 0 <= i < d1.len() implies port_agree(#[trigger] d1[i].1, d2[i].1) by {
                assert(d1[i] == ps1[i] && d2[i] == ps2[i]);
            }
        }
        lemma_port_reply_diags_agree(n1, n2, c1, c2, d1, d2);
        let (p1, p2) = (ps1.last().1, ps2.last().1);
        assert(port_agree(ps1[ps1.len() - 1].1, ps2[ps2.len() - 1].1));
        lemma_must_reply_agree(p1.contracts, p2.contracts);
        assert(has_reply_path(n1, c1.qualified_name@, p1.name@, p1.event@) == has_reply_path(n2, c1.qualified_name@, p1.name@, p1.event@));
    }
}

proof fn lemma_must_reply_diags_agree(n1: NormalizedSpec, n2: NormalizedSpec, a: Seq<(Seq<char>, NormalizedComponent)>, b: Seq<(Seq<char>, NormalizedComponent)>)
    requires
        comps_agree(a, b),
        forall|q: Seq<char>, p: Seq<char>, ev: Seq<char>| #[trigger] has_reply_path(n1, q, p, ev) == has_reply_path(n2, q, p, ev),
    ensures
        must_reply_diags(n1, a) == must_reply_diags(n2, b),
    decreases a.len(),
{
    if a.len() > 0 {
        lemma_comps_drop_last(a, b);
        lemma_must_reply_diags_agree(n1, n2, a.drop_last(), b.drop_last());
        lemma_port_reply_diags_agree(n1, n2, a.last().1, b.last().1, a.last().1.ports@, b.last().1.ports@);
    }
}

/// Validation gives two models that agree in everything it reads the same
/// diagnostics.
pub proof fn lemma_validation_agree(n1: NormalizedSpec, n2: NormalizedSpec)
    requires
        models_agree(n1, n2),
    ensures
        validation_diags(n1) == validation_diags(n2),
{
    lemma_event_version_agree(n1.events@, n2.events@);
    lemma_connections_check_agree(n1, n2, n1.connections@, n2.connections@);
    lemma_transitions_diags_agree(n1.components@, n2.components@);
    lemma_persistence_diags_agree(n1.components@, n2.components@);
    lemma_reply_paths_agree(n1, n2);
    lemma_must_reply_diags_agree(n1, n2, n1.components@, n2.components@);
}

// ---------------------------------------------------------------------------
// Components built from the same declarations agree.

/// Two components built from the same declaration agree.
pub proof fn lemma_component_built_agree(
    c1: NormalizedComponent,
    c2: NormalizedComponent,
    q: Seq<char>,
    file: SourceFile,
    comp: Component,
    ek: Seq<Seq<char>>,
    ck: Seq<Seq<char>>,
)
    requires
        component_built(c1, q, file, comp, ek, ck),
        component_built(c2, q, file, comp, ek, ck),
    ensures
        comp_agree(c1, c2),
{
    let package = file.package@;
    let um = uses_fold(package, q, comp, ck, comp.uses@.len() as int).map;
    let pm = ports_fold(package, q, comp, ek, comp.ports@.len() as int).map;
    let sm = state_fold(q, comp, comp.state.fields@.len() as int).map;
    let tm = transitions_fold(package, q, comp, ek, comp.transitions@.len() as int).map;
    assert(uses_match(c1.uses@, um, comp) && uses_match(c2.uses@, um, comp));
    assert(uses_agree(c1.uses@, c2.uses@)) by {
        assert forall|i: int| 0 <= i < c1.uses@.len() implies (#[trigger] c1.uses@[i]).0 == c2.uses@[i].0 by {
            assert(c1.uses@[i].0 == um[i].0 && c2.uses@[i].0 == um[i].0);
        }
        assert forall|i: int| 0 <= i < c1.uses@.len() implies (#[trigger] c1.uses@[i]).1.component@ == c2.uses@[i].1.component@ by {
            assert(use_built(c1.uses@[i].1, comp, um[i].1.0, um[i].1.1) && use_built(c2.uses@[i].1, comp, um[i].1.0, um[i].1.1));
        }
    }
    assert(ports_match(c1.ports@, pm, q, comp) && ports_match(c2.ports@, pm, q, comp));
    assert(ports_agree(c1.ports@, c2.ports@)) by {
        assert forall|i: int| 0 <= i < c1.ports@.len() implies (#[trigger] c1.ports@[i]).0 == c2.ports@[i].0 by {
            assert(c1.ports@[i].0 == pm[i].0 && c2.ports@[i].0 == pm[i].0);
        }
        assert forall|i: int| 0 <= i < c1.ports@.len() implies port_agree(#[trigger] c1.ports@[i].1, c2.ports@[i].1) by {
            assert(port_built(c1.ports@[i].1, q, comp, pm[i].1.0, pm[i].1.1) && port_built(c2.ports@[i].1, q, comp, pm[i].1.0, pm[i].1.1));
        }
    }
    assert(state_match(c1.state_fields@, sm, q, comp) && state_match(c2.state_fields@, sm, q, comp));
    assert(same_keys(c1.state_fields@, c2.state_fields@)) by {
        assert forall|i: int| 0 <= i < c1.state_fields@.len() implies (#[trigger] c1.state_fields@[i]).0 == c2.state_fields@[i].0 by {
            assert(c1.state_fields@[i].0 == sm[i].0 && c2.state_fields@[i].0 == sm[i].0);
        }
    }
    assert(transitions_match(c1.transitions@, tm, q, comp) && transitions_match(c2.transitions@, tm, q, comp));
    assert(transitions_agree(c1.transitions@, c2.transitions@)) by {
        assert forall|i: int| 0 <= i < c1.transitions@.len() implies (#[trigger] c1.transitions@[i]).0 == c2.transitions@[i].0 by {
            assert(c1.transitions@[i].0 == tm[i].0 && c2.transitions@[i].0 == tm[i].0);
        }
        assert forall|i: int| 0 <= i < c1.transitions@.len() implies transition_agree(#[trigger] c1.transitions@[i].1, c2.transitions@[i].1) by {
            assert(transition_built(c1.transitions@[i].1, q, comp, tm[i].1.0, tm[i].1.1, tm[i].1.2));
            assert(transition_built(c2.transitions@[i].1, q, comp, tm[i].1.0, tm[i].1.1, tm[i].1.2));
        }
    }
    assert(persistence_built(c1.persistence, comp.persistence) && persistence_built(c2.persistence, comp.persistence));
}

/// Components built from the same declarations agree, one for one.
pub proof fn lemma_components_built_agree(
    r1: Seq<(Seq<char>, NormalizedComponent)>,
    r2: Seq<(Seq<char>, NormalizedComponent)>,
    decls: Seq<(Seq<char>, (usize, usize))>,
    files: Seq<SourceFile>,
    ek: Seq<Seq<char>>,
    ck: Seq<Seq<char>>,
)
    requires
        components_built(r1, decls, files, ek, ck),
        components_built(r2, decls, files, ek, ck),
    ensures
        comps_agree(r1, r2),
{
    assert forall|i: int| 0 <= i < r1.len() implies (#[trigger] r1[i]).0 == r2[i].0 by {
        assert(r1[i].0 == decls[i].0 && r2[i].0 == decls[i].0);
    }
    assert forall|i: int| 0 <= i < r1.len() implies comp_agree(#[trigger] r1[i].1, r2[i].1) by {
        assert(r1[i].0 == decls[i].0 && r2[i].0 == decls[i].0);
        lemma_component_built_agree(r1[i].1, r2[i].1, decls[i].0, files[decls[i].1.0 as int], decl_component(files, decls[i].1), ek, ck);
    }
}

// ---------------------------------------------------------------------------
// Connections resolve alike against agreeing components.

proof fn lemma_target_resolution_agree(
    w1: NormalizedComponent,
    w2: NormalizedComponent,
    c1: Seq<(Seq<char>, NormalizedComponent)>,
    c2: Seq<(Seq<char>, NormalizedComponent)>,
    target: Seq<char>,
    side: Seq<char>,
)
    requires
        comp_agree(w1, w2),
        comps_agree(c1, c2),
    ensures
        ({
            let (r1, d1) = target_resolution(w1, c1, target, side);
            let (r2, d2) = target_resolution(w2, c2, target, side);
            &&& d1 == d2
            &&& (r1 is Some) == (r2 is Some)
            &&& r1 is Some ==> r1->Some_0.0 == r2->Some_0.0 && comp_agree(r1->Some_0.1, r2->Some_0.1)
        }),
{
    if target != "self"@ {
        let j = lemma_lookup_pair(w1.uses@, w2.uses@, target);
        if lookup(w1.uses@, target) is Some {
            let (u1, u2) = (w1.uses@[j].1, w2.uses@[j].1);
            assert(u1.component@ == u2.component@);
            let i = lemma_lookup_pair(c1, c2, u1.component@);
            if lookup(c1, u1.component@) is Some {
                assert(comp_agree(c1[i].1, c2[i].1));
            }
        }
    }
}

/// One connection resolves to the same names and diagnostics against
/// agreeing component lists.
pub proof fn lemma_connection_step_agree(
    package: Seq<char>,
    conn: crate::ast::Connection,
    c1: Seq<(Seq<char>, NormalizedComponent)>,
    c2: Seq<(Seq<char>, NormalizedComponent)>,
    ck: Seq<Seq<char>>,
)
    requires
        comps_agree(c1, c2),
    ensures
        connection_step(package, conn, c1, ck) == connection_step(package, conn, c2, ck),
{
    let (w, ds) = spec_resolve(package, conn.within@, ck, "component"@, "enclosing component"@);
    if let Some(wn) = w {
        let i = lemma_lookup_pair(c1, c2, wn);
        if lookup(c1, wn) is Some {
            let (wc1, wc2) = (c1[i].1, c2[i].1);
            assert(comp_agree(wc1, wc2));
            if let Some((ft, fp)) = spec_parse_endpoint(conn.from@) {
                if let Some((tt, tp)) = spec_parse_endpoint(conn.to@) {
                    lemma_target_resolution_agree(wc1, wc2, c1, c2, ft, "from"@);
                    lemma_target_resolution_agree(wc1, wc2, c1, c2, tt, "to"@);
                    let (fr1, fds1) = target_resolution(wc1, c1, ft, "from"@);
                    let (fr2, fds2) = target_resolution(wc2, c2, ft, "from"@);
                    let (tr1, tds1) = target_resolution(wc1, c1, tt, "to"@);
                    let (tr2, tds2) = target_resolution(wc2, c2, tt, "to"@);
                    if fr1 is Some && tr1 is Some {
                        let (fm1, fm2) = (fr1->Some_0.1, fr2->Some_0.1);
                        let (tm1, tm2) = (tr1->Some_0.1, tr2->Some_0.1);
                        lemma_lookup_pair(fm1.ports@, fm2.ports@, fp);
                        lemma_lookup_pair(tm1.ports@, tm2.ports@, tp);
                    }
                }
            }
        }
    }
}

proof fn lemma_conns_in_file_agree(
    st: ConnFold,
    files: Seq<SourceFile>,
    fi: int,
    m: int,
    c1: Seq<(Seq<char>, NormalizedComponent)>,
    c2: Seq<(Seq<char>, NormalizedComponent)>,
    ck: Seq<Seq<char>>,
)
    requires
        comps_agree(c1, c2),
    ensures
        conns_in_file(st, files, fi, m, c1, ck) == conns_in_file(st, files, fi, m, c2, ck),
    decreases m,
{
    if m > 0 {
        lemma_conns_in_file_agree(st, files, fi, m - 1, c1, c2, ck);
        lemma_connection_step_agree(files[fi].package@, files[fi].spec.connections@[m - 1], c1, c2, ck);
    }
}

/// Connections resolve alike against agreeing component lists.
pub proof fn lemma_conns_upto_agree(
    files: Seq<SourceFile>,
    n: int,
    c1: Seq<(Seq<char>, NormalizedComponent)>,
    c2: Seq<(Seq<char>, NormalizedComponent)>,
    ck: Seq<Seq<char>>,
)
    requires
        comps_agree(c1, c2),
    ensures
        conns_upto(files, n, c1, ck) == conns_upto(files, n, c2, ck),
    decreases n,
{
    if n > 0 {
        lemma_conns_upto_agree(files, n - 1, c1, c2, ck);
        lemma_conns_in_file_agree(conns_upto(files, n - 1, c1, ck), files, n - 1, files[n - 1].spec.connections@.len() as int, c1, c2, ck);
    }
}

} // verus!
