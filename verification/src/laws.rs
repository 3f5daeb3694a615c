//! Properties of the library as a whole: what a normalized model always
//! satisfies, what validation and lint report, and how endpoints and names
//! are written.
use vstd::prelude::*;
use crate::diagnostics::{DiagnosticModel, Severity, plain_error};
use crate::contracts::spec_has_must_reply;
use crate::inspect::count_connections;
use crate::graph::{adjacency_text, edges_text, mermaid_text, sanitized, subgraph_text, subgraphs_text, use_lines};
use crate::ir::NormalizedSpec;
use crate::diagnostics::DiagnosticSet;
use crate::lint::{is_referenced, unused_field_warning, lint_warnings, port_warnings, recovery_warnings, field_warnings, unconnected_warnings, unused_field_warnings};
use crate::name_map::{keys_of, keys_sorted, has_key, sorted_insert, lemma_sorted_insert, lemma_sorted_insert_entries, lemma_sorted_insert_keeps};
use crate::normalize::{
    DeclFold, SourceFile, all_decls, decl_name, decl_step, decls_in_file, decls_upto, decls_valid, non_local_of, normalized_from,
    same_connections, components_built, events_built, ConnFold, bundle_diags, components_diags, components_of, conns_in_file, conns_upto,
    decl_component, decl_count, version_diags, ConnModel, normalize_outcome, defined_twice_message, state_fold, uses_fold, transitions_fold,
    component_diags, connections_match, conn_entry_ok, inline_files, PortsFold, ports_fold, ports_match, port_built, component_built, set_add, views,
};
use crate::resolve::{qualified, seq_has, spec_parse_endpoint, spec_resolve};
use crate::schema::{ConnectionLocality, PortDirection};
use crate::ast::{Component, Event, Spec};
use crate::rust::{ascii_digit, ascii_lower, ascii_upper, lower_char, module_fold, module_text};
use crate::ir::{NormalizedComponent, NormalizedConnection, NormalizedEvent, NormalizedPort, NormalizedStateField, NormalizedTransition};
use crate::text::{find_char_seq, find_from, find_seq, occurs_at, str_lt};
use crate::agree::{comps_agree, conn_agree, conns_agree, events_agree, models_agree, lemma_components_built_agree, lemma_conns_upto_agree, lemma_validation_agree};
use crate::validate::{validate_outcome, comp_of, emit_reply, has_reply_path, missing_reply_message, reply_path_via, transition_reply, 
    component_transition_diags, connection_check_diags, connections_check_diags, durable_diags, emit_diags, event_version_diags, field_diags,
    must_reply_diags, persistence_diags, port_reply_diags, transition_diags, transitions_diags, validation_diags,
};

verus! {

// ---------------------------------------------------------------------------
// Names in a normalized model.

proof fn lemma_decl_step_valid(st: DeclFold, files: Seq<SourceFile>, fi: int, di: int, events: bool)
    requires
        decls_valid(st.map, files, events),
        0 <= fi < files.len(),
        0 <= di < crate::normalize::decl_count(files, fi, events),
        fi <= usize::MAX,
        di <= usize::MAX,
    ensures
        decls_valid(decl_step(st, files, fi, di, events).map, files, events),
{
    let q = qualified(files[fi].package@, decl_name(files, fi, di, events));
    lemma_sorted_insert_entries(st.map, q, (fi as usize, di as usize));
    let m = decl_step(st, files, fi, di, events).map;
    if !crate::name_map::has_key(st.map, q) {
        assert forall|i: int| #![trigger m[i]] 0 <= i < m.len() implies {
            let f = m[i].1.0 as int;
            let d = m[i].1.1 as int;
            &&& 0 <= f < files.len()
            &&& 0 <= d < crate::normalize::decl_count(files, f, events)
            &&& m[i].0 == qualified(files[f].package@, decl_name(files, f, d, events))
        } by {
            if m[i] != (q, (fi as usize, di as usize)) {
                let k = choose|k: int| 0 <= k < st.map.len() && sorted_insert(st.map, q, (fi as usize, di as usize))[i] == st.map[k];
                assert(st.map[k] == m[i]);
            }
        }
    }
}

proof fn lemma_decls_in_file_valid(st: DeclFold, files: Seq<SourceFile>, fi: int, m: int, events: bool)
    requires
        decls_valid(st.map, files, events),
        0 <= fi < files.len(),
        m <= crate::normalize::decl_count(files, fi, events),
        fi <= usize::MAX,
        m <= usize::MAX + 1,
    ensures
        decls_valid(decls_in_file(st, files, fi, m, events).map, files, events),
    decreases m,
{
    if m > 0 {
        lemma_decls_in_file_valid(st, files, fi, m - 1, events);
        lemma_decl_step_valid(decls_in_file(st, files, fi, m - 1, events), files, fi, m - 1, events);
    }
}

proof fn lemma_decls_upto_valid(files: Seq<SourceFile>, n: int, events: bool)
    requires
        n <= files.len(),
        forall|f: int| 0 <= f < files.len() ==> crate::normalize::decl_count(files, f, events) <= usize::MAX,
        files.len() <= usize::MAX,
    ensures
        decls_valid(decls_upto(files, n, events).map, files, events),
    decreases n,
{
    if n > 0 {
        lemma_decls_upto_valid(files, n - 1, events);
        lemma_decls_in_file_valid(
            decls_upto(files, n - 1, events),
            files,
            n - 1,
            crate::normalize::decl_count(files, n - 1, events),
            events,
        );
    }
}

/// Every component and every event of a normalized model is stored under
/// its qualified name, which is its package, a `.` and its name.
pub proof fn lemma_normalized_names(n: NormalizedSpec, files: Seq<SourceFile>, ei: int, graph: Seq<(String, Vec<String>)>)
    requires
        normalized_from(n, files, ei, graph),
        files.len() <= usize::MAX,
        forall|f: int| 0 <= f < files.len() ==> files[f].spec.events@.len() <= usize::MAX && files[f].spec.components@.len() <= usize::MAX,
    ensures
        forall|i: int| #![trigger n.components@[i]] 0 <= i < n.components@.len() ==> {
            let c = n.components@[i].1;
            &&& n.components@[i].0 == c.qualified_name@
            &&& c.qualified_name@ == qualified(c.package@, c.name@)
        },
        forall|i: int| #![trigger n.events@[i]] 0 <= i < n.events@.len() ==> {
            let e = n.events@[i].1;
            &&& n.events@[i].0 == e.qualified_name@
            &&& e.qualified_name@ == qualified(e.package@, e.name@)
        },
{
    let ed = all_decls(files, true);
    let cd = all_decls(files, false);
    lemma_decls_upto_valid(files, files.len() as int, true);
    lemma_decls_upto_valid(files, files.len() as int, false);
    assert(components_built(n.components@, cd.map, files, keys_of(ed.map), keys_of(cd.map)));
    assert(events_built(n.events@, ed.map, files));
    assert forall|i: int| #![trigger n.components@[i]] 0 <= i < n.components@.len() implies {
        let c = n.components@[i].1;
        &&& n.components@[i].0 == c.qualified_name@
        &&& c.qualified_name@ == qualified(c.package@, c.name@)
    } by {
        assert(cd.map[i].0 == n.components@[i].0);
    }
    assert forall|i: int| #![trigger n.events@[i]] 0 <= i < n.events@.len() implies {
        let e = n.events@[i].1;
        &&& n.events@[i].0 == e.qualified_name@
        &&& e.qualified_name@ == qualified(e.package@, e.name@)
    } by {
        assert(ed.map[i].0 == n.events@[i].0);
    }
}

// ---------------------------------------------------------------------------
// Non-local connections.

proof fn lemma_non_local_of(s: Seq<crate::ir::NormalizedConnection>)
    ensures
        non_local_of(s).len() == count_connections(s, None, ConnectionLocality::NonLocal),
        forall|i: int| 0 <= i < non_local_of(s).len() ==> (#[trigger] non_local_of(s)[i]).locality == ConnectionLocality::NonLocal,
    decreases s.len(),
{
    if s.len() > 0 {
        lemma_non_local_of(s.drop_last());
    }
}

/// The non-local connections of a normalized model are the connections
/// that cross a non-local boundary: each of them does, and there are as
/// many as the summary counts among all connections.
pub proof fn lemma_non_local_connections(n: NormalizedSpec, files: Seq<SourceFile>, ei: int, graph: Seq<(String, Vec<String>)>)
    requires
        normalized_from(n, files, ei, graph),
    ensures
        n.non_local_connections@.len() == count_connections(n.connections@, None, ConnectionLocality::NonLocal),
        forall|i: int| 0 <= i < n.non_local_connections@.len() ==> (#[trigger] n.non_local_connections@[i]).locality
            == ConnectionLocality::NonLocal,
{
    lemma_non_local_of(n.connections@);
    assert(same_connections(n.non_local_connections@, non_local_of(n.connections@)));
    assert forall|i: int| 0 <= i < n.non_local_connections@.len() implies (#[trigger] n.non_local_connections@[i]).locality
        == ConnectionLocality::NonLocal by {
        assert(crate::ir::same_connection(n.non_local_connections@[i], non_local_of(n.connections@)[i]));
    }
}

/// Every connection is local or non-local: the summary's two counts add up
/// to the number of connections.
pub proof fn lemma_locality_counts(cs: Seq<crate::ir::NormalizedConnection>)
    ensures
        count_connections(cs, None, ConnectionLocality::Local) + count_connections(cs, None, ConnectionLocality::NonLocal) == cs.len(),
    decreases cs.len(),
{
    if cs.len() > 0 {
        lemma_locality_counts(cs.drop_last());
    }
}

// ---------------------------------------------------------------------------
// Severities.

/// All the diagnostics of the list are errors.
pub open spec fn all_errors(ds: Seq<DiagnosticModel>) -> bool {
    forall|i: int| 0 <= i < ds.len() ==> (#[trigger] ds[i]).severity == Severity::Error
}

/// All the diagnostics of the list are warnings.
pub open spec fn all_warnings(ds: Seq<DiagnosticModel>) -> bool {
    forall|i: int| 0 <= i < ds.len() ==> (#[trigger] ds[i]).severity == Severity::Warning
}

proof fn lemma_errors_concat(a: Seq<DiagnosticModel>, b: Seq<DiagnosticModel>)
    requires
        all_errors(a),
        all_errors(b),
    ensures
        all_errors(a + b),
{
    assert forall|i: int| 0 <= i < (a + b).len() implies (#[trigger] (a + b)[i]).severity == Severity::Error by {
        if i < a.len() {
            assert((a + b)[i] == a[i]);
        } else {
            assert((a + b)[i] == b[i - a.len()]);
        }
    }
}

proof fn lemma_warnings_concat(a: Seq<DiagnosticModel>, b: Seq<DiagnosticModel>)
    requires
        all_warnings(a),
        all_warnings(b),
    ensures
        all_warnings(a + b),
{
    assert forall|i: int| 0 <= i < (a + b).len() implies (#[trigger] (a + b)[i]).severity == Severity::Warning by {
        if i < a.len() {
            assert((a + b)[i] == a[i]);
        } else {
            assert((a + b)[i] == b[i - a.len()]);
        }
    }
}

proof fn lemma_field_diags_errors(
    code: Seq<char>,
    verb: Seq<char>,
    q: Seq<char>,
    tname: Seq<char>,
    states: Seq<(Seq<char>, crate::ir::NormalizedStateField)>,
    fields: Seq<String>,
)
    ensures
        all_errors(field_diags(code, verb, q, tname, states, fields)),
    decreases fields.len(),
{
    if fields.len() > 0 {
        lemma_field_diags_errors(code, verb, q, tname, states, fields.drop_last());
    }
}

proof fn lemma_emit_diags_errors(c: crate::ir::NormalizedComponent, tname: Seq<char>, emits: Seq<String>)
    ensures
        all_errors(emit_diags(c, tname, emits)),
    decreases emits.len(),
{
    if emits.len() > 0 {
        lemma_emit_diags_errors(c, tname, emits.drop_last());
    }
}

proof fn lemma_transition_diags_errors(c: crate::ir::NormalizedComponent, t: crate::ir::NormalizedTransition)
    ensures
        all_errors(transition_diags(c, t)),
{
    let q = c.qualified_name@;
    lemma_field_diags_errors("HNK2106"@, "reads"@, q, t.name@, c.state_fields@, t.reads@);
    lemma_field_diags_errors("HNK2107"@, "writes"@, q, t.name@, c.state_fields@, t.writes@);
    lemma_emit_diags_errors(c, t.name@, t.emits@);
    let a = field_diags("HNK2106"@, "reads"@, q, t.name@, c.state_fields@, t.reads@);
    let b = field_diags("HNK2107"@, "writes"@, q, t.name@, c.state_fields@, t.writes@);
    let m: Seq<DiagnosticModel> = if crate::validate::port_declares(c.ports@, crate::schema::PortDirection::In, t.on@) {
        Seq::empty()
    } else {
        seq![crate::diagnostics::plain_error("HNK2108"@, crate::validate::unheard_event_message(q, t.name@, t.on@))]
    };
    lemma_errors_concat(a, b);
    lemma_errors_concat(a + b, m);
    lemma_errors_concat(a + b + m, emit_diags(c, t.name@, t.emits@));
}

proof fn lemma_component_transitions_errors(
    c: crate::ir::NormalizedComponent,
    ts: Seq<(Seq<char>, crate::ir::NormalizedTransition)>,
)
    ensures
        all_errors(component_transition_diags(c, ts)),
    decreases ts.len(),
{
    if ts.len() > 0 {
        lemma_component_transitions_errors(c, ts.drop_last());
        lemma_transition_diags_errors(c, ts.last().1);
        lemma_errors_concat(component_transition_diags(c, ts.drop_last()), transition_diags(c, ts.last().1));
    }
}

proof fn lemma_transitions_errors(cs: Seq<(Seq<char>, crate::ir::NormalizedComponent)>)
    ensures
        all_errors(transitions_diags(cs)),
    decreases cs.len(),
{
    if cs.len() > 0 {
        lemma_transitions_errors(cs.drop_last());
        lemma_component_transitions_errors(cs.last().1, cs.last().1.transitions@);
        lemma_errors_concat(transitions_diags(cs.drop_last()), component_transition_diags(cs.last().1, cs.last().1.transitions@));
    }
}

proof fn lemma_durable_errors(q: Seq<char>, states: Seq<(Seq<char>, crate::ir::NormalizedStateField)>, fields: Seq<String>)
    ensures
        all_errors(durable_diags(q, states, fields)),
    decreases fields.len(),
{
    if fields.len() > 0 {
        lemma_durable_errors(q, states, fields.drop_last());
    }
}

proof fn lemma_persistence_errors(cs: Seq<(Seq<char>, crate::ir::NormalizedComponent)>)
    ensures
        all_errors(persistence_diags(cs)),
    decreases cs.len(),
{
    if cs.len() > 0 {
        lemma_persistence_errors(cs.drop_last());
        let c = cs.last().1;
        let tail: Seq<DiagnosticModel> = match c.persistence {
            Some(p) => durable_diags(c.qualified_name@, c.state_fields@, p.durable@),
            None => Seq::empty(),
        };
        if let Some(p) = c.persistence {
            lemma_durable_errors(c.qualified_name@, c.state_fields@, p.durable@);
        }
        lemma_errors_concat(persistence_diags(cs.drop_last()), tail);
    }
}

proof fn lemma_port_reply_errors(n: NormalizedSpec, c: crate::ir::NormalizedComponent, ps: Seq<(Seq<char>, crate::ir::NormalizedPort)>)
    ensures
        all_errors(port_reply_diags(n, c, ps)),
    decreases ps.len(),
{
    if ps.len() > 0 {
        lemma_port_reply_errors(n, c, ps.drop_last());
    }
}

proof fn lemma_must_reply_errors(n: NormalizedSpec, cs: Seq<(Seq<char>, crate::ir::NormalizedComponent)>)
    ensures
        all_errors(must_reply_diags(n, cs)),
    decreases cs.len(),
{
    if cs.len() > 0 {
        lemma_must_reply_errors(n, cs.drop_last());
        lemma_port_reply_errors(n, cs.last().1, cs.last().1.ports@);
        lemma_errors_concat(must_reply_diags(n, cs.drop_last()), port_reply_diags(n, cs.last().1, cs.last().1.ports@));
    }
}

proof fn lemma_event_versions_errors(evs: Seq<(Seq<char>, crate::ir::NormalizedEvent)>)
    ensures
        all_errors(event_version_diags(evs)),
    decreases evs.len(),
{
    if evs.len() > 0 {
        lemma_event_versions_errors(evs.drop_last());
    }
}

proof fn lemma_connection_checks_errors(n: NormalizedSpec, cs: Seq<crate::ir::NormalizedConnection>)
    ensures
        all_errors(connections_check_diags(n, cs)),
    decreases cs.len(),
{
    if cs.len() > 0 {
        lemma_connection_checks_errors(n, cs.drop_last());
        lemma_errors_concat(connections_check_diags(n, cs.drop_last()), connection_check_diags(n, cs.last()));
    }
}

/// Validation reports errors only: every diagnostic it raises on a model
/// has severity error.
pub proof fn lemma_validation_reports_errors(n: NormalizedSpec)
    ensures
        all_errors(validation_diags(n)),
{
    lemma_event_versions_errors(n.events@);
    lemma_connection_checks_errors(n, n.connections@);
    lemma_transitions_errors(n.components@);
    lemma_persistence_errors(n.components@);
    lemma_must_reply_errors(n, n.components@);
    let a = event_version_diags(n.events@);
    let b = connections_check_diags(n, n.connections@);
    let c = transitions_diags(n.components@);
    let d = persistence_diags(n.components@);
    let e = must_reply_diags(n, n.components@);
    lemma_errors_concat(a, b);
    lemma_errors_concat(a + b, c);
    lemma_errors_concat(a + b + c, d);
    lemma_errors_concat(a + b + c + d, e);
}

proof fn lemma_port_warnings(n: NormalizedSpec, c: crate::ir::NormalizedComponent, ps: Seq<(Seq<char>, crate::ir::NormalizedPort)>)
    ensures
        all_warnings(port_warnings(n, c, ps)),
    decreases ps.len(),
{
    if ps.len() > 0 {
        lemma_port_warnings(n, c, ps.drop_last());
    }
}

proof fn lemma_unconnected_warnings(n: NormalizedSpec, cs: Seq<(Seq<char>, crate::ir::NormalizedComponent)>)
    ensures
        all_warnings(unconnected_warnings(n, cs)),
    decreases cs.len(),
{
    if cs.len() > 0 {
        lemma_unconnected_warnings(n, cs.drop_last());
        lemma_port_warnings(n, cs.last().1, cs.last().1.ports@);
        lemma_warnings_concat(unconnected_warnings(n, cs.drop_last()), port_warnings(n, cs.last().1, cs.last().1.ports@));
    }
}

proof fn lemma_field_warnings(c: crate::ir::NormalizedComponent, fs: Seq<(Seq<char>, crate::ir::NormalizedStateField)>)
    ensures
        all_warnings(field_warnings(c, fs)),
    decreases fs.len(),
{
    if fs.len() > 0 {
        lemma_field_warnings(c, fs.drop_last());
    }
}

proof fn lemma_unused_field_warnings(cs: Seq<(Seq<char>, crate::ir::NormalizedComponent)>)
    ensures
        all_warnings(unused_field_warnings(cs)),
    decreases cs.len(),
{
    if cs.len() > 0 {
        lemma_unused_field_warnings(cs.drop_last());
        lemma_field_warnings(cs.last().1, cs.last().1.state_fields@);
        lemma_warnings_concat(unused_field_warnings(cs.drop_last()), field_warnings(cs.last().1, cs.last().1.state_fields@));
    }
}

proof fn lemma_recovery_warnings(cs: Seq<(Seq<char>, crate::ir::NormalizedComponent)>)
    ensures
        all_warnings(recovery_warnings(cs)),
    decreases cs.len(),
{
    if cs.len() > 0 {
        lemma_recovery_warnings(cs.drop_last());
    }
}

/// The lint pass reports warnings only: every diagnostic it raises on a
/// model has severity warning.
pub proof fn lemma_lint_reports_warnings(n: NormalizedSpec)
    ensures
        all_warnings(lint_warnings(n)),
{
    lemma_unconnected_warnings(n, n.components@);
    lemma_unused_field_warnings(n.components@);
    lemma_recovery_warnings(n.components@);
    lemma_warnings_concat(unconnected_warnings(n, n.components@), unused_field_warnings(n.components@));
    lemma_warnings_concat(unconnected_warnings(n, n.components@) + unused_field_warnings(n.components@), recovery_warnings(n.components@));
}

// ---------------------------------------------------------------------------
// Endpoints.

/// An endpoint written `target.port`, where the target has no `.` and
/// neither part is empty, reads back as that target and port.
pub proof fn lemma_endpoint_round_trip(target: Seq<char>, port: Seq<char>)
    requires
        target.len() > 0,
        port.len() > 0,
        !target.contains('.'),
    ensures
        spec_parse_endpoint(target + "."@ + port) == Some((target, port)),
{
    let e = target + "."@ + port;
    reveal_strlit(".");
    let t = target.len() as int;
    assert(e[t] == '.');
    assert forall|j: int| 0 <= j < t implies !occurs_at(e, seq!['.'], j) by {
        assert(e[j] == target[j]);
        if occurs_at(e, seq!['.'], j) {
            assert(e.subrange(j, j + 1)[0] == '.');
            assert(target.contains('.'));
        }
    }
    assert(occurs_at(e, seq!['.'], t)) by {
        assert(e.subrange(t, t + 1) =~= seq!['.']);
    }
    lemma_find_from_first(e, seq!['.'], 0, t);
    assert(e.subrange(0, t) =~= target);
    assert(e.subrange(t + 1, e.len() as int) =~= port);
}

proof fn lemma_find_from_first(hay: Seq<char>, needle: Seq<char>, from: int, t: int)
    requires
        0 <= from <= t,
        occurs_at(hay, needle, t),
        forall|j: int| from <= j < t ==> !occurs_at(hay, needle, j),
    ensures
        find_from(hay, needle, from) == Some(t),
    decreases t - from,
{
    if from < t {
        lemma_find_from_first(hay, needle, from + 1, t);
    }
}

// ---------------------------------------------------------------------------
// Built components.

/// Names in strictly increasing order: sorted, and none twice.
pub open spec fn names_increasing(s: Seq<Seq<char>>) -> bool {
    forall|i: int, j: int| 0 <= i < j < s.len() ==> str_lt(#[trigger] s[i], #[trigger] s[j])
}

/// Some recorded port has the direction and the event.
spec fn recorded_with(m: Seq<(Seq<char>, (usize, Seq<char>))>, comp: Component, dir: PortDirection, x: Seq<char>) -> bool {
    exists|i: int| 0 <= i < m.len() && comp.ports@[(#[trigger] m[i]).1.0 as int].direction == dir && m[i].1.1 == x
}

/// What the port fold has recorded after `n` ports.
spec fn ports_fold_ok(f: PortsFold, comp: Component, event_keys: Seq<Seq<char>>, n: int) -> bool {
    &&& keys_sorted(f.map)
    &&& keys_sorted(f.inbound)
    &&& keys_sorted(f.outbound)
    &&& forall|i: int| #![trigger f.map[i]] 0 <= i < f.map.len() ==> {
        &&& (f.map[i].1.0 as int) < n
        &&& f.map[i].0 == comp.ports@[f.map[i].1.0 as int].name@
        &&& seq_has(event_keys, f.map[i].1.1)
    }
    &&& forall|x: Seq<char>| has_key(f.inbound, x) <==> recorded_with(f.map, comp, PortDirection::In, x)
    &&& forall|x: Seq<char>| has_key(f.outbound, x) <==> recorded_with(f.map, comp, PortDirection::Out, x)
}

proof fn lemma_set_add(s: Seq<(Seq<char>, ())>, k: Seq<char>)
    requires
        keys_sorted(s),
    ensures
        keys_sorted(set_add(s, k)),
        forall|x: Seq<char>| has_key(set_add(s, k), x) <==> (has_key(s, x) || x == k),
{
    if !has_key(s, k) {
        lemma_sorted_insert(s, k, ());
    }
}

proof fn lemma_inserted_at(m: Seq<(Seq<char>, (usize, Seq<char>))>, name: Seq<char>, entry: (usize, Seq<char>)) -> (j0: int)
    requires
        keys_sorted(m),
        !has_key(m, name),
    ensures
        0 <= j0 < sorted_insert(m, name, entry).len(),
        sorted_insert(m, name, entry)[j0] == (name, entry),
{
    let f = sorted_insert(m, name, entry);
    lemma_sorted_insert(m, name, entry);
    lemma_sorted_insert_entries(m, name, entry);
    let j0 = choose|j: int| 0 <= j < f.len() && #[trigger] f[j].0 == name;
    if f[j0] != (name, entry) {
        let k = choose|k: int| 0 <= k < m.len() && f[j0] == m[k];
        assert(m[k].0 == name);
    }
    j0
}

proof fn lemma_recorded_kept(m: Seq<(Seq<char>, (usize, Seq<char>))>, comp: Component, name: Seq<char>, entry: (usize, Seq<char>), dir: PortDirection, x: Seq<char>)
    ensures
        recorded_with(m, comp, dir, x) ==> recorded_with(sorted_insert(m, name, entry), comp, dir, x),
{
    if recorded_with(m, comp, dir, x) {
        let f = sorted_insert(m, name, entry);
        lemma_sorted_insert_keeps(m, name, entry);
        let k = choose|k: int| 0 <= k < m.len() && comp.ports@[(#[trigger] m[k]).1.0 as int].direction == dir && m[k].1.1 == x;
        let j = choose|j: int| 0 <= j < f.len() && #[trigger] m[k] == f[j];
        assert(comp.ports@[f[j].1.0 as int].direction == dir && f[j].1.1 == x);
    }
}

proof fn lemma_recorded_new(m: Seq<(Seq<char>, (usize, Seq<char>))>, comp: Component, name: Seq<char>, entry: (usize, Seq<char>))
    requires
        keys_sorted(m),
        !has_key(m, name),
    ensures
        recorded_with(sorted_insert(m, name, entry), comp, comp.ports@[entry.0 as int].direction, entry.1),
{
    let f = sorted_insert(m, name, entry);
    let j0 = lemma_inserted_at(m, name, entry);
    assert(comp.ports@[f[j0].1.0 as int].direction == comp.ports@[entry.0 as int].direction);
}

proof fn lemma_recorded_source(m: Seq<(Seq<char>, (usize, Seq<char>))>, comp: Component, name: Seq<char>, entry: (usize, Seq<char>), dir: PortDirection, x: Seq<char>)
    ensures
        recorded_with(sorted_insert(m, name, entry), comp, dir, x) ==> (recorded_with(m, comp, dir, x)
            || (comp.ports@[entry.0 as int].direction == dir && x == entry.1)),
{
    let f = sorted_insert(m, name, entry);
    if recorded_with(f, comp, dir, x) {
        lemma_sorted_insert_entries(m, name, entry);
        let i = choose|i: int| 0 <= i < f.len() && comp.ports@[(#[trigger] f[i]).1.0 as int].direction == dir && f[i].1.1 == x;
        if f[i] != (name, entry) {
            let k = choose|k: int| 0 <= k < m.len() && f[i] == m[k];
            assert(comp.ports@[m[k].1.0 as int].direction == dir && m[k].1.1 == x);
        }
    }
}

proof fn lemma_recorded_insert(m: Seq<(Seq<char>, (usize, Seq<char>))>, comp: Component, name: Seq<char>, entry: (usize, Seq<char>), dir: PortDirection, x: Seq<char>)
    requires
        keys_sorted(m),
        !has_key(m, name),
    ensures
        recorded_with(sorted_insert(m, name, entry), comp, dir, x) <==> (recorded_with(m, comp, dir, x)
            || (comp.ports@[entry.0 as int].direction == dir && x == entry.1)),
{
    lemma_recorded_kept(m, comp, name, entry, dir, x);
    lemma_recorded_new(m, comp, name, entry);
    lemma_recorded_source(m, comp, name, entry, dir, x);
}

proof fn lemma_ports_step(package: Seq<char>, q: Seq<char>, comp: Component, event_keys: Seq<Seq<char>>, n: int)
    requires
        0 < n <= comp.ports@.len(),
        n <= usize::MAX,
        ports_fold_ok(ports_fold(package, q, comp, event_keys, n - 1), comp, event_keys, n - 1),
    ensures
        ports_fold_ok(ports_fold(package, q, comp, event_keys, n), comp, event_keys, n),
{
    let st = ports_fold(package, q, comp, event_keys, n - 1);
    let f = ports_fold(package, q, comp, event_keys, n);
    let p = comp.ports@[n - 1];
    if !has_key(st.map, p.name@) {
        let (res, ds) = spec_resolve(package, p.event@, event_keys, "event"@, "port event"@);
        if let Some(e) = res {
            let entry = ((n - 1) as usize, e);
            assert(f.map == sorted_insert(st.map, p.name@, entry));
            lemma_sorted_insert(st.map, p.name@, entry);
            lemma_sorted_insert_entries(st.map, p.name@, entry);
            assert(entry.0 as int == n - 1);
            lemma_set_add(st.inbound, e);
            lemma_set_add(st.outbound, e);
            assert forall|i: int| #![trigger f.map[i]] 0 <= i < f.map.len() implies {
                &&& (f.map[i].1.0 as int) < n
                &&& f.map[i].0 == comp.ports@[f.map[i].1.0 as int].name@
                &&& seq_has(event_keys, f.map[i].1.1)
            } by {
                if f.map[i] != (p.name@, entry) {
                    let m = choose|m: int| 0 <= m < st.map.len() && f.map[i] == st.map[m];
                    assert(st.map[m] == f.map[i]);
                }
            }
            assert forall|x: Seq<char>| has_key(f.inbound, x) <==> recorded_with(f.map, comp, PortDirection::In, x) by {
                assert(has_key(st.inbound, x) <==> recorded_with(st.map, comp, PortDirection::In, x));
                lemma_recorded_insert(st.map, comp, p.name@, entry, PortDirection::In, x);
                assert(recorded_with(f.map, comp, PortDirection::In, x) <==> (recorded_with(st.map, comp, PortDirection::In, x)
                    || (comp.ports@[entry.0 as int].direction == PortDirection::In && x == entry.1)));
                assert(comp.ports@[entry.0 as int] == p);
                if p.direction == PortDirection::In {
                    assert(f.inbound == set_add(st.inbound, e));
                } else {
                    assert(f.inbound == st.inbound);
                }
            }
            assert forall|x: Seq<char>| has_key(f.outbound, x) <==> recorded_with(f.map, comp, PortDirection::Out, x) by {
                assert(has_key(st.outbound, x) <==> recorded_with(st.map, comp, PortDirection::Out, x));
                lemma_recorded_insert(st.map, comp, p.name@, entry, PortDirection::Out, x);
                assert(recorded_with(f.map, comp, PortDirection::Out, x) <==> (recorded_with(st.map, comp, PortDirection::Out, x)
                    || (comp.ports@[entry.0 as int].direction == PortDirection::Out && x == entry.1)));
                assert(comp.ports@[entry.0 as int] == p);
                if p.direction == PortDirection::Out {
                    assert(f.outbound == set_add(st.outbound, e));
                } else {
                    assert(f.outbound == st.outbound);
                }
            }
        }
    }
}

proof fn lemma_ports_fold(package: Seq<char>, q: Seq<char>, comp: Component, event_keys: Seq<Seq<char>>, n: int)
    requires
        0 <= n <= comp.ports@.len(),
        n <= usize::MAX,
    ensures
        ports_fold_ok(ports_fold(package, q, comp, event_keys, n), comp, event_keys, n),
    decreases n,
{
    if n > 0 {
        lemma_ports_fold(package, q, comp, event_keys, n - 1);
        lemma_ports_step(package, q, comp, event_keys, n);
    }
}

proof fn lemma_recorded_ports(
    c: NormalizedComponent,
    k: Seq<char>,
    comp: Component,
    m: Seq<(Seq<char>, (usize, Seq<char>))>,
    dir: PortDirection,
    x: Seq<char>,
)
    requires
        ports_match(c.ports@, m, k, comp),
    ensures
        recorded_with(m, comp, dir, x) <==> exists|j: int| 0 <= j < c.ports@.len() && (#[trigger] c.ports@[j]).1.direction == dir
            && c.ports@[j].1.event@ == x,
{
    if recorded_with(m, comp, dir, x) {
        let i = choose|i: int| 0 <= i < m.len() && comp.ports@[(#[trigger] m[i]).1.0 as int].direction == dir && m[i].1.1 == x;
        assert(port_built(c.ports@[i].1, k, comp, m[i].1.0, m[i].1.1));
        assert(c.ports@[i].1.direction == dir);
    }
    if exists|j: int| 0 <= j < c.ports@.len() && (#[trigger] c.ports@[j]).1.direction == dir && c.ports@[j].1.event@ == x {
        let j = choose|j: int| 0 <= j < c.ports@.len() && (#[trigger] c.ports@[j]).1.direction == dir && c.ports@[j].1.event@ == x;
        assert(port_built(c.ports@[j].1, k, comp, m[j].1.0, m[j].1.1));
        assert(comp.ports@[(m[j]).1.0 as int].direction == dir);
    }
}

proof fn lemma_names_contain(names: Seq<String>, set: Seq<(Seq<char>, ())>, x: Seq<char>)
    requires
        views(names) == keys_of(set),
    ensures
        views(names).contains(x) <==> has_key(set, x),
{
    if views(names).contains(x) {
        let a = choose|a: int| 0 <= a < views(names).len() && views(names)[a] == x;
        assert(keys_of(set)[a] == set[a].0);
    }
    if has_key(set, x) {
        let a = choose|a: int| 0 <= a < set.len() && #[trigger] set[a].0 == x;
        assert(keys_of(set)[a] == set[a].0);
        assert(views(names)[a] == x);
    }
}

/// The components built by normalization are stored under their qualified
/// names, one per component declaration and under the declaration's name.
/// Each port is stored under its own name: it names its component, its
/// qualified name is the component's qualified name, a `.` and the port's
/// name, and its event is a declared event. The events of the `in` ports and
/// those of the `out` ports are each listed in increasing order, none twice,
/// and they are exactly the events that the component's `in` ports, and its
/// `out` ports, carry.
pub proof fn lemma_built_components(
    r: Seq<(Seq<char>, NormalizedComponent)>,
    decls: Seq<(Seq<char>, (usize, usize))>,
    files: Seq<SourceFile>,
    event_keys: Seq<Seq<char>>,
    comp_keys: Seq<Seq<char>>,
)
    requires
        components_built(r, decls, files, event_keys, comp_keys),
    ensures
        keys_of(r) == keys_of(decls),
        forall|i: int| #![trigger r[i]] 0 <= i < r.len() ==> {
            let k = r[i].0;
            let c = r[i].1;
            &&& c.qualified_name@ == k
            &&& forall|j: int| #![trigger c.ports@[j]] 0 <= j < c.ports@.len() ==> {
                &&& c.ports@[j].1.name@ == c.ports@[j].0
                &&& c.ports@[j].1.component_name@ == k
                &&& c.ports@[j].1.qualified_name@ == qualified(k, c.ports@[j].0)
                &&& seq_has(event_keys, c.ports@[j].1.event@)
            }
            &&& names_increasing(views(c.inbound_events@))
            &&& names_increasing(views(c.outbound_events@))
            &&& forall|x: Seq<char>| views(c.inbound_events@).contains(x) <==> exists|j: int| 0 <= j < c.ports@.len()
                && (#[trigger] c.ports@[j]).1.direction == PortDirection::In && c.ports@[j].1.event@ == x
            &&& forall|x: Seq<char>| views(c.outbound_events@).contains(x) <==> exists|j: int| 0 <= j < c.ports@.len()
                && (#[trigger] c.ports@[j]).1.direction == PortDirection::Out && c.ports@[j].1.event@ == x
        },
{
    assert(keys_of(r) =~= keys_of(decls)) by {
        assert forall|i: int| 0 <= i < r.len() implies keys_of(r)[i] == keys_of(decls)[i] by {
            assert(r[i].0 == decls[i].0);
        }
    }
    assert forall|i: int| #![trigger r[i]] 0 <= i < r.len() implies {
        let k = r[i].0;
        let c = r[i].1;
        &&& c.qualified_name@ == k
        &&& forall|j: int| #![trigger c.ports@[j]] 0 <= j < c.ports@.len() ==> {
            &&& c.ports@[j].1.name@ == c.ports@[j].0
            &&& c.ports@[j].1.component_name@ == k
            &&& c.ports@[j].1.qualified_name@ == qualified(k, c.ports@[j].0)
            &&& seq_has(event_keys, c.ports@[j].1.event@)
        }
        &&& names_increasing(views(c.inbound_events@))
        &&& names_increasing(views(c.outbound_events@))
        &&& forall|x: Seq<char>| views(c.inbound_events@).contains(x) <==> exists|j: int| 0 <= j < c.ports@.len()
            && (#[trigger] c.ports@[j]).1.direction == PortDirection::In && c.ports@[j].1.event@ == x
        &&& forall|x: Seq<char>| views(c.outbound_events@).contains(x) <==> exists|j: int| 0 <= j < c.ports@.len()
            && (#[trigger] c.ports@[j]).1.direction == PortDirection::Out && c.ports@[j].1.event@ == x
    } by {
        let k = r[i].0;
        let c = r[i].1;
        let file = files[decls[i].1.0 as int];
        let comp = crate::normalize::decl_component(files, decls[i].1);
        assert(component_built(c, k, file, comp, event_keys, comp_keys));
        vstd::std_specs::vec::axiom_spec_len(&comp.ports);
        let pf = ports_fold(file.package@, k, comp, event_keys, comp.ports@.len() as int);
        lemma_ports_fold(file.package@, k, comp, event_keys, comp.ports@.len() as int);
        assert(ports_match(c.ports@, pf.map, k, comp));
        assert forall|j: int| #![trigger c.ports@[j]] 0 <= j < c.ports@.len() implies {
            &&& c.ports@[j].1.name@ == c.ports@[j].0
            &&& c.ports@[j].1.component_name@ == k
            &&& c.ports@[j].1.qualified_name@ == qualified(k, c.ports@[j].0)
            &&& seq_has(event_keys, c.ports@[j].1.event@)
        } by {
            assert(pf.map[j].0 == comp.ports@[pf.map[j].1.0 as int].name@);
        }
        assert(names_increasing(views(c.inbound_events@))) by {
            assert forall|a: int, b: int| 0 <= a < b < views(c.inbound_events@).len() implies str_lt(
                #[trigger] views(c.inbound_events@)[a],
                #[trigger] views(c.inbound_events@)[b],
            ) by {
                assert(keys_of(pf.inbound)[a] == pf.inbound[a].0);
                assert(keys_of(pf.inbound)[b] == pf.inbound[b].0);
            }
        }
        assert(names_increasing(views(c.outbound_events@))) by {
            assert forall|a: int, b: int| 0 <= a < b < views(c.outbound_events@).len() implies str_lt(
                #[trigger] views(c.outbound_events@)[a],
                #[trigger] views(c.outbound_events@)[b],
            ) by {
                assert(keys_of(pf.outbound)[a] == pf.outbound[a].0);
                assert(keys_of(pf.outbound)[b] == pf.outbound[b].0);
            }
        }
        assert forall|x: Seq<char>| views(c.inbound_events@).contains(x) <==> exists|j: int| 0 <= j < c.ports@.len()
            && (#[trigger] c.ports@[j]).1.direction == PortDirection::In && c.ports@[j].1.event@ == x by {
            lemma_recorded_ports(c, k, comp, pf.map, PortDirection::In, x);
            lemma_names_contain(c.inbound_events@, pf.inbound, x);
            assert(has_key(pf.inbound, x) <==> recorded_with(pf.map, comp, PortDirection::In, x));
        }
        assert forall|x: Seq<char>| views(c.outbound_events@).contains(x) <==> exists|j: int| 0 <= j < c.ports@.len()
            && (#[trigger] c.ports@[j]).1.direction == PortDirection::Out && c.ports@[j].1.event@ == x by {
            lemma_recorded_ports(c, k, comp, pf.map, PortDirection::Out, x);
            lemma_names_contain(c.outbound_events@, pf.outbound, x);
            assert(has_key(pf.outbound, x) <==> recorded_with(pf.map, comp, PortDirection::Out, x));
        }
    }
}

// ---------------------------------------------------------------------------
// Module names.

/// Text made of lowercase ASCII letters, digits and `_`, never two `_` in a
/// row: what a snake_case module name is made of.
pub open spec fn snake_clean(s: Seq<char>) -> bool {
    &&& forall|i: int| 0 <= i < s.len() ==> ascii_lower(#[trigger] s[i]) || ascii_digit(s[i]) || s[i] == '_'
    &&& forall|i: int| 0 <= i < s.len() - 1 ==> !(#[trigger] s[i] == '_' && s[i + 1] == '_')
}

proof fn lemma_lower_char_lower(c: char)
    requires
        ascii_upper(c),
    ensures
        ascii_lower(lower_char(c)),
{
}

proof fn lemma_module_fold_clean(s: Seq<char>)
    ensures
        snake_clean(module_fold(s).0),
        module_fold(s).1 ==> module_fold(s).0.len() > 0 && module_fold(s).0.last() != '_',
    decreases s.len(),
{
    if s.len() > 0 {
        lemma_module_fold_clean(s.drop_last());
        let (out, last_lower) = module_fold(s.drop_last());
        let c = s.last();
        let r = module_fold(s).0;
        if ascii_upper(c) {
            lemma_lower_char_lower(c);
            let mid = if last_lower { out.push('_') } else { out };
            assert(r == mid.push(lower_char(c)));
            assert forall|i: int| 0 <= i < r.len() - 1 implies !(#[trigger] r[i] == '_' && r[i + 1] == '_') by {
                if i + 1 < out.len() {
                    assert(r[i] == out[i] && r[i + 1] == out[i + 1]);
                } else if i + 1 == out.len() && last_lower {
                    assert(r[i] == out.last());
                }
            }
            assert forall|i: int| 0 <= i < r.len() implies ascii_lower(#[trigger] r[i]) || ascii_digit(r[i]) || r[i] == '_' by {
                if i < out.len() {
                    assert(r[i] == out[i]);
                }
            }
        } else if ascii_lower(c) || ascii_digit(c) {
            assert(r == out.push(c));
            assert forall|i: int| 0 <= i < r.len() - 1 implies !(#[trigger] r[i] == '_' && r[i + 1] == '_') by {
                if i + 1 < out.len() {
                    assert(r[i] == out[i] && r[i + 1] == out[i + 1]);
                }
            }
            assert forall|i: int| 0 <= i < r.len() implies ascii_lower(#[trigger] r[i]) || ascii_digit(r[i]) || r[i] == '_' by {
                if i < out.len() {
                    assert(r[i] == out[i]);
                }
            }
        } else if !(out.len() > 0 && out.last() == '_') {
            assert(r == out.push('_'));
            assert forall|i: int| 0 <= i < r.len() - 1 implies !(#[trigger] r[i] == '_' && r[i + 1] == '_') by {
                if i + 1 < out.len() {
                    assert(r[i] == out[i] && r[i + 1] == out[i + 1]);
                } else {
                    assert(r[i] == out.last());
                }
            }
            assert forall|i: int| 0 <= i < r.len() implies ascii_lower(#[trigger] r[i]) || ascii_digit(r[i]) || r[i] == '_' by {
                if i < out.len() {
                    assert(r[i] == out[i]);
                }
            }
        }
    }
}

proof fn lemma_module_fold_fixed(t: Seq<char>)
    requires
        snake_clean(t),
    ensures
        module_fold(t).0 == t,
    decreases t.len(),
{
    if t.len() > 0 {
        let p = t.drop_last();
        assert forall|i: int| 0 <= i < p.len() - 1 implies !(#[trigger] p[i] == '_' && p[i + 1] == '_') by {
            assert(p[i] == t[i] && p[i + 1] == t[i + 1]);
        }
        assert forall|i: int| 0 <= i < p.len() implies ascii_lower(#[trigger] p[i]) || ascii_digit(p[i]) || p[i] == '_' by {
            assert(p[i] == t[i]);
        }
        lemma_module_fold_fixed(p);
        let c = t.last();
        assert(ascii_lower(t[t.len() - 1]) || ascii_digit(t[t.len() - 1]) || t[t.len() - 1] == '_');
        if c == '_' && p.len() > 0 {
            assert(!(t[t.len() - 2] == '_' && t[t.len() - 1] == '_'));
            assert(p.last() == t[t.len() - 2]);
        }
        assert(t =~= p.push(c));
    }
}

/// Module names are idempotent: the module name of a module name is that
/// module name.
pub proof fn lemma_module_name_idempotent(s: Seq<char>)
    ensures
        module_text(module_text(s)) == module_text(s),
{
    lemma_module_fold_clean(s);
    lemma_module_fold_fixed(module_text(s));
}

// ---------------------------------------------------------------------------
// Event kinds.

/// Two event lists that differ at most in the `kind` of their events.
pub open spec fn same_but_kinds(a: Seq<(Seq<char>, NormalizedEvent)>, b: Seq<(Seq<char>, NormalizedEvent)>) -> bool {
    &&& a.len() == b.len()
    &&& forall|i: int| 0 <= i < a.len() ==> (#[trigger] a[i]).0 == b[i].0 && a[i].1 == (NormalizedEvent { kind: a[i].1.kind, ..b[i].1 })
}

/// Two models with the same components and connections whose events differ
/// at most in their kinds.
pub open spec fn models_same_but_kinds(n1: NormalizedSpec, n2: NormalizedSpec) -> bool {
    &&& n1.components@ == n2.components@
    &&& n1.connections@ == n2.connections@
    &&& same_but_kinds(n1.events@, n2.events@)
}

/// Static validation does not depend on the `kind` of events: two models
/// with the same components and connections whose events differ at most in
/// their kinds get the same diagnostics.
pub proof fn lemma_validation_ignores_event_kinds(n1: NormalizedSpec, n2: NormalizedSpec)
    requires
        models_same_but_kinds(n1, n2),
    ensures
        validation_diags(n1) == validation_diags(n2),
{
    assert(models_agree(n1, n2)) by {
        assert forall|i: int| 0 <= i < n1.events@.len() implies {
            &&& (#[trigger] n1.events@[i]).1.qualified_name@ == n2.events@[i].1.qualified_name@
            &&& n1.events@[i].1.visibility == n2.events@[i].1.visibility
            &&& n1.events@[i].1.version == n2.events@[i].1.version
        } by {
            assert(n1.events@[i].1 == (NormalizedEvent { kind: n1.events@[i].1.kind, ..n2.events@[i].1 }));
        }
    }
    lemma_validation_agree(n1, n2);
}

/// Two specifications that differ at most in the `kind` of their events.
pub open spec fn specs_same_but_kinds(a: Spec, b: Spec) -> bool {
    &&& a == (Spec { events: a.events, ..b })
    &&& a.events@.len() == b.events@.len()
    &&& forall|i: int| 0 <= i < a.events@.len() ==> #[trigger] a.events@[i] == (Event { kind: a.events@[i].kind, ..b.events@[i] })
}

/// Two bundles of source files that differ at most in the `kind` of the
/// events they declare.
pub open spec fn files_same_but_kinds(f1: Seq<SourceFile>, f2: Seq<SourceFile>) -> bool {
    &&& f1.len() == f2.len()
    &&& forall|i: int| #![trigger f1[i]] 0 <= i < f1.len() ==> {
        &&& f1[i].path@ == f2[i].path@
        &&& f1[i].package@ == f2[i].package@
        &&& specs_same_but_kinds(*f1[i].spec, *f2[i].spec)
    }
}

proof fn lemma_version_diags_kinds(f1: Seq<SourceFile>, f2: Seq<SourceFile>, v: Seq<char>, n: int)
    requires
        files_same_but_kinds(f1, f2),
        n <= f1.len(),
    ensures
        version_diags(f1, v, n) == version_diags(f2, v, n),
    decreases n,
{
    if n > 0 {
        lemma_version_diags_kinds(f1, f2, v, n - 1);
        assert(f1[n - 1].spec.version == f2[n - 1].spec.version);
    }
}

proof fn lemma_decls_in_file_kinds(st: DeclFold, f1: Seq<SourceFile>, f2: Seq<SourceFile>, fi: int, m: int, events: bool)
    requires
        files_same_but_kinds(f1, f2),
        0 <= fi < f1.len(),
        m <= decl_count(f1, fi, events),
    ensures
        decls_in_file(st, f1, fi, m, events) == decls_in_file(st, f2, fi, m, events),
    decreases m,
{
    if m > 0 {
        lemma_decls_in_file_kinds(st, f1, f2, fi, m - 1, events);
        let a = *f1[fi].spec;
        let b = *f2[fi].spec;
        assert(a.components == b.components);
        assert(specs_same_but_kinds(a, b));
        if events {
            assert(a.events@[m - 1] == (Event { kind: a.events@[m - 1].kind, ..b.events@[m - 1] }));
        }
        assert(decl_name(f1, fi, m - 1, events) == decl_name(f2, fi, m - 1, events));
    }
}

proof fn lemma_decls_upto_kinds(f1: Seq<SourceFile>, f2: Seq<SourceFile>, n: int, events: bool)
    requires
        files_same_but_kinds(f1, f2),
        n <= f1.len(),
    ensures
        decls_upto(f1, n, events) == decls_upto(f2, n, events),
    decreases n,
{
    if n > 0 {
        lemma_decls_upto_kinds(f1, f2, n - 1, events);
        let a = *f1[n - 1].spec;
        let b = *f2[n - 1].spec;
        assert(a.components == b.components);
        assert(decl_count(f1, n - 1, events) == decl_count(f2, n - 1, events));
        lemma_decls_in_file_kinds(decls_upto(f1, n - 1, events), f1, f2, n - 1, decl_count(f1, n - 1, events), events);
    }
}

proof fn lemma_components_diags_kinds(
    decls: Seq<(Seq<char>, (usize, usize))>,
    f1: Seq<SourceFile>,
    f2: Seq<SourceFile>,
    ek: Seq<Seq<char>>,
    ck: Seq<Seq<char>>,
    n: int,
)
    requires
        files_same_but_kinds(f1, f2),
        n <= decls.len(),
        forall|i: int| 0 <= i < decls.len() ==> 0 <= (#[trigger] decls[i]).1.0 < f1.len(),
    ensures
        components_diags(decls, f1, ek, ck, n) == components_diags(decls, f2, ek, ck, n),
    decreases n,
{
    if n > 0 {
        lemma_components_diags_kinds(decls, f1, f2, ek, ck, n - 1);
        let d = decls[n - 1].1;
        assert(f1[d.0 as int].spec.components == f2[d.0 as int].spec.components);
        assert(decl_component(f1, d) == decl_component(f2, d));
    }
}

proof fn lemma_conns_in_file_kinds(
    st: ConnFold,
    f1: Seq<SourceFile>,
    f2: Seq<SourceFile>,
    fi: int,
    m: int,
    comps: Seq<(Seq<char>, NormalizedComponent)>,
    ck: Seq<Seq<char>>,
)
    requires
        files_same_but_kinds(f1, f2),
        0 <= fi < f1.len(),
    ensures
        conns_in_file(st, f1, fi, m, comps, ck) == conns_in_file(st, f2, fi, m, comps, ck),
    decreases m,
{
    if m > 0 {
        lemma_conns_in_file_kinds(st, f1, f2, fi, m - 1, comps, ck);
        assert(f1[fi].spec.connections == f2[fi].spec.connections);
    }
}

proof fn lemma_conns_upto_kinds(f1: Seq<SourceFile>, f2: Seq<SourceFile>, n: int, comps: Seq<(Seq<char>, NormalizedComponent)>, ck: Seq<Seq<char>>)
    requires
        files_same_but_kinds(f1, f2),
        n <= f1.len(),
    ensures
        conns_upto(f1, n, comps, ck) == conns_upto(f2, n, comps, ck),
    decreases n,
{
    if n > 0 {
        lemma_conns_upto_kinds(f1, f2, n - 1, comps, ck);
        assert(f1[n - 1].spec.connections == f2[n - 1].spec.connections);
        lemma_conns_in_file_kinds(conns_upto(f1, n - 1, comps, ck), f1, f2, n - 1, f1[n - 1].spec.connections@.len() as int, comps, ck);
    }
}

/// Normalization does not depend on the `kind` of events: for two bundles
/// that differ at most in their event kinds, the same event and component
/// declarations are found, a list of components counts as built for one
/// exactly when it does for the other, and the same diagnostics are
/// reported for the same components.
pub proof fn lemma_normalization_ignores_event_kinds(f1: Seq<SourceFile>, f2: Seq<SourceFile>, ei: int, comps: Seq<(Seq<char>, NormalizedComponent)>)
    requires
        files_same_but_kinds(f1, f2),
        0 <= ei < f1.len(),
        f1.len() <= usize::MAX,
        forall|f: int| 0 <= f < f1.len() ==> f1[f].spec.events@.len() <= usize::MAX && f1[f].spec.components@.len() <= usize::MAX,
    ensures
        all_decls(f1, true) == all_decls(f2, true),
        all_decls(f1, false) == all_decls(f2, false),
        components_of(f1, comps) == components_of(f2, comps),
        bundle_diags(f1, ei, comps) == bundle_diags(f2, ei, comps),
{
    lemma_decls_upto_kinds(f1, f2, f1.len() as int, true);
    lemma_decls_upto_kinds(f1, f2, f1.len() as int, false);
    let cd = all_decls(f1, false);
    let ed = all_decls(f1, true);
    lemma_decls_upto_valid(f1, f1.len() as int, false);
    assert forall|i: int| 0 <= i < cd.map.len() implies 0 <= (#[trigger] cd.map[i]).1.0 < f1.len() by {
        assert(decls_valid(cd.map, f1, false));
    }
    lemma_components_diags_kinds(cd.map, f1, f2, keys_of(ed.map), keys_of(cd.map), cd.map.len() as int);
    lemma_conns_upto_kinds(f1, f2, f1.len() as int, comps, keys_of(cd.map));
    lemma_version_diags_kinds(f1, f2, f1[ei].spec.version@, f1.len() as int);
    assert(f1[ei].spec.version == f2[ei].spec.version);
    assert(components_of(f1, comps) == components_of(f2, comps)) by {
        assert forall|i: int| #![trigger comps[i]] 0 <= i < comps.len() && i < cd.map.len() implies crate::normalize::component_built(
            comps[i].1,
            cd.map[i].0,
            f1[cd.map[i].1.0 as int],
            decl_component(f1, cd.map[i].1),
            keys_of(ed.map),
            keys_of(cd.map),
        ) == crate::normalize::component_built(
            comps[i].1,
            cd.map[i].0,
            f2[cd.map[i].1.0 as int],
            decl_component(f2, cd.map[i].1),
            keys_of(ed.map),
            keys_of(cd.map),
        ) by {
            assert(decls_valid(cd.map, f1, false));
            let d = cd.map[i].1;
            assert(f1[d.0 as int].spec.components == f2[d.0 as int].spec.components);
            assert(decl_component(f1, d) == decl_component(f2, d));
        }
    }
}

proof fn lemma_built_events_agree(m1: NormalizedSpec, m2: NormalizedSpec, f1: Seq<SourceFile>, f2: Seq<SourceFile>)
    requires
        files_same_but_kinds(f1, f2),
        all_decls(f1, true) == all_decls(f2, true),
        decls_valid(all_decls(f1, true).map, f1, true),
        events_built(m1.events@, all_decls(f1, true).map, f1),
        events_built(m2.events@, all_decls(f2, true).map, f2),
    ensures
        events_agree(m1.events@, m2.events@),
{
    let ed = all_decls(f1, true);
    assert forall|i: int| 0 <= i < m1.events@.len() implies {
        &&& (#[trigger] m1.events@[i]).1.qualified_name@ == m2.events@[i].1.qualified_name@
        &&& m1.events@[i].1.visibility == m2.events@[i].1.visibility
        &&& m1.events@[i].1.version == m2.events@[i].1.version
    } by {
        assert(m2.events@[i] == m2.events@[i]);
        let d = ed.map[i].1;
        let (fi, di) = (d.0 as int, d.1 as int);
        assert(0 <= fi < f1.len() && 0 <= di < decl_count(f1, fi, true));
        assert(specs_same_but_kinds(*f1[fi].spec, *f2[fi].spec));
        let (a, b) = (*f1[fi].spec, *f2[fi].spec);
        assert(a.events@[di] == (Event { kind: a.events@[di].kind, ..b.events@[di] }));
    }
}

proof fn lemma_built_conns_agree(m1: NormalizedSpec, m2: NormalizedSpec, built: Seq<(ConnModel, (usize, usize))>, f1: Seq<SourceFile>, f2: Seq<SourceFile>)
    requires
        connections_match(m1.connections@, built, f1),
        connections_match(m2.connections@, built, f2),
    ensures
        conns_agree(m1.connections@, m2.connections@),
{
    assert forall|i: int| 0 <= i < m1.connections@.len() implies conn_agree(#[trigger] m1.connections@[i], m2.connections@[i]) by {
        assert(conn_entry_ok(m1.connections@[i], built[i], f1));
        assert(conn_entry_ok(m2.connections@[i], built[i], f2));
    }
}

proof fn lemma_inline_same_but_kinds(s1: Spec, s2: Spec, f1: Seq<SourceFile>, f2: Seq<SourceFile>)
    requires
        specs_same_but_kinds(s1, s2),
        inline_files(s1, f1),
        inline_files(s2, f2),
    ensures
        files_same_but_kinds(f1, f2),
        f1.len() == 1,
        forall|f: int| 0 <= f < f1.len() ==> f1[f].spec.events@.len() <= usize::MAX && f1[f].spec.components@.len() <= usize::MAX,
{
    assert(*f1[0].spec == s1 && *f2[0].spec == s2);
    assert(s1.package == s2.package);
    vstd::std_specs::vec::axiom_spec_len(&s1.events);
    vstd::std_specs::vec::axiom_spec_len(&s1.components);
}

proof fn lemma_bundles_same_but_kinds(f1: Seq<SourceFile>, f2: Seq<SourceFile>, c1: Seq<(Seq<char>, NormalizedComponent)>, c2: Seq<(Seq<char>, NormalizedComponent)>)
    requires
        files_same_but_kinds(f1, f2),
        f1.len() == 1,
        forall|f: int| 0 <= f < f1.len() ==> f1[f].spec.events@.len() <= usize::MAX && f1[f].spec.components@.len() <= usize::MAX,
        components_of(f1, c1),
        components_of(f2, c2),
    ensures
        all_decls(f1, true) == all_decls(f2, true),
        all_decls(f1, false) == all_decls(f2, false),
        comps_agree(c1, c2),
        conns_upto(f1, f1.len() as int, c1, keys_of(all_decls(f1, false).map)) == conns_upto(
            f2,
            f2.len() as int,
            c2,
            keys_of(all_decls(f2, false).map),
        ),
        bundle_diags(f1, 0, c1) == bundle_diags(f2, 0, c2),
{
    lemma_normalization_ignores_event_kinds(f1, f2, 0, c2);
    let ed = all_decls(f1, true);
    let cd = all_decls(f1, false);
    let ck = keys_of(cd.map);
    lemma_components_built_agree(c1, c2, cd.map, f1, keys_of(ed.map), ck);
    lemma_conns_upto_agree(f1, f1.len() as int, c1, c2, ck);
    lemma_conns_upto_kinds(f1, f2, f1.len() as int, c2, ck);
    assert(bundle_diags(f1, 0, c1) == bundle_diags(f1, 0, c2));
}

proof fn lemma_models_same_but_kinds(
    m1: NormalizedSpec,
    m2: NormalizedSpec,
    f1: Seq<SourceFile>,
    f2: Seq<SourceFile>,
)
    requires
        files_same_but_kinds(f1, f2),
        f1.len() == 1,
        forall|f: int| 0 <= f < f1.len() ==> f1[f].spec.events@.len() <= usize::MAX && f1[f].spec.components@.len() <= usize::MAX,
        normalized_from(m1, f1, 0, Seq::empty()),
        normalized_from(m2, f2, 0, Seq::empty()),
    ensures
        validation_diags(m1) == validation_diags(m2),
{
    lemma_bundles_same_but_kinds(f1, f2, m1.components@, m2.components@);
    lemma_decls_upto_valid(f1, f1.len() as int, true);
    lemma_built_events_agree(m1, m2, f1, f2);
    lemma_built_conns_agree(m1, m2, conns_upto(f1, f1.len() as int, m1.components@, keys_of(all_decls(f1, false).map)).built, f1, f2);
    assert(models_agree(m1, m2));
    lemma_validation_agree(m1, m2);
}

/// Validation does not depend on the `kind` of events: validating two
/// specifications that differ at most in the kinds of their events reports
/// the same diagnostics.
pub proof fn lemma_validate_ignores_event_kinds(s1: Spec, s2: Spec, d1: Seq<DiagnosticModel>, d2: Seq<DiagnosticModel>)
    requires
        specs_same_but_kinds(s1, s2),
        validate_outcome(s1, d1),
        validate_outcome(s2, d2),
    ensures
        d1 == d2,
{
    let (f1, c1) = choose|files: Seq<SourceFile>, comps: Seq<(Seq<char>, NormalizedComponent)>|
        #![trigger inline_files(s1, files), components_of(files, comps)]
        inline_files(s1, files) && components_of(files, comps) && if bundle_diags(files, 0, comps).len() > 0 {
            d1 == bundle_diags(files, 0, comps)
        } else {
            exists|m: NormalizedSpec| #[trigger] normalized_from(m, files, 0, Seq::empty()) && m.components@ == comps
                && d1 == validation_diags(m)
        };
    let (f2, c2) = choose|files: Seq<SourceFile>, comps: Seq<(Seq<char>, NormalizedComponent)>|
        #![trigger inline_files(s2, files), components_of(files, comps)]
        inline_files(s2, files) && components_of(files, comps) && if bundle_diags(files, 0, comps).len() > 0 {
            d2 == bundle_diags(files, 0, comps)
        } else {
            exists|m: NormalizedSpec| #[trigger] normalized_from(m, files, 0, Seq::empty()) && m.components@ == comps
                && d2 == validation_diags(m)
        };
    lemma_inline_same_but_kinds(s1, s2, f1, f2);
    lemma_bundles_same_but_kinds(f1, f2, c1, c2);
    if bundle_diags(f1, 0, c1).len() == 0 {
        let m1 = choose|m: NormalizedSpec| #[trigger] normalized_from(m, f1, 0, Seq::empty()) && m.components@ == c1 && d1 == validation_diags(m);
        let m2 = choose|m: NormalizedSpec| #[trigger] normalized_from(m, f2, 0, Seq::empty()) && m.components@ == c2 && d2 == validation_diags(m);
        lemma_models_same_but_kinds(m1, m2, f1, f2);
    }
}

// ---------------------------------------------------------------------------
// Wiring counts.

/// A component's wiring counts are the numbers of connections declared
/// inside it with each locality, and the spec-wide counts are the numbers of
/// all connections with each locality.
pub proof fn lemma_wiring_counts(cs: Seq<NormalizedConnection>, q: Seq<char>, l: ConnectionLocality)
    ensures
        count_connections(cs, Some(q), l) == cs.filter(|c: NormalizedConnection| c.within_component@ == q && c.locality == l).len(),
        count_connections(cs, None, l) == cs.filter(|c: NormalizedConnection| c.locality == l).len(),
    decreases cs.len(),
{
    reveal(Seq::filter);
    if cs.len() > 0 {
        lemma_wiring_counts(cs.drop_last(), q, l);
    }
}

// ---------------------------------------------------------------------------
// The flowchart.

proof fn lemma_subgraphs_split(cs: Seq<(Seq<char>, NormalizedComponent)>, i: int) -> (suffix: Seq<char>)
    requires
        0 <= i < cs.len(),
    ensures
        subgraphs_text(cs) == subgraphs_text(cs.take(i)) + subgraph_text(cs[i].1) + suffix,
    decreases cs.len(),
{
    if i == cs.len() - 1 {
        assert(cs.drop_last() =~= cs.take(i));
        Seq::empty()
    } else {
        let s = lemma_subgraphs_split(cs.drop_last(), i);
        assert(cs.drop_last().take(i) =~= cs.take(i));
        let suffix = s + subgraph_text(cs.last().1);
        assert(subgraphs_text(cs) =~= subgraphs_text(cs.take(i)) + subgraph_text(cs[i].1) + suffix);
        suffix
    }
}

/// The line that opens the subgraph of the component named `q`, and the
/// line of its `self` node.
pub open spec fn subgraph_head(q: Seq<char>) -> Seq<char> {
    "  subgraph component_"@ + sanitized(q) + "[\"component: "@ + q + "\"]\n"@ + "    node_"@ + sanitized(q) + "_self[\"self\"]\n"@
}

proof fn lemma_occurs_in_middle(pre: Seq<char>, mid: Seq<char>, post: Seq<char>)
    ensures
        occurs_at(pre + mid + post, mid, pre.len() as int),
{
    assert((pre + mid + post).subrange(pre.len() as int, (pre.len() + mid.len()) as int) =~= mid);
}

proof fn lemma_regroup(x: Seq<char>, p: Seq<char>, h: Seq<char>, b: Seq<char>, s: Seq<char>, e1: Seq<char>, e2: Seq<char>, e3: Seq<char>)
    ensures
        x + (p + (h + b) + s) + e1 + e2 + e3 == (x + p) + h + (b + s + e1 + e2 + e3),
{
    assert(x + (p + (h + b) + s) + e1 + e2 + e3 =~= (x + p) + h + (b + s + e1 + e2 + e3));
}

proof fn lemma_flowchart_draws(n: NormalizedSpec, i: int)
    requires
        0 <= i < n.components@.len(),
    ensures
        occurs_at(
            mermaid_text(n),
            subgraph_head(n.components@[i].1.qualified_name@),
            ("flowchart LR\n"@ + subgraphs_text(n.components@.take(i))).len() as int,
        ),
{
    let cs = n.components@;
    let c = cs[i].1;
    let q = c.qualified_name@;
    let head = subgraph_head(q);
    let suffix = lemma_subgraphs_split(cs, i);
    let body = use_lines(q, c.uses@) + "  end\n"@;
    assert(subgraph_text(c) == head + body) by {
        assert(subgraph_text(c) =~= head + body);
    }
    let x = "flowchart LR\n"@;
    let p = subgraphs_text(cs.take(i));
    let e1 = edges_text(n, n.connections@);
    let e2 = "  %% transition adjacency summary\n"@;
    let e3 = adjacency_text(cs);
    assert(mermaid_text(n) == x + (p + (head + body) + suffix) + e1 + e2 + e3);
    lemma_regroup(x, p, head, body, suffix, e1, e2, e3);
    lemma_occurs_in_middle(x + p, head, body + suffix + e1 + e2 + e3);
}

/// The flowchart draws every component of the model, whether or not it has
/// instances: its subgraph line and its `self` node.
pub proof fn lemma_flowchart_draws_every_component(n: NormalizedSpec)
    ensures
        forall|i: int| 0 <= i < n.components@.len() ==> exists|at: int| occurs_at(
            mermaid_text(n),
            subgraph_head((#[trigger] n.components@[i]).1.qualified_name@),
            at,
        ),
{
    assert forall|i: int| 0 <= i < n.components@.len() implies exists|at: int| occurs_at(
        mermaid_text(n),
        subgraph_head((#[trigger] n.components@[i]).1.qualified_name@),
        at,
    ) by {
        lemma_flowchart_draws(n, i);
    }
}

// ---------------------------------------------------------------------------
// Unused state fields.

proof fn lemma_contains_add<A>(a: Seq<A>, b: Seq<A>, d: A)
    requires
        (a + b).contains(d),
    ensures
        a.contains(d) || b.contains(d),
{
    let i = choose|i: int| 0 <= i < (a + b).len() && (a + b)[i] == d;
    if i < a.len() {
        assert(a[i] == d);
    } else {
        assert(b[i - a.len()] == d);
    }
}

proof fn lemma_port_warning_codes(n: NormalizedSpec, c: NormalizedComponent, ps: Seq<(Seq<char>, NormalizedPort)>)
    ensures
        forall|d: DiagnosticModel| port_warnings(n, c, ps).contains(d) ==> d.code == "HNK2201"@,
    decreases ps.len(),
{
    if ps.len() > 0 {
        lemma_port_warning_codes(n, c, ps.drop_last());
        assert forall|d: DiagnosticModel| port_warnings(n, c, ps).contains(d) implies d.code == "HNK2201"@ by {
            let prev = port_warnings(n, c, ps.drop_last());
            let x = choose|x: int| 0 <= x < port_warnings(n, c, ps).len() && port_warnings(n, c, ps)[x] == d;
            if x < prev.len() {
                assert(prev[x] == d);
                assert(prev.contains(d));
            }
        }
    }
}

proof fn lemma_unconnected_codes(n: NormalizedSpec, cs: Seq<(Seq<char>, NormalizedComponent)>)
    ensures
        forall|d: DiagnosticModel| unconnected_warnings(n, cs).contains(d) ==> d.code == "HNK2201"@,
    decreases cs.len(),
{
    if cs.len() > 0 {
        lemma_unconnected_codes(n, cs.drop_last());
        lemma_port_warning_codes(n, cs.last().1, cs.last().1.ports@);
        assert forall|d: DiagnosticModel| unconnected_warnings(n, cs).contains(d) implies d.code == "HNK2201"@ by {
            lemma_contains_add(unconnected_warnings(n, cs.drop_last()), port_warnings(n, cs.last().1, cs.last().1.ports@), d);
        }
    }
}

proof fn lemma_recovery_codes(cs: Seq<(Seq<char>, NormalizedComponent)>)
    ensures
        forall|d: DiagnosticModel| recovery_warnings(cs).contains(d) ==> d.code == "HNK2203"@,
    decreases cs.len(),
{
    if cs.len() > 0 {
        lemma_recovery_codes(cs.drop_last());
        assert forall|d: DiagnosticModel| recovery_warnings(cs).contains(d) implies d.code == "HNK2203"@ by {
            let prev = recovery_warnings(cs.drop_last());
            let x = choose|x: int| 0 <= x < recovery_warnings(cs).len() && recovery_warnings(cs)[x] == d;
            if x < prev.len() {
                assert(prev[x] == d);
                assert(prev.contains(d));
            }
        }
    }
}

/// No transition of the list reads or writes the field.
pub open spec fn untouched(ts: Seq<(Seq<char>, NormalizedTransition)>, field: Seq<char>) -> bool {
    &&& forall|t: int, k: int| #![trigger ts[t].1.reads@[k]] 0 <= t < ts.len() && 0 <= k < ts[t].1.reads@.len() ==> ts[t].1.reads@[k]@ != field
    &&& forall|t: int, k: int| #![trigger ts[t].1.writes@[k]] 0 <= t < ts.len() && 0 <= k < ts[t].1.writes@.len() ==> ts[t].1.writes@[k]@ != field
}

proof fn lemma_unreferenced_untouched(ts: Seq<(Seq<char>, NormalizedTransition)>, field: Seq<char>)
    requires
        !is_referenced(ts, field),
    ensures
        untouched(ts, field),
{
    assert forall|t: int, k: int| #![trigger ts[t].1.reads@[k]] 0 <= t < ts.len() && 0 <= k < ts[t].1.reads@.len() implies ts[t].1.reads@[k]@ != field by {
        if ts[t].1.reads@[k]@ == field {
            assert(ts[t] == ts[t]);
        }
    }
    assert forall|t: int, k: int| #![trigger ts[t].1.writes@[k]] 0 <= t < ts.len() && 0 <= k < ts[t].1.writes@.len() implies ts[t].1.writes@[k]@ != field by {
        if ts[t].1.writes@[k]@ == field {
            assert(ts[t] == ts[t]);
        }
    }
}

proof fn lemma_field_warnings_sound(c: NormalizedComponent, fs: Seq<(Seq<char>, NormalizedStateField)>)
    ensures
        forall|d: DiagnosticModel| field_warnings(c, fs).contains(d) ==> exists|j: int| 0 <= j < fs.len() && d == unused_field_warning(c.name@, (#[trigger] fs[j]).1.name@)
            && untouched(c.transitions@, fs[j].1.name@),
    decreases fs.len(),
{
    if fs.len() > 0 {
        lemma_field_warnings_sound(c, fs.drop_last());
        let f = fs.last().1;
        if !is_referenced(c.transitions@, f.name@) {
            lemma_unreferenced_untouched(c.transitions@, f.name@);
        }
        assert forall|d: DiagnosticModel| field_warnings(c, fs).contains(d) implies exists|j: int| 0 <= j < fs.len() && d == unused_field_warning(c.name@, (#[trigger] fs[j]).1.name@)
            && untouched(c.transitions@, fs[j].1.name@) by {
            let prev = field_warnings(c, fs.drop_last());
            let x = choose|x: int| 0 <= x < field_warnings(c, fs).len() && field_warnings(c, fs)[x] == d;
            if x < prev.len() {
                assert(prev.contains(d));
                let j = choose|j: int| 0 <= j < fs.drop_last().len() && d == unused_field_warning(c.name@, (#[trigger] fs.drop_last()[j]).1.name@)
                    && untouched(c.transitions@, fs.drop_last()[j].1.name@);
                assert(fs[j] == fs.drop_last()[j]);
            } else {
                assert(fs[fs.len() - 1] == fs.last());
            }
        }
    }
}

proof fn lemma_unused_warnings_sound(cs: Seq<(Seq<char>, NormalizedComponent)>)
    ensures
        forall|d: DiagnosticModel| unused_field_warnings(cs).contains(d) ==> exists|i: int, j: int| 0 <= i < cs.len() && 0 <= j < cs[i].1.state_fields@.len()
            && d == unused_field_warning(cs[i].1.name@, (#[trigger] cs[i].1.state_fields@[j]).1.name@)
            && untouched(cs[i].1.transitions@, cs[i].1.state_fields@[j].1.name@),
    decreases cs.len(),
{
    if cs.len() > 0 {
        lemma_unused_warnings_sound(cs.drop_last());
        let c = cs.last().1;
        lemma_field_warnings_sound(c, c.state_fields@);
        assert forall|d: DiagnosticModel| unused_field_warnings(cs).contains(d) implies exists|i: int, j: int| 0 <= i < cs.len() && 0 <= j < cs[i].1.state_fields@.len()
            && d == unused_field_warning(cs[i].1.name@, (#[trigger] cs[i].1.state_fields@[j]).1.name@)
            && untouched(cs[i].1.transitions@, cs[i].1.state_fields@[j].1.name@) by {
            let prev = unused_field_warnings(cs.drop_last());
            lemma_contains_add(prev, field_warnings(c, c.state_fields@), d);
            if prev.contains(d) {
                let (i, j) = choose|i: int, j: int| 0 <= i < cs.drop_last().len() && 0 <= j < cs.drop_last()[i].1.state_fields@.len()
                    && d == unused_field_warning(cs.drop_last()[i].1.name@, (#[trigger] cs.drop_last()[i].1.state_fields@[j]).1.name@)
                    && untouched(cs.drop_last()[i].1.transitions@, cs.drop_last()[i].1.state_fields@[j].1.name@);
                assert(cs[i] == cs.drop_last()[i]);
            } else {
                let j = choose|j: int| 0 <= j < c.state_fields@.len() && d == unused_field_warning(c.name@, (#[trigger] c.state_fields@[j]).1.name@)
                    && untouched(c.transitions@, c.state_fields@[j].1.name@);
                assert(cs[cs.len() - 1] == cs.last());
            }
        }
    }
}

/// Lint reports a state field as never referenced only when no transition
/// of its component reads it and none writes it: every `HNK2202` warning is
/// the warning for such a field.
pub proof fn lemma_lint_unused_fields_untouched(n: NormalizedSpec)
    ensures
        forall|d: DiagnosticModel| #![trigger lint_warnings(n).contains(d)] lint_warnings(n).contains(d) && d.code == "HNK2202"@ ==> exists|i: int, j: int|
            0 <= i < n.components@.len() && 0 <= j < n.components@[i].1.state_fields@.len()
            && d == unused_field_warning(n.components@[i].1.name@, (#[trigger] n.components@[i].1.state_fields@[j]).1.name@)
            && untouched(n.components@[i].1.transitions@, n.components@[i].1.state_fields@[j].1.name@),
{
    reveal_strlit("HNK2201");
    reveal_strlit("HNK2202");
    reveal_strlit("HNK2203");
    let cs = n.components@;
    lemma_unconnected_codes(n, cs);
    lemma_recovery_codes(cs);
    lemma_unused_warnings_sound(cs);
    assert forall|d: DiagnosticModel| #![trigger lint_warnings(n).contains(d)] lint_warnings(n).contains(d) && d.code == "HNK2202"@ implies exists|i: int, j: int|
        0 <= i < cs.len() && 0 <= j < cs[i].1.state_fields@.len()
        && d == unused_field_warning(cs[i].1.name@, (#[trigger] cs[i].1.state_fields@[j]).1.name@)
        && untouched(cs[i].1.transitions@, cs[i].1.state_fields@[j].1.name@) by {
        lemma_contains_add(unconnected_warnings(n, cs) + unused_field_warnings(cs), recovery_warnings(cs), d);
        if (unconnected_warnings(n, cs) + unused_field_warnings(cs)).contains(d) {
            lemma_contains_add(unconnected_warnings(n, cs), unused_field_warnings(cs), d);
            if unconnected_warnings(n, cs).contains(d) {
                assert(d.code == "HNK2201"@);
                assert(d.code[6] != "HNK2201"@[6]);
            }
        } else {
            assert(d.code == "HNK2203"@);
            assert(d.code[6] != "HNK2203"@[6]);
        }
    }
}

// ---------------------------------------------------------------------------
// Reply paths start with the requested event.

/// A declared reply path goes through a transition of the requested
/// instance's component that the requested event triggers and that emits
/// something: some connection of `q` leads from `self.pname` to an instance
/// whose component has a transition on `event` with at least one emitted
/// event.
pub proof fn lemma_reply_path_needs_requested_event(n: NormalizedSpec, q: Seq<char>, pname: Seq<char>, event: Seq<char>)
    requires
        has_reply_path(n, q, pname, event),
    ensures
        exists|i: int, t: int| #![trigger n.connections@[i], comp_of(n, n.connections@[i].to_component@).transitions@[t]]
            0 <= i < n.connections@.len() && n.connections@[i].within_component@ == q && n.connections@[i].from_target@ == "self"@
            && n.connections@[i].from_port@ == pname && 0 <= t < comp_of(n, n.connections@[i].to_component@).transitions@.len()
            && comp_of(n, n.connections@[i].to_component@).transitions@[t].1.on@ == event
            && comp_of(n, n.connections@[i].to_component@).transitions@[t].1.emits@.len() > 0,
{
    let (i, t, e, k) = choose|i: int, t: int, e: int, k: int| #[trigger] reply_path_via(n, q, pname, event, i, t, e, k);
    let c = n.connections@[i];
    let comp = comp_of(n, c.to_component@);
    assert(transition_reply(n, q, c, event, t, e, k));
    assert(emit_reply(n, q, c, comp, comp.transitions@[t].1, e, k));
    assert(comp.transitions@[t] == comp_of(n, n.connections@[i].to_component@).transitions@[t]);
}

proof fn lemma_port_reply_contains(n: NormalizedSpec, c: NormalizedComponent, ps: Seq<(Seq<char>, NormalizedPort)>, j: int)
    requires
        0 <= j < ps.len(),
        ps[j].1.direction == PortDirection::Out,
        spec_has_must_reply(ps[j].1.contracts),
        !has_reply_path(n, c.qualified_name@, ps[j].1.name@, ps[j].1.event@),
    ensures
        port_reply_diags(n, c, ps).contains(plain_error("HNK2111"@, missing_reply_message(c.qualified_name@, ps[j].1.name@, ps[j].1.event@))),
    decreases ps.len(),
{
    let d = plain_error("HNK2111"@, missing_reply_message(c.qualified_name@, ps[j].1.name@, ps[j].1.event@));
    let prev = port_reply_diags(n, c, ps.drop_last());
    if j == ps.len() - 1 {
        assert(ps.last() == ps[j]);
        assert(port_reply_diags(n, c, ps) == prev.push(d));
        assert(port_reply_diags(n, c, ps)[prev.len() as int] == d);
    } else {
        assert(ps.drop_last()[j] == ps[j]);
        lemma_port_reply_contains(n, c, ps.drop_last(), j);
        let x = choose|x: int| 0 <= x < prev.len() && prev[x] == d;
        assert(port_reply_diags(n, c, ps)[x] == d);
    }
}

proof fn lemma_must_reply_contains(n: NormalizedSpec, cs: Seq<(Seq<char>, NormalizedComponent)>, i: int, d: DiagnosticModel)
    requires
        0 <= i < cs.len(),
        port_reply_diags(n, cs[i].1, cs[i].1.ports@).contains(d),
    ensures
        must_reply_diags(n, cs).contains(d),
    decreases cs.len(),
{
    let prev = must_reply_diags(n, cs.drop_last());
    let last = port_reply_diags(n, cs.last().1, cs.last().1.ports@);
    if i == cs.len() - 1 {
        let x = choose|x: int| 0 <= x < last.len() && last[x] == d;
        assert((prev + last)[prev.len() + x] == d);
    } else {
        assert(cs.drop_last()[i] == cs[i]);
        lemma_must_reply_contains(n, cs.drop_last(), i, d);
        let x = choose|x: int| 0 <= x < prev.len() && prev[x] == d;
        assert((prev + last)[x] == d);
    }
}

/// Validation reports a `must_reply` port whose requested event triggers no
/// transition that emits anything: for an `out` port `p` of component `c`
/// declaring `must_reply`, when every transition on `p`'s event of every
/// instance that `c` connects `self.p` to emits nothing, validation reports
/// the missing reply path for `p`.
pub proof fn lemma_must_reply_needs_triggered_reply(n: NormalizedSpec, ci: int, pj: int)
    requires
        0 <= ci < n.components@.len(),
        0 <= pj < n.components@[ci].1.ports@.len(),
        n.components@[ci].1.ports@[pj].1.direction == PortDirection::Out,
        spec_has_must_reply(n.components@[ci].1.ports@[pj].1.contracts),
        forall|i: int, t: int| #![trigger n.connections@[i], comp_of(n, n.connections@[i].to_component@).transitions@[t]]
            0 <= i < n.connections@.len() && n.connections@[i].within_component@ == n.components@[ci].1.qualified_name@
            && n.connections@[i].from_target@ == "self"@ && n.connections@[i].from_port@ == n.components@[ci].1.ports@[pj].1.name@
            && 0 <= t < comp_of(n, n.connections@[i].to_component@).transitions@.len()
            && comp_of(n, n.connections@[i].to_component@).transitions@[t].1.on@ == n.components@[ci].1.ports@[pj].1.event@
            ==> comp_of(n, n.connections@[i].to_component@).transitions@[t].1.emits@.len() == 0,
    ensures
        validation_diags(n).contains(
            plain_error(
                "HNK2111"@,
                missing_reply_message(
                    n.components@[ci].1.qualified_name@,
                    n.components@[ci].1.ports@[pj].1.name@,
                    n.components@[ci].1.ports@[pj].1.event@,
                ),
            ),
        ),
{
    let c = n.components@[ci].1;
    let p = c.ports@[pj].1;
    if has_reply_path(n, c.qualified_name@, p.name@, p.event@) {
        lemma_reply_path_needs_requested_event(n, c.qualified_name@, p.name@, p.event@);
    }
    lemma_port_reply_contains(n, c, c.ports@, pj);
    let d = plain_error("HNK2111"@, missing_reply_message(c.qualified_name@, p.name@, p.event@));
    lemma_must_reply_contains(n, n.components@, ci, d);
    let pre = event_version_diags(n.events@) + connections_check_diags(n, n.connections@) + transitions_diags(n.components@)
        + persistence_diags(n.components@);
    let m = must_reply_diags(n, n.components@);
    let x = choose|x: int| 0 <= x < m.len() && m[x] == d;
    assert(validation_diags(n) == pre + m);
    assert((pre + m)[pre.len() + x] == d);
}

// ---------------------------------------------------------------------------
// Repeated state fields.

proof fn lemma_inserted_entry<V>(s: Seq<(Seq<char>, V)>, k: Seq<char>, v: V)
    requires
        !has_key(s, k),
    ensures
        sorted_insert(s, k, v).contains((k, v)),
{
    lemma_sorted_insert_entries(s, k, v);
    lemma_sorted_insert_keeps(s, k, v);
    let r = sorted_insert(s, k, v);
    let j = choose|j: int| 0 <= j < r.len() && #[trigger] r[j].0 == k;
    if r[j] != (k, v) {
        let m = choose|m: int| 0 <= m < s.len() && r[j] == s[m];
        assert(s[m].0 == k);
    }
    assert(r[j] == (k, v));
}

proof fn lemma_inserted_kept<V>(s: Seq<(Seq<char>, V)>, k: Seq<char>, v: V, e: (Seq<char>, V))
    requires
        s.contains(e),
    ensures
        sorted_insert(s, k, v).contains(e),
{
    lemma_sorted_insert_keeps(s, k, v);
    let m = choose|m: int| 0 <= m < s.len() && s[m] == e;
    let j = choose|j: int| 0 <= j < sorted_insert(s, k, v).len() && s[m] == #[trigger] sorted_insert(s, k, v)[j];
    assert(sorted_insert(s, k, v)[j] == e);
}

proof fn lemma_state_fold_keys(q: Seq<char>, comp: Component, n: int)
    requires
        0 <= n <= comp.state.fields@.len(),
    ensures
        forall|k: int| 0 <= k < n ==> has_key(state_fold(q, comp, n).map, (#[trigger] comp.state.fields@[k]).name@),
    decreases n,
{
    if n > 0 {
        lemma_state_fold_keys(q, comp, n - 1);
        let st = state_fold(q, comp, n - 1);
        let f = comp.state.fields@[n - 1];
        if !has_key(st.map, f.name@) {
            lemma_sorted_insert_keeps(st.map, f.name@, (n - 1) as usize);
            assert forall|k: int| 0 <= k < n implies has_key(state_fold(q, comp, n).map, (#[trigger] comp.state.fields@[k]).name@) by {
                if k < n - 1 {
                    let m = choose|m: int| 0 <= m < st.map.len() && #[trigger] st.map[m].0 == comp.state.fields@[k].name@;
                    let j = choose|j: int| 0 <= j < sorted_insert(st.map, f.name@, (n - 1) as usize).len()
                        && st.map[m] == #[trigger] sorted_insert(st.map, f.name@, (n - 1) as usize)[j];
                    assert(state_fold(q, comp, n).map[j].0 == comp.state.fields@[k].name@);
                }
            }
        }
    }
}

proof fn lemma_state_fold_repeat(q: Seq<char>, comp: Component, n: int, k1: int, k2: int)
    requires
        0 <= k1 < k2 < n <= comp.state.fields@.len(),
        comp.state.fields@[k1].name@ == comp.state.fields@[k2].name@,
    ensures
        state_fold(q, comp, n).diags.contains(plain_error("HNK2006"@, defined_twice_message(q, "state field"@, comp.state.fields@[k2].name@))),
    decreases n,
{
    let d = plain_error("HNK2006"@, defined_twice_message(q, "state field"@, comp.state.fields@[k2].name@));
    let prev = state_fold(q, comp, n - 1).diags;
    if n - 1 == k2 {
        lemma_state_fold_keys(q, comp, k2);
        assert(has_key(state_fold(q, comp, k2).map, comp.state.fields@[k1].name@));
        assert(state_fold(q, comp, n).diags[prev.len() as int] == d);
    } else {
        lemma_state_fold_repeat(q, comp, n - 1, k1, k2);
        let x = choose|x: int| 0 <= x < prev.len() && prev[x] == d;
        assert(state_fold(q, comp, n).diags[x] == d);
    }
}

/// Records of the first `m` of the names `names` declared in one file of
/// package `pkg`: every record names one of them by its qualified name, and
/// the first of each name is recorded.
spec fn first_names_recorded(map: Seq<(Seq<char>, (usize, usize))>, pkg: Seq<char>, names: Seq<Seq<char>>, m: int) -> bool {
    &&& forall|e: int| 0 <= e < map.len() ==> {
        &&& (#[trigger] map[e]).1.0 == 0
        &&& (map[e].1.1 as int) < m
        &&& map[e].0 == qualified(pkg, names[map[e].1.1 as int])
    }
    &&& forall|d: int| 0 <= d < m && (forall|d2: int| 0 <= d2 < d ==> names[d2] != #[trigger] names[d])
        ==> map.contains((qualified(pkg, names[d]), (0usize, d as usize)))
}

proof fn lemma_qualified_injective(p: Seq<char>, a: Seq<char>, b: Seq<char>)
    requires
        qualified(p, a) == qualified(p, b),
    ensures
        a == b,
{
    reveal_strlit(".");
    let n = p.len() + 1;
    assert(qualified(p, a).subrange(n as int, qualified(p, a).len() as int) =~= a);
    assert(qualified(p, b).subrange(n as int, qualified(p, b).len() as int) =~= b);
}

proof fn lemma_first_names_insert(st: Seq<(Seq<char>, (usize, usize))>, pkg: Seq<char>, names: Seq<Seq<char>>, m: int)
    requires
        0 < m <= names.len(),
        m <= usize::MAX,
        first_names_recorded(st, pkg, names, m - 1),
        !has_key(st, qualified(pkg, names[m - 1])),
    ensures
        first_names_recorded(sorted_insert(st, qualified(pkg, names[m - 1]), (0usize, (m - 1) as usize)), pkg, names, m),
{
    let q = qualified(pkg, names[m - 1]);
    let entry = (0usize, (m - 1) as usize);
    let map = sorted_insert(st, q, entry);
    lemma_sorted_insert_entries(st, q, entry);
    lemma_inserted_entry(st, q, entry);
    assert forall|e: int| 0 <= e < map.len() implies {
        &&& (#[trigger] map[e]).1.0 == 0
        &&& (map[e].1.1 as int) < m
        &&& map[e].0 == qualified(pkg, names[map[e].1.1 as int])
    } by {
        if map[e] != (q, entry) {
            let x = choose|x: int| 0 <= x < st.len() && map[e] == st[x];
            assert(st[x] == map[e]);
        }
    }
    assert forall|d: int| 0 <= d < m && (forall|d2: int| 0 <= d2 < d ==> names[d2] != #[trigger] names[d])
        implies map.contains((qualified(pkg, names[d]), (0usize, d as usize))) by {
        if d < m - 1 {
            lemma_inserted_kept(st, q, entry, (qualified(pkg, names[d]), (0usize, d as usize)));
        }
    }
}

proof fn lemma_first_names_skip(st: Seq<(Seq<char>, (usize, usize))>, pkg: Seq<char>, names: Seq<Seq<char>>, m: int)
    requires
        0 < m <= names.len(),
        first_names_recorded(st, pkg, names, m - 1),
        has_key(st, qualified(pkg, names[m - 1])),
    ensures
        first_names_recorded(st, pkg, names, m),
{
    assert forall|d: int| 0 <= d < m && (forall|d2: int| 0 <= d2 < d ==> names[d2] != #[trigger] names[d])
        implies st.contains((qualified(pkg, names[d]), (0usize, d as usize))) by {
        if d == m - 1 {
            let x = choose|x: int| 0 <= x < st.len() && #[trigger] st[x].0 == qualified(pkg, names[m - 1]);
            let d2 = st[x].1.1 as int;
            lemma_qualified_injective(pkg, names[d2], names[d]);
        }
    }
}

proof fn lemma_first_decls(files: Seq<SourceFile>, m: int)
    requires
        files.len() == 1,
        0 <= m <= files[0].spec.components@.len(),
        files[0].spec.components@.len() <= usize::MAX,
    ensures
        first_names_recorded(
            decls_in_file(decls_upto(files, 0, false), files, 0, m, false).map,
            files[0].package@,
            files[0].spec.components@.map_values(|c: Component| c.name@),
            m,
        ),
    decreases m,
{
    let names = files[0].spec.components@.map_values(|c: Component| c.name@);
    let pkg = files[0].package@;
    if m > 0 {
        lemma_first_decls(files, m - 1);
        let st = decls_in_file(decls_upto(files, 0, false), files, 0, m - 1, false);
        assert(decl_name(files, 0, m - 1, false) == names[m - 1]);
        if has_key(st.map, qualified(pkg, names[m - 1])) {
            lemma_first_names_skip(st.map, pkg, names, m);
        } else {
            lemma_first_names_insert(st.map, pkg, names, m);
        }
    } else {
        assert(decls_in_file(decls_upto(files, 0, false), files, 0, 0, false).map.len() == 0);
    }
}

proof fn lemma_components_diags_contains(
    decls: Seq<(Seq<char>, (usize, usize))>,
    files: Seq<SourceFile>,
    ek: Seq<Seq<char>>,
    ck: Seq<Seq<char>>,
    n: int,
    i: int,
    d: DiagnosticModel,
)
    requires
        0 <= i < n <= decls.len(),
        component_diags(files[decls[i].1.0 as int].package@, decls[i].0, decl_component(files, decls[i].1), ek, ck).contains(d),
    ensures
        components_diags(decls, files, ek, ck, n).contains(d),
    decreases n,
{
    let prev = components_diags(decls, files, ek, ck, n - 1);
    let last = component_diags(files[decls[n - 1].1.0 as int].package@, decls[n - 1].0, decl_component(files, decls[n - 1].1), ek, ck);
    if i == n - 1 {
        let x = choose|x: int| 0 <= x < last.len() && last[x] == d;
        assert((prev + last)[prev.len() + x] == d);
    } else {
        lemma_components_diags_contains(decls, files, ek, ck, n - 1, i, d);
        let x = choose|x: int| 0 <= x < prev.len() && prev[x] == d;
        assert((prev + last)[x] == d);
    }
}

proof fn lemma_component_diags_repeat(pkg: Seq<char>, q: Seq<char>, comp: Component, ek: Seq<Seq<char>>, ck: Seq<Seq<char>>, k1: int, k2: int)
    requires
        0 <= k1 < k2 < comp.state.fields@.len(),
        comp.state.fields@[k1].name@ == comp.state.fields@[k2].name@,
    ensures
        component_diags(pkg, q, comp, ek, ck).contains(plain_error("HNK2006"@, defined_twice_message(q, "state field"@, comp.state.fields@[k2].name@))),
{
    let d = plain_error("HNK2006"@, defined_twice_message(q, "state field"@, comp.state.fields@[k2].name@));
    lemma_state_fold_repeat(q, comp, comp.state.fields@.len() as int, k1, k2);
    let u = uses_fold(pkg, q, comp, ck, comp.uses@.len() as int).diags;
    let pf = ports_fold(pkg, q, comp, ek, comp.ports@.len() as int).diags;
    let sf = state_fold(q, comp, comp.state.fields@.len() as int).diags;
    let tf = transitions_fold(pkg, q, comp, ek, comp.transitions@.len() as int).diags;
    let x = choose|x: int| 0 <= x < sf.len() && sf[x] == d;
    assert(component_diags(pkg, q, comp, ek, ck) == u + pf + sf + tf);
    assert((u + pf + sf + tf)[u.len() + pf.len() + x] == d);
}

proof fn lemma_bundle_diags_repeat(files: Seq<SourceFile>, spec: Spec, j: int, k1: int, k2: int)
    requires
        files.len() == 1,
        *files[0].spec == spec,
        files[0].package@ == spec.package@,
        0 <= j < spec.components@.len(),
        forall|j2: int| 0 <= j2 < j ==> (#[trigger] spec.components@[j2]).name@ != spec.components@[j].name@,
        0 <= k1 < k2 < spec.components@[j].state.fields@.len(),
        spec.components@[j].state.fields@[k1].name@ == spec.components@[j].state.fields@[k2].name@,
    ensures
        forall|comps: Seq<(Seq<char>, NormalizedComponent)>| #[trigger] bundle_diags(files, 0, comps).contains(
            plain_error(
                "HNK2006"@,
                defined_twice_message(
                    qualified(spec.package@, spec.components@[j].name@),
                    "state field"@,
                    spec.components@[j].state.fields@[k2].name@,
                ),
            ),
        ),
{
    let comp = spec.components@[j];
    let pkg = spec.package@;
    let q = qualified(pkg, comp.name@);
    let d = plain_error("HNK2006"@, defined_twice_message(q, "state field"@, comp.state.fields@[k2].name@));
    vstd::std_specs::vec::axiom_spec_len(&spec.components);
    lemma_first_decls(files, spec.components@.len() as int);
    let cd = all_decls(files, false);
    let ed = all_decls(files, true);
    let names = spec.components@.map_values(|c: Component| c.name@);
    assert(cd == decls_in_file(decls_upto(files, 0, false), files, 0, spec.components@.len() as int, false));
    assert(names[j] == comp.name@);
    assert forall|d2: int| 0 <= d2 < j implies names[d2] != names[j] by {
        assert(names[d2] == spec.components@[d2].name@);
    }
    assert(cd.map.contains((q, (0usize, j as usize))));
    let i = choose|i: int| 0 <= i < cd.map.len() && cd.map[i] == (q, (0usize, j as usize));
    assert(decl_component(files, cd.map[i].1) == comp);
    let ek = keys_of(ed.map);
    let ck = keys_of(cd.map);
    lemma_component_diags_repeat(pkg, q, comp, ek, ck, k1, k2);
    lemma_components_diags_contains(cd.map, files, ek, ck, cd.map.len() as int, i, d);
    let cdiags = components_diags(cd.map, files, ek, ck, cd.map.len() as int);
    let y = choose|y: int| 0 <= y < cdiags.len() && cdiags[y] == d;
    assert forall|comps: Seq<(Seq<char>, NormalizedComponent)>| #[trigger] bundle_diags(files, 0, comps).contains(d) by {
        let a = version_diags(files, files[0].spec.version@, files.len() as int) + ed.diags + cd.diags;
        let b = conns_upto(files, files.len() as int, comps, ck).diags;
        assert(bundle_diags(files, 0, comps) == a + cdiags + b);
        assert((a + cdiags + b)[a.len() + y] == d);
    }
}

/// Normalization rejects a component that declares a state field name
/// twice: when a component (the first of its name) has two state fields of
/// the same name, normalizing the specification fails, and among its
/// diagnostics is the `HNK2006` error for that field.
pub proof fn lemma_normalize_rejects_repeated_state_fields(
    spec: Spec,
    r: Result<NormalizedSpec, DiagnosticSet>,
    j: int,
    k1: int,
    k2: int,
)
    requires
        normalize_outcome(spec, r),
        0 <= j < spec.components@.len(),
        forall|j2: int| 0 <= j2 < j ==> (#[trigger] spec.components@[j2]).name@ != spec.components@[j].name@,
        0 <= k1 < k2 < spec.components@[j].state.fields@.len(),
        spec.components@[j].state.fields@[k1].name@ == spec.components@[j].state.fields@[k2].name@,
    ensures
        r is Err,
        r->Err_0@.contains(
            plain_error(
                "HNK2006"@,
                defined_twice_message(
                    qualified(spec.package@, spec.components@[j].name@),
                    "state field"@,
                    spec.components@[j].state.fields@[k2].name@,
                ),
            ),
        ),
{
    let files = choose|files: Seq<SourceFile>| #![trigger inline_files(spec, files)] inline_files(spec, files) && match r {
        Ok(n) => bundle_diags(files, 0, n.components@).len() == 0 && normalized_from(n, files, 0, Seq::empty()),
        Err(ds) => exists|comps: Seq<(Seq<char>, NormalizedComponent)>| components_of(files, comps)
            && ds@ == bundle_diags(files, 0, comps) && ds@.len() > 0,
    };
    lemma_bundle_diags_repeat(files, spec, j, k1, k2);
    match r {
        Ok(n) => {
            assert(bundle_diags(files, 0, n.components@).contains(
                plain_error("HNK2006"@, defined_twice_message(qualified(spec.package@, spec.components@[j].name@), "state field"@, spec.components@[j].state.fields@[k2].name@)),
            ));
        },
        Err(ds) => {
            let comps = choose|comps: Seq<(Seq<char>, NormalizedComponent)>| components_of(files, comps) && ds@ == bundle_diags(files, 0, comps)
                && ds@.len() > 0;
            assert(bundle_diags(files, 0, comps).contains(
                plain_error("HNK2006"@, defined_twice_message(qualified(spec.package@, spec.components@[j].name@), "state field"@, spec.components@[j].state.fields@[k2].name@)),
            ));
        },
    }
}

proof fn lemma_field_warnings_complete(c: NormalizedComponent, fs: Seq<(Seq<char>, NormalizedStateField)>, j: int)
    requires
        0 <= j < fs.len(),
        untouched(c.transitions@, fs[j].1.name@),
    ensures
        field_warnings(c, fs).contains(unused_field_warning(c.name@, fs[j].1.name@)),
    decreases fs.len(),
{
    let d = unused_field_warning(c.name@, fs[j].1.name@);
    let prev = field_warnings(c, fs.drop_last());
    if j == fs.len() - 1 {
        let ts = c.transitions@;
        let f = fs[j].1.name@;
        if is_referenced(ts, f) {
            let t = choose|t: int| #![trigger ts[t]] 0 <= t < ts.len() && (
                (exists|k: int| 0 <= k < ts[t].1.reads@.len() && (#[trigger] ts[t].1.reads@[k])@ == f)
                || (exists|k: int| 0 <= k < ts[t].1.writes@.len() && (#[trigger] ts[t].1.writes@[k])@ == f));
            if exists|k: int| 0 <= k < ts[t].1.reads@.len() && (#[trigger] ts[t].1.reads@[k])@ == f {
                let k = choose|k: int| 0 <= k < ts[t].1.reads@.len() && (#[trigger] ts[t].1.reads@[k])@ == f;
                assert(ts[t].1.reads@[k]@ != f);
            } else {
                let k = choose|k: int| 0 <= k < ts[t].1.writes@.len() && (#[trigger] ts[t].1.writes@[k])@ == f;
                assert(ts[t].1.writes@[k]@ != f);
            }
        }
        assert(fs.last() == fs[j]);
        assert(field_warnings(c, fs)[prev.len() as int] == d);
    } else {
        assert(fs.drop_last()[j] == fs[j]);
        lemma_field_warnings_complete(c, fs.drop_last(), j);
        let x = choose|x: int| 0 <= x < prev.len() && prev[x] == d;
        assert(field_warnings(c, fs)[x] == d);
    }
}

proof fn lemma_unused_warnings_complete(cs: Seq<(Seq<char>, NormalizedComponent)>, i: int, d: DiagnosticModel)
    requires
        0 <= i < cs.len(),
        field_warnings(cs[i].1, cs[i].1.state_fields@).contains(d),
    ensures
        unused_field_warnings(cs).contains(d),
    decreases cs.len(),
{
    let prev = unused_field_warnings(cs.drop_last());
    let last = field_warnings(cs.last().1, cs.last().1.state_fields@);
    if i == cs.len() - 1 {
        let x = choose|x: int| 0 <= x < last.len() && last[x] == d;
        assert((prev + last)[prev.len() + x] == d);
    } else {
        assert(cs.drop_last()[i] == cs[i]);
        lemma_unused_warnings_complete(cs.drop_last(), i, d);
        let x = choose|x: int| 0 <= x < prev.len() && prev[x] == d;
        assert((prev + last)[x] == d);
    }
}

/// Lint reports every state field that no transition of its component reads
/// or writes.
pub proof fn lemma_lint_reports_untouched_fields(n: NormalizedSpec, i: int, j: int)
    requires
        0 <= i < n.components@.len(),
        0 <= j < n.components@[i].1.state_fields@.len(),
        untouched(n.components@[i].1.transitions@, n.components@[i].1.state_fields@[j].1.name@),
    ensures
        lint_warnings(n).contains(unused_field_warning(n.components@[i].1.name@, n.components@[i].1.state_fields@[j].1.name@)),
{
    let cs = n.components@;
    let d = unused_field_warning(cs[i].1.name@, cs[i].1.state_fields@[j].1.name@);
    lemma_field_warnings_complete(cs[i].1, cs[i].1.state_fields@, j);
    lemma_unused_warnings_complete(cs, i, d);
    let a = unconnected_warnings(n, cs);
    let b = unused_field_warnings(cs);
    let c = recovery_warnings(cs);
    let x = choose|x: int| 0 <= x < b.len() && b[x] == d;
    assert(lint_warnings(n) == a + b + c);
    assert((a + b + c)[a.len() + x] == d);
}

proof fn lemma_state_fold_distinct(q: Seq<char>, comp: Component, n: int)
    requires
        0 <= n <= comp.state.fields@.len(),
        forall|k1: int, k2: int| 0 <= k1 < k2 < n ==> (#[trigger] comp.state.fields@[k1]).name@ != (#[trigger] comp.state.fields@[k2]).name@,
    ensures
        state_fold(q, comp, n).diags.len() == 0,
        forall|e: int| 0 <= e < state_fold(q, comp, n).map.len() ==> exists|k: int| 0 <= k < n
            && (#[trigger] state_fold(q, comp, n).map[e]).0 == comp.state.fields@[k].name@,
    decreases n,
{
    if n > 0 {
        lemma_state_fold_distinct(q, comp, n - 1);
        let st = state_fold(q, comp, n - 1);
        let f = comp.state.fields@[n - 1];
        if has_key(st.map, f.name@) {
            let e = choose|e: int| 0 <= e < st.map.len() && #[trigger] st.map[e].0 == f.name@;
            let k = choose|k: int| 0 <= k < n - 1 && (#[trigger] st.map[e]).0 == comp.state.fields@[k].name@;
            assert(comp.state.fields@[k].name@ != comp.state.fields@[n - 1].name@);
        }
        lemma_sorted_insert_entries(st.map, f.name@, (n - 1) as usize);
        let m = state_fold(q, comp, n).map;
        assert forall|e: int| 0 <= e < m.len() implies exists|k: int| 0 <= k < n && (#[trigger] m[e]).0 == comp.state.fields@[k].name@ by {
            if m[e] != (f.name@, (n - 1) as usize) {
                let x = choose|x: int| 0 <= x < st.map.len() && m[e] == st.map[x];
                let k = choose|k: int| 0 <= k < n - 1 && (#[trigger] st.map[x]).0 == comp.state.fields@[k].name@;
                assert(m[e].0 == comp.state.fields@[k].name@);
            } else {
                assert(m[e].0 == comp.state.fields@[n - 1].name@);
            }
        }
    }
}

/// A component's state fields raise a diagnostic exactly when two of them
/// share a name, and then it is the `HNK2006` error for that name.
pub proof fn lemma_state_field_repeats(q: Seq<char>, comp: Component)
    ensures
        (state_fold(q, comp, comp.state.fields@.len() as int).diags.len() > 0) == exists|k1: int, k2: int|
            0 <= k1 < k2 < comp.state.fields@.len() && (#[trigger] comp.state.fields@[k1]).name@ == (#[trigger] comp.state.fields@[k2]).name@,
        forall|k1: int, k2: int| 0 <= k1 < k2 < comp.state.fields@.len() && (#[trigger] comp.state.fields@[k1]).name@ == (#[trigger] comp.state.fields@[k2]).name@
            ==> state_fold(q, comp, comp.state.fields@.len() as int).diags.contains(
            plain_error("HNK2006"@, defined_twice_message(q, "state field"@, comp.state.fields@[k2].name@)),
        ),
{
    let n = comp.state.fields@.len() as int;
    if exists|k1: int, k2: int| 0 <= k1 < k2 < n && (#[trigger] comp.state.fields@[k1]).name@ == (#[trigger] comp.state.fields@[k2]).name@ {
        let (k1, k2) = choose|k1: int, k2: int| 0 <= k1 < k2 < n && (#[trigger] comp.state.fields@[k1]).name@ == (#[trigger] comp.state.fields@[k2]).name@;
        lemma_state_fold_repeat(q, comp, n, k1, k2);
    } else {
        lemma_state_fold_distinct(q, comp, n);
    }
    assert forall|k1: int, k2: int| 0 <= k1 < k2 < n && (#[trigger] comp.state.fields@[k1]).name@ == (#[trigger] comp.state.fields@[k2]).name@
        implies state_fold(q, comp, n).diags.contains(plain_error("HNK2006"@, defined_twice_message(q, "state field"@, comp.state.fields@[k2].name@))) by {
        lemma_state_fold_repeat(q, comp, n, k1, k2);
    }
}

} // verus!
