//! The Mermaid flowchart of a resolved model: one subgraph per component
//! with its instances, one edge per connection, and a summary of the
//! transitions.
use vstd::prelude::*;
use crate::ir::{NormalizedComponent, NormalizedComponentUse, NormalizedConnection, NormalizedSpec, NormalizedTransition};
use crate::normalize::views;
use crate::resolve::{join, join_strings};
use crate::schema::ConnectionLocality;
use crate::validate::{component_named, model_wf, port_of, connection_resolves};
use crate::name_map::has_key;

verus! {

/// A character kept by `sanitize`: an ASCII letter or digit.
pub open spec fn ident_char(c: char) -> bool {
    ('a' <= c && c <= 'z') || ('A' <= c && c <= 'Z') || ('0' <= c && c <= '9')
}

/// The name with every character other than an ASCII letter or digit
/// replaced by `_`.
pub open spec fn sanitized(s: Seq<char>) -> Seq<char> {
    s.map_values(|c: char| if ident_char(c) { c } else { '_' })
}

/// The name as a Mermaid identifier: ASCII letters and digits kept, every
/// other character replaced by `_`.
pub fn sanitize(name: &str) -> (r: String)
    ensures
        r@ == sanitized(name@),
{
    let cs = crate::text::chars_of(name);
    let mut r = String::new();
    let mut i: usize = 0;
    while i < cs.len()
        invariant
            cs@ == name@,
            i <= cs@.len(),
            r@ == sanitized(name@.take(i as int)),
        decreases cs@.len() - i,
    {
        let c = cs[i];
        let k = if ('a' <= c && c <= 'z') || ('A' <= c && c <= 'Z') || ('0' <= c && c <= '9') {
            c
        } else {
            '_'
        };
        r.push(k);
        assert(sanitized(name@.take(i + 1)) =~= sanitized(name@.take(i as int)).push(k));
        i = i + 1;
    }
    assert(name@.take(cs@.len() as int) =~= name@);
    r
}

/// The locality as the graph names it.
pub open spec fn locality_text(l: ConnectionLocality) -> Seq<char> {
    match l {
        ConnectionLocality::Local => "local"@,
        ConnectionLocality::NonLocal => "non-local"@,
    }
}

/// The label of a connection's edge: its locality and the event of its
/// source port (the port of the enclosing component for `self`).
pub open spec fn edge_label_text(n: NormalizedSpec, c: NormalizedConnection) -> Seq<char> {
    let source = if c.from_target@ == "self"@ { c.within_component@ } else { c.from_component@ };
    locality_text(c.locality) + ": "@ + port_of(n, source, c.from_port@).event@
}

/// The component whose port a connection's edge is labelled from: the
/// enclosing component for a `self` source, else the source component.
pub open spec fn edge_source(c: NormalizedConnection) -> Seq<char> {
    if c.from_target@ == "self"@ { c.within_component@ } else { c.from_component@ }
}

/// The source of a connection's edge names a defined component that
/// declares the source port.
pub open spec fn edge_source_resolves(n: NormalizedSpec, c: NormalizedConnection) -> bool {
    component_named(n, edge_source(c)) matches Some(sc) && has_key(sc.ports@, c.from_port@)
}

/// The source of every connection's edge resolves (as it does in a model
/// whose connections resolve).
pub open spec fn edges_wf(n: NormalizedSpec) -> bool {
    forall|i: int| 0 <= i < n.connections@.len() ==> edge_source_resolves(n, #[trigger] n.connections@[i])
}

/// Whether the source of every connection's edge resolves.
pub fn edges_resolve(spec: &NormalizedSpec) -> (r: bool)
    ensures
        r == edges_wf(*spec),
{
    let mut i: usize = 0;
    while i < spec.connections.len()
        invariant
            i <= spec.connections@.len(),
            forall|j: int| 0 <= j < i ==> edge_source_resolves(*spec, #[trigger] spec.connections@[j]),
        decreases spec.connections@.len() - i,
    {
        let c = &spec.connections[i];
        let source = if crate::text::str_equal(c.from_target.as_str(), "self") {
            &c.within_component
        } else {
            &c.from_component
        };
        let ok = match spec.components.get(source.as_str()) {
            Some(sc) => sc.ports.contains_key(c.from_port.as_str()),
            None => false,
        };
        if !ok {
            return false;
        }
        i = i + 1;
    }
    true
}

/// A model whose connections all resolve has resolving edge sources.
pub proof fn lemma_resolved_edges(n: NormalizedSpec)
    requires
        model_wf(n),
    ensures
        edges_wf(n),
{
    assert forall|i: int| 0 <= i < n.connections@.len() implies edge_source_resolves(n, #[trigger] n.connections@[i]) by {
        assert(connection_resolves(n, n.connections@[i]));
    }
}

/// The edge label of a connection.
pub fn edge_label(spec: &NormalizedSpec, connection: &NormalizedConnection) -> (r: String)
    requires
        edge_source_resolves(*spec, *connection),
    ensures
        r@ == edge_label_text(*spec, *connection),
{
    let source = if crate::text::str_equal(connection.from_target.as_str(), "self") {
        &connection.within_component
    } else {
        &connection.from_component
    };
    let component = spec.components.get(source.as_str()).unwrap();
    let port = component.ports.get(connection.from_port.as_str());
    proof {
        if port is None {
            crate::name_map::lemma_lookup_present(component.ports@, connection.from_port@);
        }
    }
    let port = port.unwrap();
    let mut r = String::new();
    match connection.locality {
        ConnectionLocality::Local => r.append("local"),
        ConnectionLocality::NonLocal => r.append("non-local"),
    }
    r.append(": ");
    r.append(port.event.as_str());
    r
}

/// The line that draws one instance of a component.
pub open spec fn use_line(q: Seq<char>, u: NormalizedComponentUse) -> Seq<char> {
    "    node_"@ + sanitized(q) + "_"@ + sanitized(u.name@) + "[\""@ + u.name@ + ": "@ + u.component@ + "\"]\n"@
}

/// The lines for the instances `us` of the component `q`.
pub open spec fn use_lines(q: Seq<char>, us: Seq<(Seq<char>, NormalizedComponentUse)>) -> Seq<char>
    decreases us.len(),
{
    if us.len() == 0 {
        Seq::empty()
    } else {
        use_lines(q, us.drop_last()) + use_line(q, us.last().1)
    }
}

/// The subgraph of one component: a node for `self`, one per instance.
pub open spec fn subgraph_text(c: NormalizedComponent) -> Seq<char> {
    let q = c.qualified_name@;
    "  subgraph component_"@ + sanitized(q) + "[\"component: "@ + q + "\"]\n"@ + "    node_"@ + sanitized(q)
        + "_self[\"self\"]\n"@ + use_lines(q, c.uses@) + "  end\n"@
}

/// The subgraphs of the components `cs`, in order.
pub open spec fn subgraphs_text(cs: Seq<(Seq<char>, NormalizedComponent)>) -> Seq<char>
    decreases cs.len(),
{
    if cs.len() == 0 {
        Seq::empty()
    } else {
        subgraphs_text(cs.drop_last()) + subgraph_text(cs.last().1)
    }
}

/// The edge of one connection, inside its enclosing component.
pub open spec fn edge_line(n: NormalizedSpec, c: NormalizedConnection) -> Seq<char> {
    "  node_"@ + sanitized(c.within_component@) + "_"@ + sanitized(c.from_target@) + " -->|\""@ + edge_label_text(n, c)
        + "\"| node_"@ + sanitized(c.within_component@) + "_"@ + sanitized(c.to_target@) + "\n"@
}

/// The edges of the connections `cs`, in order.
pub open spec fn edges_text(n: NormalizedSpec, cs: Seq<NormalizedConnection>) -> Seq<char>
    decreases cs.len(),
{
    if cs.len() == 0 {
        Seq::empty()
    } else {
        edges_text(n, cs.drop_last()) + edge_line(n, cs.last())
    }
}

/// The events a transition emits, joined with `, `, or `(no emits)`.
pub open spec fn emits_text(t: NormalizedTransition) -> Seq<char> {
    if t.emits@.len() == 0 {
        "(no emits)"@
    } else {
        join(views(t.emits@), ", "@)
    }
}

/// The summary line of one transition of component `q`.
pub open spec fn adjacency_line(q: Seq<char>, t: NormalizedTransition) -> Seq<char> {
    "  %% "@ + q + "."@ + t.name@ + ": on "@ + t.on@ + " -> "@ + emits_text(t) + "\n"@
}

/// The summary lines of the transitions `ts` of component `q`.
pub open spec fn adjacency_lines(q: Seq<char>, ts: Seq<(Seq<char>, NormalizedTransition)>) -> Seq<char>
    decreases ts.len(),
{
    if ts.len() == 0 {
        Seq::empty()
    } else {
        adjacency_lines(q, ts.drop_last()) + adjacency_line(q, ts.last().1)
    }
}

/// The transition summary of the components `cs`, in order.
pub open spec fn adjacency_text(cs: Seq<(Seq<char>, NormalizedComponent)>) -> Seq<char>
    decreases cs.len(),
{
    if cs.len() == 0 {
        Seq::empty()
    } else {
        adjacency_text(cs.drop_last()) + adjacency_lines(cs.last().1.qualified_name@, cs.last().1.transitions@)
    }
}

/// The whole flowchart.
pub open spec fn mermaid_text(n: NormalizedSpec) -> Seq<char> {
    "flowchart LR\n"@ + subgraphs_text(n.components@) + edges_text(n, n.connections@) + "  %% transition adjacency summary\n"@
        + adjacency_text(n.components@)
}

/// The events a transition emits, as the summaries print them.
pub fn emits_summary(t: &NormalizedTransition) -> (r: String)
    ensures
        r@ == emits_text(*t),
{
    if t.emits.len() == 0 {
        "(no emits)".to_owned()
    } else {
        let r = join_strings(t.emits.as_slice(), ", ");
        assert(t.emits@.map_values(|s: String| s@) =~= views(t.emits@));
        r
    }
}

fn push_subgraph(out: &mut String, c: &NormalizedComponent)
    ensures
        final(out)@ == old(out)@ + subgraph_text(*c),
{
    let ghost start = out@;
    let q = crate::graph::sanitize(c.qualified_name.as_str());
    out.append("  subgraph component_");
    out.append(q.as_str());
    out.append("[\"component: ");
    out.append(c.qualified_name.as_str());
    out.append("\"]\n");
    out.append("    node_");
    out.append(q.as_str());
    out.append("_self[\"self\"]\n");
    let ghost head = out@;
    let mut i: usize = 0;
    while i < c.uses.len()
        invariant
            i <= c.uses@.len(),
            q@ == sanitized(c.qualified_name@),
            out@ == head + use_lines(c.qualified_name@, c.uses@.take(i as int)),
        decreases c.uses@.len() - i,
    {
        assert(c.uses@.take(i + 1).drop_last() =~= c.uses@.take(i as int));
        let u = c.uses.value_at(i);
        let name = crate::graph::sanitize(u.name.as_str());
        let ghost before = out@;
        out.append("    node_");
        out.append(q.as_str());
        out.append("_");
        out.append(name.as_str());
        out.append("[\"");
        out.append(u.name.as_str());
        out.append(": ");
        out.append(u.component.as_str());
        out.append("\"]\n");
        assert(out@ =~= before + use_line(c.qualified_name@, *u));
        assert(out@ =~= head + use_lines(c.qualified_name@, c.uses@.take(i + 1)));
        i = i + 1;
    }
    assert(c.uses@.take(c.uses@.len() as int) =~= c.uses@);
    out.append("  end\n");
    assert(out@ =~= start + subgraph_text(*c));
}

fn push_edge(out: &mut String, spec: &NormalizedSpec, c: &NormalizedConnection)
    requires
        edge_source_resolves(*spec, *c),
    ensures
        final(out)@ == old(out)@ + edge_line(*spec, *c),
{
    let ghost start = out@;
    let within = sanitize(c.within_component.as_str());
    let from = sanitize(c.from_target.as_str());
    let to = sanitize(c.to_target.as_str());
    let label = edge_label(spec, c);
    out.append("  node_");
    out.append(within.as_str());
    out.append("_");
    out.append(from.as_str());
    out.append(" -->|\"");
    out.append(label.as_str());
    out.append("\"| node_");
    out.append(within.as_str());
    out.append("_");
    out.append(to.as_str());
    out.append("\n");
    assert(out@ =~= start + edge_line(*spec, *c));
}

fn push_adjacency(out: &mut String, c: &NormalizedComponent)
    ensures
        final(out)@ == old(out)@ + adjacency_lines(c.qualified_name@, c.transitions@),
{
    let ghost head = out@;
    let mut i: usize = 0;
    while i < c.transitions.len()
        invariant
            i <= c.transitions@.len(),
            out@ == head + adjacency_lines(c.qualified_name@, c.transitions@.take(i as int)),
        decreases c.transitions@.len() - i,
    {
        assert(c.transitions@.take(i + 1).drop_last() =~= c.transitions@.take(i as int));
        let t = c.transitions.value_at(i);
        let emits = emits_summary(t);
        let ghost before = out@;
        out.append("  %% ");
        out.append(c.qualified_name.as_str());
        out.append(".");
        out.append(t.name.as_str());
        out.append(": on ");
        out.append(t.on.as_str());
        out.append(" -> ");
        out.append(emits.as_str());
        out.append("\n");
        assert(out@ =~= before + adjacency_line(c.qualified_name@, *t));
        assert(out@ =~= head + adjacency_lines(c.qualified_name@, c.transitions@.take(i + 1)));
        i = i + 1;
    }
    assert(c.transitions@.take(c.transitions@.len() as int) =~= c.transitions@);
}

/// Renders the model as a Mermaid flowchart.
pub fn render_mermaid(spec: &NormalizedSpec) -> (r: String)
    requires
        edges_wf(*spec),
    ensures
        r@ == mermaid_text(*spec),
{
    let mut out = String::new();
    out.append("flowchart LR\n");
    let ghost a = out@;
    let n = spec.components.len();
    let mut i: usize = 0;
    while i < n
        invariant
            n == spec.components@.len(),
            i <= n,
            out@ == a + subgraphs_text(spec.components@.take(i as int)),
        decreases n - i,
    {
        assert(spec.components@.take(i + 1).drop_last() =~= spec.components@.take(i as int));
        push_subgraph(&mut out, spec.components.value_at(i));
        assert(out@ =~= a + subgraphs_text(spec.components@.take(i + 1)));
        i = i + 1;
    }
    assert(spec.components@.take(n as int) =~= spec.components@);
    let ghost b = out@;
    let mut k: usize = 0;
    while k < spec.connections.len()
        invariant
            edges_wf(*spec),
            k <= spec.connections@.len(),
            out@ == b + edges_text(*spec, spec.connections@.take(k as int)),
        decreases spec.connections@.len() - k,
    {
        assert(spec.connections@.take(k + 1).drop_last() =~= spec.connections@.take(k as int));
        assert(edge_source_resolves(*spec, spec.connections@[k as int]));
        push_edge(&mut out, spec, &spec.connections[k]);
        assert(out@ =~= b + edges_text(*spec, spec.connections@.take(k + 1)));
        k = k + 1;
    }
    assert(spec.connections@.take(spec.connections@.len() as int) =~= spec.connections@);
    out.append("  %% transition adjacency summary\n");
    let ghost c = out@;
    let mut j: usize = 0;
    while j < n
        invariant
            n == spec.components@.len(),
            j <= n,
            out@ == c + adjacency_text(spec.components@.take(j as int)),
        decreases n - j,
    {
        assert(spec.components@.take(j + 1).drop_last() =~= spec.components@.take(j as int));
        push_adjacency(&mut out, spec.components.value_at(j));
        assert(out@ =~= c + adjacency_text(spec.components@.take(j + 1)));
        j = j + 1;
    }
    assert(spec.components@.take(n as int) =~= spec.components@);
    assert(out@ =~= mermaid_text(*spec));
    out
}

} // verus!
