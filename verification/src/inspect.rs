//! A plain-text summary of a resolved model: counts, non-local
//! connections, and for each component its instances, events, durable
//! state, transitions and wiring.
use vstd::prelude::*;
use crate::graph::{emits_summary, emits_text};
use crate::ir::{NormalizedComponent, NormalizedComponentUse, NormalizedConnection, NormalizedSpec, NormalizedTransition};
use crate::normalize::views;
use crate::resolve::{join, join_strings};
use crate::schema::ConnectionLocality;
use crate::text::{decimal, push_decimal};

verus! {

/// The items joined with `, `, or `<none>` when there is none.
pub open spec fn display_text(items: Seq<Seq<char>>) -> Seq<char> {
    if items.len() == 0 {
        "<none>"@
    } else {
        join(items, ", "@)
    }
}

/// The items joined with `, `, or `<none>` when there is none.
pub fn display_list(items: &[String]) -> (r: String)
    ensures
        r@ == display_text(items@.map_values(|s: String| s@)),
{
    if items.len() == 0 {
        "<none>".to_owned()
    } else {
        join_strings(items, ", ")
    }
}

/// The number of connections of the list with the given locality inside
/// the component `within` (any component when `within` is `None`).
pub open spec fn count_connections(cs: Seq<NormalizedConnection>, within: Option<Seq<char>>, l: ConnectionLocality) -> nat
    decreases cs.len(),
{
    if cs.len() == 0 {
        0
    } else {
        let c = cs.last();
        let hit = c.locality == l && match within {
            Some(w) => c.within_component@ == w,
            None => true,
        };
        count_connections(cs.drop_last(), within, l) + if hit { 1nat } else { 0nat }
    }
}

fn count(cs: &Vec<NormalizedConnection>, within: Option<&String>, l: ConnectionLocality) -> (r: usize)
    ensures
        r == count_connections(
            cs@,
            match within {
                Some(w) => Some(w@),
                None => None,
            },
            l,
        ),
{
    let ghost w = match within {
        Some(w) => Some(w@),
        None => None,
    };
    let mut r: usize = 0;
    let mut i: usize = 0;
    while i < cs.len()
        invariant
            w == match within {
                Some(x) => Some(x@),
                None => None,
            },
            i <= cs@.len(),
            r == count_connections(cs@.take(i as int), w, l),
            r <= i,
        decreases cs@.len() - i,
    {
        assert(cs@.take(i + 1).drop_last() =~= cs@.take(i as int));
        let c = &cs[i];
        let inside = match within {
            Some(x) => crate::text::str_equal(c.within_component.as_str(), x.as_str()),
            None => true,
        };
        if c.locality == l && inside {
            r = r + 1;
        }
        i = i + 1;
    }
    assert(cs@.take(cs@.len() as int) =~= cs@);
    r
}

/// The line of one non-local connection.
pub open spec fn non_local_line(c: NormalizedConnection) -> Seq<char> {
    "- within "@ + c.within_component@ + ": "@ + c.from_target@ + "."@ + c.from_port@ + " -> "@ + c.to_target@ + "."@
        + c.to_port@ + "\n"@
}

/// The lines of the connections `cs`, in order.
pub open spec fn non_local_lines(cs: Seq<NormalizedConnection>) -> Seq<char>
    decreases cs.len(),
{
    if cs.len() == 0 {
        Seq::empty()
    } else {
        non_local_lines(cs.drop_last()) + non_local_line(cs.last())
    }
}

/// The instances of a component as `name: component`.
pub open spec fn use_texts(us: Seq<(Seq<char>, NormalizedComponentUse)>) -> Seq<Seq<char>> {
    us.map_values(|e: (Seq<char>, NormalizedComponentUse)| e.1.name@ + ": "@ + e.1.component@)
}

/// The line of one transition.
pub open spec fn transition_line(t: NormalizedTransition) -> Seq<char> {
    "  transition "@ + t.name@ + ": on "@ + t.on@ + " -> "@ + emits_text(t) + "\n"@
}

/// The lines of the transitions `ts`, in order.
pub open spec fn transition_lines(ts: Seq<(Seq<char>, NormalizedTransition)>) -> Seq<char>
    decreases ts.len(),
{
    if ts.len() == 0 {
        Seq::empty()
    } else {
        transition_lines(ts.drop_last()) + transition_line(ts.last().1)
    }
}

/// The durable-state line of a component.
pub open spec fn durable_line(c: NormalizedComponent) -> Seq<char> {
    match c.persistence {
        Some(p) => "  durable state: "@ + display_text(views(p.durable@)) + "\n"@,
        None => "  durable state: <none>\n"@,
    }
}

/// The first line of a component's summary: its counts.
pub open spec fn component_head(c: NormalizedComponent) -> Seq<char> {
    "- "@ + c.qualified_name@ + ": "@ + decimal(c.uses@.len()) + " uses, "@ + decimal(c.ports@.len()) + " ports, "@
        + decimal(c.transitions@.len()) + " transitions, "@ + decimal(c.state_fields@.len()) + " state fields\n"@
}

/// The instance and event lines of a component's summary.
pub open spec fn component_lists(c: NormalizedComponent) -> Seq<char> {
    "  uses: "@ + display_text(use_texts(c.uses@)) + "\n"@ + "  inbound events: "@ + display_text(views(c.inbound_events@))
        + "\n"@ + "  outbound events: "@ + display_text(views(c.outbound_events@)) + "\n"@
}

/// The wiring line of component `q`: its local and non-local connections.
pub open spec fn wiring_line(n: NormalizedSpec, q: Seq<char>) -> Seq<char> {
    "  wiring: "@ + decimal(count_connections(n.connections@, Some(q), ConnectionLocality::Local)) + " local, "@ + decimal(
        count_connections(n.connections@, Some(q), ConnectionLocality::NonLocal),
    ) + " non-local\n"@
}

/// The summary of one component.
pub open spec fn component_text(n: NormalizedSpec, c: NormalizedComponent) -> Seq<char> {
    component_head(c) + component_lists(c) + durable_line(c) + transition_lines(c.transitions@) + wiring_line(n, c.qualified_name@)
}

/// The summaries of the components `cs`, in order.
pub open spec fn components_text(n: NormalizedSpec, cs: Seq<(Seq<char>, NormalizedComponent)>) -> Seq<char>
    decreases cs.len(),
{
    if cs.len() == 0 {
        Seq::empty()
    } else {
        components_text(n, cs.drop_last()) + component_text(n, cs.last().1)
    }
}

/// The whole summary.
pub open spec fn inspect_text(n: NormalizedSpec) -> Seq<char> {
    "Spec version: "@ + n.version@ + "\n"@ + "Entry package: "@ + n.entry_package@ + "\n"@ + "Overview: "@ + decimal(
        n.events@.len(),
    ) + " events, "@ + decimal(n.components@.len()) + " components, "@ + decimal(n.connections@.len())
        + " connections\n"@ + "\nConnections:\n"@ + "- local: "@ + decimal(
        count_connections(n.connections@, None, ConnectionLocality::Local),
    ) + "\n"@ + "- non-local: "@ + decimal(n.non_local_connections@.len()) + "\n"@ + (if n.non_local_connections@.len() > 0 {
        "\nNon-local details:\n"@ + non_local_lines(n.non_local_connections@)
    } else {
        Seq::empty()
    }) + "\nComponents:\n"@ + components_text(n, n.components@)
}

fn push_transitions(out: &mut String, c: &NormalizedComponent)
    ensures
        final(out)@ == old(out)@ + transition_lines(c.transitions@),
{
    let ghost head = out@;
    let mut i: usize = 0;
    while i < c.transitions.len()
        invariant
            i <= c.transitions@.len(),
            out@ == head + transition_lines(c.transitions@.take(i as int)),
        decreases c.transitions@.len() - i,
    {
        assert(c.transitions@.take(i + 1).drop_last() =~= c.transitions@.take(i as int));
        let t = c.transitions.value_at(i);
        let emits = emits_summary(t);
        let ghost before = out@;
        out.append("  transition ");
        out.append(t.name.as_str());
        out.append(": on ");
        out.append(t.on.as_str());
        out.append(" -> ");
        out.append(emits.as_str());
        out.append("\n");
        assert(out@ =~= before + transition_line(*t));
        assert(out@ =~= head + transition_lines(c.transitions@.take(i + 1)));
        i = i + 1;
    }
    assert(c.transitions@.take(c.transitions@.len() as int) =~= c.transitions@);
}

fn use_list(c: &NormalizedComponent) -> (r: Vec<String>)
    ensures
        r@.map_values(|s: String| s@) == use_texts(c.uses@),
{
    let mut r: Vec<String> = Vec::new();
    let mut i: usize = 0;
    while i < c.uses.len()
        invariant
            i <= c.uses@.len(),
            r@.map_values(|s: String| s@) == use_texts(c.uses@.take(i as int)),
        decreases c.uses@.len() - i,
    {
        let u = c.uses.value_at(i);
        let mut t = String::new();
        t.append(u.name.as_str());
        t.append(": ");
        t.append(u.component.as_str());
        let ghost prev = r@;
        r.push(t);
        assert(c.uses@.take(i + 1) =~= c.uses@.take(i as int).push(c.uses@[i as int]));
        assert(use_texts(c.uses@.take(i + 1)) =~= use_texts(c.uses@.take(i as int)).push(t@));
        assert(r@.map_values(|s: String| s@) =~= prev.map_values(|s: String| s@).push(t@));
        i = i + 1;
    }
    assert(c.uses@.take(c.uses@.len() as int) =~= c.uses@);
    r
}

fn push_head(out: &mut String, c: &NormalizedComponent)
    ensures
        final(out)@ == old(out)@ + component_head(*c),
{
    let ghost start = out@;
    out.append("- ");
    out.append(c.qualified_name.as_str());
    out.append(": ");
    push_decimal(out, c.uses.len());
    out.append(" uses, ");
    push_decimal(out, c.ports.len());
    out.append(" ports, ");
    push_decimal(out, c.transitions.len());
    out.append(" transitions, ");
    push_decimal(out, c.state_fields.len());
    out.append(" state fields\n");
    assert(out@ =~= start + component_head(*c));
}

fn push_lists(out: &mut String, c: &NormalizedComponent)
    ensures
        final(out)@ == old(out)@ + component_lists(*c) + durable_line(*c),
{
    let ghost start = out@;
    let uses = use_list(c);
    let shown = display_list(uses.as_slice());
    let inbound = display_list(c.inbound_events.as_slice());
    assert(c.inbound_events@.map_values(|s: String| s@) =~= views(c.inbound_events@));
    let outbound = display_list(c.outbound_events.as_slice());
    assert(c.outbound_events@.map_values(|s: String| s@) =~= views(c.outbound_events@));
    out.append("  uses: ");
    out.append(shown.as_str());
    out.append("\n");
    out.append("  inbound events: ");
    out.append(inbound.as_str());
    out.append("\n");
    out.append("  outbound events: ");
    out.append(outbound.as_str());
    out.append("\n");
    assert(out@ =~= start + component_lists(*c));
    let ghost mid = out@;
    match &c.persistence {
        Some(p) => {
            let durable = display_list(p.durable.as_slice());
            assert(p.durable@.map_values(|s: String| s@) =~= views(p.durable@));
            out.append("  durable state: ");
            out.append(durable.as_str());
            out.append("\n");
        },
        None => {
            out.append("  durable state: <none>\n");
        },
    }
    assert(out@ =~= mid + durable_line(*c));
}

fn push_wiring(out: &mut String, spec: &NormalizedSpec, q: &String)
    ensures
        final(out)@ == old(out)@ + wiring_line(*spec, q@),
{
    let ghost start = out@;
    let local = count(&spec.connections, Some(q), ConnectionLocality::Local);
    let non_local = count(&spec.connections, Some(q), ConnectionLocality::NonLocal);
    out.append("  wiring: ");
    push_decimal(out, local);
    out.append(" local, ");
    push_decimal(out, non_local);
    out.append(" non-local\n");
    assert(out@ =~= start + wiring_line(*spec, q@));
}

fn push_component(out: &mut String, spec: &NormalizedSpec, c: &NormalizedComponent)
    ensures
        final(out)@ == old(out)@ + component_text(*spec, *c),
{
    let ghost start = out@;
    push_head(out, c);
    push_lists(out, c);
    push_transitions(out, c);
    push_wiring(out, spec, &c.qualified_name);
    assert(out@ =~= start + component_text(*spec, *c));
}

/// Renders the plain-text summary of the model.
pub fn render_inspect_summary(spec: &NormalizedSpec) -> (r: String)
    ensures
        r@ == inspect_text(*spec),
{
    let mut out = String::new();
    out.append("Spec version: ");
    out.append(spec.version.as_str());
    out.append("\n");
    out.append("Entry package: ");
    out.append(spec.entry_package.as_str());
    out.append("\n");
    out.append("Overview: ");
    push_decimal(&mut out, spec.events.len());
    out.append(" events, ");
    push_decimal(&mut out, spec.components.len());
    out.append(" components, ");
    push_decimal(&mut out, spec.connections.len());
    out.append(" connections\n");
    let local = count(&spec.connections, None, ConnectionLocality::Local);
    out.append("\nConnections:\n");
    out.append("- local: ");
    push_decimal(&mut out, local);
    out.append("\n");
    out.append("- non-local: ");
    push_decimal(&mut out, spec.non_local_connections.len());
    out.append("\n");
    let ghost a = out@;
    if spec.non_local_connections.len() > 0 {
        out.append("\nNon-local details:\n");
        let ghost b = out@;
        let mut i: usize = 0;
        while i < spec.non_local_connections.len()
            invariant
                i <= spec.non_local_connections@.len(),
                out@ == b + non_local_lines(spec.non_local_connections@.take(i as int)),
            decreases spec.non_local_connections@.len() - i,
        {
            assert(spec.non_local_connections@.take(i + 1).drop_last() =~= spec.non_local_connections@.take(i as int));
            let c = &spec.non_local_connections[i];
            let ghost before = out@;
            out.append("- within ");
            out.append(c.within_component.as_str());
            out.append(": ");
            out.append(c.from_target.as_str());
            out.append(".");
            out.append(c.from_port.as_str());
            out.append(" -> ");
            out.append(c.to_target.as_str());
            out.append(".");
            out.append(c.to_port.as_str());
            out.append("\n");
            assert(out@ =~= before + non_local_line(*c));
            assert(out@ =~= b + non_local_lines(spec.non_local_connections@.take(i + 1)));
            i = i + 1;
        }
        assert(spec.non_local_connections@.take(spec.non_local_connections@.len() as int) =~= spec.non_local_connections@);
    }
    out.append("\nComponents:\n");
    let ghost c0 = out@;
    let n = spec.components.len();
    let mut j: usize = 0;
    while j < n
        invariant
            n == spec.components@.len(),
            j <= n,
            out@ == c0 + components_text(*spec, spec.components@.take(j as int)),
        decreases n - j,
    {
        assert(spec.components@.take(j + 1).drop_last() =~= spec.components@.take(j as int));
        push_component(&mut out, spec, spec.components.value_at(j));
        assert(out@ =~= c0 + components_text(*spec, spec.components@.take(j + 1)));
        j = j + 1;
    }
    assert(spec.components@.take(n as int) =~= spec.components@);
    assert(out@ =~= inspect_text(*spec));
    out
}

} // verus!
