//! The port names of a component's module.
use vstd::prelude::*;
use crate::ir::{NormalizedComponent, NormalizedConnection, NormalizedPort, NormalizedSpec};
use crate::rust::{ascii_uppercase, debug_str, debug_text, incoming_ports, outgoing_ports, ports_with, to_ascii_uppercase};
use crate::schema::PortDirection;

verus! {

/// The constant that names one port.
pub open spec fn port_const(p: NormalizedPort) -> Seq<char> {
    "pub const PORT_"@ + ascii_uppercase(p.name@) + ": &str = "@ + debug_text(p.name@) + ";\n"@
}

/// The constants of the ports `ps`, in order.
pub open spec fn port_consts(ps: Seq<NormalizedPort>) -> Seq<char>
    decreases ps.len(),
{
    if ps.len() == 0 {
        Seq::empty()
    } else {
        port_consts(ps.drop_last()) + port_const(ps.last())
    }
}

/// Notes on the non-local connections of `cs` inside component `q`.
pub open spec fn wiring_notes(cs: Seq<NormalizedConnection>, q: Seq<char>) -> Seq<char>
    decreases cs.len(),
{
    if cs.len() == 0 {
        Seq::empty()
    } else {
        let c = cs.last();
        wiring_notes(cs.drop_last(), q) + if c.within_component@ == q {
            "// non-local: "@ + c.from_target@ + "."@ + c.from_port@ + " -> "@ + c.to_target@ + "."@ + c.to_port@ + "\n"@
        } else {
            Seq::empty()
        }
    }
}

/// The ports file of a component: its qualified name, its inbound then
/// outbound port names, and notes on its non-local connections.
pub open spec fn ports_text(c: NormalizedComponent, n: NormalizedSpec, header: Seq<char>) -> Seq<char> {
    header + "\n\n"@ + "pub const COMPONENT_NAME: &str = "@ + debug_text(c.qualified_name@) + ";\n\n"@ + "// inbound ports\n"@
        + port_consts(ports_with(c.ports@, PortDirection::In)) + "\n// outbound ports\n"@ + port_consts(
        ports_with(c.ports@, PortDirection::Out),
    ) + "\n// non-local wiring notes\n"@ + wiring_notes(n.non_local_connections@, c.qualified_name@)
}

fn push_port_consts(out: &mut String, ports: &Vec<&NormalizedPort>, Ghost(ps): Ghost<Seq<NormalizedPort>>)
    requires
        ports@.len() == ps.len(),
        forall|j: int| 0 <= j < ports@.len() ==> *ports@[j] == ps[j],
    ensures
        final(out)@ == old(out)@ + port_consts(ps),
{
    let ghost start = out@;
    let mut i: usize = 0;
    while i < ports.len()
        invariant
            ports@.len() == ps.len(),
            forall|j: int| 0 <= j < ports@.len() ==> *ports@[j] == ps[j],
            i <= ps.len(),
            out@ == start + port_consts(ps.take(i as int)),
        decreases ps.len() - i,
    {
        assert(ps.take(i + 1).drop_last() =~= ps.take(i as int));
        let p = ports[i];
        let upper = to_ascii_uppercase(p.name.as_str());
        let shown = debug_str(p.name.as_str());
        let ghost before = out@;
        out.append("pub const PORT_");
        out.append(upper.as_str());
        out.append(": &str = ");
        out.append(shown.as_str());
        out.append(";\n");
        assert(out@ =~= before + port_const(*p));
        assert(out@ =~= start + port_consts(ps.take(i + 1)));
        i = i + 1;
    }
    assert(ps.take(ps.len() as int) =~= ps);
}

/// Renders the ports file of a component.
pub fn render(component: &NormalizedComponent, spec: &NormalizedSpec, header: &str) -> (r: String)
    ensures
        r@ == ports_text(*component, *spec, header@),
{
    let mut out = String::new();
    out.append(header);
    out.append("\n\n");
    out.append("pub const COMPONENT_NAME: &str = ");
    let q = debug_str(component.qualified_name.as_str());
    out.append(q.as_str());
    out.append(";\n\n");
    out.append("// inbound ports\n");
    let inbound = incoming_ports(component);
    push_port_consts(&mut out, &inbound, Ghost(ports_with(component.ports@, PortDirection::In)));
    out.append("\n// outbound ports\n");
    let outbound = outgoing_ports(component);
    push_port_consts(&mut out, &outbound, Ghost(ports_with(component.ports@, PortDirection::Out)));
    out.append("\n// non-local wiring notes\n");
    let ghost mid = out@;
    let mut i: usize = 0;
    while i < spec.non_local_connections.len()
        invariant
            i <= spec.non_local_connections@.len(),
            out@ == mid + wiring_notes(spec.non_local_connections@.take(i as int), component.qualified_name@),
        decreases spec.non_local_connections@.len() - i,
    {
        assert(spec.non_local_connections@.take(i + 1).drop_last() =~= spec.non_local_connections@.take(i as int));
        let c = &spec.non_local_connections[i];
        let ghost before = out@;
        if crate::text::str_equal(c.within_component.as_str(), component.qualified_name.as_str()) {
            out.append("// non-local: ");
            out.append(c.from_target.as_str());
            out.append(".");
            out.append(c.from_port.as_str());
            out.append(" -> ");
            out.append(c.to_target.as_str());
            out.append(".");
            out.append(c.to_port.as_str());
            out.append("\n");
        }
        assert(out@ =~= mid + wiring_notes(spec.non_local_connections@.take(i + 1), component.qualified_name@));
        i = i + 1;
    }
    assert(spec.non_local_connections@.take(spec.non_local_connections@.len() as int) =~= spec.non_local_connections@);
    assert(out@ =~= ports_text(*component, *spec, header@));
    out
}

} // verus!
