//! The wiring of a component's module: running transitions, dispatching
//! on each `out` port and observing each `in` port, with the runtime hooks
//! that the port contracts call for.
use vstd::prelude::*;
use crate::contracts::{has_must_reply, spec_has_must_reply, spec_timeout_after, timeout_after};
use crate::graph::sanitized;
use crate::ir::{NormalizedComponent, NormalizedConnection, NormalizedPort, NormalizedSpec, NormalizedTransition};
use crate::rust::{
    ascii_lowercase, connections_from, debug_str, debug_text, incoming_ports, module_name, module_text, outgoing_connections_for_port,
    outgoing_ports, ports_with, rust_type_name, to_ascii_lowercase,
};
use crate::schema::{ConnectionLocality, PortDirection};
use crate::text::{chars_of, contains_str, find_seq};

verus! {

/// The name of a generated method for a port or event.
pub fn method_name(name: &str) -> (r: String)
    ensures
        r@ == module_text(name@),
{
    module_name(name)
}

/// The imports, the wiring struct, its impl header and the start of
/// `run_transition`.
pub open spec fn wiring_head(tn: Seq<char>, q: Seq<char>, header: Seq<char>) -> Seq<char> {
    header + "\n\nuse super::hooks::{metadata, "@ + tn + "Handler"@ + "};\n"@ + "use super::state::"@ + tn + "State;\n"@
        + "use super::super::runtime_contracts::{LocalDispatch, MustReplyHooks, NonLocalDispatch, RuntimeHooks, TimeoutHooks};\n\n"@
        + "pub struct "@ + tn
        + "Wiring<'a, H, R, M, T, L, N> {\n    pub handler: &'a mut H,\n    pub runtime_hooks: &'a mut R,\n    pub must_reply_hooks: &'a mut M,\n    pub timeout_hooks: &'a mut T,\n    pub local_dispatch: &'a mut L,\n    pub non_local_dispatch: &'a mut N,\n}\n\n"@
        + "impl<'a, H, R, M, T, L, N> "@ + tn + "Wiring<'a, H, R, M, T, L, N>\nwhere\n    H: "@ + tn
        + "Handler,\n    R: RuntimeHooks,\n    M: MustReplyHooks,\n    T: TimeoutHooks,\n    L: LocalDispatch,\n    N: NonLocalDispatch,\n{\n"@
        + "    pub fn run_transition(&mut self, transition: &str, state: &mut "@ + tn
        + "State) {\n        let meta = metadata("@ + debug_text(q)
        + ", None, None, \"local\");\n        self.runtime_hooks.on_transition_enter(&meta);\n        match transition {\n"@
}

/// The match arm of one transition.
pub open spec fn transition_arm(t: NormalizedTransition) -> Seq<char> {
    "            "@ + debug_text(t.name@) + " => self.handler.handle_"@ + module_text(t.name@) + "(state),\n"@
}

/// The match arms of the transitions `ts`, in order.
pub open spec fn transition_arms(ts: Seq<(Seq<char>, NormalizedTransition)>) -> Seq<char>
    decreases ts.len(),
{
    if ts.len() == 0 {
        Seq::empty()
    } else {
        transition_arms(ts.drop_last()) + transition_arm(ts.last().1)
    }
}

/// The end of `run_transition`.
pub open spec fn run_tail() -> Seq<char> {
    "            _ => {}\n        }\n        self.runtime_hooks.on_transition_exit(&meta);\n    }\n\n"@
}

/// The arguments naming a component, a port and its event.
pub open spec fn meta_args(q: Seq<char>, p: NormalizedPort) -> Seq<char> {
    debug_text(q) + ", Some("@ + debug_text(p.name@) + "), Some("@ + debug_text(p.event@) + ")"@
}

/// The must-reply hooks of a dispatch, when the port declares
/// `must_reply`.
pub open spec fn must_reply_text(p: NormalizedPort, me: Seq<char>) -> Seq<char> {
    if spec_has_must_reply(p.contracts) {
        "        self.must_reply_hooks.on_request_started(&meta_"@ + me + ");\n"@
            + "        // If runtime determines the reply was never fulfilled, call:\n        // self.must_reply_hooks.on_reply_missing(&meta_"@
            + me + ");\n"@
    } else {
        Seq::empty()
    }
}

/// The timeout hooks of a dispatch, when the port declares a timeout.
pub open spec fn timeout_text(p: NormalizedPort, me: Seq<char>) -> Seq<char> {
    match spec_timeout_after(p.contracts) {
        Some(a) => "        self.timeout_hooks.on_timeout_window_started(&meta_"@ + me + ", "@ + debug_text(a)
            + ");\n        // If runtime observes timeout violation, call:\n        // self.timeout_hooks.on_timeout_contract_violation(&meta_"@
            + me + ", "@ + debug_text(a) + ");\n"@,
        None => Seq::empty(),
    }
}

/// The dispatch of one connection from a port: through the non-local
/// boundary or locally.
pub open spec fn connection_dispatch(q: Seq<char>, p: NormalizedPort, c: NormalizedConnection) -> Seq<char> {
    if c.locality == ConnectionLocality::NonLocal {
        "        let boundary_meta = metadata("@ + meta_args(q, p)
            + ", \"non_local\");\n        self.runtime_hooks.on_non_local_dispatch(&boundary_meta);\n        self.non_local_dispatch.dispatch_non_local(&boundary_meta);\n        // target endpoint: "@
            + c.to_target@ + "."@ + c.to_port@ + "\n"@
    } else {
        "        let local_meta = metadata("@ + meta_args(q, p)
            + ", \"local\");\n        self.local_dispatch.dispatch_local(&local_meta);\n        // target endpoint: "@ + c.to_target@
            + "."@ + c.to_port@ + "\n"@
    }
}

/// The dispatches of the connections `cs`, in order.
pub open spec fn connection_dispatches(q: Seq<char>, p: NormalizedPort, cs: Seq<NormalizedConnection>) -> Seq<char>
    decreases cs.len(),
{
    if cs.len() == 0 {
        Seq::empty()
    } else {
        connection_dispatches(q, p, cs.drop_last()) + connection_dispatch(q, p, cs.last())
    }
}

/// The dispatch method of one `out` port.
pub open spec fn dispatch_text(n: NormalizedSpec, q: Seq<char>, p: NormalizedPort) -> Seq<char> {
    let me = module_text(p.event@);
    let cs = connections_from(n.connections@, q, p.name@);
    "    pub fn dispatch_"@ + module_text(p.name@) + "(&mut self) {\n"@ + "        let meta_"@ + me + " = metadata("@ + meta_args(q, p)
        + ", \"local\");\n        self.runtime_hooks.on_send(&meta_"@ + me + ");\n"@ + must_reply_text(p, me) + timeout_text(p, me) + (if cs.len()
        == 0 {
        "        // No declared propagation paths for this port.\n"@
    } else {
        Seq::empty()
    }) + connection_dispatches(q, p, cs) + "    }\n\n"@
}

/// The dispatch methods of the ports `ps`, in order.
pub open spec fn dispatch_texts(n: NormalizedSpec, q: Seq<char>, ps: Seq<NormalizedPort>) -> Seq<char>
    decreases ps.len(),
{
    if ps.len() == 0 {
        Seq::empty()
    } else {
        dispatch_texts(n, q, ps.drop_last()) + dispatch_text(n, q, ps.last())
    }
}

/// The observe method of one `in` port; events whose name mentions a
/// timeout or a reply also call the matching hook.
pub open spec fn observe_text(q: Seq<char>, p: NormalizedPort) -> Seq<char> {
    let lowered = ascii_lowercase(p.event@);
    "    pub fn observe_"@ + module_text(p.name@) + "_"@ + module_text(p.event@) + "(&mut self) {\n        let meta = metadata("@
        + meta_args(q, p) + ", \"local\");\n        self.runtime_hooks.on_receive(&meta);\n"@ + (if find_seq(lowered, "timeout"@) is Some
        || find_seq(lowered, "timedout"@) is Some {
        "        self.timeout_hooks.on_timeout_event_fired(&meta);\n"@
    } else {
        Seq::empty()
    }) + (if find_seq(lowered, "reply"@) is Some || find_seq(lowered, "returned"@) is Some {
        "        self.must_reply_hooks.on_reply_observed(&meta);\n"@
    } else {
        Seq::empty()
    }) + "    }\n\n"@
}

/// The observe methods of the ports `ps`, in order.
pub open spec fn observe_texts(q: Seq<char>, ps: Seq<NormalizedPort>) -> Seq<char>
    decreases ps.len(),
{
    if ps.len() == 0 {
        Seq::empty()
    } else {
        observe_texts(q, ps.drop_last()) + observe_text(q, ps.last())
    }
}

/// The wiring file of a component.
pub open spec fn wiring_text(c: NormalizedComponent, n: NormalizedSpec, header: Seq<char>) -> Seq<char> {
    let q = c.qualified_name@;
    wiring_head(sanitized(c.name@), q, header) + transition_arms(c.transitions@) + run_tail() + dispatch_texts(
        n,
        q,
        ports_with(c.ports@, PortDirection::Out),
    ) + observe_texts(q, ports_with(c.ports@, PortDirection::In)) + "}\n"@
}

fn push_meta_args(out: &mut String, q: &str, p: &NormalizedPort)
    ensures
        final(out)@ == old(out)@ + meta_args(q@, *p),
{
    let ghost start = out@;
    let a = debug_str(q);
    let b = debug_str(p.name.as_str());
    let c = debug_str(p.event.as_str());
    out.append(a.as_str());
    out.append(", Some(");
    out.append(b.as_str());
    out.append("), Some(");
    out.append(c.as_str());
    out.append(")");
    assert(out@ =~= start + meta_args(q@, *p));
}

fn push_head(out: &mut String, tn: &str, q: &str, header: &str)
    ensures
        final(out)@ == old(out)@ + wiring_head(tn@, q@, header@),
{
    let ghost start = out@;
    out.append(header);
    out.append("\n\nuse super::hooks::{metadata, ");
    out.append(tn);
    out.append("Handler");
    out.append("};\n");
    out.append("use super::state::");
    out.append(tn);
    out.append("State;\n");
    out.append("use super::super::runtime_contracts::{LocalDispatch, MustReplyHooks, NonLocalDispatch, RuntimeHooks, TimeoutHooks};\n\n");
    out.append("pub struct ");
    out.append(tn);
    out.append(
        "Wiring<'a, H, R, M, T, L, N> {\n    pub handler: &'a mut H,\n    pub runtime_hooks: &'a mut R,\n    pub must_reply_hooks: &'a mut M,\n    pub timeout_hooks: &'a mut T,\n    pub local_dispatch: &'a mut L,\n    pub non_local_dispatch: &'a mut N,\n}\n\n",
    );
    out.append("impl<'a, H, R, M, T, L, N> ");
    out.append(tn);
    out.append("Wiring<'a, H, R, M, T, L, N>\nwhere\n    H: ");
    out.append(tn);
    out.append("Handler,\n    R: RuntimeHooks,\n    M: MustReplyHooks,\n    T: TimeoutHooks,\n    L: LocalDispatch,\n    N: NonLocalDispatch,\n{\n");
    out.append("    pub fn run_transition(&mut self, transition: &str, state: &mut ");
    out.append(tn);
    out.append("State) {\n        let meta = metadata(");
    let shown = debug_str(q);
    out.append(shown.as_str());
    out.append(", None, None, \"local\");\n        self.runtime_hooks.on_transition_enter(&meta);\n        match transition {\n");
    assert(out@ =~= start + wiring_head(tn@, q@, header@));
}

fn push_arms(out: &mut String, c: &NormalizedComponent)
    ensures
        final(out)@ == old(out)@ + transition_arms(c.transitions@),
{
    let ghost start = out@;
    let mut i: usize = 0;
    while i < c.transitions.len()
        invariant
            i <= c.transitions@.len(),
            out@ == start + transition_arms(c.transitions@.take(i as int)),
        decreases c.transitions@.len() - i,
    {
        assert(c.transitions@.take(i + 1).drop_last() =~= c.transitions@.take(i as int));
        let t = c.transitions.value_at(i);
        let shown = debug_str(t.name.as_str());
        let m = module_name(t.name.as_str());
        let ghost before = out@;
        out.append("            ");
        out.append(shown.as_str());
        out.append(" => self.handler.handle_");
        out.append(m.as_str());
        out.append("(state),\n");
        assert(out@ =~= before + transition_arm(*t));
        assert(out@ =~= start + transition_arms(c.transitions@.take(i + 1)));
        i = i + 1;
    }
    assert(c.transitions@.take(c.transitions@.len() as int) =~= c.transitions@);
}

fn push_contract_hooks(out: &mut String, p: &NormalizedPort, me: &String)
    ensures
        final(out)@ == old(out)@ + must_reply_text(*p, me@) + timeout_text(*p, me@),
{
    let ghost start = out@;
    if has_must_reply(&p.contracts) {
        out.append("        self.must_reply_hooks.on_request_started(&meta_");
        out.append(me.as_str());
        out.append(");\n");
        out.append("        // If runtime determines the reply was never fulfilled, call:\n        // self.must_reply_hooks.on_reply_missing(&meta_");
        out.append(me.as_str());
        out.append(");\n");
    }
    assert(out@ =~= start + must_reply_text(*p, me@));
    let ghost mid = out@;
    if let Some(after) = timeout_after(&p.contracts) {
        let shown = debug_str(after.as_str());
        out.append("        self.timeout_hooks.on_timeout_window_started(&meta_");
        out.append(me.as_str());
        out.append(", ");
        out.append(shown.as_str());
        out.append(");\n        // If runtime observes timeout violation, call:\n        // self.timeout_hooks.on_timeout_contract_violation(&meta_");
        out.append(me.as_str());
        out.append(", ");
        out.append(shown.as_str());
        out.append(");\n");
    }
    assert(out@ =~= mid + timeout_text(*p, me@));
}

fn push_connection_dispatch(out: &mut String, q: &str, p: &NormalizedPort, c: &NormalizedConnection)
    ensures
        final(out)@ == old(out)@ + connection_dispatch(q@, *p, *c),
{
    let ghost start = out@;
    match c.locality {
        ConnectionLocality::NonLocal => {
            out.append("        let boundary_meta = metadata(");
            push_meta_args(out, q, p);
            out.append(
                ", \"non_local\");\n        self.runtime_hooks.on_non_local_dispatch(&boundary_meta);\n        self.non_local_dispatch.dispatch_non_local(&boundary_meta);\n        // target endpoint: ",
            );
        },
        ConnectionLocality::Local => {
            out.append("        let local_meta = metadata(");
            push_meta_args(out, q, p);
            out.append(", \"local\");\n        self.local_dispatch.dispatch_local(&local_meta);\n        // target endpoint: ");
        },
    }
    out.append(c.to_target.as_str());
    out.append(".");
    out.append(c.to_port.as_str());
    out.append("\n");
    assert(out@ =~= start + connection_dispatch(q@, *p, *c));
}

fn push_dispatch(out: &mut String, spec: &NormalizedSpec, q: &String, p: &NormalizedPort)
    ensures
        final(out)@ == old(out)@ + dispatch_text(*spec, q@, *p),
{
    let ghost start = out@;
    let name = method_name(p.name.as_str());
    let me = module_name(p.event.as_str());
    out.append("    pub fn dispatch_");
    out.append(name.as_str());
    out.append("(&mut self) {\n");
    out.append("        let meta_");
    out.append(me.as_str());
    out.append(" = metadata(");
    push_meta_args(out, q.as_str(), p);
    out.append(", \"local\");\n        self.runtime_hooks.on_send(&meta_");
    out.append(me.as_str());
    out.append(");\n");
    push_contract_hooks(out, p, &me);
    let connections = outgoing_connections_for_port(spec, q.as_str(), p.name.as_str());
    let ghost cs = connections_from(spec.connections@, q@, p.name@);
    if connections.len() == 0 {
        out.append("        // No declared propagation paths for this port.\n");
    }
    let ghost mid = out@;
    let mut i: usize = 0;
    while i < connections.len()
        invariant
            cs == connections_from(spec.connections@, q@, p.name@),
            connections@.len() == cs.len(),
            forall|j: int| 0 <= j < connections@.len() ==> *connections@[j] == cs[j],
            i <= cs.len(),
            out@ == mid + connection_dispatches(q@, *p, cs.take(i as int)),
        decreases cs.len() - i,
    {
        assert(cs.take(i + 1).drop_last() =~= cs.take(i as int));
        push_connection_dispatch(out, q.as_str(), p, connections[i]);
        assert(out@ =~= mid + connection_dispatches(q@, *p, cs.take(i + 1)));
        i = i + 1;
    }
    assert(cs.take(cs.len() as int) =~= cs);
    out.append("    }\n\n");
    assert(out@ =~= start + dispatch_text(*spec, q@, *p));
}

fn mentions(hay: &Vec<char>, needle: &str) -> (r: bool)
    ensures
        r == (find_seq(hay@, needle@) is Some),
{
    let n = chars_of(needle);
    contains_str(hay.as_slice(), n.as_slice())
}

fn push_observe(out: &mut String, q: &String, p: &NormalizedPort)
    ensures
        final(out)@ == old(out)@ + observe_text(q@, *p),
{
    let ghost start = out@;
    let name = method_name(p.name.as_str());
    let me = module_name(p.event.as_str());
    out.append("    pub fn observe_");
    out.append(name.as_str());
    out.append("_");
    out.append(me.as_str());
    out.append("(&mut self) {\n        let meta = metadata(");
    push_meta_args(out, q.as_str(), p);
    out.append(", \"local\");\n        self.runtime_hooks.on_receive(&meta);\n");
    let lowered = to_ascii_lowercase(p.event.as_str());
    let cs = chars_of(lowered.as_str());
    if mentions(&cs, "timeout") || mentions(&cs, "timedout") {
        out.append("        self.timeout_hooks.on_timeout_event_fired(&meta);\n");
    }
    if mentions(&cs, "reply") || mentions(&cs, "returned") {
        out.append("        self.must_reply_hooks.on_reply_observed(&meta);\n");
    }
    out.append("    }\n\n");
    assert(out@ =~= start + observe_text(q@, *p));
}

/// Renders the wiring file of a component.
pub fn render(component: &NormalizedComponent, spec: &NormalizedSpec, header: &str) -> (r: String)
    ensures
        r@ == wiring_text(*component, *spec, header@),
{
    let tn = rust_type_name(component.name.as_str());
    let mut out = String::new();
    push_head(&mut out, tn.as_str(), component.qualified_name.as_str(), header);
    push_arms(&mut out, component);
    out.append("            _ => {}\n        }\n        self.runtime_hooks.on_transition_exit(&meta);\n    }\n\n");
    let ghost a = out@;
    let outs = outgoing_ports(component);
    let ghost ps = ports_with(component.ports@, PortDirection::Out);
    let mut i: usize = 0;
    while i < outs.len()
        invariant
            ps == ports_with(component.ports@, PortDirection::Out),
            outs@.len() == ps.len(),
            forall|j: int| 0 <= j < outs@.len() ==> *outs@[j] == ps[j],
            i <= ps.len(),
            out@ == a + dispatch_texts(*spec, component.qualified_name@, ps.take(i as int)),
        decreases ps.len() - i,
    {
        assert(ps.take(i + 1).drop_last() =~= ps.take(i as int));
        push_dispatch(&mut out, spec, &component.qualified_name, outs[i]);
        assert(out@ =~= a + dispatch_texts(*spec, component.qualified_name@, ps.take(i + 1)));
        i = i + 1;
    }
    assert(ps.take(ps.len() as int) =~= ps);
    let ghost b = out@;
    let ins = incoming_ports(component);
    let ghost qs = ports_with(component.ports@, PortDirection::In);
    let mut k: usize = 0;
    while k < ins.len()
        invariant
            qs == ports_with(component.ports@, PortDirection::In),
            ins@.len() == qs.len(),
            forall|j: int| 0 <= j < ins@.len() ==> *ins@[j] == qs[j],
            k <= qs.len(),
            out@ == b + observe_texts(component.qualified_name@, qs.take(k as int)),
        decreases qs.len() - k,
    {
        assert(qs.take(k + 1).drop_last() =~= qs.take(k as int));
        push_observe(&mut out, &component.qualified_name, ins[k]);
        assert(out@ =~= b + observe_texts(component.qualified_name@, qs.take(k + 1)));
        k = k + 1;
    }
    assert(qs.take(qs.len() as int) =~= qs);
    out.append("}\n");
    assert(out@ =~= wiring_text(*component, *spec, header@));
    out
}

} // verus!
