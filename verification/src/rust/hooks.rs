//! The handler trait and the metadata constructor of a component's module.
use vstd::prelude::*;
use crate::graph::sanitized;
use crate::ir::{NormalizedComponent, NormalizedTransition};
use crate::rust::{module_name, module_text, rust_type_name};

verus! {

/// The handler method of one transition.
pub open spec fn handler_line(tn: Seq<char>, t: NormalizedTransition) -> Seq<char> {
    "    fn handle_"@ + module_text(t.name@) + "(&mut self, state: &mut "@ + tn + "State);\n"@
}

/// The handler methods of the transitions `ts`, in order.
pub open spec fn handler_lines(tn: Seq<char>, ts: Seq<(Seq<char>, NormalizedTransition)>) -> Seq<char>
    decreases ts.len(),
{
    if ts.len() == 0 {
        Seq::empty()
    } else {
        handler_lines(tn, ts.drop_last()) + handler_line(tn, ts.last().1)
    }
}

/// The hooks file of a component: its handler trait, with a method per
/// transition, and the constructor of hook metadata.
pub open spec fn hooks_text(c: NormalizedComponent, header: Seq<char>) -> Seq<char> {
    let tn = sanitized(c.name@);
    header + "\n\nuse super::state::"@ + tn + "State;\n"@
        + "use super::super::runtime_contracts::{HookMetadata, LocalDispatch, MustReplyHooks, NonLocalDispatch, RuntimeHooks, TimeoutHooks};\n\n"@
        + "pub trait "@ + tn + "Handler {\n"@ + handler_lines(tn, c.transitions@) + "}\n\n"@
        + "pub fn metadata(component: &'static str, port: Option<&'static str>, event: Option<&'static str>, locality: &'static str) -> HookMetadata {\n"@
        + "    HookMetadata { component, port, event, locality, correlation_hint: None, retry_hint: None }\n"@ + "}\n"@
}

/// Renders the hooks file of a component.
pub fn render(component: &NormalizedComponent, header: &str) -> (r: String)
    ensures
        r@ == hooks_text(*component, header@),
{
    let tn = rust_type_name(component.name.as_str());
    let mut out = String::new();
    out.append(header);
    out.append("\n\nuse super::state::");
    out.append(tn.as_str());
    out.append("State;\n");
    out.append(
        "use super::super::runtime_contracts::{HookMetadata, LocalDispatch, MustReplyHooks, NonLocalDispatch, RuntimeHooks, TimeoutHooks};\n\n",
    );
    out.append("pub trait ");
    out.append(tn.as_str());
    out.append("Handler {\n");
    let ghost mid = out@;
    let mut i: usize = 0;
    while i < component.transitions.len()
        invariant
            i <= component.transitions@.len(),
            tn@ == sanitized(component.name@),
            out@ == mid + handler_lines(tn@, component.transitions@.take(i as int)),
        decreases component.transitions@.len() - i,
    {
        assert(component.transitions@.take(i + 1).drop_last() =~= component.transitions@.take(i as int));
        let t = component.transitions.value_at(i);
        let m = module_name(t.name.as_str());
        let ghost before = out@;
        out.append("    fn handle_");
        out.append(m.as_str());
        out.append("(&mut self, state: &mut ");
        out.append(tn.as_str());
        out.append("State);\n");
        assert(out@ =~= before + handler_line(tn@, *t));
        assert(out@ =~= mid + handler_lines(tn@, component.transitions@.take(i + 1)));
        i = i + 1;
    }
    assert(component.transitions@.take(component.transitions@.len() as int) =~= component.transitions@);
    out.append("}\n\n");
    out.append(
        "pub fn metadata(component: &'static str, port: Option<&'static str>, event: Option<&'static str>, locality: &'static str) -> HookMetadata {\n",
    );
    out.append("    HookMetadata { component, port, event, locality, correlation_hint: None, retry_hint: None }\n");
    out.append("}\n");
    assert(out@ =~= hooks_text(*component, header@));
    out
}

} // verus!
