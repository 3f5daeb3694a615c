//! The event types of a component's module.
use vstd::prelude::*;
use crate::graph::sanitized;
use crate::ir::{NormalizedComponent, NormalizedEvent, NormalizedField, NormalizedSpec};
use crate::rust::{component_event_list, component_events, rust_type, rust_type_name, rust_type_text};

verus! {

/// The line of one field of an event type.
pub open spec fn field_line(f: NormalizedField) -> Seq<char> {
    "    pub "@ + f.name@ + ": "@ + rust_type_text(f.field_type@) + ",\n"@
}

/// The lines of the fields `fs`, in order.
pub open spec fn field_lines(fs: Seq<NormalizedField>) -> Seq<char>
    decreases fs.len(),
{
    if fs.len() == 0 {
        Seq::empty()
    } else {
        field_lines(fs.drop_last()) + field_line(fs.last())
    }
}

/// The type of one event: a struct with its fields, or a placeholder field
/// when it has none.
pub open spec fn event_type_text(e: NormalizedEvent) -> Seq<char> {
    "#[derive(Debug, Clone, Default)]\n"@ + "pub struct "@ + sanitized(e.name@) + " {\n"@ + (if e.fields@.len() == 0 {
        "    pub _placeholder: (),\n"@
    } else {
        field_lines(e.fields@)
    }) + "}\n\n"@
}

/// The types of the events `es`, in order.
pub open spec fn event_types_text(es: Seq<NormalizedEvent>) -> Seq<char>
    decreases es.len(),
{
    if es.len() == 0 {
        Seq::empty()
    } else {
        event_types_text(es.drop_last()) + event_type_text(es.last())
    }
}

/// The events file of a component: the header, then a type for each event
/// that it receives or sends.
pub open spec fn events_text(c: NormalizedComponent, n: NormalizedSpec, header: Seq<char>) -> Seq<char> {
    header + "\n\n"@ + event_types_text(component_event_list(c, n))
}

fn push_event_type(out: &mut String, e: &NormalizedEvent)
    ensures
        final(out)@ == old(out)@ + event_type_text(*e),
{
    let ghost start = out@;
    out.append("#[derive(Debug, Clone, Default)]\n");
    out.append("pub struct ");
    let name = rust_type_name(e.name.as_str());
    out.append(name.as_str());
    out.append(" {\n");
    let ghost mid = out@;
    if e.fields.len() == 0 {
        out.append("    pub _placeholder: (),\n");
    } else {
        let mut i: usize = 0;
        while i < e.fields.len()
            invariant
                i <= e.fields@.len(),
                out@ == mid + field_lines(e.fields@.take(i as int)),
            decreases e.fields@.len() - i,
        {
            assert(e.fields@.take(i + 1).drop_last() =~= e.fields@.take(i as int));
            let f = &e.fields[i];
            let t = rust_type(f.field_type.as_str());
            let ghost before = out@;
            out.append("    pub ");
            out.append(f.name.as_str());
            out.append(": ");
            out.append(t.as_str());
            out.append(",\n");
            assert(out@ =~= before + field_line(*f));
            assert(out@ =~= mid + field_lines(e.fields@.take(i + 1)));
            i = i + 1;
        }
        assert(e.fields@.take(e.fields@.len() as int) =~= e.fields@);
    }
    out.append("}\n\n");
    assert(out@ =~= start + event_type_text(*e));
}

/// Renders the events file of a component.
pub fn render(component: &NormalizedComponent, spec: &NormalizedSpec, header: &str) -> (r: String)
    ensures
        r@ == events_text(*component, *spec, header@),
{
    let mut out = String::new();
    out.append(header);
    out.append("\n\n");
    let ghost start = out@;
    let events = component_events(component, spec);
    let ghost es = component_event_list(*component, *spec);
    let mut i: usize = 0;
    while i < events.len()
        invariant
            es == component_event_list(*component, *spec),
            events@.len() == es.len(),
            forall|j: int| 0 <= j < events@.len() ==> *events@[j] == es[j],
            i <= events@.len(),
            out@ == start + event_types_text(es.take(i as int)),
        decreases events@.len() - i,
    {
        assert(es.take(i + 1).drop_last() =~= es.take(i as int));
        push_event_type(&mut out, events[i]);
        assert(out@ =~= start + event_types_text(es.take(i + 1)));
        i = i + 1;
    }
    assert(es.take(es.len() as int) =~= es);
    out
}

} // verus!
