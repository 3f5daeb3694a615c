//! The state type of a component's module.
use vstd::prelude::*;
use crate::graph::sanitized;
use crate::ir::{NormalizedComponent, NormalizedStateField};
use crate::rust::{rust_type, rust_type_name, rust_type_text};

verus! {

/// The line of one state field.
pub open spec fn state_field_line(f: NormalizedStateField) -> Seq<char> {
    "    pub "@ + f.name@ + ": "@ + rust_type_text(f.field_type@) + ",\n"@
}

/// The lines of the state fields `fs`, in order.
pub open spec fn state_field_lines(fs: Seq<(Seq<char>, NormalizedStateField)>) -> Seq<char>
    decreases fs.len(),
{
    if fs.len() == 0 {
        Seq::empty()
    } else {
        state_field_lines(fs.drop_last()) + state_field_line(fs.last().1)
    }
}

/// The state file of a component: its state struct, with a placeholder
/// field when it has no state field.
pub open spec fn state_text(c: NormalizedComponent, header: Seq<char>) -> Seq<char> {
    header + "\n\n"@ + "#[derive(Debug, Clone, Default)]\n"@ + "pub struct "@ + sanitized(c.name@) + "State {\n"@ + (if c.state_fields@.len()
        == 0 {
        "    pub _placeholder: (),\n"@
    } else {
        state_field_lines(c.state_fields@)
    }) + "}\n"@
}

/// Renders the state file of a component.
pub fn render(component: &NormalizedComponent, header: &str) -> (r: String)
    ensures
        r@ == state_text(*component, header@),
{
    let mut out = String::new();
    out.append(header);
    out.append("\n\n");
    out.append("#[derive(Debug, Clone, Default)]\n");
    out.append("pub struct ");
    let name = rust_type_name(component.name.as_str());
    out.append(name.as_str());
    out.append("State {\n");
    let ghost mid = out@;
    if component.state_fields.len() == 0 {
        out.append("    pub _placeholder: (),\n");
    } else {
        let mut i: usize = 0;
        while i < component.state_fields.len()
            invariant
                i <= component.state_fields@.len(),
                out@ == mid + state_field_lines(component.state_fields@.take(i as int)),
            decreases component.state_fields@.len() - i,
        {
            assert(component.state_fields@.take(i + 1).drop_last() =~= component.state_fields@.take(i as int));
            let f = component.state_fields.value_at(i);
            let t = rust_type(f.field_type.as_str());
            let ghost before = out@;
            out.append("    pub ");
            out.append(f.name.as_str());
            out.append(": ");
            out.append(t.as_str());
            out.append(",\n");
            assert(out@ =~= before + state_field_line(*f));
            assert(out@ =~= mid + state_field_lines(component.state_fields@.take(i + 1)));
            i = i + 1;
        }
        assert(component.state_fields@.take(component.state_fields@.len() as int) =~= component.state_fields@);
    }
    out.append("}\n");
    assert(out@ =~= state_text(*component, header@));
    out
}

} // verus!
