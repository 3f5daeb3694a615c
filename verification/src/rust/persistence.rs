//! The persistence hooks of a component's module.
use vstd::prelude::*;
use crate::graph::sanitized;
use crate::ir::NormalizedComponent;
use crate::rust::rust_type_name;

verus! {

/// Comment lines naming the durable fields, in order.
pub open spec fn durable_lines(fs: Seq<String>) -> Seq<char>
    decreases fs.len(),
{
    if fs.len() == 0 {
        Seq::empty()
    } else {
        durable_lines(fs.drop_last()) + "// - "@ + fs.last()@ + "\n"@
    }
}

/// The persistence file of a component: its load and save trait, then its
/// durable fields.
pub open spec fn persistence_text(c: NormalizedComponent, header: Seq<char>) -> Seq<char> {
    header + "\n\n"@ + "pub trait "@ + sanitized(c.name@) + "Persistence {\n"@ + "    fn load_state(&mut self) -> Result<(), String>;\n"@
        + "    fn save_state(&mut self) -> Result<(), String>;\n"@ + "}\n\n"@ + match c.persistence {
        Some(p) => "// durable state fields\n"@ + durable_lines(p.durable@),
        None => "// no durable state declared\n"@,
    }
}

/// Renders the persistence file of a component.
pub fn render(component: &NormalizedComponent, header: &str) -> (r: String)
    ensures
        r@ == persistence_text(*component, header@),
{
    let mut out = String::new();
    out.append(header);
    out.append("\n\n");
    out.append("pub trait ");
    let name = rust_type_name(component.name.as_str());
    out.append(name.as_str());
    out.append("Persistence {\n");
    out.append("    fn load_state(&mut self) -> Result<(), String>;\n");
    out.append("    fn save_state(&mut self) -> Result<(), String>;\n");
    out.append("}\n\n");
    let ghost mid = out@;
    match &component.persistence {
        Some(p) => {
            out.append("// durable state fields\n");
            let ghost head = out@;
            let mut i: usize = 0;
            while i < p.durable.len()
                invariant
                    i <= p.durable@.len(),
                    out@ == head + durable_lines(p.durable@.take(i as int)),
                decreases p.durable@.len() - i,
            {
                assert(p.durable@.take(i + 1).drop_last() =~= p.durable@.take(i as int));
                let ghost before = out@;
                out.append("// - ");
                out.append(p.durable[i].as_str());
                out.append("\n");
                assert(out@ =~= head + durable_lines(p.durable@.take(i + 1)));
                i = i + 1;
            }
            assert(p.durable@.take(p.durable@.len() as int) =~= p.durable@);
        },
        None => {
            out.append("// no durable state declared\n");
        },
    }
    assert(out@ =~= persistence_text(*component, header@));
    out
}

} // verus!
