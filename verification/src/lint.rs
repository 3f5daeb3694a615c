//! Advisory warnings on a resolved model: unconnected ports, state that no
//! transition touches, and recovery assumptions without durable state.
use vstd::prelude::*;
use crate::diagnostics::{Diagnostic, DiagnosticModel, DiagnosticSet, plain_warning};
use crate::ir::{NormalizedComponent, NormalizedSpec, NormalizedStateField, NormalizedTransition};
use crate::normalize::{dm, push_diag};
use crate::text::{chars_of, contains_str, find_seq, str_equal};
use crate::value::Value;

verus! {

// ---------------------------------------------------------------------------
// Unconnected ports.

/// Some connection starts or ends at port `port` of component `comp`.
pub open spec fn is_connected(n: NormalizedSpec, comp: Seq<char>, port: Seq<char>) -> bool {
    exists|i: int| #![trigger n.connections@[i]] 0 <= i < n.connections@.len() && {
        let c = n.connections@[i];
        (c.from_component@ == comp && c.from_port@ == port) || (c.to_component@ == comp && c.to_port@ == port)
    }
}

/// The warning for a port that no connection uses.
pub open spec fn unconnected_warning(comp: Seq<char>, port: Seq<char>) -> DiagnosticModel {
    plain_warning(
        "HNK2201"@,
        "Port `"@ + comp + "."@ + port + "` is not connected to any declared propagation path."@,
        Some("Connect this port or remove it if the interaction is not intended yet."@),
    )
}

/// The warnings for the ports `ps` of component `c`. A port is looked up by
/// the component's short name.
pub open spec fn port_warnings(n: NormalizedSpec, c: NormalizedComponent, ps: Seq<(Seq<char>, crate::ir::NormalizedPort)>) -> Seq<DiagnosticModel>
    decreases ps.len(),
{
    if ps.len() == 0 {
        Seq::empty()
    } else {
        let prev = port_warnings(n, c, ps.drop_last());
        let p = ps.last().1;
        if is_connected(n, c.name@, p.name@) {
            prev
        } else {
            prev.push(unconnected_warning(c.name@, p.name@))
        }
    }
}

/// The unconnected-port warnings of the components `cs`, in order.
pub open spec fn unconnected_warnings(n: NormalizedSpec, cs: Seq<(Seq<char>, NormalizedComponent)>) -> Seq<DiagnosticModel>
    decreases cs.len(),
{
    if cs.len() == 0 {
        Seq::empty()
    } else {
        unconnected_warnings(n, cs.drop_last()) + port_warnings(n, cs.last().1, cs.last().1.ports@)
    }
}

fn connected(spec: &NormalizedSpec, comp: &String, port: &String) -> (r: bool)
    ensures
        r == is_connected(*spec, comp@, port@),
{
    let mut i: usize = 0;
    while i < spec.connections.len()
        invariant
            i <= spec.connections@.len(),
            forall|j: int| 0 <= j < i ==> {
                let c = #[trigger] spec.connections@[j];
                !((c.from_component@ == comp@ && c.from_port@ == port@) || (c.to_component@ == comp@ && c.to_port@ == port@))
            },
        decreases spec.connections@.len() - i,
    {
        let c = &spec.connections[i];
        if (str_equal(c.from_component.as_str(), comp.as_str()) && str_equal(c.from_port.as_str(), port.as_str()))
            || (str_equal(c.to_component.as_str(), comp.as_str()) && str_equal(c.to_port.as_str(), port.as_str())) {
            return true;
        }
        i = i + 1;
    }
    false
}

fn warn_on_unconnected_ports(spec: &NormalizedSpec, diagnostics: &mut Vec<Diagnostic>)
    ensures
        dm(final(diagnostics)@) == dm(old(diagnostics)@) + unconnected_warnings(*spec, spec.components@),
{
    let ghost start = dm(diagnostics@);
    let n = spec.components.len();
    let mut i: usize = 0;
    while i < n
        invariant
            n == spec.components@.len(),
            i <= n,
            dm(diagnostics@) == start + unconnected_warnings(*spec, spec.components@.take(i as int)),
        decreases n - i,
    {
        assert(spec.components@.take(i + 1).drop_last() =~= spec.components@.take(i as int));
        let c = spec.components.value_at(i);
        let ghost mid = dm(diagnostics@);
        let m = c.ports.len();
        let mut j: usize = 0;
        while j < m
            invariant
                m == c.ports@.len(),
                j <= m,
                dm(diagnostics@) == mid + port_warnings(*spec, *c, c.ports@.take(j as int)),
            decreases m - j,
        {
            assert(c.ports@.take(j + 1).drop_last() =~= c.ports@.take(j as int));
            let p = c.ports.value_at(j);
            if !connected(spec, &c.name, &p.name) {
                let mut msg = String::new();
                msg.append("Port `");
                msg.append(c.name.as_str());
                msg.append(".");
                msg.append(p.name.as_str());
                msg.append("` is not connected to any declared propagation path.");
                let suggestion = "Connect this port or remove it if the interaction is not intended yet.".to_owned();
                push_diag(diagnostics, Diagnostic::warning("HNK2201", msg, Some(suggestion)));
            }
            assert(dm(diagnostics@) =~= mid + port_warnings(*spec, *c, c.ports@.take(j + 1)));
            j = j + 1;
        }
        assert(c.ports@.take(m as int) =~= c.ports@);
        assert(dm(diagnostics@) =~= start + unconnected_warnings(*spec, spec.components@.take(i + 1)));
        i = i + 1;
    }
    assert(spec.components@.take(n as int) =~= spec.components@);
}

// ---------------------------------------------------------------------------
// Unused state fields.

/// Some transition of the list reads or writes the field `field`.
pub open spec fn is_referenced(ts: Seq<(Seq<char>, NormalizedTransition)>, field: Seq<char>) -> bool {
    exists|t: int| #![trigger ts[t]] 0 <= t < ts.len() && (
        (exists|k: int| 0 <= k < ts[t].1.reads@.len() && (#[trigger] ts[t].1.reads@[k])@ == field)
        || (exists|k: int| 0 <= k < ts[t].1.writes@.len() && (#[trigger] ts[t].1.writes@[k])@ == field)
    )
}

/// The warning for a state field that no transition touches.
pub open spec fn unused_field_warning(comp: Seq<char>, field: Seq<char>) -> DiagnosticModel {
    plain_warning(
        "HNK2202"@,
        "State field `"@ + comp + "."@ + field + "` is never referenced by any transition."@,
        Some("Remove the field or add a transition that reads or writes it."@),
    )
}

/// The warnings for the state fields `fs` of component `c`.
pub open spec fn field_warnings(c: NormalizedComponent, fs: Seq<(Seq<char>, NormalizedStateField)>) -> Seq<DiagnosticModel>
    decreases fs.len(),
{
    if fs.len() == 0 {
        Seq::empty()
    } else {
        let prev = field_warnings(c, fs.drop_last());
        let f = fs.last().1;
        if is_referenced(c.transitions@, f.name@) {
            prev
        } else {
            prev.push(unused_field_warning(c.name@, f.name@))
        }
    }
}

/// The unused-field warnings of the components `cs`, in order.
pub open spec fn unused_field_warnings(cs: Seq<(Seq<char>, NormalizedComponent)>) -> Seq<DiagnosticModel>
    decreases cs.len(),
{
    if cs.len() == 0 {
        Seq::empty()
    } else {
        unused_field_warnings(cs.drop_last()) + field_warnings(cs.last().1, cs.last().1.state_fields@)
    }
}

/// Whether `names` holds `name`.
fn names_hold(names: &Vec<String>, name: &String) -> (r: bool)
    ensures
        r == exists|k: int| 0 <= k < names@.len() && (#[trigger] names@[k])@ == name@,
{
    let mut k: usize = 0;
    while k < names.len()
        invariant
            k <= names@.len(),
            forall|j: int| 0 <= j < k ==> (#[trigger] names@[j])@ != name@,
        decreases names@.len() - k,
    {
        if str_equal(names[k].as_str(), name.as_str()) {
            return true;
        }
        k = k + 1;
    }
    false
}

fn referenced(c: &NormalizedComponent, field: &String) -> (r: bool)
    ensures
        r == is_referenced(c.transitions@, field@),
{
    let mut t: usize = 0;
    while t < c.transitions.len()
        invariant
            t <= c.transitions@.len(),
            forall|j: int| #![trigger c.transitions@[j]] 0 <= j < t ==> !(
                (exists|k: int| 0 <= k < c.transitions@[j].1.reads@.len() && (#[trigger] c.transitions@[j].1.reads@[k])@ == field@)
                || (exists|k: int| 0 <= k < c.transitions@[j].1.writes@.len() && (#[trigger] c.transitions@[j].1.writes@[k])@ == field@)
            ),
        decreases c.transitions@.len() - t,
    {
        let tr = c.transitions.value_at(t);
        if names_hold(&tr.reads, field) || names_hold(&tr.writes, field) {
            return true;
        }
        t = t + 1;
    }
    false
}

fn warn_on_unused_state_fields(spec: &NormalizedSpec, diagnostics: &mut Vec<Diagnostic>)
    ensures
        dm(final(diagnostics)@) == dm(old(diagnostics)@) + unused_field_warnings(spec.components@),
{
    let ghost start = dm(diagnostics@);
    let n = spec.components.len();
    let mut i: usize = 0;
    while i < n
        invariant
            n == spec.components@.len(),
            i <= n,
            dm(diagnostics@) == start + unused_field_warnings(spec.components@.take(i as int)),
        decreases n - i,
    {
        assert(spec.components@.take(i + 1).drop_last() =~= spec.components@.take(i as int));
        let c = spec.components.value_at(i);
        let ghost mid = dm(diagnostics@);
        let m = c.state_fields.len();
        let mut j: usize = 0;
        while j < m
            invariant
                m == c.state_fields@.len(),
                j <= m,
                dm(diagnostics@) == mid + field_warnings(*c, c.state_fields@.take(j as int)),
            decreases m - j,
        {
            assert(c.state_fields@.take(j + 1).drop_last() =~= c.state_fields@.take(j as int));
            let f = c.state_fields.value_at(j);
            if !referenced(c, &f.name) {
                let mut msg = String::new();
                msg.append("State field `");
                msg.append(c.name.as_str());
                msg.append(".");
                msg.append(f.name.as_str());
                msg.append("` is never referenced by any transition.");
                let suggestion = "Remove the field or add a transition that reads or writes it.".to_owned();
                push_diag(diagnostics, Diagnostic::warning("HNK2202", msg, Some(suggestion)));
            }
            assert(dm(diagnostics@) =~= mid + field_warnings(*c, c.state_fields@.take(j + 1)));
            j = j + 1;
        }
        assert(c.state_fields@.take(m as int) =~= c.state_fields@);
        assert(dm(diagnostics@) =~= start + unused_field_warnings(spec.components@.take(i + 1)));
        i = i + 1;
    }
    assert(spec.components@.take(n as int) =~= spec.components@);
}

// ---------------------------------------------------------------------------
// Recovery assumptions without durable state.

/// A string somewhere in the value (in a list item, a mapping key or a
/// mapping value, at any depth) contains `crash_recovery`. Tagged values are
/// not looked into.
pub open spec fn mentions_crash_recovery(v: Value) -> bool
    decreases v,
{
    match v {
        Value::String(s) => find_seq(s@, "crash_recovery"@) is Some,
        Value::Sequence(items) => any_mentions(items@),
        Value::Mapping(entries) => any_entry_mentions(entries@),
        _ => false,
    }
}

/// Some value of the list mentions crash recovery.
pub open spec fn any_mentions(s: Seq<Value>) -> bool
    decreases s,
{
    if s.len() == 0 {
        false
    } else {
        mentions_crash_recovery(s[0]) || any_mentions(s.drop_first())
    }
}

/// Some key or value of the entries mentions crash recovery.
pub open spec fn any_entry_mentions(s: Seq<(Value, Value)>) -> bool
    decreases s,
{
    if s.len() == 0 {
        false
    } else {
        mentions_crash_recovery(s[0].0) || mentions_crash_recovery(s[0].1) || any_entry_mentions(s.drop_first())
    }
}

/// Whether the annotation mentions crash recovery.
fn annotation_mentions_crash_recovery(value: &Value) -> (r: bool)
    ensures
        r == mentions_crash_recovery(*value),
    decreases value,
{
    match value {
        Value::String(text) => {
            let hay = chars_of(text.as_str());
            let needle = chars_of("crash_recovery");
            contains_str(hay.as_slice(), needle.as_slice())
        },
        Value::Sequence(items) => {
            let mut i: usize = 0;
            assert(items@.skip(0) =~= items@);
            while i < items.len()
                invariant
                    *value == Value::Sequence(*items),
                    i <= items@.len(),
                    any_mentions(items@) == any_mentions(items@.skip(i as int)),
                decreases items@.len() - i,
            {
                proof {
                    let ghost sv = *value;
                    assert(decreases_to!(sv => sv->Sequence_0));
                    assert(decreases_to!(*items => items[i as int]));
                }
                assert(items@.skip(i as int).drop_first() =~= items@.skip(i + 1));
                assert(items@.skip(i as int)[0] == items@[i as int]);
                if annotation_mentions_crash_recovery(&items[i]) {
                    return true;
                }
                i = i + 1;
            }
            false
        },
        Value::Mapping(entries) => {
            let mut i: usize = 0;
            assert(entries@.skip(0) =~= entries@);
            while i < entries.len()
                invariant
                    *value == Value::Mapping(*entries),
                    i <= entries@.len(),
                    any_entry_mentions(entries@) == any_entry_mentions(entries@.skip(i as int)),
                decreases entries@.len() - i,
            {
                proof {
                    let ghost sv = *value;
                    assert(decreases_to!(sv => sv->Mapping_0));
                    assert(decreases_to!(*entries => entries[i as int]));
                }
                assert(entries@.skip(i as int).drop_first() =~= entries@.skip(i + 1));
                assert(entries@.skip(i as int)[0] == entries@[i as int]);
                if annotation_mentions_crash_recovery(&entries[i].0) || annotation_mentions_crash_recovery(&entries[i].1) {
                    return true;
                }
                i = i + 1;
            }
            false
        },
        _ => false,
    }
}

/// Some assumption of the component mentions crash recovery while it
/// declares no durable field.
pub open spec fn recovery_gap(c: NormalizedComponent) -> bool {
    &&& exists|k: int| 0 <= k < c.assumptions@.len() && mentions_crash_recovery(#[trigger] c.assumptions@[k])
    &&& match c.persistence {
        Some(p) => p.durable@.len() == 0,
        None => true,
    }
}

/// The warning for a recovery assumption without durable state.
pub open spec fn recovery_warning(comp: Seq<char>) -> DiagnosticModel {
    plain_warning(
        "HNK2203"@,
        "Component `"@ + comp + "` mentions crash recovery assumptions but declares no durable state."@,
        Some("Add `persistence.durable` fields or remove the recovery assumption if durability is not required."@),
    )
}

/// The recovery warnings of the components `cs`, in order.
pub open spec fn recovery_warnings(cs: Seq<(Seq<char>, NormalizedComponent)>) -> Seq<DiagnosticModel>
    decreases cs.len(),
{
    if cs.len() == 0 {
        Seq::empty()
    } else {
        let prev = recovery_warnings(cs.drop_last());
        if recovery_gap(cs.last().1) {
            prev.push(recovery_warning(cs.last().1.name@))
        } else {
            prev
        }
    }
}

fn expects_recovery(c: &NormalizedComponent) -> (r: bool)
    ensures
        r == exists|k: int| 0 <= k < c.assumptions@.len() && mentions_crash_recovery(#[trigger] c.assumptions@[k]),
{
    let mut k: usize = 0;
    while k < c.assumptions.len()
        invariant
            k <= c.assumptions@.len(),
            forall|j: int| 0 <= j < k ==> !mentions_crash_recovery(#[trigger] c.assumptions@[j]),
        decreases c.assumptions@.len() - k,
    {
        if annotation_mentions_crash_recovery(&c.assumptions[k]) {
            return true;
        }
        k = k + 1;
    }
    false
}

fn warn_on_durable_state_gaps(spec: &NormalizedSpec, diagnostics: &mut Vec<Diagnostic>)
    ensures
        dm(final(diagnostics)@) == dm(old(diagnostics)@) + recovery_warnings(spec.components@),
{
    let ghost start = dm(diagnostics@);
    let n = spec.components.len();
    let mut i: usize = 0;
    while i < n
        invariant
            n == spec.components@.len(),
            i <= n,
            dm(diagnostics@) == start + recovery_warnings(spec.components@.take(i as int)),
        decreases n - i,
    {
        assert(spec.components@.take(i + 1).drop_last() =~= spec.components@.take(i as int));
        let c = spec.components.value_at(i);
        let durable_is_empty = match &c.persistence {
            Some(p) => p.durable.len() == 0,
            None => true,
        };
        if expects_recovery(c) && durable_is_empty {
            let mut msg = String::new();
            msg.append("Component `");
            msg.append(c.name.as_str());
            msg.append("` mentions crash recovery assumptions but declares no durable state.");
            let suggestion = "Add `persistence.durable` fields or remove the recovery assumption if durability is not required.".to_owned();
            push_diag(diagnostics, Diagnostic::warning("HNK2203", msg, Some(suggestion)));
        }
        assert(dm(diagnostics@) =~= start + recovery_warnings(spec.components@.take(i + 1)));
        i = i + 1;
    }
    assert(spec.components@.take(n as int) =~= spec.components@);
}

// ---------------------------------------------------------------------------
// The lint pass.

/// Every warning that the lint pass raises, in order: unconnected ports,
/// unused state fields, recovery assumptions without durable state.
pub open spec fn lint_warnings(n: NormalizedSpec) -> Seq<DiagnosticModel> {
    unconnected_warnings(n, n.components@) + unused_field_warnings(n.components@) + recovery_warnings(n.components@)
}

/// Runs the advisory checks on a resolved model.
pub fn lint(spec: &NormalizedSpec) -> (r: DiagnosticSet)
    ensures
        r@ == lint_warnings(*spec),
{
    let mut diagnostics: Vec<Diagnostic> = Vec::new();
    warn_on_unconnected_ports(spec, &mut diagnostics);
    warn_on_unused_state_fields(spec, &mut diagnostics);
    warn_on_durable_state_gaps(spec, &mut diagnostics);
    assert(dm(diagnostics@) =~= lint_warnings(*spec));
    DiagnosticSet::new(diagnostics)
}

} // verus!
