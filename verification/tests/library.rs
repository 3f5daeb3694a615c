use hoonoki::ast::{Component, ComponentUse, Connection, ContractBag, Event, Persistence, Port, Spec, State, StateField, Transition};
use hoonoki::contracts::{has_must_reply, timeout_after};
use hoonoki::diagnostics::{Diagnostic, DiagnosticSet, Severity};
use hoonoki::normalize::normalize;
use hoonoki::report::{cwd_failure, format_diagnostics, lint_outcome, normalize_summary, validation_outcome};
use hoonoki::resolve::{parse_endpoint, qualify};
use hoonoki::schema::{ConnectionLocality, PortDirection, Visibility};
use hoonoki::validate::{connections_resolve, validate};
use hoonoki::value::Value;

fn s(text: &str) -> String {
    text.to_string()
}

fn event(name: &str) -> Event {
    Event {
        name: s(name),
        fields: Vec::new(),
        visibility: Visibility::Internal,
        version: None,
        deprecated: None,
        doc: None,
        kind: None,
        contracts: ContractBag::new(),
    }
}

fn port(name: &str, direction: PortDirection, event: &str) -> Port {
    Port { name: s(name), direction, event: s(event), contracts: ContractBag::new(), doc: None }
}

fn transition(name: &str, on: &str, emits: &[&str], reads: &[&str], writes: &[&str]) -> Transition {
    Transition {
        name: s(name),
        on: s(on),
        emits: emits.iter().map(|x| s(x)).collect(),
        reads: reads.iter().map(|x| s(x)).collect(),
        writes: writes.iter().map(|x| s(x)).collect(),
        requires: Vec::new(),
        ensures: Vec::new(),
        doc: None,
    }
}

fn component(name: &str, uses: &[(&str, &str)], ports: Vec<Port>, transitions: Vec<Transition>) -> Component {
    Component {
        name: s(name),
        uses: uses.iter().map(|(n, c)| ComponentUse { name: s(n), component: s(c), doc: None }).collect(),
        ports,
        state: State { fields: Vec::new(), doc: None },
        transitions,
        persistence: None,
        assumptions: Vec::new(),
        doc: None,
    }
}

fn connection(within: &str, from: &str, to: &str) -> Connection {
    Connection {
        within: s(within),
        from: s(from),
        to: s(to),
        locality: ConnectionLocality::Local,
        contracts: ContractBag::new(),
        doc: None,
    }
}

fn spec(events: Vec<Event>, components: Vec<Component>, connections: Vec<Connection>) -> Spec {
    Spec {
        version: s("0.1.0"),
        package: s("examples.inline"),
        events,
        components,
        connections,
        types: Vec::new(),
        contracts: ContractBag::new(),
        assumptions: Vec::new(),
        imports: Vec::new(),
    }
}

fn codes(diagnostics: &DiagnosticSet) -> Vec<String> {
    diagnostics.iter().map(|d| d.code.clone()).collect()
}

fn normalization_codes(source: &Spec) -> Vec<String> {
    match normalize(source) {
        Ok(_) => Vec::new(),
        Err(diagnostics) => codes(&diagnostics),
    }
}

fn wrapper_with(connection_from: &str, connection_to: &str, within: &str) -> Spec {
    spec(
        vec![event("Tick")],
        vec![
            component("A", &[], vec![port("out", PortDirection::Out, "Tick")], vec![]),
            component("W", &[("a", "A")], vec![port("input", PortDirection::In, "Tick")], vec![]),
        ],
        vec![connection(within, connection_from, connection_to)],
    )
}

#[test]
fn normalization_reports_duplicates() {
    let twice = spec(vec![event("Tick"), event("Tick")], vec![], vec![]);
    assert_eq!(normalization_codes(&twice), vec![s("HNK2001")]);
    let components = spec(vec![], vec![component("A", &[], vec![], vec![]), component("A", &[], vec![], vec![])], vec![]);
    assert_eq!(normalization_codes(&components), vec![s("HNK2003")]);
    let ports = spec(
        vec![event("Tick")],
        vec![component("A", &[], vec![port("p", PortDirection::In, "Tick"), port("p", PortDirection::In, "Tick")], vec![])],
        vec![],
    );
    assert_eq!(normalization_codes(&ports), vec![s("HNK2004")]);
}

#[test]
fn normalization_reports_unknown_references() {
    let unknown_event = spec(vec![], vec![component("A", &[], vec![port("p", PortDirection::In, "Missing")], vec![])], vec![]);
    assert_eq!(normalization_codes(&unknown_event), vec![s("HNK2005")]);
    let diagnostics = normalize(&unknown_event).expect_err("the event is unknown");
    assert!(diagnostics.iter().next().unwrap().message.starts_with("Unknown event reference `Missing` in "));
}

#[test]
fn normalization_reports_bad_connections() {
    assert_eq!(normalization_codes(&wrapper_with("a.out", "self.input", "Nope")), vec![s("HNK2005")]);
    assert_eq!(normalization_codes(&wrapper_with("aout", "self.input", "W")), vec![s("HNK2012")]);
    assert_eq!(normalization_codes(&wrapper_with("a.out", "self", "W")), vec![s("HNK2013")]);
    assert_eq!(normalization_codes(&wrapper_with("a.nope", "self.input", "W")), vec![s("HNK2014")]);
    assert_eq!(normalization_codes(&wrapper_with("a.out", "self.nope", "W")), vec![s("HNK2015")]);
    assert_eq!(normalization_codes(&wrapper_with("b.out", "self.input", "W")), vec![s("HNK2016")]);
    assert!(normalization_codes(&wrapper_with("a.out", "self.input", "W")).is_empty());
    let diagnostics = normalize(&wrapper_with("aout", "self.input", "W")).expect_err("bad endpoint");
    assert_eq!(
        diagnostics.iter().next().unwrap().message,
        "Connection `from` endpoint `aout` must use `self.port` or `instance.port` format."
    );
}

#[test]
fn validation_reports_each_rule() {
    let mismatch = spec(
        vec![event("Tick"), event("Tock")],
        vec![
            component("A", &[], vec![port("out", PortDirection::Out, "Tock")], vec![]),
            component("W", &[("a", "A")], vec![port("input", PortDirection::In, "Tick")], vec![]),
        ],
        vec![connection("W", "a.out", "self.input")],
    );
    let diagnostics = validate(&mismatch);
    assert_eq!(codes(&diagnostics), vec![s("HNK2105")]);
    assert_eq!(
        diagnostics.iter().next().unwrap().message,
        "Connection `a::out` -> `self::input` inside `examples.inline.W` carries event `examples.inline.Tock` on the source port, but the destination declares `examples.inline.Tick`."
    );

    let mut stateful = component(
        "S",
        &[],
        vec![port("in", PortDirection::In, "Tick")],
        vec![transition("t", "Tick", &["Tock"], &[], &["ghost"]), transition("u", "Tock", &[], &[], &[])],
    );
    stateful.persistence = Some(Persistence { durable: vec![s("missing")], doc: None });
    let diagnostics = validate(&spec(vec![event("Tick"), event("Tock")], vec![stateful], vec![]));
    assert_eq!(codes(&diagnostics), vec![s("HNK2107"), s("HNK2109"), s("HNK2108"), s("HNK2110")]);
    let messages: Vec<String> = diagnostics.iter().map(|d| d.message.clone()).collect();
    assert_eq!(messages[0], "Transition `examples.inline.S.t` writes undefined state field `ghost`.");
    assert_eq!(
        messages[1],
        "Transition `examples.inline.S.t` emits event `examples.inline.Tock`, but no `out` port on that component declares it."
    );
    assert_eq!(
        messages[2],
        "Transition `examples.inline.S.u` listens to event `examples.inline.Tock`, but no `in` port on that component declares it."
    );
    assert_eq!(messages[3], "Component `examples.inline.S` marks undefined state field `missing` as durable.");
    assert!(diagnostics.iter().all(|d| d.severity == Severity::Error));
}

#[test]
fn validation_accepts_declared_state() {
    let mut c = component("S", &[], vec![port("in", PortDirection::In, "Tick")], vec![transition("t", "Tick", &[], &["x"], &["x"])]);
    c.state.fields.push(StateField { name: s("x"), field_type: s("u64"), doc: None });
    c.persistence = Some(Persistence { durable: vec![s("x")], doc: None });
    let diagnostics = validate(&spec(vec![event("Tick")], vec![c], vec![]));
    assert!(diagnostics.is_empty(), "expected no diagnostics, got {:?}", diagnostics);
}

#[test]
fn normalized_models_resolve_their_connections() {
    let normalized = normalize(&wrapper_with("a.out", "self.input", "W")).expect("normalizes");
    assert!(connections_resolve(&normalized));
    assert_eq!(normalize_summary(&normalized), "Normalized spec: 1 events, 2 components, 1 connections");
}

#[test]
fn contracts_are_read_from_the_bag() {
    let mut bag = ContractBag::new();
    assert!(!has_must_reply(&bag));
    assert_eq!(timeout_after(&bag), None);
    bag.entries.push((s("must_reply"), Value::Bool(true)));
    bag.entries.push((s("timeout"), Value::Mapping(vec![(Value::String(s("after")), Value::String(s("30s")))])));
    assert!(has_must_reply(&bag));
    assert_eq!(timeout_after(&bag), Some(s("30s")));
    let mut odd = ContractBag::new();
    odd.entries.push((s("must_reply"), Value::String(s("yes"))));
    odd.entries.push((s("timeout"), Value::String(s("30s"))));
    assert!(!has_must_reply(&odd));
    assert_eq!(timeout_after(&odd), None);
}

#[test]
fn endpoints_and_qualified_names() {
    assert_eq!(qualify("std.link", "LinkSend"), "std.link.LinkSend");
    assert_eq!(parse_endpoint("self.port"), Some((s("self"), s("port"))));
    assert_eq!(parse_endpoint("a.b.c"), Some((s("a"), s("b.c"))));
    assert_eq!(parse_endpoint("self."), None);
    assert_eq!(parse_endpoint(".port"), None);
    assert_eq!(parse_endpoint("self"), None);
}

#[test]
fn diagnostics_are_printed_one_per_line() {
    let set = DiagnosticSet::new(vec![
        Diagnostic::error("HNK2101", s("first")),
        Diagnostic::warning("HNK2201", s("second"), None),
    ]);
    assert_eq!(format_diagnostics(&set), "error HNK2101: first\nwarning HNK2201: second");
    assert_eq!(validation_outcome(&set), Err(s("error HNK2101: first\nwarning HNK2201: second")));
    assert_eq!(validation_outcome(&DiagnosticSet::new(vec![])), Ok(s("Validation OK")));
    assert_eq!(lint_outcome(&DiagnosticSet::new(vec![])), "Lint OK");
    assert_eq!(lint_outcome(&set), "error HNK2101: first\nwarning HNK2201: second");
    let cwd = cwd_failure("spec.yaml", "denied");
    let d = cwd.iter().next().unwrap();
    assert_eq!(d.code, "HNK1005");
    assert_eq!(d.message, "Failed to determine the current working directory: denied");
}
