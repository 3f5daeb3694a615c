use hoonoki::ast::{Component, ComponentUse, Connection, ContractBag, Event, Field, Persistence, Port, Spec, State, StateField, Transition};
use hoonoki::diagnostics::DiagnosticSet;
use hoonoki::graph::render_mermaid;
use hoonoki::inspect::render_inspect_summary;
use hoonoki::lint::lint;
use hoonoki::normalize::normalize;
use hoonoki::schema::{ConnectionLocality, PortDirection, Visibility};
use hoonoki::validate::{validate, validate_normalized};
use hoonoki::value::Value;

fn s(text: &str) -> String {
    text.to_string()
}

fn event(name: &str, visibility: Visibility, version: Option<&str>) -> Event {
    Event {
        name: s(name),
        fields: Vec::new(),
        visibility,
        version: version.map(s),
        deprecated: None,
        doc: None,
        kind: None,
        contracts: ContractBag::new(),
    }
}

fn port(name: &str, direction: PortDirection, event: &str) -> Port {
    Port { name: s(name), direction, event: s(event), contracts: ContractBag::new(), doc: None }
}

fn must_reply_port(name: &str, event: &str) -> Port {
    let mut p = port(name, PortDirection::Out, event);
    p.contracts.entries.push((s("must_reply"), Value::Bool(true)));
    p
}

fn transition(name: &str, on: &str, emits: &[&str], reads: &[&str], writes: &[&str]) -> Transition {
    Transition {
        name: s(name),
        on: s(on),
        emits: emits.iter().map(|x| s(x)).collect(),
        reads: reads.iter().map(|x| s(x)).collect(),
        writes: writes.iter().map(|x| s(x)).collect(),
        requires: Vec::new(),
        ensures: Vec::new(),
        doc: None,
    }
}

fn field(name: &str, ty: &str) -> StateField {
    StateField { name: s(name), field_type: s(ty), doc: None }
}

fn component(name: &str, uses: &[(&str, &str)], fields: Vec<StateField>, ports: Vec<Port>, transitions: Vec<Transition>) -> Component {
    Component {
        name: s(name),
        uses: uses.iter().map(|(n, c)| ComponentUse { name: s(n), component: s(c), doc: None }).collect(),
        ports,
        state: State { fields, doc: None },
        transitions,
        persistence: None,
        assumptions: Vec::new(),
        doc: None,
    }
}

fn connection(within: &str, from: &str, to: &str, locality: ConnectionLocality) -> Connection {
    Connection { within: s(within), from: s(from), to: s(to), locality, contracts: ContractBag::new(), doc: None }
}

fn spec(package: &str, events: Vec<Event>, components: Vec<Component>, connections: Vec<Connection>) -> Spec {
    Spec {
        version: s("0.1.0"),
        package: s(package),
        events,
        components,
        connections,
        types: Vec::new(),
        contracts: ContractBag::new(),
        assumptions: Vec::new(),
        imports: Vec::new(),
    }
}

fn codes(diagnostics: &DiagnosticSet) -> Vec<String> {
    diagnostics.iter().map(|d| d.code.clone()).collect()
}

/// The ping-pong example: a pinger and a ponger wired by a protocol
/// component across non-local boundaries.
fn pingpong() -> Spec {
    let mut timed_out = event("PingTimedOut", Visibility::Internal, None);
    timed_out.kind = Some(s("signal"));
    spec(
        "examples.pingpong",
        vec![
            event("StartPing", Visibility::Internal, None),
            event("PingRequested", Visibility::Public, Some("1.0.0")),
            event("PongReturned", Visibility::Public, Some("1.0.0")),
            timed_out,
        ],
        vec![
            component(
                "Pinger",
                &[],
                vec![field("outstanding", "bool")],
                vec![
                    port("start_in", PortDirection::In, "StartPing"),
                    port("ping_out", PortDirection::Out, "PingRequested"),
                    port("pong_in", PortDirection::In, "PongReturned"),
                    port("timeout_in", PortDirection::In, "PingTimedOut"),
                ],
                vec![
                    transition("send_ping", "StartPing", &["PingRequested"], &[], &["outstanding"]),
                    transition("on_pong", "PongReturned", &[], &["outstanding"], &["outstanding"]),
                    transition("timeout_ping", "PingTimedOut", &[], &[], &["outstanding"]),
                ],
            ),
            component(
                "Ponger",
                &[],
                vec![],
                vec![port("ping_in", PortDirection::In, "PingRequested"), port("pong_out", PortDirection::Out, "PongReturned")],
                vec![transition("reply", "PingRequested", &["PongReturned"], &[], &[])],
            ),
            component("PingProtocol", &[("pinger", "Pinger"), ("ponger", "Ponger")], vec![], vec![], vec![]),
        ],
        vec![
            connection("PingProtocol", "pinger.ping_out", "ponger.ping_in", ConnectionLocality::NonLocal),
            connection("PingProtocol", "ponger.pong_out", "pinger.pong_in", ConnectionLocality::NonLocal),
        ],
    )
}

/// The stubborn link example: a link that sends through a fair-loss link
/// and retries on a timer.
fn stubborn_link() -> Spec {
    spec(
        "examples.link",
        vec![
            event("SlSend", Visibility::Public, Some("1.0.0")),
            event("FllSend", Visibility::Public, Some("1.0.0")),
            event("FllDeliver", Visibility::Public, Some("1.0.0")),
            event("ArmTimer", Visibility::Internal, None),
            event("RetryTick", Visibility::Internal, None),
        ],
        vec![
            component(
                "StubbornLink",
                &[("fll", "FairLossLink"), ("timer", "RetryTimer")],
                vec![field("pending", "map<string, string>")],
                vec![
                    port("send_in", PortDirection::In, "SlSend"),
                    port("fll_send_out", PortDirection::Out, "FllSend"),
                    port("fll_deliver_in", PortDirection::In, "FllDeliver"),
                    port("arm_out", PortDirection::Out, "ArmTimer"),
                    port("tick_in", PortDirection::In, "RetryTick"),
                ],
                vec![
                    transition("send", "SlSend", &["FllSend", "ArmTimer"], &[], &["pending"]),
                    transition("retry", "RetryTick", &["FllSend", "ArmTimer"], &["pending"], &[]),
                    transition("deliver", "FllDeliver", &[], &["pending"], &[]),
                ],
            ),
            component(
                "FairLossLink",
                &[],
                vec![],
                vec![port("send_in", PortDirection::In, "FllSend"), port("deliver_out", PortDirection::Out, "FllDeliver")],
                vec![transition("transmit", "FllSend", &["FllDeliver"], &[], &[])],
            ),
            component(
                "RetryTimer",
                &[],
                vec![],
                vec![port("arm_in", PortDirection::In, "ArmTimer"), port("tick_out", PortDirection::Out, "RetryTick")],
                vec![transition("arm", "ArmTimer", &["RetryTick"], &[], &[])],
            ),
        ],
        vec![
            connection("StubbornLink", "self.fll_send_out", "fll.send_in", ConnectionLocality::NonLocal),
            connection("StubbornLink", "fll.deliver_out", "self.fll_deliver_in", ConnectionLocality::NonLocal),
            connection("StubbornLink", "self.arm_out", "timer.arm_in", ConnectionLocality::Local),
            connection("StubbornLink", "timer.tick_out", "self.tick_in", ConnectionLocality::Local),
        ],
    )
}

#[test]
fn normalizes_pingpong_and_tracks_non_local_connections() {
    let normalized = normalize(&pingpong()).expect("normalization should succeed");

    assert_eq!(normalized.events.len(), 4);
    assert_eq!(normalized.components.len(), 3);
    assert_eq!(normalized.non_local_connections.len(), 2);

    let protocol = normalized.components.get("examples.pingpong.PingProtocol").unwrap();
    assert!(protocol.uses.contains_key("pinger"));
    assert!(protocol.uses.contains_key("ponger"));
}

#[test]
fn validate_accepts_pingpong_fixture() {
    let diagnostics = validate(&pingpong());
    assert!(diagnostics.is_empty(), "expected no diagnostics, got {:?}", diagnostics);
}

#[test]
fn validate_rejects_public_event_without_version() {
    let source = spec("examples.inline", vec![event("PublicEvent", Visibility::Public, None)], vec![], vec![]);
    let diagnostics = validate(&source);
    assert!(diagnostics.iter().any(|diagnostic| diagnostic.code == "HNK2101"));
}

#[test]
fn validate_rejects_invalid_state_field_reference() {
    let source = spec(
        "examples.inline",
        vec![event("Tick", Visibility::Internal, None)],
        vec![component(
            "Watcher",
            &[],
            vec![],
            vec![port("timer", PortDirection::In, "Tick")],
            vec![transition("on_tick", "Tick", &[], &["missing"], &[])],
        )],
        vec![],
    );
    let diagnostics = validate(&source);
    assert!(diagnostics.iter().any(|diagnostic| diagnostic.code == "HNK2106"));
}

fn request_flow(with_reply: bool) -> Spec {
    let mut worker_ports = vec![port("ask_in", PortDirection::In, "Ask")];
    let mut worker_transitions = vec![transition("handle", "Ask", &[], &[], &[])];
    let mut connections = vec![connection("RequestFlow", "self.request_out", "worker.ask_in", ConnectionLocality::NonLocal)];
    if with_reply {
        worker_ports.push(port("ack_out", PortDirection::Out, "Ack"));
        worker_transitions = vec![transition("handle", "Ask", &["Ack"], &[], &[])];
        connections.push(connection("RequestFlow", "worker.ack_out", "self.reply_in", ConnectionLocality::NonLocal));
    }
    spec(
        "examples.inline",
        vec![event("Ask", Visibility::Public, Some("1.0.0")), event("Ack", Visibility::Internal, None)],
        vec![
            component("Worker", &[], vec![], worker_ports, worker_transitions),
            component(
                "RequestFlow",
                &[("worker", "Worker")],
                vec![],
                vec![must_reply_port("request_out", "Ask"), port("reply_in", PortDirection::In, "Ack")],
                vec![],
            ),
        ],
        connections,
    )
}

#[test]
fn validate_rejects_missing_reply_path_for_must_reply() {
    let diagnostics = validate(&request_flow(false));
    assert!(diagnostics.iter().any(|diagnostic| diagnostic.code == "HNK2111"));
}

#[test]
fn validate_accepts_declared_reply_path_for_must_reply() {
    let diagnostics = validate(&request_flow(true));
    assert!(diagnostics.is_empty(), "expected no diagnostics, got {:?}", diagnostics);
}

#[test]
fn validate_reports_exact_missing_reply_message() {
    let diagnostics = validate(&request_flow(false));
    let messages: Vec<String> = diagnostics.iter().map(|d| d.message.clone()).collect();
    assert_eq!(
        messages,
        vec![s(
            "Port `examples.inline.RequestFlow.request_out` declares `must_reply` for event `examples.inline.Ask`, but no reply path is declared back to that component."
        )]
    );
}

#[test]
fn validate_rejects_connection_direction_mismatch() {
    let source = spec(
        "examples.inline",
        vec![event("Tick", Visibility::Internal, None)],
        vec![
            component(
                "A",
                &[],
                vec![],
                vec![port("input", PortDirection::In, "Tick")],
                vec![transition("on_tick", "Tick", &[], &[], &[])],
            ),
            component("Wrapper", &[("a", "A")], vec![], vec![port("output", PortDirection::Out, "Tick")], vec![]),
        ],
        vec![connection("Wrapper", "a.input", "self.output", ConnectionLocality::Local)],
    );
    let diagnostics = validate(&source);
    assert!(diagnostics.iter().any(|diagnostic| diagnostic.code == "HNK2103"));
    assert!(diagnostics.iter().any(|diagnostic| diagnostic.code == "HNK2104"));
}

#[test]
fn validate_normalized_keeps_transition_resolution() {
    let normalized = normalize(&pingpong()).expect("normalization should succeed");
    let diagnostics = validate_normalized(&normalized);
    assert!(diagnostics.is_empty(), "expected no diagnostics, got {:?}", diagnostics);

    let pinger = normalized.components.get("examples.pingpong.Pinger").unwrap();
    let transition = pinger.transitions.get("timeout_ping").unwrap();
    assert_eq!(transition.on, "examples.pingpong.PingTimedOut");
    assert_eq!(transition.writes, vec!["outstanding".to_string()]);
}

#[test]
fn lint_warns_on_unused_state_and_unconnected_ports() {
    let source = spec(
        "examples.inline",
        vec![event("Tick", Visibility::Internal, None)],
        vec![component(
            "Watcher",
            &[],
            vec![field("never_used", "string")],
            vec![port("timer", PortDirection::In, "Tick")],
            vec![transition("on_tick", "Tick", &[], &[], &[])],
        )],
        vec![],
    );
    let normalized = normalize(&source).expect("normalization should succeed");
    let diagnostics = lint(&normalized);

    assert!(diagnostics.iter().any(|diagnostic| diagnostic.code == "HNK2201"));
    assert!(diagnostics.iter().any(|diagnostic| diagnostic.code == "HNK2202"));
}

#[test]
fn lint_warns_when_recovery_assumption_has_no_durable_state() {
    let mut store = component(
        "Store",
        &[],
        vec![field("token", "string")],
        vec![port("recover", PortDirection::In, "Recover")],
        vec![transition("on_recover", "Recover", &[], &["token"], &[])],
    );
    store.assumptions.push(Value::String(s("crash_recovery")));
    let source = spec("examples.inline", vec![event("Recover", Visibility::Internal, None)], vec![store], vec![]);
    let normalized = normalize(&source).expect("normalization should succeed");
    let diagnostics = lint(&normalized);

    assert!(diagnostics.iter().any(|diagnostic| diagnostic.code == "HNK2203"));
}

#[test]
fn lint_finds_recovery_in_nested_annotations_and_accepts_durable_state() {
    let mut store = component(
        "Store",
        &[],
        vec![field("token", "string")],
        vec![port("recover", PortDirection::In, "Recover")],
        vec![transition("on_recover", "Recover", &[], &["token"], &[])],
    );
    store.assumptions.push(Value::Mapping(vec![(
        Value::String(s("failures")),
        Value::Sequence(vec![Value::String(s("supports crash_recovery after restart"))]),
    )]));
    let source = spec("examples.inline", vec![event("Recover", Visibility::Internal, None)], vec![store], vec![]);
    let normalized = normalize(&source).expect("normalization should succeed");
    assert!(codes(&lint(&normalized)).contains(&s("HNK2203")));

    let mut durable = component(
        "Store",
        &[],
        vec![field("token", "string")],
        vec![port("recover", PortDirection::In, "Recover")],
        vec![transition("on_recover", "Recover", &[], &["token"], &[])],
    );
    durable.assumptions.push(Value::String(s("crash_recovery")));
    durable.persistence = Some(Persistence { durable: vec![s("token")], doc: None });
    let source = spec("examples.inline", vec![event("Recover", Visibility::Internal, None)], vec![durable], vec![]);
    let normalized = normalize(&source).expect("normalization should succeed");
    assert!(!codes(&lint(&normalized)).contains(&s("HNK2203")));
}

#[test]
fn lint_warnings_carry_suggestions_and_warning_severity() {
    let source = spec(
        "examples.inline",
        vec![event("Tick", Visibility::Internal, None)],
        vec![component(
            "Watcher",
            &[],
            vec![field("never_used", "string")],
            vec![port("timer", PortDirection::In, "Tick")],
            vec![transition("on_tick", "Tick", &[], &[], &[])],
        )],
        vec![],
    );
    let normalized = normalize(&source).expect("normalization should succeed");
    let diagnostics = lint(&normalized);
    assert_eq!(diagnostics.len(), 2);
    let first = diagnostics.get(0);
    assert_eq!(first.message, "Port `Watcher.timer` is not connected to any declared propagation path.");
    assert_eq!(first.suggestion.as_deref(), Some("Connect this port or remove it if the interaction is not intended yet."));
    assert!(diagnostics.iter().all(|d| d.severity == hoonoki::diagnostics::Severity::Warning));
    let second = diagnostics.get(1);
    assert_eq!(second.message, "State field `Watcher.never_used` is never referenced by any transition.");
}

#[test]
fn graph_renders_component_wiring_summary() {
    let normalized = normalize(&pingpong()).expect("normalization should succeed");
    let graph = render_mermaid(&normalized);

    assert!(graph.contains("flowchart LR"));
    assert!(graph.contains("component: examples.pingpong.PingProtocol"));
    assert!(graph.contains("non-local: examples.pingpong.PingRequested"));
}

#[test]
fn graph_renders_exact_lines() {
    let normalized = normalize(&pingpong()).expect("normalization should succeed");
    let graph = render_mermaid(&normalized);
    assert!(graph.starts_with("flowchart LR\n  subgraph component_examples_pingpong_PingProtocol[\"component: examples.pingpong.PingProtocol\"]\n"));
    assert!(graph.contains("    node_examples_pingpong_PingProtocol_pinger[\"pinger: examples.pingpong.Pinger\"]\n"));
    assert!(graph.contains(
        "  node_examples_pingpong_PingProtocol_pinger -->|\"non-local: examples.pingpong.PingRequested\"| node_examples_pingpong_PingProtocol_ponger\n"
    ));
    assert!(graph.contains("  %% transition adjacency summary\n"));
    assert!(graph.contains("  %% examples.pingpong.Pinger.on_pong: on examples.pingpong.PongReturned -> (no emits)\n"));
    assert!(graph.contains("  %% examples.pingpong.Ponger.reply: on examples.pingpong.PingRequested -> examples.pingpong.PongReturned\n"));
}

#[test]
fn inspect_summarizes_local_and_non_local_connections() {
    let normalized = normalize(&stubborn_link()).expect("normalization should succeed");
    let inspect = render_inspect_summary(&normalized);

    assert!(inspect.contains("non-local: 2"));
    assert!(inspect.contains("uses: fll: examples.link.FairLossLink, timer: examples.link.RetryTimer"));
    assert!(inspect.contains("wiring: 2 local, 2 non-local"));
}

#[test]
fn inspect_prints_counts_and_details() {
    let normalized = normalize(&stubborn_link()).expect("normalization should succeed");
    let inspect = render_inspect_summary(&normalized);
    assert!(inspect.starts_with("Spec version: 0.1.0\nEntry package: examples.link\nOverview: 5 events, 3 components, 4 connections\n"));
    assert!(inspect.contains("\nConnections:\n- local: 2\n- non-local: 2\n"));
    assert!(inspect.contains("- within examples.link.StubbornLink: self.fll_send_out -> fll.send_in\n"));
    assert!(inspect.contains("- examples.link.RetryTimer: 0 uses, 2 ports, 1 transitions, 0 state fields\n  uses: <none>\n"));
    assert!(inspect.contains("  durable state: <none>\n"));
    assert!(inspect.contains("  transition send: on examples.link.SlSend -> examples.link.FllSend, examples.link.ArmTimer\n"));
}

#[test]
fn validate_accepts_stubborn_link_fixture() {
    let diagnostics = validate(&stubborn_link());
    assert!(diagnostics.is_empty(), "expected no diagnostics, got {:?}", diagnostics);
}
