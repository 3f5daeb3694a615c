use hoonoki::ast::{Component, ComponentUse, Connection, ContractBag, Event, Port, Spec, State, StateField, Transition};
use hoonoki::parse::{
    YamlError, classify_parse_error, expected_fields, is_valid_package_segment, parse_spec, quoted_segment_after, read_failure,
    validate_package_name,
};
use hoonoki::schema::{ConnectionLocality, PortDirection, Visibility};

fn s(text: &str) -> String {
    text.to_string()
}

fn event(name: &str, visibility: Visibility, version: Option<&str>, kind: Option<&str>) -> Event {
    Event {
        name: s(name),
        fields: Vec::new(),
        visibility,
        version: version.map(s),
        deprecated: None,
        doc: None,
        kind: kind.map(s),
        contracts: ContractBag::new(),
    }
}

fn port(name: &str, direction: PortDirection, event: &str) -> Port {
    Port { name: s(name), direction, event: s(event), contracts: ContractBag::new(), doc: None }
}

fn transition(name: &str, on: &str, reads: &[&str]) -> Transition {
    Transition {
        name: s(name),
        on: s(on),
        emits: Vec::new(),
        reads: reads.iter().map(|x| s(x)).collect(),
        writes: Vec::new(),
        requires: Vec::new(),
        ensures: Vec::new(),
        doc: None,
    }
}

fn component(name: &str, uses: &[(&str, &str)], fields: &[&str], ports: Vec<Port>, transitions: Vec<Transition>) -> Component {
    Component {
        name: s(name),
        uses: uses.iter().map(|(n, c)| ComponentUse { name: s(n), component: s(c), doc: None }).collect(),
        ports,
        state: State {
            fields: fields.iter().map(|f| StateField { name: s(f), field_type: s("string"), doc: None }).collect(),
            doc: None,
        },
        transitions,
        persistence: None,
        assumptions: Vec::new(),
        doc: None,
    }
}

fn spec(package: &str, events: Vec<Event>, components: Vec<Component>, connections: Vec<Connection>) -> Spec {
    Spec {
        version: s("0.1.0"),
        package: s(package),
        events,
        components,
        connections,
        types: Vec::new(),
        contracts: ContractBag::new(),
        assumptions: Vec::new(),
        imports: Vec::new(),
    }
}

fn yaml_error(message: &str, line: usize, column: usize) -> YamlError {
    YamlError { message: s(message), line: Some(line), column: Some(column) }
}

/// The ping-pong example as the YAML reader hands it over.
fn pingpong() -> Spec {
    spec(
        "examples.pingpong",
        vec![
            event("StartPing", Visibility::Internal, None, None),
            event("PingRequested", Visibility::Public, Some("1.0.0"), None),
            event("PongReturned", Visibility::Public, Some("1.0.0"), None),
            event("PingTimedOut", Visibility::Internal, None, Some("signal")),
        ],
        vec![
            component(
                "Pinger",
                &[],
                &["outstanding"],
                vec![port("start_in", PortDirection::In, "StartPing"), port("ping_out", PortDirection::Out, "PingRequested")],
                vec![],
            ),
            component("Ponger", &[], &[], vec![port("ping_in", PortDirection::In, "PingRequested")], vec![]),
            component("PingProtocol", &[("pinger", "Pinger"), ("ponger", "Ponger")], &[], vec![], vec![]),
        ],
        vec![
            Connection {
                within: s("PingProtocol"),
                from: s("pinger.ping_out"),
                to: s("ponger.ping_in"),
                locality: ConnectionLocality::NonLocal,
                contracts: ContractBag::new(),
                doc: None,
            },
            Connection {
                within: s("PingProtocol"),
                from: s("ponger.pong_out"),
                to: s("pinger.pong_in"),
                locality: ConnectionLocality::NonLocal,
                contracts: ContractBag::new(),
                doc: None,
            },
        ],
    )
}

#[test]
fn parses_pingpong_fixture() {
    let spec = parse_spec(Some("examples/pingpong/hnk.yaml"), Ok(pingpong())).expect("fixture should parse");

    assert_eq!(spec.version, "0.1.0");
    assert_eq!(spec.package, "examples.pingpong");
    assert_eq!(spec.events.len(), 4);
    assert_eq!(spec.components.len(), 3);
    assert_eq!(spec.connections.len(), 2);
    assert!(spec.components.iter().any(|component| component.name == "PingProtocol"));

    let timeout_event = spec.events.iter().find(|event| event.name == "PingTimedOut").expect("timeout event should exist");
    assert_eq!(timeout_event.kind.as_deref(), Some("signal"));
}

#[test]
fn parse_from_string_preserves_uses_and_locality() {
    let source = spec(
        "examples.inline",
        vec![event("TimeoutFired", Visibility::Internal, None, None)],
        vec![
            component("Timer", &[], &[], vec![port("timeout_out", PortDirection::Out, "TimeoutFired")], vec![]),
            component(
                "Watcher",
                &[("timer", "Timer")],
                &["deadline"],
                vec![port("timeout_in", PortDirection::In, "TimeoutFired")],
                vec![transition("observe_timeout", "TimeoutFired", &["deadline"])],
            ),
        ],
        vec![Connection {
            within: s("Watcher"),
            from: s("timer.timeout_out"),
            to: s("self.timeout_in"),
            locality: ConnectionLocality::Local,
            contracts: ContractBag::new(),
            doc: None,
        }],
    );
    let spec: Spec = parse_spec(None, Ok(source)).expect("inline spec should parse");
    assert_eq!(spec.components[1].uses[0].name, "timer");
    assert_eq!(spec.connections[0].within, "Watcher");
}

#[test]
fn reports_missing_required_field_as_diagnostic() {
    let error = yaml_error("components[0]: missing field `transitions` at line 7 column 5", 7, 5);
    let diagnostics = parse_spec(None, Err(error)).expect_err("spec should fail");
    let diagnostic = diagnostics.iter().next().expect("diagnostic should exist");

    assert_eq!(diagnostic.code, "HNK1001");
    assert!(diagnostic.message.contains("required field `transitions` is missing"));
}

#[test]
fn reports_legacy_port_events_field_with_migration_hint() {
    let error = yaml_error(
        "components[0].ports[0]: unknown field `events`, expected one of `name`, `direction`, `event`, `contracts`, `doc` at line 15 column 9",
        15,
        9,
    );
    let diagnostics = parse_spec(None, Err(error)).expect_err("spec should fail");
    let diagnostic = diagnostics.iter().next().expect("diagnostic should exist");

    assert_eq!(diagnostic.code, "HNK1002");
    assert!(diagnostic.message.contains("field `events` is not allowed"));
    assert!(diagnostic
        .suggestion
        .as_deref()
        .is_some_and(|suggestion| suggestion.contains("Replace `events: [MyEvent]` with `event: MyEvent`")));
}

#[test]
fn reports_legacy_actor_field_as_unknown() {
    let error = yaml_error(
        "unknown field `actors`, expected one of `version`, `package`, `imports`, `types`, `contracts`, `assumptions`, `events`, `components`, `connections` at line 8 column 1",
        8,
        1,
    );
    let diagnostics = parse_spec(None, Err(error)).expect_err("spec should fail");
    let diagnostic = diagnostics.iter().next().expect("diagnostic should exist");
    assert_eq!(diagnostic.code, "HNK1002");
    assert!(diagnostic.message.contains("field `actors` is not allowed"));
}

#[test]
fn reports_invalid_type_with_shape_hint() {
    let error = yaml_error("components[0].ports: invalid type: string \"wrong\", expected a sequence at line 12 column 12", 12, 12);
    let diagnostics = parse_spec(None, Err(error)).expect_err("spec should fail");
    let diagnostic = diagnostics.iter().next().expect("diagnostic should exist");

    assert_eq!(diagnostic.code, "HNK1003");
    assert!(diagnostic.message.contains("wrong YAML type"));
}

#[test]
fn rejects_invalid_package_name() {
    let source = spec("Bad-Package", vec![], vec![], vec![]);
    let diagnostics = parse_spec(None, Ok(source)).expect_err("spec should fail");
    let diagnostic = diagnostics.iter().next().expect("diagnostic should exist");
    assert_eq!(diagnostic.code, "HNK1004");
    assert!(diagnostic.message.contains("package name `Bad-Package` is invalid"));
}

#[test]
fn unknown_field_suggestion_lists_supported_fields() {
    let diagnostic = classify_parse_error(
        Some("spec.yaml"),
        "events[0]: unknown field `colour`, expected one of `name`, `fields`.",
        Some(3),
        Some(5),
    );
    assert_eq!(diagnostic.code, "HNK1002");
    assert_eq!(diagnostic.message, "The field `colour` is not allowed in this part of the IDL.");
    assert_eq!(
        diagnostic.suggestion.as_deref(),
        Some("Remove `colour` or rename it to one of the supported fields: `name`, `fields`.")
    );
    let location = diagnostic.location.expect("location should be kept");
    assert_eq!(location.path.as_deref(), Some("spec.yaml"));
    assert_eq!((location.line, location.column), (3, 5));
}

#[test]
fn unknown_field_without_expected_list() {
    let diagnostic = classify_parse_error(None, "unknown field `colour`", None, None);
    assert_eq!(
        diagnostic.suggestion.as_deref(),
        Some("Remove `colour` or rename it to a valid field defined by the Hoonoki IDL spec.")
    );
    assert!(diagnostic.location.is_none());
}

#[test]
fn missing_field_suggestion_names_the_field() {
    let diagnostic = classify_parse_error(None, "missing field `on` at line 2 column 3", Some(2), None);
    assert_eq!(diagnostic.message, "A required field `on` is missing from this IDL block.");
    assert_eq!(
        diagnostic.suggestion.as_deref(),
        Some("Add a `on` field to this mapping. If this block is a component, event, or transition, check the Hoonoki spec for the required shape.")
    );
    assert!(diagnostic.location.is_none());
}

#[test]
fn other_reader_errors_fall_back_to_generic_parse_error() {
    let diagnostic = classify_parse_error(None, "did not find expected key", Some(1), Some(1));
    assert_eq!(diagnostic.code, "HNK1000");
    assert_eq!(diagnostic.message, "The IDL could not be parsed as valid Hoonoki YAML: did not find expected key");
    assert_eq!(diagnostic.suggestion.as_deref(), Some("Check indentation, field names, and required fields near this location."));
}

#[test]
fn quoted_segment_needs_a_backquote_right_after_the_prefix() {
    assert_eq!(quoted_segment_after("x: missing field `a` at", "missing field "), Some(s("a")));
    assert_eq!(quoted_segment_after("missing field a", "missing field "), None);
    assert_eq!(quoted_segment_after("missing field `unterminated", "missing field "), None);
    assert_eq!(quoted_segment_after("nothing here", "missing field "), None);
    assert_eq!(quoted_segment_after("unknown field ``", "unknown field "), Some(s("")));
}

#[test]
fn expected_fields_trims_and_drops_trailing_periods() {
    assert_eq!(expected_fields("unknown field `x`, expected one of `a`, `b`.."), Some(s("`a`, `b`")));
    assert_eq!(expected_fields("expected one of   `a` "), Some(s("`a`")));
    assert_eq!(expected_fields("unknown field `x`"), None);
}

#[test]
fn package_names_are_lower_snake_segments() {
    assert!(validate_package_name(None, "std.link").is_ok());
    assert!(validate_package_name(None, "examples.broadcast").is_ok());
    assert!(validate_package_name(None, "a1_b.c2").is_ok());
    assert!(validate_package_name(None, "").is_err());
    assert!(validate_package_name(None, "std..link").is_err());
    assert!(validate_package_name(None, "std.").is_err());
    assert!(validate_package_name(None, "1std").is_err());
    assert!(validate_package_name(None, "std.Link").is_err());
    let diagnostics = validate_package_name(Some("p.yaml"), "Bad").expect_err("invalid");
    let d = diagnostics.iter().next().unwrap();
    assert_eq!(
        d.message,
        "The package name `Bad` is invalid. Hoonoki packages must use lower_snake segments separated by dots."
    );
    assert_eq!(d.suggestion.as_deref(), Some("Use names like `std.link` or `examples.broadcast`."));
    assert!(d.location.is_none());
}

#[test]
fn package_segments() {
    assert!(is_valid_package_segment("link"));
    assert!(is_valid_package_segment("l2_x"));
    assert!(!is_valid_package_segment(""));
    assert!(!is_valid_package_segment("_x"));
    assert!(!is_valid_package_segment("x-y"));
}

#[test]
fn unreadable_file_is_reported() {
    let diagnostics = read_failure("missing.yaml", "No such file or directory (os error 2)");
    let d = diagnostics.iter().next().unwrap();
    assert_eq!(d.code, "HNK1000");
    assert_eq!(d.message, "Failed to read the IDL file: No such file or directory (os error 2)");
    assert_eq!(d.suggestion.as_deref(), Some("Check that the file exists and is readable."));
}
