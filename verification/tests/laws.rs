use hoonoki::ast::{Component, Connection, ContractBag, Event, Port, Spec, State};
use hoonoki::graph::{edges_resolve, render_mermaid};
use hoonoki::loader::{BundleLoader, LoadRequest, LoadStep};
use hoonoki::normalize::normalize;
use hoonoki::rust::module_name;
use hoonoki::schema::{ConnectionLocality, PortDirection, Visibility};
use hoonoki::validate::{connections_resolve, endpoints_resolve, validate, validate_normalized};

fn s(text: &str) -> String {
    text.to_string()
}

fn event(name: &str, kind: Option<&str>) -> Event {
    Event {
        name: s(name),
        fields: Vec::new(),
        visibility: Visibility::Public,
        version: None,
        deprecated: None,
        doc: None,
        kind: kind.map(s),
        contracts: ContractBag::new(),
    }
}

fn port(name: &str, direction: PortDirection, event: &str) -> Port {
    Port { name: s(name), direction, event: s(event), contracts: ContractBag::new(), doc: None }
}

fn component(name: &str, ports: Vec<Port>) -> Component {
    Component {
        name: s(name),
        uses: Vec::new(),
        ports,
        state: State { fields: Vec::new(), doc: None },
        transitions: Vec::new(),
        persistence: None,
        assumptions: Vec::new(),
        doc: None,
    }
}

fn spec(package: &str, imports: &[&str], events: Vec<Event>, components: Vec<Component>, connections: Vec<Connection>) -> Spec {
    Spec {
        version: s("0.1.0"),
        package: s(package),
        events,
        components,
        connections,
        types: Vec::new(),
        contracts: ContractBag::new(),
        assumptions: Vec::new(),
        imports: imports.iter().map(|x| s(x)).collect(),
    }
}

fn codes_and_messages(source: &Spec) -> Vec<(String, String)> {
    validate(source).iter().map(|d| (d.code.clone(), d.message.clone())).collect()
}

#[test]
fn module_names_are_idempotent() {
    for name in ["StubbornLink", "HTTPServer", "examples.link.FllSend", "a--b", "v2Link", "_Lead", "x__y", "Ünïcode Name"] {
        let once = module_name(name);
        assert_eq!(module_name(&once), once);
    }
    assert_eq!(module_name("Ünïcode Name"), "_n_code_name");
}

#[test]
fn built_components_list_port_events_sorted_and_once() {
    let source = spec(
        "examples.inline",
        &[],
        vec![event("Zeta", None), event("Alpha", None)],
        vec![component(
            "Node",
            vec![
                port("z_in", PortDirection::In, "Zeta"),
                port("a_in", PortDirection::In, "Alpha"),
                port("z_again", PortDirection::In, "Zeta"),
                port("a_out", PortDirection::Out, "Alpha"),
            ],
        )],
        vec![],
    );
    let normalized = normalize(&source).expect("spec normalizes");
    let node = normalized.components.get("examples.inline.Node").expect("component is stored under its qualified name");
    assert_eq!(node.qualified_name, "examples.inline.Node");
    assert_eq!(node.inbound_events, vec![s("examples.inline.Alpha"), s("examples.inline.Zeta")]);
    assert_eq!(node.outbound_events, vec![s("examples.inline.Alpha")]);
    let port = node.ports.get("z_again").expect("port is stored under its name");
    assert_eq!(port.name, "z_again");
    assert_eq!(port.component_name, "examples.inline.Node");
    assert_eq!(port.qualified_name, "examples.inline.Node.z_again");
    assert_eq!(port.event, "examples.inline.Zeta");
}

#[test]
fn validation_ignores_event_kinds() {
    let with_kind = spec("examples.inline", &[], vec![event("Ping", Some("request")), event("Pong", Some("reply"))], vec![], vec![]);
    let without_kind = spec("examples.inline", &[], vec![event("Ping", None), event("Pong", Some("other"))], vec![], vec![]);
    let a = codes_and_messages(&with_kind);
    let b = codes_and_messages(&without_kind);
    assert_eq!(a.len(), 2);
    assert_eq!(a, b);
}

#[test]
fn validation_needs_only_resolving_endpoints() {
    let source = spec(
        "examples.inline",
        &[],
        vec![event("Tick", None)],
        vec![component("A", vec![port("out", PortDirection::Out, "Tick"), port("input", PortDirection::In, "Tick")])],
        vec![Connection {
            within: s("A"),
            from: s("self.out"),
            to: s("self.input"),
            locality: ConnectionLocality::Local,
            contracts: ContractBag::new(),
            doc: None,
        }],
    );
    let normalized = normalize(&source).expect("spec normalizes");
    assert!(connections_resolve(&normalized));
    assert!(endpoints_resolve(&normalized));
    let mut broken = normalize(&source).expect("spec normalizes");
    broken.connections[0].within_component = s("examples.inline.Missing");
    assert!(!connections_resolve(&broken));
    assert!(endpoints_resolve(&broken));
    let codes: Vec<String> = validate_normalized(&broken).iter().map(|d| d.code.clone()).collect();
    assert_eq!(codes, vec![s("HNK2101")]);
    broken.connections[0].to_port = s("nowhere");
    assert!(!endpoints_resolve(&broken));
}

#[test]
fn loaded_bundle_ends_with_the_entry_and_graphs_every_file() {
    let files = |p: &str| match p {
        "/r/a.yaml" => Some(spec("x.a", &["b.yaml", "c.yaml"], vec![], vec![], vec![])),
        "/r/b.yaml" => Some(spec("x.b", &["c.yaml"], vec![], vec![], vec![])),
        "/r/c.yaml" => Some(spec("x.c", &[], vec![], vec![], vec![])),
        _ => None,
    };
    let canonical = |p: &str| -> Result<String, String> {
        if files(p).is_some() {
            Ok(p.to_string())
        } else {
            Err(s("missing"))
        }
    };
    let mut step = BundleLoader::start("/r/a.yaml", "/r", Ok(s("/r")), canonical("/r/a.yaml"));
    let bundle = loop {
        step = match step {
            LoadStep::Done(bundle) => break bundle,
            LoadStep::Failed(_) => panic!("bundle should load"),
            LoadStep::Next(loader, LoadRequest::Read(path)) => loader.loaded(Ok(files(&path).expect("requested file exists"))),
            LoadStep::Next(loader, LoadRequest::Resolve(_file, import)) => loader.resolved(canonical(&format!("/r/{}", import))),
        }
    };
    assert_eq!(bundle.files.last().map(|f| f.path.as_str()), Some("/r/a.yaml"));
    assert_eq!(bundle.import_graph.len(), bundle.files.len());
    for file in &bundle.files {
        assert!(file.path.starts_with("/r/"));
        assert_eq!(file.package, file.spec.package);
        let entry = bundle.import_graph.iter().find(|(k, _)| *k == file.path).expect("graph has the file");
        assert_eq!(entry.1, file.imports);
    }
}

#[test]
fn graph_needs_only_resolving_edge_sources() {
    let source = spec(
        "examples.inline",
        &[],
        vec![event("Tick", None)],
        vec![component("A", vec![port("out", PortDirection::Out, "Tick"), port("input", PortDirection::In, "Tick")])],
        vec![Connection {
            within: s("A"),
            from: s("self.out"),
            to: s("self.input"),
            locality: ConnectionLocality::Local,
            contracts: ContractBag::new(),
            doc: None,
        }],
    );
    let mut normalized = normalize(&source).expect("spec normalizes");
    assert!(edges_resolve(&normalized));
    normalized.connections[0].to_port = s("nowhere");
    assert!(!connections_resolve(&normalized));
    assert!(edges_resolve(&normalized));
    let graph = render_mermaid(&normalized);
    assert!(graph.contains("  node_examples_inline_A_self -->|\"local: examples.inline.Tick\"| node_examples_inline_A_self\n"));
    normalized.connections[0].from_port = s("nowhere");
    assert!(!edges_resolve(&normalized));
}
