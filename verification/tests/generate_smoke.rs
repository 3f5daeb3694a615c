use hoonoki::ast::{Component, ComponentUse, Connection, ContractBag, Event, Port, Spec, State, StateField, Transition};
use hoonoki::ir::NormalizedSpec;
use hoonoki::normalize::normalize;
use hoonoki::report::{GenerateReport, GeneratedFileStatus, file_status, generate_summary};
use hoonoki::rust::{RenderedFile, module_name, render_contract_metadata, render_project_files, rust_type, rust_type_name};
use hoonoki::schema::{ConnectionLocality, PortDirection, Visibility};
use hoonoki::value::Value;

fn s(text: &str) -> String {
    text.to_string()
}

const HEADER: &str = "// header";

fn event(name: &str, visibility: Visibility) -> Event {
    Event {
        name: s(name),
        fields: Vec::new(),
        visibility,
        version: if visibility == Visibility::Public { Some(s("1.0.0")) } else { None },
        deprecated: None,
        doc: None,
        kind: None,
        contracts: ContractBag::new(),
    }
}

fn port(name: &str, direction: PortDirection, event: &str) -> Port {
    Port { name: s(name), direction, event: s(event), contracts: ContractBag::new(), doc: None }
}

fn transition(name: &str, on: &str, emits: &[&str]) -> Transition {
    Transition {
        name: s(name),
        on: s(on),
        emits: emits.iter().map(|x| s(x)).collect(),
        reads: Vec::new(),
        writes: Vec::new(),
        requires: Vec::new(),
        ensures: Vec::new(),
        doc: None,
    }
}

fn component(name: &str, uses: &[(&str, &str)], ports: Vec<Port>, transitions: Vec<Transition>) -> Component {
    Component {
        name: s(name),
        uses: uses.iter().map(|(n, c)| ComponentUse { name: s(n), component: s(c), doc: None }).collect(),
        ports,
        state: State { fields: Vec::new(), doc: None },
        transitions,
        persistence: None,
        assumptions: Vec::new(),
        doc: None,
    }
}

fn connection(within: &str, from: &str, to: &str, locality: ConnectionLocality) -> Connection {
    Connection { within: s(within), from: s(from), to: s(to), locality, contracts: ContractBag::new(), doc: None }
}

fn spec(package: &str, events: Vec<Event>, components: Vec<Component>, connections: Vec<Connection>) -> Spec {
    Spec {
        version: s("0.1.0"),
        package: s(package),
        events,
        components,
        connections,
        types: Vec::new(),
        contracts: ContractBag::new(),
        assumptions: Vec::new(),
        imports: Vec::new(),
    }
}

/// The stubborn link example.
fn stubborn_link_spec() -> NormalizedSpec {
    let mut stubborn = component(
        "StubbornLink",
        &[("fll", "FairLossLink"), ("timer", "RetryTimer")],
        vec![
            port("send_in", PortDirection::In, "SlSend"),
            port("fll_send_out", PortDirection::Out, "FllSend"),
            port("fll_deliver_in", PortDirection::In, "FllDeliver"),
            port("arm_out", PortDirection::Out, "ArmTimer"),
            port("tick_in", PortDirection::In, "RetryTick"),
        ],
        vec![
            transition("send", "SlSend", &["FllSend", "ArmTimer"]),
            transition("retry", "RetryTick", &["FllSend", "ArmTimer"]),
            transition("deliver", "FllDeliver", &[]),
        ],
    );
    stubborn.state.fields.push(StateField { name: s("pending"), field_type: s("map<string, string>"), doc: None });
    let source = spec(
        "examples.link",
        vec![
            event("SlSend", Visibility::Public),
            event("FllSend", Visibility::Public),
            event("FllDeliver", Visibility::Public),
            event("ArmTimer", Visibility::Internal),
            event("RetryTick", Visibility::Internal),
        ],
        vec![
            stubborn,
            component(
                "FairLossLink",
                &[],
                vec![port("send_in", PortDirection::In, "FllSend"), port("deliver_out", PortDirection::Out, "FllDeliver")],
                vec![transition("transmit", "FllSend", &["FllDeliver"])],
            ),
            component(
                "RetryTimer",
                &[],
                vec![port("arm_in", PortDirection::In, "ArmTimer"), port("tick_out", PortDirection::Out, "RetryTick")],
                vec![transition("arm", "ArmTimer", &["RetryTick"])],
            ),
        ],
        vec![
            connection("StubbornLink", "self.fll_send_out", "fll.send_in", ConnectionLocality::NonLocal),
            connection("StubbornLink", "fll.deliver_out", "self.fll_deliver_in", ConnectionLocality::NonLocal),
            connection("StubbornLink", "self.arm_out", "timer.arm_in", ConnectionLocality::Local),
            connection("StubbornLink", "timer.tick_out", "self.tick_in", ConnectionLocality::Local),
        ],
    );
    normalize(&source).expect("fixture should normalize")
}

fn file<'a>(files: &'a [RenderedFile], path: &str) -> &'a RenderedFile {
    files.iter().find(|f| f.relative_path == path).expect("file should be rendered")
}

#[test]
fn generates_scaffold_and_app_files() {
    let spec = stubborn_link_spec();
    let files = render_project_files(&spec, HEADER, true);

    assert_eq!(spec.components.len(), 3);
    assert_eq!(files.len(), 2 + 3 * 8);
    let paths: Vec<&str> = files.iter().map(|f| f.relative_path.as_str()).collect();
    assert!(paths.contains(&"src/generated/mod.rs"));
    assert!(paths.contains(&"src/generated/runtime_contracts.rs"));
    assert!(paths.contains(&"src/generated/stubborn_link/wiring.rs"));
    assert!(paths.contains(&"src/generated/fair_loss_link/wiring.rs"));
    assert!(paths.contains(&"src/app/stubborn_link.rs"));
}

#[test]
fn preserves_existing_app_scaffold_and_rewrites_generated_files() {
    let spec = stubborn_link_spec();
    let files = render_project_files(&spec, HEADER, true);
    let mut report = GenerateReport::new(spec.components.len());
    for f in &files {
        let status = file_status(f.preserve_existing, true);
        report.record(f.relative_path.clone(), status);
    }
    assert!(report.preserved_files.contains(&s("src/app/stubborn_link.rs")));
    assert!(report.updated_files.contains(&s("src/generated/stubborn_link/events.rs")));
    assert!(report.created_files.is_empty());
    assert_eq!(file_status(true, false), GeneratedFileStatus::Created);
    assert_eq!(file_status(false, false), GeneratedFileStatus::Created);
    assert_eq!(file_status(false, true), GeneratedFileStatus::Updated);
    assert_eq!(file_status(true, true), GeneratedFileStatus::Preserved);
    assert_eq!(
        generate_summary(&report, "/out"),
        "Generated 3 components into /out\nCreated files: 0\nUpdated files: 23\nPreserved files: 3"
    );
}

#[test]
fn generated_wiring_distinguishes_local_and_non_local_dispatch() {
    let spec = stubborn_link_spec();
    let files = render_project_files(&spec, HEADER, true);
    let wiring = &file(&files, "src/generated/stubborn_link/wiring.rs").contents;
    assert!(wiring.contains("on_non_local_dispatch"));
    assert!(wiring.contains("dispatch_non_local"));
    assert!(wiring.contains("dispatch_local"));
    assert!(wiring.contains("\"non_local\""));
    assert!(wiring.contains("\"local\""));
}

#[test]
fn generated_hooks_include_must_reply_and_timeout_boundaries() {
    let mut request_out = port("request_out", PortDirection::Out, "Ask");
    request_out.contracts.entries.push((s("must_reply"), Value::Bool(true)));
    request_out
        .contracts
        .entries
        .push((s("timeout"), Value::Mapping(vec![(Value::String(s("after")), Value::String(s("5s")))])));
    let source = spec(
        "examples.inline",
        vec![event("Ask", Visibility::Public), event("Reply", Visibility::Internal)],
        vec![
            component(
                "Worker",
                &[],
                vec![port("ask_in", PortDirection::In, "Ask"), port("reply_out", PortDirection::Out, "Reply")],
                vec![transition("answer", "Ask", &["Reply"])],
            ),
            component(
                "Requester",
                &[("worker", "Worker")],
                vec![request_out, port("reply_in", PortDirection::In, "Reply")],
                vec![],
            ),
        ],
        vec![
            connection("Requester", "self.request_out", "worker.ask_in", ConnectionLocality::NonLocal),
            connection("Requester", "worker.reply_out", "self.reply_in", ConnectionLocality::NonLocal),
        ],
    );
    let normalized = normalize(&source).expect("spec should normalize");
    let files = render_project_files(&normalized, HEADER, true);
    let wiring = &file(&files, "src/generated/requester/wiring.rs").contents;
    assert!(wiring.contains("must_reply_hooks.on_request_started"));
    assert!(wiring.contains("must_reply_hooks.on_reply_missing"));
    assert!(wiring.contains("timeout_hooks.on_timeout_window_started"));
    assert!(wiring.contains("timeout_hooks.on_timeout_contract_violation"));
    assert!(wiring.contains("must_reply_hooks.on_reply_observed"));
    assert!(wiring.contains("        self.timeout_hooks.on_timeout_window_started(&meta_examples_inline_ask, \"5s\");\n"));

    let request = normalized.components.get("examples.inline.Requester").unwrap().ports.get("request_out").unwrap();
    assert_eq!(render_contract_metadata(request), "Some((true, \"5s\"))");
    let reply = normalized.components.get("examples.inline.Requester").unwrap().ports.get("reply_in").unwrap();
    assert_eq!(render_contract_metadata(reply), "None");
}

#[test]
fn generated_runtime_contracts_expose_locality_metadata() {
    let spec = stubborn_link_spec();
    let files = render_project_files(&spec, HEADER, true);
    let runtime_contracts = &file(&files, "src/generated/runtime_contracts.rs").contents;
    assert!(runtime_contracts.contains("pub trait RuntimeHooks"));
    assert!(runtime_contracts.contains("pub trait MustReplyHooks"));
    assert!(runtime_contracts.contains("pub trait TimeoutHooks"));
    assert!(runtime_contracts.contains("pub locality: &'static str"));
    assert!(runtime_contracts.starts_with("// header\n\n#[derive(Debug, Clone)]\npub struct HookMetadata {\n"));
}

#[test]
fn app_scaffold_is_optional_and_kept() {
    let spec = stubborn_link_spec();
    let without = render_project_files(&spec, HEADER, false);
    assert_eq!(without.len(), 2 + 3 * 7);
    assert!(without.iter().all(|f| !f.preserve_existing));
    let with = render_project_files(&spec, HEADER, true);
    let app = file(&with, "src/app/stubborn_link.rs");
    assert!(app.preserve_existing);
    assert!(app.contents.starts_with(
        "// header\n\nuse crate::generated::stubborn_link::hooks::StubbornLinkHandler;\nuse crate::generated::stubborn_link::state::StubbornLinkState;\n\npub struct StubbornLinkApp;\n"
    ));
    assert!(app.contents.contains("    fn handle_send(&mut self, _state: &mut StubbornLinkState) {\n"));
}

#[test]
fn generated_modules_name_components_in_snake_case() {
    let spec = stubborn_link_spec();
    let files = render_project_files(&spec, HEADER, true);
    assert_eq!(
        file(&files, "src/generated/mod.rs").contents,
        "// header\n\npub mod runtime_contracts;\npub mod fair_loss_link;\npub mod retry_timer;\npub mod stubborn_link;\n"
    );
    let state = &file(&files, "src/generated/stubborn_link/state.rs").contents;
    assert_eq!(
        *state,
        "// header\n\n#[derive(Debug, Clone, Default)]\npub struct StubbornLinkState {\n    pub pending: std::collections::BTreeMap<String, String>,\n}\n"
    );
    let ports = &file(&files, "src/generated/stubborn_link/ports.rs").contents;
    assert!(ports.contains("pub const COMPONENT_NAME: &str = \"examples.link.StubbornLink\";\n\n// inbound ports\n"));
    assert!(ports.contains("pub const PORT_SEND_IN: &str = \"send_in\";\n"));
    assert!(ports.contains("// non-local: self.fll_send_out -> fll.send_in\n"));
    let events = &file(&files, "src/generated/retry_timer/events.rs").contents;
    assert_eq!(
        *events,
        "// header\n\n#[derive(Debug, Clone, Default)]\npub struct ArmTimer {\n    pub _placeholder: (),\n}\n\n#[derive(Debug, Clone, Default)]\npub struct RetryTick {\n    pub _placeholder: (),\n}\n\n"
    );
    let persistence = &file(&files, "src/generated/retry_timer/persistence.rs").contents;
    assert!(persistence.ends_with("// no durable state declared\n"));
}

#[test]
fn name_helpers() {
    assert_eq!(module_name("StubbornLink"), "stubborn_link");
    assert_eq!(module_name("HTTPServer"), "httpserver");
    assert_eq!(module_name("examples.link.FllSend"), "examples_link_fll_send");
    assert_eq!(module_name("send_in"), "send_in");
    assert_eq!(module_name("a--b"), "a_b");
    assert_eq!(module_name("v2Link"), "v2_link");
    assert_eq!(rust_type_name("examples.link.Ack"), "examples_link_Ack");
    assert_eq!(rust_type("map<string, string>"), "std::collections::BTreeMap<String, String>");
    assert_eq!(rust_type("u64"), "u64");
    assert_eq!(rust_type(" bool "), "bool");
    assert_eq!(rust_type("i64"), "i64");
    assert_eq!(rust_type("string"), "String");
    assert_eq!(rust_type("float"), "String");
}
