use hoonoki::ast::{Component, ComponentUse, Connection, ContractBag, Event, Port, Spec, State, Transition};
use hoonoki::bundle::BundleAst;
use hoonoki::diagnostics::DiagnosticSet;
use hoonoki::graph::render_mermaid;
use hoonoki::inspect::render_inspect_summary;
use hoonoki::loader::{BundleLoader, LoadRequest, LoadStep, is_under, path_less, relative_to};
use hoonoki::normalize::normalize_bundle;
use hoonoki::report::{GenerateReport, file_status};
use hoonoki::rust::render_project_files;
use hoonoki::schema::{ConnectionLocality, PortDirection, Visibility};
use hoonoki::validate::validate_normalized;

fn s(text: &str) -> String {
    text.to_string()
}

fn event(name: &str, visibility: Visibility) -> Event {
    Event {
        name: s(name),
        fields: Vec::new(),
        visibility,
        version: if visibility == Visibility::Public { Some(s("1.0.0")) } else { None },
        deprecated: None,
        doc: None,
        kind: None,
        contracts: ContractBag::new(),
    }
}

fn port(name: &str, direction: PortDirection, event: &str) -> Port {
    Port { name: s(name), direction, event: s(event), contracts: ContractBag::new(), doc: None }
}

fn transition(name: &str, on: &str, emits: &[&str]) -> Transition {
    Transition {
        name: s(name),
        on: s(on),
        emits: emits.iter().map(|x| s(x)).collect(),
        reads: Vec::new(),
        writes: Vec::new(),
        requires: Vec::new(),
        ensures: Vec::new(),
        doc: None,
    }
}

fn component(name: &str, uses: &[(&str, &str)], ports: Vec<Port>, transitions: Vec<Transition>) -> Component {
    Component {
        name: s(name),
        uses: uses.iter().map(|(n, c)| ComponentUse { name: s(n), component: s(c), doc: None }).collect(),
        ports,
        state: State { fields: Vec::new(), doc: None },
        transitions,
        persistence: None,
        assumptions: Vec::new(),
        doc: None,
    }
}

fn connection(within: &str, from: &str, to: &str, locality: ConnectionLocality) -> Connection {
    Connection { within: s(within), from: s(from), to: s(to), locality, contracts: ContractBag::new(), doc: None }
}

fn spec(package: &str, imports: &[&str], events: Vec<Event>, components: Vec<Component>, connections: Vec<Connection>) -> Spec {
    Spec {
        version: s("0.1.0"),
        package: s(package),
        events,
        components,
        connections,
        types: Vec::new(),
        contracts: ContractBag::new(),
        assumptions: Vec::new(),
        imports: imports.iter().map(|x| s(x)).collect(),
    }
}

const ROOT: &str = "/repo";

/// The best-effort broadcast example and the standard components it
/// imports, by canonical path.
fn broadcast_file(path: &str) -> Option<Spec> {
    match path {
        "/repo/examples/broadcast/best_effort_broadcast.yml" => Some(spec(
            "examples.broadcast",
            &["std/link/perfect_link.hnk.yaml"],
            vec![event("BebBroadcast", Visibility::Public), event("BebDeliver", Visibility::Public)],
            vec![component(
                "BestEffortBroadcast",
                &[("pl", "std.link.PerfectLink")],
                vec![
                    port("broadcast_in", PortDirection::In, "BebBroadcast"),
                    port("deliver_out", PortDirection::Out, "BebDeliver"),
                    port("pl_send_out", PortDirection::Out, "std.link.LinkSend"),
                    port("pl_deliver_in", PortDirection::In, "std.link.LinkDeliver"),
                ],
                vec![
                    transition("broadcast", "BebBroadcast", &["std.link.LinkSend"]),
                    transition("deliver", "std.link.LinkDeliver", &["BebDeliver"]),
                ],
            )],
            vec![
                connection("BestEffortBroadcast", "self.pl_send_out", "pl.send_in", ConnectionLocality::NonLocal),
                connection("BestEffortBroadcast", "pl.deliver_out", "self.pl_deliver_in", ConnectionLocality::NonLocal),
            ],
        )),
        "/repo/std/link/perfect_link.hnk.yaml" => Some(spec(
            "std.link",
            &["std/link/stubborn_link.hnk.yaml"],
            vec![event("LinkSend", Visibility::Public), event("LinkDeliver", Visibility::Public)],
            vec![component(
                "PerfectLink",
                &[("sl", "StubbornLink")],
                vec![
                    port("send_in", PortDirection::In, "LinkSend"),
                    port("deliver_out", PortDirection::Out, "LinkDeliver"),
                    port("sl_send_out", PortDirection::Out, "SlSend"),
                    port("sl_deliver_in", PortDirection::In, "SlDeliver"),
                ],
                vec![transition("send", "LinkSend", &["SlSend"]), transition("deliver", "SlDeliver", &["LinkDeliver"])],
            )],
            vec![
                connection("PerfectLink", "self.sl_send_out", "sl.send_in", ConnectionLocality::Local),
                connection("PerfectLink", "sl.deliver_out", "self.sl_deliver_in", ConnectionLocality::Local),
            ],
        )),
        "/repo/std/link/stubborn_link.hnk.yaml" => Some(spec(
            "std.link",
            &["std/link/fair_loss_link.hnk.yaml", "std/time/timer.hnk.yaml"],
            vec![event("SlSend", Visibility::Public), event("SlDeliver", Visibility::Public)],
            vec![component(
                "StubbornLink",
                &[("fll", "FairLossLink"), ("timer", "std.time.RetryTimer")],
                vec![
                    port("send_in", PortDirection::In, "SlSend"),
                    port("deliver_out", PortDirection::Out, "SlDeliver"),
                    port("fll_send_out", PortDirection::Out, "FllSend"),
                    port("fll_deliver_in", PortDirection::In, "FllDeliver"),
                    port("arm_out", PortDirection::Out, "std.time.ArmTimer"),
                    port("tick_in", PortDirection::In, "std.time.RetryTick"),
                ],
                vec![
                    transition("send", "SlSend", &["FllSend", "std.time.ArmTimer"]),
                    transition("retry", "std.time.RetryTick", &["FllSend"]),
                    transition("deliver", "FllDeliver", &["SlDeliver"]),
                ],
            )],
            vec![
                connection("StubbornLink", "self.fll_send_out", "fll.send_in", ConnectionLocality::NonLocal),
                connection("StubbornLink", "fll.deliver_out", "self.fll_deliver_in", ConnectionLocality::NonLocal),
                connection("StubbornLink", "self.arm_out", "timer.arm_in", ConnectionLocality::Local),
                connection("StubbornLink", "timer.tick_out", "self.tick_in", ConnectionLocality::Local),
            ],
        )),
        "/repo/std/link/fair_loss_link.hnk.yaml" => Some(spec(
            "std.link",
            &[],
            vec![event("FllSend", Visibility::Public), event("FllDeliver", Visibility::Public)],
            vec![component(
                "FairLossLink",
                &[],
                vec![port("send_in", PortDirection::In, "FllSend"), port("deliver_out", PortDirection::Out, "FllDeliver")],
                vec![transition("transmit", "FllSend", &["FllDeliver"])],
            )],
            vec![],
        )),
        "/repo/std/time/timer.hnk.yaml" => Some(spec(
            "std.time",
            &[],
            vec![event("ArmTimer", Visibility::Internal), event("RetryTick", Visibility::Internal)],
            vec![component(
                "RetryTimer",
                &[],
                vec![port("arm_in", PortDirection::In, "ArmTimer"), port("tick_out", PortDirection::Out, "RetryTick")],
                vec![transition("arm", "ArmTimer", &["RetryTick"])],
            )],
            vec![],
        )),
        _ => None,
    }
}

fn empty_file(package: &str, imports: &[&str]) -> Spec {
    spec(package, imports, vec![], vec![], vec![])
}

const NOT_FOUND: &str = "No such file or directory (os error 2)";

/// Drives the loader over an in-memory file system: `files` gives the
/// specification at a canonical path, if any.
fn load(entry: &str, root: &str, files: &dyn Fn(&str) -> Option<Spec>) -> Result<BundleAst, DiagnosticSet> {
    let canonical = |p: &str| -> Result<String, String> {
        if files(p).is_some() {
            Ok(p.to_string())
        } else {
            Err(NOT_FOUND.to_string())
        }
    };
    let mut step = BundleLoader::start(entry, root, Ok(root.to_string()), canonical(entry));
    loop {
        step = match step {
            LoadStep::Done(bundle) => return Ok(bundle),
            LoadStep::Failed(diagnostics) => return Err(diagnostics),
            LoadStep::Next(loader, LoadRequest::Read(path)) => {
                assert!(loader.awaiting_read());
                loader.loaded(Ok(files(&path).expect("requested file exists")))
            },
            LoadStep::Next(loader, LoadRequest::Resolve(_file, import)) => {
                assert!(!loader.awaiting_read());
                let joined = format!("{}/{}", root, import);
                loader.resolved(canonical(&joined))
            },
        }
    }
}

fn broadcast_bundle() -> BundleAst {
    load("/repo/examples/broadcast/best_effort_broadcast.yml", ROOT, &broadcast_file).expect("bundle should load")
}

#[test]
fn loads_broadcast_bundle_with_transitive_std_imports() {
    let bundle = broadcast_bundle();

    assert_eq!(bundle.files.len(), 5);
    assert!(bundle.files.iter().any(|file| file.package == "examples.broadcast"));
    assert!(bundle.files.iter().any(|file| file.package == "std.link"));
    assert!(bundle.files.iter().any(|file| file.package == "std.time"));
}

#[test]
fn bundle_lists_each_file_after_its_imports() {
    let bundle = broadcast_bundle();
    let paths: Vec<&str> = bundle.files.iter().map(|f| f.path.as_str()).collect();
    assert_eq!(
        paths,
        vec![
            "/repo/std/link/fair_loss_link.hnk.yaml",
            "/repo/std/time/timer.hnk.yaml",
            "/repo/std/link/stubborn_link.hnk.yaml",
            "/repo/std/link/perfect_link.hnk.yaml",
            "/repo/examples/broadcast/best_effort_broadcast.yml",
        ]
    );
    let graph_keys: Vec<&str> = bundle.import_graph.iter().map(|(k, _)| k.as_str()).collect();
    assert_eq!(
        graph_keys,
        vec![
            "/repo/examples/broadcast/best_effort_broadcast.yml",
            "/repo/std/link/fair_loss_link.hnk.yaml",
            "/repo/std/link/perfect_link.hnk.yaml",
            "/repo/std/link/stubborn_link.hnk.yaml",
            "/repo/std/time/timer.hnk.yaml",
        ]
    );
    assert_eq!(bundle.entry, "/repo/examples/broadcast/best_effort_broadcast.yml");
    assert_eq!(bundle.import_root, "/repo");
}

#[test]
fn shared_imports_are_loaded_once() {
    let files = |p: &str| match p {
        "/r/a.yaml" => Some(empty_file("x.a", &["b.yaml", "c.yaml"])),
        "/r/b.yaml" => Some(empty_file("x.b", &["c.yaml"])),
        "/r/c.yaml" => Some(empty_file("x.c", &[])),
        _ => None,
    };
    let bundle = load("/r/a.yaml", "/r", &files).expect("bundle should load");
    let paths: Vec<&str> = bundle.files.iter().map(|f| f.path.as_str()).collect();
    assert_eq!(paths, vec!["/r/c.yaml", "/r/b.yaml", "/r/a.yaml"]);
    assert_eq!(bundle.files[2].imports, vec![s("/r/b.yaml"), s("/r/c.yaml")]);
}

#[test]
fn reports_missing_import_file() {
    let files = |p: &str| match p {
        "/tmp/t/entry.hnk.yaml" => Some(empty_file("examples.temp", &["std/missing.hnk.yaml"])),
        _ => None,
    };
    let diagnostics = load("/tmp/t/entry.hnk.yaml", "/tmp/t", &files).expect_err("bundle should fail");
    let diagnostic = diagnostics.iter().next().expect("diagnostic should exist");
    assert_eq!(diagnostic.code, "HNK1005");
    assert!(diagnostic.message.contains("Failed to load import `std/missing.hnk.yaml`"));
    assert_eq!(diagnostic.message, format!("Failed to load import `std/missing.hnk.yaml`: {}", NOT_FOUND));
    assert_eq!(diagnostic.suggestion.as_deref(), Some("Imports must be file paths relative to `/tmp/t`."));
}

#[test]
fn reports_import_cycle() {
    let files = |p: &str| match p {
        "/tmp/t/a.hnk.yaml" => Some(empty_file("examples.cycle", &["b.hnk.yaml"])),
        "/tmp/t/b.hnk.yaml" => Some(empty_file("examples.cycle", &["a.hnk.yaml"])),
        _ => None,
    };
    let diagnostics = load("/tmp/t/a.hnk.yaml", "/tmp/t", &files).expect_err("bundle should fail");
    let diagnostic = diagnostics.iter().next().expect("diagnostic should exist");
    assert_eq!(diagnostic.code, "HNK1006");
    assert!(diagnostic.message.contains("Import cycle detected"));
    assert_eq!(diagnostic.message, "Import cycle detected: a.hnk.yaml -> b.hnk.yaml -> a.hnk.yaml");
}

#[test]
fn reports_import_outside_root() {
    let mut step = BundleLoader::start("/r/a.yaml", "/r", Ok(s("/r")), Ok(s("/r/a.yaml")));
    step = match step {
        LoadStep::Next(loader, LoadRequest::Read(_)) => loader.loaded(Ok(empty_file("x.a", &["../etc/b.yaml"]))),
        _ => panic!("the entry file is read first"),
    };
    step = match step {
        LoadStep::Next(loader, LoadRequest::Resolve(file, import)) => {
            assert_eq!(file, "/r/a.yaml");
            assert_eq!(import, "../etc/b.yaml");
            loader.resolved(Ok(s("/etc/b.yaml")))
        },
        _ => panic!("the import is resolved next"),
    };
    match step {
        LoadStep::Failed(diagnostics) => {
            let d = diagnostics.iter().next().unwrap();
            assert_eq!(d.code, "HNK1005");
            assert_eq!(d.message, "Import `../etc/b.yaml` escapes the configured import root.");
        },
        _ => panic!("an import outside the root fails"),
    }
}

#[test]
fn entry_must_resolve_and_live_under_root() {
    match BundleLoader::start("e.yaml", "root", Err(s("boom")), Ok(s("/r/e.yaml"))) {
        LoadStep::Failed(ds) => {
            let d = ds.iter().next().unwrap();
            assert_eq!(d.message, "Failed to resolve the import root: boom");
            assert_eq!(d.suggestion.as_deref(), Some("Pass an existing directory with `--import-root`."));
        },
        _ => panic!("a root that does not resolve fails"),
    }
    match BundleLoader::start("e.yaml", "root", Ok(s("/r")), Err(s("gone"))) {
        LoadStep::Failed(ds) => {
            let d = ds.iter().next().unwrap();
            assert_eq!(d.message, "Failed to resolve the entry IDL file: gone");
        },
        _ => panic!("an entry that does not resolve fails"),
    }
    match BundleLoader::start("e.yaml", "root", Ok(s("/r")), Ok(s("/rx/e.yaml"))) {
        LoadStep::Failed(ds) => {
            let d = ds.iter().next().unwrap();
            assert_eq!(d.message, "The entry file must live under the import root.");
            assert_eq!(d.suggestion.as_deref(), Some("Move the entry file under `/r` or choose a broader `--import-root`."));
        },
        _ => panic!("an entry outside the root fails"),
    }
}

#[test]
fn path_helpers_compare_by_components() {
    assert!(is_under("/r/a/b.yaml", "/r"));
    assert!(is_under("/r", "/r"));
    assert!(!is_under("/rx/b.yaml", "/r"));
    assert!(is_under("/a", "/"));
    assert_eq!(relative_to("/r/a/b.yaml", "/r"), "a/b.yaml");
    assert_eq!(relative_to("/r", "/r"), "");
    assert_eq!(relative_to("/x/b.yaml", "/r"), "/x/b.yaml");
    assert!(path_less("/a/b", "/a.b"));
    assert!(path_less("/a", "/a/b"));
    assert!(!path_less("/a/b", "/a"));
    assert!(path_less("/a-b", "/a.b"));
}

#[test]
fn validate_accepts_best_effort_broadcast_fixture() {
    let bundle = broadcast_bundle();
    let normalized = normalize_bundle(&bundle).expect("bundle should normalize");
    let diagnostics = validate_normalized(&normalized);

    assert!(diagnostics.is_empty(), "expected no diagnostics, got {:?}", diagnostics);
}

#[test]
fn inspect_and_graph_show_broadcast_composition() {
    let bundle = broadcast_bundle();
    let normalized = normalize_bundle(&bundle).expect("bundle should normalize");

    let inspect = render_inspect_summary(&normalized);
    assert!(inspect.contains("examples.broadcast.BestEffortBroadcast"));
    assert!(inspect.contains("uses: pl: std.link.PerfectLink"));
    assert!(inspect.contains("non-local: 4"));

    let graph = render_mermaid(&normalized);
    assert!(graph.contains("component: examples.broadcast.BestEffortBroadcast"));
    assert!(graph.contains("non-local: std.link.LinkSend"));
}

#[test]
fn generate_best_effort_broadcast_fixture() {
    let bundle = broadcast_bundle();
    let normalized = normalize_bundle(&bundle).expect("fixture should normalize");
    let files = render_project_files(&normalized, "// header", true);
    let mut report = GenerateReport::new(normalized.components.len());
    for file in &files {
        report.record(file.relative_path.clone(), file_status(file.preserve_existing, false));
    }

    assert_eq!(report.component_count, 5);
    assert!(report.created_files.contains(&s("src/generated/best_effort_broadcast/wiring.rs")));
    assert!(report.created_files.contains(&s("src/generated/perfect_link/wiring.rs")));
    assert!(report.created_files.contains(&s("src/app/best_effort_broadcast.rs")));
}
