use perry_container_compose::config::{resolve_compose_files, resolve_project_name, ProjectConfig};
use perry_container_compose::error::{BackendProbeResult, ComposeError};
use perry_container_compose::ffi::{
    compose_error_to_js_internal, container_json, images_json, json_err, json_ok, logs_json, output_json, ps_json,
    strings_json, yaml_text_json,
};
use perry_container_compose::installer::{
    install_step, BackendInstaller, InstallAction, InstallEvent, InstallStage, Platform,
};
use perry_container_compose::registry::{DecodeSource, HandleIds, HandleRegistry, TextEncoderResults, POINTER_TAG};
use perry_container_compose::types::{ContainerInfo, ContainerLogs, IsolationLevel, OrderedMap};
use perry_container_compose::workload::{apply_policy, PolicySpec, WorkloadGraph, WorkloadNode, WorkloadRef};

fn strs(v: &[&str]) -> Vec<String> {
    v.iter().map(|s| s.to_string()).collect()
}

#[test]
fn json_ok_wraps_result() {
    assert_eq!(json_ok("null"), r#"{"ok":true,"result":null}"#);
    assert_eq!(json_ok("[1,2]"), r#"{"ok":true,"result":[1,2]}"#);
}

#[test]
fn json_err_escapes_quotes() {
    assert_eq!(json_err(r#"bad "x""#), r#"{"ok":false,"error":"bad \"x\""}"#);
}

#[test]
fn error_text_is_the_message() {
    let e = ComposeError::NotFound("web".to_string());
    assert_eq!(compose_error_to_js_internal(&e), "Not found: web");
    let e = ComposeError::BackendError { code: -2, message: "boom".to_string() };
    assert_eq!(compose_error_to_js_internal(&e), "Backend error (exit -2): boom");
    let e = ComposeError::DependencyCycle { services: strs(&["a", "b"]) };
    assert_eq!(e.message(), r#"Dependency cycle detected in services: ["a", "b"]"#);
}

#[test]
fn ps_and_output_payloads() {
    let info = ContainerInfo {
        id: "c1".to_string(),
        name: "web".to_string(),
        image: "nginx".to_string(),
        status: "Up".to_string(),
        ports: vec![],
        created: String::new(),
        ip: None,
    };
    assert_eq!(ps_json(&vec![]), "[]");
    assert_eq!(
        ps_json(&vec![info]),
        r#"[{"service":"web","container":"c1","status":"Up"}]"#
    );
    assert_eq!(output_json("a\"b\n", ""), r#"{"stdout":"a\"b\n","stderr":""}"#);
    let logs = vec![(
        "web".to_string(),
        ContainerLogs { stdout: "hi".to_string(), stderr: "oops".to_string() },
    )];
    assert_eq!(logs_json(&logs), r#"{"stdout":"[web] hi\n","stderr":"[web] oops\n"}"#);
    assert_eq!(yaml_text_json("a: \"b\"\n"), r#""a: \"b\"\n""#);
}

#[test]
fn handle_ids_start_at_one_and_count_up() {
    let mut ids = HandleIds::new();
    assert_eq!(ids.get_next_id(), 1);
    assert_eq!(ids.get_next_id(), 2);
    let mut last = HandleIds { next: u64::MAX };
    assert_eq!(last.get_next_id(), u64::MAX);
    assert_eq!(last.next, 0);
}

#[test]
fn registry_reads_back_what_was_registered() {
    let mut reg: HandleRegistry<String> = HandleRegistry::new();
    let a = reg.register("first".to_string());
    let b = reg.register("second".to_string());
    assert_ne!(a, b);
    assert_eq!(reg.get(a), Some(&"first".to_string()));
    assert_eq!(reg.get(b), Some(&"second".to_string()));
    assert_eq!(reg.get(99999), None);
    assert_eq!(reg.remove(a), Some("first".to_string()));
    assert_eq!(reg.get(a), None);
}

#[test]
fn text_encoder_results_are_remembered() {
    let mut t = TextEncoderResults::new();
    assert!(!t.is_text_encoder_result(0x1000));
    t.remember_text_encoder_result(0x1000);
    t.remember_text_encoder_result(0x1000);
    assert!(t.is_text_encoder_result(0x1000));
    assert!(!t.is_text_encoder_result(0x2000));
}

#[test]
fn installer_options_per_platform() {
    let mac = BackendInstaller::get_options(Platform::Apple);
    let names: Vec<&str> = mac.iter().map(|o| o.name.as_str()).collect();
    assert_eq!(names, vec!["apple/container", "orbstack", "colima", "podman", "docker"]);
    let linux = BackendInstaller::get_options(Platform::Linux);
    assert_eq!(linux[0].install_command, "sudo apt-get install -y podman");
    let other = BackendInstaller::get_options(Platform::Other);
    assert_eq!(other[1].docs_url, "https://docs.docker.com/desktop/windows");
}

#[test]
fn project_name_priority() {
    let some = |s: &str| Some(s.to_string());
    assert_eq!(resolve_project_name(some("flag"), some("env"), some("dir")), "flag");
    assert_eq!(resolve_project_name(None, some("env"), some("dir")), "env");
    assert_eq!(resolve_project_name(None, None, some("dir")), "dir");
    assert_eq!(resolve_project_name(None, None, None), "default");
    let cfg = ProjectConfig::new(strs(&["a.yml"]), None, vec![]);
    assert_eq!(cfg.files, strs(&["a.yml"]));
}

#[test]
fn compose_files_priority() {
    assert_eq!(resolve_compose_files(strs(&["x.yml"]), Some("a:b".to_string()), &vec![true]), strs(&["x.yml"]));
    assert_eq!(resolve_compose_files(vec![], Some("a.yml:b.yml".to_string()), &vec![true]), strs(&["a.yml", "b.yml"]));
    assert_eq!(
        resolve_compose_files(vec![], None, &vec![false, false, true, true]),
        strs(&["docker-compose.yaml"])
    );
    assert_eq!(resolve_compose_files(vec![], None, &vec![false]), Vec::<String>::new());
}

fn running() -> OrderedMap<ContainerInfo> {
    let mut m = OrderedMap::new();
    m.insert(
        "api".to_string(),
        ContainerInfo {
            id: "c1".to_string(),
            name: "api-1".to_string(),
            image: "api".to_string(),
            status: "running".to_string(),
            ports: vec![],
            created: String::new(),
            ip: None,
        },
    );
    m
}

fn reference(projection: &str, port: Option<&str>) -> WorkloadRef {
    WorkloadRef {
        node_id: "api".to_string(),
        projection: projection.to_string(),
        port: port.map(|p| p.to_string()),
    }
}

#[test]
fn workload_ref_projections() {
    let nodes = running();
    assert_eq!(reference("endpoint", None).resolve(&nodes).unwrap(), "api-1:80");
    assert_eq!(reference("endpoint", Some("8080")).resolve(&nodes).unwrap(), "api-1:8080");
    assert_eq!(reference("ip", None).resolve(&nodes).unwrap(), "api-1");
    assert_eq!(reference("internal_url", Some("3000")).resolve(&nodes).unwrap(), "http://api-1:3000");
    match reference("dns", None).resolve(&nodes) {
        Err(ComposeError::ValidationError { message }) => assert_eq!(message, "Invalid projection"),
        _ => panic!("expected a validation error"),
    }
    let missing = WorkloadRef { node_id: "db".to_string(), projection: "ip".to_string(), port: None };
    match missing.resolve(&nodes) {
        Err(ComposeError::ValidationError { message }) => {
            assert_eq!(message, "Node 'db' not found in running set")
        }
        _ => panic!("expected a validation error"),
    }
}

#[test]
fn workload_graph_becomes_a_compose_document() {
    let mut nodes = OrderedMap::new();
    nodes.insert(
        "api".to_string(),
        WorkloadNode {
            id: "api".to_string(),
            name: "api".to_string(),
            image: Some("my-api".to_string()),
            ports: Some(strs(&["8080:80"])),
            env: Some(vec![("K".to_string(), "v1".to_string()), ("K".to_string(), "v2".to_string())]),
            depends_on: None,
        },
    );
    let graph = WorkloadGraph { name: "test-graph".to_string(), nodes };
    let spec = graph.to_compose_spec();
    assert_eq!(spec.name.as_deref(), Some("test-graph"));
    let svc = &spec.services.entries[0].1;
    assert_eq!(spec.services.entries[0].0, "api");
    assert_eq!(svc.image.as_deref(), Some("my-api"));
    assert_eq!(svc.port_strings(), strs(&["8080:80"]));
    assert_eq!(svc.resolved_env().get("K"), Some("v2".to_string()));
    let ports = svc.ports.as_ref().unwrap();
    assert_eq!(ports[0].debug, r#"Short(String("8080:80"))"#);
}

fn node(id: &str, deps: &[&str]) -> WorkloadNode {
    WorkloadNode {
        id: id.to_string(),
        name: id.to_string(),
        image: Some(format!("{}-image", id)),
        ports: None,
        env: None,
        depends_on: if deps.is_empty() { None } else { Some(strs(deps)) },
    }
}

fn graph(nodes: Vec<WorkloadNode>) -> WorkloadGraph {
    let mut m = OrderedMap::new();
    for n in nodes {
        m.insert(n.id.clone(), n);
    }
    WorkloadGraph { name: "g".to_string(), nodes: m }
}

#[test]
fn graph_start_order() {
    let g = graph(vec![node("web", &["api"]), node("api", &["db"]), node("db", &[])]);
    assert_eq!(g.resolve_order().unwrap(), strs(&["db", "api", "web"]));
    let missing = graph(vec![node("web", &["cache"])]);
    match missing.resolve_order() {
        Err(ComposeError::ValidationError { message }) => {
            assert_eq!(message, "Node web depends on cache which is not in graph")
        }
        _ => panic!("expected a validation error"),
    }
    let cycle = graph(vec![node("a", &["b"]), node("b", &["a"])]);
    assert!(matches!(cycle.resolve_order(), Err(ComposeError::DependencyCycle { .. })));
}

#[test]
fn install_dialogue_runs_the_chosen_command_then_probes() {
    let options = BackendInstaller::get_options(Platform::Linux);
    let (stage, action) = install_step(InstallStage::Start, InstallEvent::Interactive(true), &options);
    assert!(matches!(stage, InstallStage::Choosing) && matches!(action, InstallAction::AskChoice));
    let (stage, action) = install_step(stage, InstallEvent::Chosen(Some(1)), &options);
    assert!(matches!(stage, InstallStage::Confirming { option: 1 }));
    assert!(matches!(action, InstallAction::AskConfirm { index: 1 }));
    let (stage, action) = install_step(stage, InstallEvent::Confirmed(true), &options);
    assert!(matches!(stage, InstallStage::Installing));
    match action {
        InstallAction::RunInstall { command } => assert_eq!(command, "curl -fsSL https://get.docker.com | sh"),
        _ => panic!("expected the install command"),
    }
    let (stage, action) = install_step(stage, InstallEvent::Installed(true), &options);
    assert!(matches!(stage, InstallStage::Probing) && matches!(action, InstallAction::Detect));
}

#[test]
fn install_dialogue_ends_without_terminal_choice_or_agreement() {
    let options = BackendInstaller::get_options(Platform::Apple);
    for (stage, event) in [
        (InstallStage::Start, InstallEvent::Interactive(false)),
        (InstallStage::Choosing, InstallEvent::Chosen(None)),
        (InstallStage::Confirming { option: 0 }, InstallEvent::Confirmed(false)),
    ] {
        let (next, action) = install_step(stage, event, &options);
        assert!(matches!(next, InstallStage::Finished));
        match action {
            InstallAction::Fail(ComposeError::NoBackendFound { probed }) => assert!(probed.is_empty()),
            _ => panic!("expected no backend"),
        }
    }
    let (next, action) = install_step(InstallStage::Installing, InstallEvent::Installed(false), &options);
    assert!(matches!(next, InstallStage::Finished));
    match action {
        InstallAction::Fail(ComposeError::ValidationError { message }) => assert_eq!(message, "Installation failed"),
        _ => panic!("expected a validation error"),
    }
}

#[test]
fn decoder_reads_encoder_arrays_buffers_or_nothing() {
    let mut t = TextEncoderResults::new();
    t.remember_text_encoder_result(0x5000);
    let tagged = |addr: u64| POINTER_TAG | addr;
    assert!(matches!(t.decode_source(tagged(0x5000)), DecodeSource::EncoderArray(0x5000)));
    assert!(matches!(t.decode_source(tagged(0x6000)), DecodeSource::Buffer(0x6000)));
    assert!(matches!(t.decode_source(0x5000), DecodeSource::EncoderArray(0x5000)));
    assert!(matches!(t.decode_source(0x2000), DecodeSource::Buffer(0x2000)));
    assert!(matches!(t.decode_source(0), DecodeSource::Empty));
    assert!(matches!(t.decode_source(tagged(0x800)), DecodeSource::Empty));
    assert!(matches!(t.decode_source(f64::NAN.to_bits()), DecodeSource::Empty));
    assert!(matches!(t.decode_source(1.5f64.to_bits()), DecodeSource::Empty));
}

#[test]
fn policies_restrict_the_workload_container() {
    let n = node("api", &[]);
    let policy = |tier: &str, no_network: Option<bool>, read_only_root: Option<bool>| PolicySpec {
        tier: tier.to_string(),
        no_network,
        read_only_root,
        seccomp: None,
    };
    let untrusted = apply_policy(&n, &policy("untrusted", None, None));
    assert_eq!(untrusted.image, "api-image");
    assert_eq!(untrusted.name.as_deref(), Some("api"));
    assert_eq!(untrusted.ports, Some(vec![]));
    assert!(untrusted.isolation_level == Some(IsolationLevel::MicroVm));
    assert_eq!(untrusted.read_only, Some(true));
    assert_eq!(untrusted.network.as_deref(), Some("none"));
    let hardened = apply_policy(&n, &policy("hardened", None, None));
    assert_eq!((hardened.read_only, hardened.network.clone()), (Some(true), None));
    let isolated = apply_policy(&n, &policy("isolated", None, None));
    assert_eq!((isolated.read_only, isolated.network.as_deref()), (None, Some("none")));
    let plain = apply_policy(&n, &policy("default", None, None));
    assert!(plain.read_only.is_none() && plain.network.is_none() && plain.isolation_level.is_none());
    let flagged = apply_policy(&n, &policy("default", Some(true), Some(true)));
    assert_eq!((flagged.read_only, flagged.network.as_deref()), (Some(true), Some("none")));
}

fn probes() -> Vec<BackendProbeResult> {
    vec![
        BackendProbeResult { name: "docker".to_string(), available: false, reason: "not \"found\"\n".to_string() },
        BackendProbeResult { name: "podman".to_string(), available: true, reason: String::new() },
    ]
}

#[test]
fn no_backend_message_lists_probes_as_debug_does() {
    let e = ComposeError::NoBackendFound { probed: probes() };
    assert_eq!(e.message(), format!("No container backend found. Probed: {:?}", probes()));
    let none = ComposeError::NoBackendFound { probed: vec![] };
    assert_eq!(none.message(), "No container backend found. Probed: []");
}

#[test]
fn container_and_image_objects() {
    let info = perry_container_compose::types::ContainerInfo {
        id: "abc".to_string(),
        name: "web".to_string(),
        image: "nginx".to_string(),
        status: "running".to_string(),
        ports: vec!["80/tcp".to_string(), "a\"b".to_string()],
        created: "today".to_string(),
        ip: None,
    };
    assert_eq!(
        container_json(&info),
        "{\"id\":\"abc\",\"name\":\"web\",\"image\":\"nginx\",\"status\":\"running\",\"ports\":[\"80/tcp\",\"a\\\"b\"],\"created\":\"today\"}"
    );
    let images = vec![perry_container_compose::types::ImageInfo {
        id: "i1".to_string(),
        repository: "redis".to_string(),
        tag: "7".to_string(),
        size: 1234,
        created: "now".to_string(),
    }];
    assert_eq!(
        images_json(&images),
        "[{\"id\":\"i1\",\"repository\":\"redis\",\"tag\":\"7\",\"size\":1234,\"created\":\"now\"}]"
    );
    assert_eq!(strings_json(&vec![]), "[]");
}
