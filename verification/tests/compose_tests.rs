use perry_container_compose::backend::{
    command_output, container_handle, inspect_outcome, version_check_outcome, create_network_args, docker_run_flags, exec_args, join_strings, list_args, parse_container_id,
    parse_container_info_from_json, parse_inspect_output, parse_list_output, remove_args, stop_args,
    AppleContainerProtocol, CliProtocol, DockerProtocol, JsonValue, LimaProtocol, NetworkConfig,
};
use perry_container_compose::compose::{BackendStep, ComposeEngine};
use perry_container_compose::error::ComposeError;
use perry_container_compose::order::resolve_startup_order;
use perry_container_compose::session::rollback_steps;
use perry_container_compose::types::{
    ComposeService, ComposeSpec, ContainerHandle, ContainerSpec, DependsOnSpec, IsolationLevel, ListOrDict,
    OrderedMap, YamlKind, YamlValue, ComposeDependsOn, DependsOnCondition,
};

fn service(image: &str, deps: &[&str]) -> ComposeService {
    ComposeService {
        image: Some(image.to_string()),
        depends_on: if deps.is_empty() {
            None
        } else {
            Some(DependsOnSpec::List(deps.iter().map(|d| d.to_string()).collect()))
        },
        ..Default::default()
    }
}

fn spec_of(services: Vec<(&str, ComposeService)>) -> ComposeSpec {
    let mut spec = ComposeSpec::new();
    for (n, s) in services {
        spec.services.insert(n.to_string(), s);
    }
    spec
}

fn strs(v: &[&str]) -> Vec<String> {
    v.iter().map(|s| s.to_string()).collect()
}

#[test]
fn startup_order_is_dependencies_first_then_by_name() {
    let spec = spec_of(vec![
        ("web", service("nginx", &["api"])),
        ("api", service("api", &["db"])),
        ("db", service("postgres", &[])),
        ("worker", service("w", &["db"])),
    ]);
    assert_eq!(resolve_startup_order(&spec).unwrap(), strs(&["db", "api", "web", "worker"]));
}

#[test]
fn startup_order_reports_undefined_dependency() {
    let spec = spec_of(vec![("web", service("nginx", &["api"]))]);
    match resolve_startup_order(&spec) {
        Err(ComposeError::ValidationError { message }) => {
            assert_eq!(message, "Service 'web' depends on 'api' which is not defined")
        }
        _ => panic!("expected a validation error"),
    }
}

#[test]
fn startup_order_reports_cycle_members() {
    let spec = spec_of(vec![
        ("a", service("x", &["c"])),
        ("b", service("x", &[])),
        ("c", service("x", &["a"])),
        ("d", service("x", &["c"])),
    ]);
    match resolve_startup_order(&spec) {
        Err(ComposeError::DependencyCycle { services }) => assert_eq!(services, strs(&["a", "c", "d"])),
        _ => panic!("expected a cycle"),
    }
}

#[test]
fn empty_project_has_empty_order() {
    assert_eq!(resolve_startup_order(&ComposeSpec::new()).unwrap(), Vec::<String>::new());
}

#[test]
fn merge_last_writer_wins_and_keeps_first_position() {
    let mut a = spec_of(vec![("web", service("nginx", &[])), ("db", service("postgres", &[]))]);
    let b = spec_of(vec![("cache", service("redis", &[])), ("web", service("caddy", &[]))]);
    a.merge(b);
    let names: Vec<&str> = a.services.entries.iter().map(|(k, _)| k.as_str()).collect();
    assert_eq!(names, vec!["web", "db", "cache"]);
    assert_eq!(a.services.entries[0].1.image.as_deref(), Some("caddy"));
}

#[test]
fn up_plan_creates_networks_volumes_then_containers() {
    let mut spec = spec_of(vec![("web", service("nginx", &["db"])), ("db", service("postgres", &[]))]);
    let mut nets = OrderedMap::new();
    nets.insert("front".to_string(), None);
    spec.networks = Some(nets);
    let plan = ComposeEngine::new(spec).up_plan().unwrap();
    assert_eq!(plan.order, strs(&["db", "web"]));
    let kinds: Vec<String> = plan
        .steps
        .iter()
        .map(|s| match s {
            BackendStep::CreateNetwork { name, .. } => format!("net {}", name),
            BackendStep::CreateVolume { name, .. } => format!("vol {}", name),
            BackendStep::Run { service, spec } => format!("run {} {}", service, spec.image),
            _ => "other".to_string(),
        })
        .collect();
    assert_eq!(kinds, strs(&["net front", "run db postgres", "run web nginx"]));
}

#[test]
fn rollback_steps_undo_in_reverse() {
    let containers = vec![
        ("a".to_string(), ContainerHandle { id: "id-a".to_string(), name: None }),
        ("b".to_string(), ContainerHandle { id: "id-b".to_string(), name: None }),
    ];
    let steps = rollback_steps(&containers, &strs(&["n1"]), &strs(&["v1", "v2"]));
    let text: Vec<String> = steps
        .iter()
        .map(|s| match s {
            BackendStep::Stop { id, timeout } => format!("stop {} {:?}", id, timeout),
            BackendStep::Remove { id, force } => format!("rm {} {}", id, force),
            BackendStep::RemoveNetwork { name } => format!("rmnet {}", name),
            BackendStep::RemoveVolume { name } => format!("rmvol {}", name),
            _ => "other".to_string(),
        })
        .collect();
    assert_eq!(
        text,
        strs(&[
            "stop id-b Some(10)",
            "rm id-b true",
            "stop id-a Some(10)",
            "rm id-a true",
            "rmnet n1",
            "rmvol v1",
            "rmvol v2",
        ])
    );
}

#[test]
fn down_plan_removes_in_reverse_startup_order() {
    let spec = spec_of(vec![("web", service("nginx", &["db"])), ("db", service("postgres", &[]))]);
    let plan = ComposeEngine::new(spec).down_plan(true).unwrap();
    let ids: Vec<String> = plan
        .steps
        .iter()
        .map(|s| match s {
            BackendStep::Remove { id, force: true } => id.clone(),
            _ => "other".to_string(),
        })
        .collect();
    assert_eq!(ids, strs(&["web", "db"]));
}

#[test]
fn docker_run_flags_full_spec() {
    let mut spec = ContainerSpec::for_image("nginx:1".to_string());
    spec.name = Some("web".to_string());
    spec.ports = Some(strs(&["80:80"]));
    spec.volumes = Some(strs(&["/data:/data"]));
    spec.env = Some(vec![("A".to_string(), "1".to_string())]);
    spec.network = Some("front".to_string());
    spec.rm = Some(true);
    spec.read_only = Some(true);
    spec.entrypoint = Some(strs(&["sh", "-c"]));
    spec.cmd = Some(strs(&["echo", "hi"]));
    assert_eq!(
        docker_run_flags(&spec, true),
        strs(&[
            "run", "-d", "--name", "web", "-p", "80:80", "-v", "/data:/data", "-e", "A=1", "--network",
            "front", "--rm", "--read-only", "--entrypoint", "sh -c", "nginx:1", "echo", "hi",
        ])
    );
    assert_eq!(docker_run_flags(&ContainerSpec::for_image("x".to_string()), false), strs(&["run", "x"]));
}

#[test]
fn joined_run_arguments_hold_each_flag_and_detach_follows_run() {
    let mut spec = ContainerSpec::for_image("redis:7".to_string());
    spec.name = Some("cache".to_string());
    spec.ports = Some(strs(&["6379:6379", "16379:16379"]));
    spec.env = Some(vec![("MODE".to_string(), "fast".to_string()), ("X".to_string(), "y".to_string())]);
    spec.cmd = Some(strs(&["redis-server"]));
    let detached = docker_run_flags(&spec, true);
    let plain = docker_run_flags(&spec, false);
    let joined = join_strings(&detached, " ");
    assert!(joined.contains("run -d"));
    assert!(joined.contains("--name cache"));
    assert!(joined.contains("-p 6379:6379"));
    assert!(joined.contains("-p 16379:16379"));
    assert!(joined.contains("-e MODE=fast"));
    assert!(joined.contains("-e X=y"));
    assert!(joined.contains("redis:7"));
    assert_eq!(plain[0], "run");
    let mut expected = strs(&["run", "-d"]);
    expected.extend_from_slice(&plain[1..]);
    assert_eq!(detached, expected);
    let n = detached.len();
    assert_eq!(detached[n - 2], "redis:7");
    assert_eq!(detached[n - 1], "redis-server");
}

#[test]
fn protocols_differ_in_detach_and_prefix() {
    let spec = ContainerSpec::for_image("img".to_string());
    assert_eq!(DockerProtocol.run_args(&spec), strs(&["run", "-d", "img"]));
    assert_eq!(AppleContainerProtocol.run_args(&spec), strs(&["run", "img"]));
    let lima = LimaProtocol { instance: "default".to_string() };
    assert_eq!(lima.subcommand_prefix(), Some(strs(&["shell", "default", "nerdctl"])));
    assert_eq!(DockerProtocol.subcommand_prefix(), None);
}

#[test]
fn subcommand_arguments() {
    assert_eq!(stop_args("c1", Some(10)), strs(&["stop", "--time", "10", "c1"]));
    assert_eq!(stop_args("c1", None), strs(&["stop", "c1"]));
    assert_eq!(remove_args("c1", true), strs(&["rm", "-f", "c1"]));
    assert_eq!(list_args(true), strs(&["ps", "--format", "json", "-a"]));
    let env = vec![("K".to_string(), "V".to_string())];
    assert_eq!(
        exec_args("c1", &strs(&["ls", "-l"]), Some(&env), Some("/tmp")),
        strs(&["exec", "-e", "K=V", "-w", "/tmp", "c1", "ls", "-l"])
    );
    let cfg = NetworkConfig {
        driver: Some("bridge".to_string()),
        labels: vec![("a".to_string(), "b".to_string())],
        internal: true,
        enable_ipv6: false,
    };
    assert_eq!(
        create_network_args("front", &cfg),
        strs(&["network", "create", "--driver", "bridge", "--internal", "--label", "a=b", "front"])
    );
}

fn obj(fields: Vec<(&str, JsonValue)>) -> JsonValue {
    JsonValue::Object(fields.into_iter().map(|(k, v)| (k.to_string(), v)).collect())
}

fn s(v: &str) -> JsonValue {
    JsonValue::String(v.to_string())
}

#[test]
fn container_info_reads_docker_and_podman_shapes() {
    let docker = obj(vec![("ID", s("abc")), ("Names", s("web")), ("Image", s("nginx")), ("Status", s("Up"))]);
    let info = parse_container_info_from_json(&docker);
    assert_eq!(info.id, "abc");
    assert_eq!(info.image, "nginx");
    assert_eq!(info.status, "Up");
    let podman = obj(vec![
        ("Id", s("def")),
        ("Names", JsonValue::Array(vec![s("/db")])),
        ("State", obj(vec![("Status", s("running"))])),
    ]);
    let info = parse_container_info_from_json(&podman);
    assert_eq!(info.id, "def");
    assert_eq!(info.name, "db");
    assert_eq!(info.status, "running");
    assert_eq!(info.image, "");
}

#[test]
fn list_output_skips_lines_that_are_not_json() {
    let lines = vec![Some(obj(vec![("ID", s("a"))])), None, Some(obj(vec![("ID", s("b"))]))];
    let infos = parse_list_output(&lines);
    assert_eq!(infos.len(), 2);
    assert_eq!(infos[1].id, "b");
    let doc = Some(JsonValue::Array(vec![obj(vec![("Id", s("x"))])]));
    assert_eq!(parse_inspect_output("x", &doc).unwrap().id, "x");
    assert!(parse_inspect_output("x", &None).is_none());
}

#[test]
fn container_id_is_trimmed_output() {
    assert_eq!(parse_container_id("  abc123\n"), "abc123");
}

#[test]
fn list_or_dict_to_map() {
    let l = ListOrDict::List(strs(&["A=1", "B", "A=2=3"]));
    let m = l.to_map();
    assert_eq!(m.get("A"), Some("2=3".to_string()));
    assert_eq!(m.get("B"), Some("".to_string()));
}

#[test]
fn isolation_level_defaults_to_container() {
    let level: IsolationLevel = Default::default();
    assert!(matches!(level, IsolationLevel::Container));
}

#[test]
fn merge_carries_a_service_with_its_other_keys() {
    let mut web = service("nginx", &[]);
    web.other.push((
        "healthcheck".to_string(),
        YamlValue { kind: YamlKind::Mapping, text: "test: curl".to_string(), debug: "Mapping".to_string() },
    ));
    let mut a = spec_of(vec![("db", service("postgres", &[]))]);
    a.merge(spec_of(vec![("web", web)]));
    let (name, merged) = &a.services.entries[1];
    assert_eq!(name, "web");
    assert_eq!(merged.other.len(), 1);
    assert_eq!(merged.other[0].0, "healthcheck");
    assert_eq!(merged.other[0].1.text, "test: curl");
}

#[test]
fn dict_to_map_keeps_every_name_with_its_string_form() {
    let mut d = OrderedMap::new();
    d.insert(
        "S".to_string(),
        Some(YamlValue { kind: YamlKind::String("x".to_string()), text: "x".to_string(), debug: "String(\"x\")".to_string() }),
    );
    d.insert(
        "N".to_string(),
        Some(YamlValue { kind: YamlKind::Number("7".to_string()), text: "7".to_string(), debug: "Number(7)".to_string() }),
    );
    d.insert(
        "B".to_string(),
        Some(YamlValue { kind: YamlKind::Bool(true), text: "true".to_string(), debug: "Bool(true)".to_string() }),
    );
    d.insert("E".to_string(), None);
    let m = ListOrDict::Dict(d).to_map();
    assert_eq!(m.len(), 4);
    assert_eq!(m.get("S"), Some("x".to_string()));
    assert_eq!(m.get("N"), Some("7".to_string()));
    assert_eq!(m.get("B"), Some("true".to_string()));
    assert_eq!(m.get("E"), Some("".to_string()));
}

#[test]
fn dependency_list_and_dict_name_the_same_services() {
    let list = DependsOnSpec::List(strs(&["db", "cache"]));
    let mut d = OrderedMap::new();
    d.insert("db".to_string(), ComposeDependsOn { condition: DependsOnCondition::ServiceStarted, required: None, restart: None });
    d.insert("cache".to_string(), ComposeDependsOn { condition: DependsOnCondition::ServiceStarted, required: None, restart: None });
    assert_eq!(list.service_names(), DependsOnSpec::Dict(d).service_names());
}

#[test]
fn command_outcomes() {
    assert_eq!(command_output(true, Some(0), "out\n".to_string(), "warn").unwrap(), "out\n");
    match command_output(false, Some(125), String::new(), "  no such image \n") {
        Err(ComposeError::BackendError { code, message }) => {
            assert_eq!(code, 125);
            assert_eq!(message, "no such image");
        }
        _ => panic!("expected a backend error"),
    }
    match command_output(false, None, String::new(), "") {
        Err(ComposeError::BackendError { code, .. }) => assert_eq!(code, 1),
        _ => panic!("expected a backend error"),
    }
    assert!(version_check_outcome(true, Some(0)).is_ok());
    match version_check_outcome(false, Some(2)) {
        Err(ComposeError::BackendError { code, message }) => {
            assert_eq!(code, 2);
            assert_eq!(message, "Backend --version check failed");
        }
        _ => panic!("expected a backend error"),
    }
    let spec = ContainerSpec { name: Some("web".to_string()), ..ContainerSpec::for_image("nginx".to_string()) };
    let h = container_handle(&spec, " abc123\n");
    assert_eq!((h.id.as_str(), h.name.as_deref()), ("abc123", Some("web")));
    match inspect_outcome("abc", &None) {
        Err(ComposeError::NotFound(id)) => assert_eq!(id, "abc"),
        _ => panic!("expected not found"),
    }
}

#[test]
fn protocol_names_and_the_empty_document() {
    assert_eq!(DockerProtocol.protocol_name(), "docker-compatible");
    assert_eq!(AppleContainerProtocol.protocol_name(), "apple/container");
    assert_eq!(LimaProtocol { instance: "default".to_string() }.protocol_name(), "lima");
    let spec = ComposeSpec::new();
    assert!(spec.name.is_none() && spec.version.is_none() && spec.networks.is_none());
    assert!(spec.volumes.is_none() && spec.secrets.is_none() && spec.configs.is_none());
    assert!(spec.services.entries.is_empty() && spec.extensions.entries.is_empty());
}
