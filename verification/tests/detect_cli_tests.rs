use perry_container_compose::backend::{parse_json_doc, parse_json_lines, JsonValue};
use perry_container_compose::detect::podman_machine_output_check;
use perry_container_compose::capability::{capability_spec, CapabilityGrants};
use perry_container_compose::cli::{ps_table, Cli, Commands};
use perry_container_compose::detect::{
    backend_candidates, colima_check, lima_running_instance, podman_machine_check, probe_candidate,
    probe_failure, Detection, ProbeOutcome, ProbeStep, ProtocolKind,
};
use perry_container_compose::env::EnvMap;
use perry_container_compose::types::ContainerInfo;
use perry_container_compose::yaml::load_env;

fn strs(v: &[&str]) -> Vec<String> {
    v.iter().map(|s| s.to_string()).collect()
}

#[test]
fn candidates_depend_on_the_os() {
    assert_eq!(backend_candidates("linux"), strs(&["podman", "nerdctl", "docker"]));
    assert_eq!(backend_candidates("macos")[0], "apple/container");
    assert_eq!(backend_candidates("ios").len(), 8);
    assert_eq!(
        backend_candidates("macos"),
        strs(&["apple/container", "orbstack", "colima", "rancher-desktop", "lima", "podman", "nerdctl", "docker"])
    );
    assert_eq!(backend_candidates("windows"), strs(&["podman", "nerdctl", "docker"]));
}

#[test]
fn probe_plans() {
    let p = probe_candidate("podman", true).ok().unwrap();
    assert!(matches!(p.steps[2], ProbeStep::PodmanMachine));
    assert_eq!(p.steps.len(), 3);
    assert!(p.protocol == ProtocolKind::Docker);
    assert_eq!(probe_candidate("podman", false).ok().unwrap().steps.len(), 2);
    let colima = probe_candidate("colima", false).ok().unwrap();
    match &colima.steps[2] {
        ProbeStep::Find { names, missing } => {
            assert_eq!(names, &strs(&["docker"]));
            assert_eq!(missing, "docker CLI not found (needed for colima)");
        }
        _ => panic!("expected a lookup"),
    }
    assert!(probe_candidate("lima", false).ok().unwrap().protocol == ProtocolKind::Lima);
    assert_eq!(probe_candidate("vagrant", false).err(), Some("unknown backend: vagrant".to_string()));
}

fn obj(fields: Vec<(&str, JsonValue)>) -> JsonValue {
    JsonValue::Object(fields.into_iter().map(|(k, v)| (k.to_string(), v)).collect())
}

#[test]
fn check_outputs_are_read() {
    let machines = JsonValue::Array(vec![
        obj(vec![("Running", JsonValue::Bool(false))]),
        obj(vec![("Running", JsonValue::Bool(true))]),
    ]);
    assert!(podman_machine_check(&machines).is_ok());
    assert_eq!(
        podman_machine_check(&JsonValue::Array(vec![])),
        Err("no running podman machine".to_string())
    );
    assert!(colima_check(true, "colima is running").is_ok());
    assert_eq!(colima_check(false, "running"), Err("colima status not running".to_string()));
    let lines = vec![
        None,
        Some(obj(vec![("name", JsonValue::String("a".to_string())), ("status", JsonValue::String("Stopped".to_string()))])),
        Some(obj(vec![("name", JsonValue::String("b".to_string())), ("status", JsonValue::String("Running".to_string()))])),
    ];
    assert_eq!(lima_running_instance(&lines), Ok("b".to_string()));
    let unnamed = vec![Some(obj(vec![("status", JsonValue::String("Running".to_string()))]))];
    assert_eq!(lima_running_instance(&unnamed), Ok("default".to_string()));
    assert_eq!(lima_running_instance(&vec![]), Err("no running lima instance".to_string()));
    let f = probe_failure("docker", None);
    assert_eq!(f.reason, "probe timed out after 2s");
    assert!(!f.available);
}

#[test]
fn ps_table_pads_columns() {
    let info = ContainerInfo {
        id: "c1".to_string(),
        name: "web".to_string(),
        image: "nginx".to_string(),
        status: "Up".to_string(),
        ports: strs(&["80:80", "443:443"]),
        created: String::new(),
        ip: None,
    };
    let table = ps_table(&vec![info]);
    let expected = format!(
        "{:<20} {:<20} {:<20} {:<20}\n{:<20} {:<20} {:<20} {:<20}\n",
        "NAME", "IMAGE", "STATUS", "PORTS", "web", "nginx", "Up", "80:80, 443:443"
    );
    assert_eq!(table, expected);
}

#[test]
fn cli_flags_become_the_project_config() {
    let cli = Cli {
        file: strs(&["a.yml", "b.yml"]),
        project_name: Some("p".to_string()),
        env_file: vec![],
        command: Commands::Start { services: vec![] },
    };
    let cfg = cli.project_config();
    assert_eq!(cfg.files, strs(&["a.yml", "b.yml"]));
    assert_eq!(cfg.project_name.as_deref(), Some("p"));
}

#[test]
fn env_loading_precedence() {
    let mut process = EnvMap::new();
    process.insert("A".to_string(), "process".to_string());
    process.insert("B".to_string(), "process".to_string());
    let env = load_env(
        process,
        Some("A=dotenv\nC=dotenv\nE=dotenv\n"),
        &strs(&["B=first\nD=first\nE=first", "D=second"]),
    );
    // the process environment wins over every file
    assert_eq!(env.get("A"), Some("process".to_string()));
    assert_eq!(env.get("B"), Some("process".to_string()));
    // the default .env fills in what nothing else sets
    assert_eq!(env.get("C"), Some("dotenv".to_string()));
    // explicit env files override the default .env, the last one winning
    assert_eq!(env.get("E"), Some("first".to_string()));
    assert_eq!(env.get("D"), Some("second".to_string()));
}

#[test]
fn capability_container_is_locked_down() {
    let grants = CapabilityGrants { network: false, env: Some(vec![("K".to_string(), "V".to_string())]) };
    let spec = capability_spec("git", "cgr.dev/chainguard/git", "sha256:22", &strs(&["git", "--version"]), grants, 7);
    assert_eq!(spec.image, "cgr.dev/chainguard/git@sha256:22");
    assert_eq!(spec.name.as_deref(), Some("alloy-cap-git-7"));
    assert_eq!(spec.network.as_deref(), Some("none"));
    assert_eq!(spec.rm, Some(true));
    assert_eq!(spec.read_only, Some(true));
    assert_eq!(spec.cmd, Some(strs(&["git", "--version"])));
    let open = capability_spec("x", "img", "d", &vec![], CapabilityGrants { network: true, env: None }, 0);
    assert_eq!(open.network, None);
}

#[test]
fn detection_takes_the_first_runtime_that_answers_and_collects_failures() {
    let mut d = Detection::new(None, "linux");
    assert_eq!(d.current().map(|s| s.as_str()), Some("podman"));
    assert!(!d.record(ProbeOutcome::Failed("podman binary not found on PATH".to_string())));
    assert_eq!(d.current().map(|s| s.as_str()), Some("nerdctl"));
    assert!(!d.record(ProbeOutcome::TimedOut));
    assert_eq!(d.current().map(|s| s.as_str()), Some("docker"));
    assert!(d.record(ProbeOutcome::Available));
    assert_eq!(d.current().map(|s| s.as_str()), Some("docker"));
    assert_eq!(d.failures.len(), 2);
    assert_eq!(d.failures[0].name, "podman");
    assert_eq!(d.failures[1].reason, "probe timed out after 2s");
    assert!(d.failures.iter().all(|f| !f.available));

    let mut forced = Detection::new(Some("lima".to_string()), "macos");
    assert_eq!(forced.candidates, strs(&["lima"]));
    assert!(!forced.record(ProbeOutcome::Failed("limactl binary not found on PATH".to_string())));
    assert!(forced.current().is_none());
    assert_eq!(forced.failures.len(), 1);

    let mut none = Detection::new(None, "macos");
    while none.current().is_some() {
        none.record(ProbeOutcome::TimedOut);
    }
    let names: Vec<&str> = none.failures.iter().map(|f| f.name.as_str()).collect();
    assert_eq!(
        names,
        vec!["apple/container", "orbstack", "colima", "rancher-desktop", "lima", "podman", "nerdctl", "docker"]
    );
}

#[test]
fn runtime_json_output_is_read_document_by_document() {
    let doc = parse_json_doc("{\"a\": 7, \"b\": [true, null, \"x\"]}").unwrap();
    match doc {
        JsonValue::Object(fields) => {
            assert_eq!(fields.len(), 2);
            assert_eq!(fields[0].0, "a");
            assert!(matches!(fields[0].1, JsonValue::Number(Some(7))));
            match &fields[1].1 {
                JsonValue::Array(items) => {
                    assert!(matches!(items[0], JsonValue::Bool(true)));
                    assert!(matches!(items[1], JsonValue::Null));
                    assert!(matches!(&items[2], JsonValue::String(s) if s == "x"));
                }
                _ => panic!("expected an array"),
            }
        }
        _ => panic!("expected an object"),
    }
    assert!(parse_json_doc("not json").is_none());
    let lines = parse_json_lines("{\"n\":1}\ngarbage\n[1]");
    assert_eq!(lines.len(), 3);
    assert!(lines[0].is_some());
    assert!(lines[1].is_none());
    assert!(matches!(&lines[2], Some(JsonValue::Array(v)) if v.len() == 1));
}

#[test]
fn podman_machine_output_needs_a_running_machine() {
    assert!(podman_machine_output_check("[{\"Name\":\"m\",\"Running\":true}]").is_ok());
    assert_eq!(
        podman_machine_output_check("[{\"Name\":\"m\",\"Running\":false}]"),
        Err("no running podman machine".to_string())
    );
    let err = podman_machine_output_check("{oops").unwrap_err();
    assert!(!err.is_empty());
    assert_ne!(err, "no running podman machine");
}
