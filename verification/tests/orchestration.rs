use perry_container_compose::backend::{CallLog, ContainerBackend, NetworkConfig, ReplyLog, VolumeConfig};
use perry_container_compose::compose::ComposeEngine;
use perry_container_compose::error::ComposeError;
use perry_container_compose::workload::{WorkloadGraph, WorkloadGraphEngine, WorkloadNode};
use perry_container_compose::types::{
    ComposeService, ComposeSpec, ContainerHandle, ContainerInfo, ContainerLogs, ContainerSpec,
    DependsOnSpec, ImageInfo, OrderedMap,
};

/// A backend that keeps its state in memory and records every call.
#[derive(Default)]
struct MockBackend {
    containers: Vec<String>,
    /// The image of each container that was run, by name.
    images: Vec<(String, String)>,
    /// Containers that exist but do not run, with their images.
    stopped: Vec<(String, String)>,
    networks: Vec<String>,
    volumes: Vec<String>,
    actions: Vec<String>,
    fail_on_run: Option<String>,
}

impl ContainerBackend for MockBackend {
    // The call and reply records are read only in proofs.
    fn calls(&self) -> CallLog {
        unreachable!()
    }
    fn replies(&self) -> ReplyLog {
        unreachable!()
    }
    fn backend_name(&self) -> String {
        "mock".to_string()
    }
    fn check_available(&mut self) -> Result<(), ComposeError> {
        Ok(())
    }
    fn run(&mut self, spec: &ContainerSpec) -> Result<ContainerHandle, ComposeError> {
        let name = spec.name.clone().unwrap_or_else(|| "unnamed".to_string());
        if let Some(fail) = &self.fail_on_run {
            if name.contains(fail.as_str()) {
                return Err(ComposeError::ServiceStartupFailed {
                    service: name,
                    message: "Mock failure".to_string(),
                });
            }
        }
        self.actions.push(format!("run:{}", name));
        self.containers.push(name.clone());
        self.images.push((name.clone(), spec.image.clone()));
        Ok(ContainerHandle { id: name.clone(), name: Some(name) })
    }
    fn create(&mut self, _spec: &ContainerSpec) -> Result<ContainerHandle, ComposeError> {
        Ok(ContainerHandle { id: "id".to_string(), name: None })
    }
    fn start(&mut self, id: &str) -> Result<(), ComposeError> {
        self.actions.push(format!("start:{}", id));
        if let Some(p) = self.stopped.iter().position(|(n, _)| n == id) {
            let (name, image) = self.stopped.remove(p);
            self.containers.push(name.clone());
            self.images.push((name, image));
        }
        Ok(())
    }
    fn stop(&mut self, id: &str, _timeout: Option<u32>) -> Result<(), ComposeError> {
        self.actions.push(format!("stop:{}", id));
        Ok(())
    }
    fn remove(&mut self, id: &str, _force: bool) -> Result<(), ComposeError> {
        self.actions.push(format!("remove:{}", id));
        self.containers.retain(|c| c != id);
        Ok(())
    }
    fn list(&mut self, _all: bool) -> Result<Vec<ContainerInfo>, ComposeError> {
        Ok(self
            .containers
            .iter()
            .map(|id| ContainerInfo {
                id: id.clone(),
                name: id.clone(),
                image: "mock-image".to_string(),
                status: "running".to_string(),
                ports: vec![],
                created: "2025-01-01T00:00:00Z".to_string(),
                ip: None,
            })
            .collect())
    }
    fn inspect(&mut self, id: &str) -> Result<ContainerInfo, ComposeError> {
        let info = |image: &str, status: &str| ContainerInfo {
            id: id.to_string(),
            name: id.to_string(),
            image: image.to_string(),
            status: status.to_string(),
            ports: vec![],
            created: String::new(),
            ip: None,
        };
        if self.containers.iter().any(|c| c == id) {
            let image = self.images.iter().rev().find(|(n, _)| n == id).map(|(_, i)| i.clone()).unwrap_or_default();
            return Ok(info(&image, "running"));
        }
        if let Some((_, image)) = self.stopped.iter().find(|(n, _)| n == id) {
            return Ok(info(image, "exited"));
        }
        Err(ComposeError::NotFound(id.to_string()))
    }
    fn logs(&mut self, id: &str, _tail: Option<u32>) -> Result<ContainerLogs, ComposeError> {
        Ok(ContainerLogs { stdout: format!("out of {}", id), stderr: String::new() })
    }
    fn exec(
        &mut self,
        id: &str,
        cmd: &Vec<String>,
        _env: Option<&Vec<(String, String)>>,
        _workdir: Option<&str>,
    ) -> Result<ContainerLogs, ComposeError> {
        Ok(ContainerLogs { stdout: format!("{}: {}", id, cmd.join(" ")), stderr: String::new() })
    }
    fn pull_image(&mut self, _reference: &str) -> Result<(), ComposeError> {
        Ok(())
    }
    fn list_images(&mut self) -> Result<Vec<ImageInfo>, ComposeError> {
        Ok(vec![])
    }
    fn remove_image(&mut self, _reference: &str, _force: bool) -> Result<(), ComposeError> {
        Ok(())
    }
    fn create_network(&mut self, name: &str, _config: &NetworkConfig) -> Result<(), ComposeError> {
        self.actions.push(format!("create_network:{}", name));
        self.networks.push(name.to_string());
        Ok(())
    }
    fn remove_network(&mut self, name: &str) -> Result<(), ComposeError> {
        self.actions.push(format!("remove_network:{}", name));
        self.networks.retain(|n| n != name);
        Ok(())
    }
    fn create_volume(&mut self, name: &str, _config: &VolumeConfig) -> Result<(), ComposeError> {
        self.actions.push(format!("create_volume:{}", name));
        self.volumes.push(name.to_string());
        Ok(())
    }
    fn remove_volume(&mut self, name: &str) -> Result<(), ComposeError> {
        self.actions.push(format!("remove_volume:{}", name));
        self.volumes.retain(|n| n != name);
        Ok(())
    }
}

fn service(image: &str) -> ComposeService {
    ComposeService { image: Some(image.to_string()), ..Default::default() }
}

fn project(name: &str, services: Vec<(&str, ComposeService)>) -> ComposeSpec {
    let mut spec = ComposeSpec::new();
    spec.name = Some(name.to_string());
    for (n, s) in services {
        spec.services.insert(n.to_string(), s);
    }
    spec
}

#[test]
fn test_compose_up_simple() {
    let spec = project("test", vec![("web", service("nginx"))]);
    let mut backend = MockBackend::default();
    let engine = ComposeEngine::new(spec);
    engine.up(&mut backend).unwrap();
    assert!(backend.actions.iter().any(|a| a.starts_with("run:")));
}

#[test]
fn test_compose_up_success() {
    let spec = project("test-project", vec![("web", service("nginx")), ("db", service("postgres"))]);
    let mut backend = MockBackend::default();
    let engine = ComposeEngine::new(spec);

    let handle = engine.up(&mut backend).expect("up failed");

    assert_eq!(handle.project_name, "test-project");
    assert_eq!(handle.services.len(), 2);
    assert_eq!(backend.containers.len(), 2);
    // db then web (alphabetical since no deps)
    assert!(backend.actions[0].starts_with("run:db"));
    assert!(backend.actions[1].starts_with("run:web"));
}

#[test]
fn test_compose_up_rollback_on_failure() {
    let spec = project("fail-project", vec![("db", service("postgres")), ("web", service("nginx"))]);
    let mut backend = MockBackend { fail_on_run: Some("web".to_string()), ..Default::default() };
    let engine = ComposeEngine::new(spec);
    let result = engine.up(&mut backend);

    assert!(result.is_err());
    // started db, tried web, then stopped and removed db
    assert!(backend.containers.is_empty());
    let actions: Vec<&str> = backend.actions.iter().map(|s| s.split(':').next().unwrap()).collect();
    assert!(actions.contains(&"run"));
    assert!(actions.contains(&"stop"));
    assert!(actions.contains(&"remove"));
}

#[test]
fn test_compose_down_cleans_resources() {
    let spec = project("down-project", vec![("web", service("nginx"))]);
    let mut backend = MockBackend::default();
    let engine = ComposeEngine::new(spec);

    let _handle = engine.up(&mut backend).unwrap();
    engine.down(&mut backend, true).expect("down failed");

    assert!(backend.containers.is_empty(), "Containers should be empty, but found: {:?}", backend.containers);
    assert!(backend.networks.is_empty());
    assert!(backend.volumes.is_empty());
}

#[test]
fn up_starts_dependencies_first_and_reports_failures_per_service() {
    let mut api = service("api");
    api.depends_on = Some(DependsOnSpec::List(vec!["db".to_string(), "cache".to_string()]));
    let mut web = service("web");
    web.depends_on = Some(DependsOnSpec::List(vec!["api".to_string()]));
    let spec = project(
        "deps",
        vec![("web", web), ("api", api), ("db", service("postgres")), ("cache", service("redis"))],
    );
    let mut backend = MockBackend::default();
    let handle = ComposeEngine::new(spec).up(&mut backend).unwrap();
    assert_eq!(handle.services, vec!["cache", "db", "api", "web"]);
    assert_eq!(backend.actions, vec!["run:cache", "run:db", "run:api", "run:web"]);
}

#[test]
fn up_rollback_undoes_in_reverse_then_networks_and_volumes() {
    let mut spec = project("p", vec![("a", service("x")), ("b", service("y")), ("c", service("z"))]);
    let mut nets = OrderedMap::new();
    nets.insert("front".to_string(), None);
    spec.networks = Some(nets);
    let mut vols = OrderedMap::new();
    vols.insert("data".to_string(), None);
    spec.volumes = Some(vols);
    let mut backend = MockBackend { fail_on_run: Some("c".to_string()), ..Default::default() };
    let err = ComposeEngine::new(spec).up(&mut backend).unwrap_err();
    match err {
        ComposeError::ServiceStartupFailed { service, message } => {
            assert_eq!(service, "c");
            assert_eq!(message, "Service 'c' failed to start: Mock failure");
        }
        _ => panic!("expected a startup failure"),
    }
    assert_eq!(
        backend.actions,
        vec![
            "create_network:front",
            "create_volume:data",
            "run:a",
            "run:b",
            "stop:b",
            "remove:b",
            "stop:a",
            "remove:a",
            "remove_network:front",
            "remove_volume:data",
        ]
    );
    assert!(backend.networks.is_empty() && backend.volumes.is_empty() && backend.containers.is_empty());
}

#[test]
fn down_keeps_volumes_unless_asked() {
    let mut spec = project("p", vec![("a", service("x"))]);
    let mut vols = OrderedMap::new();
    vols.insert("data".to_string(), None);
    spec.volumes = Some(vols);
    let engine = ComposeEngine::new(spec);
    let mut backend = MockBackend::default();
    engine.up(&mut backend).unwrap();
    engine.down(&mut backend, false).unwrap();
    assert_eq!(backend.volumes, vec!["data"]);
    engine.down(&mut backend, true).unwrap();
    assert!(backend.volumes.is_empty());
}

#[test]
fn up_fails_before_any_call_on_a_cycle() {
    let mut a = service("x");
    a.depends_on = Some(DependsOnSpec::List(vec!["b".to_string()]));
    let mut b = service("y");
    b.depends_on = Some(DependsOnSpec::List(vec!["a".to_string()]));
    let spec = project("p", vec![("a", a), ("b", b), ("c", service("z"))]);
    let mut backend = MockBackend::default();
    let err = ComposeEngine::new(spec).up(&mut backend).unwrap_err();
    match err {
        ComposeError::DependencyCycle { services } => assert_eq!(services, vec!["a", "b"]),
        _ => panic!("expected a cycle"),
    }
    assert!(backend.actions.is_empty());
}

#[test]
fn restart_stops_then_starts_each_service() {
    let engine = ComposeEngine::new(project("p", vec![]));
    let mut backend = MockBackend::default();
    engine.restart(&mut backend, &vec!["a".to_string(), "b".to_string()]).unwrap();
    assert_eq!(backend.actions, vec!["stop:a", "start:a", "stop:b", "start:b"]);
}

#[test]
fn logs_without_a_service_are_empty() {
    let engine = ComposeEngine::new(project("p", vec![]));
    let mut backend = MockBackend::default();
    let logs = engine.logs(&mut backend, None, None).unwrap();
    assert_eq!(logs.stdout, "");
    assert_eq!(logs.stderr, "");
    let logs = engine.logs(&mut backend, Some("web"), Some(5)).unwrap();
    assert_eq!(logs.stdout, "out of web");
}

#[test]
fn down_after_up_removes_what_up_made_in_reverse() {
    let mut b = service("y");
    b.depends_on = Some(DependsOnSpec::List(vec!["a".to_string()]));
    let mut spec = project("p", vec![("b", b), ("a", service("x"))]);
    let mut nets = OrderedMap::new();
    nets.insert("front".to_string(), None);
    spec.networks = Some(nets);
    let mut vols = OrderedMap::new();
    vols.insert("data".to_string(), None);
    spec.volumes = Some(vols);
    let engine = ComposeEngine::new(spec);
    let mut backend = MockBackend::default();
    engine.up(&mut backend).unwrap();
    let made = backend.actions.len();
    engine.down(&mut backend, true).unwrap();
    assert_eq!(
        backend.actions[made..].to_vec(),
        vec!["remove:b", "remove:a", "remove_network:front", "remove_volume:data"]
    );
    assert!(backend.containers.is_empty() && backend.networks.is_empty() && backend.volumes.is_empty());
}

#[test]
fn test_workload_run_simple() {
    let mut nodes = OrderedMap::new();
    nodes.insert(
        "api".to_string(),
        WorkloadNode {
            id: "api".to_string(),
            name: "api".to_string(),
            image: Some("my-api".to_string()),
            ports: None,
            env: None,
            depends_on: None,
        },
    );
    let graph = WorkloadGraph { name: "test-graph".to_string(), nodes };
    let mut engine = WorkloadGraphEngine::new(MockBackend::default());
    engine.run_graph(&graph).unwrap();
    assert!(engine.backend.actions.iter().any(|a| a.starts_with("run:")));
}

#[test]
fn workload_graph_down_status_and_ps() {
    let mut nodes = OrderedMap::new();
    for id in ["api", "db"] {
        nodes.insert(
            id.to_string(),
            WorkloadNode {
                id: id.to_string(),
                name: id.to_string(),
                image: Some(format!("{}-image", id)),
                ports: None,
                env: None,
                depends_on: None,
            },
        );
    }
    let graph = WorkloadGraph { name: "g".to_string(), nodes };
    let mut engine = WorkloadGraphEngine::new(MockBackend::default());
    let status = engine.graph_status(&graph);
    assert_eq!(
        status,
        vec![("api".to_string(), "unknown".to_string()), ("db".to_string(), "unknown".to_string())]
    );
    assert!(engine.graph_ps(&graph).is_empty());
    engine.down_graph(&graph);
    assert_eq!(engine.backend.actions, vec!["stop:api", "remove:api", "stop:db", "remove:db"]);
}

#[test]
fn up_again_skips_services_already_running_as_asked() {
    let spec = project("p", vec![("web", service("nginx")), ("db", service("postgres"))]);
    let engine = ComposeEngine::new(spec);
    let mut backend = MockBackend::default();
    engine.up(&mut backend).unwrap();
    assert_eq!(backend.actions, vec!["run:db", "run:web"]);
    let handle = engine.up(&mut backend).unwrap();
    assert_eq!(handle.services, vec!["db", "web"]);
    assert_eq!(backend.actions, vec!["run:db", "run:web"]);
}

#[test]
fn up_starts_a_stopped_container_and_reruns_one_of_another_image() {
    let spec = project("p", vec![("web", service("nginx")), ("db", service("postgres"))]);
    let mut backend = MockBackend {
        stopped: vec![("db".to_string(), "postgres".to_string()), ("web".to_string(), "httpd".to_string())],
        ..Default::default()
    };
    ComposeEngine::new(spec).up(&mut backend).unwrap();
    assert_eq!(backend.actions, vec!["start:db", "run:web"]);
}
