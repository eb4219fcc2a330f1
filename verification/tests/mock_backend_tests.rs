use perry_container_compose::backend::ContainerBackend;
use perry_container_compose::compose::ComposeEngine;
use perry_container_compose::error::ComposeError;
use perry_container_compose::testing::{copy_spec, MockBackend, MockReply, RecordedCall};
use perry_container_compose::types::{ComposeService, ComposeSpec, ContainerHandle, ContainerInfo, ContainerSpec};

fn project(name: &str, services: Vec<(&str, &str)>) -> ComposeSpec {
    let mut spec = ComposeSpec::new();
    spec.name = Some(name.to_string());
    for (n, image) in services {
        spec.services.insert(n.to_string(), ComposeService { image: Some(image.to_string()), ..Default::default() });
    }
    spec
}

#[test]
fn mock_records_calls_and_answers_from_its_queue() {
    let mut backend = MockBackend::new();
    backend.push_response(MockReply::Handle(ContainerHandle { id: "abc".to_string(), name: None }));
    backend.push_response(MockReply::Failure(ComposeError::NotFound("x".to_string())));
    backend.push_response(MockReply::Done);
    let spec = ContainerSpec::for_image("nginx".to_string());
    let h = backend.run(&spec).unwrap();
    assert_eq!(h.id, "abc");
    assert!(matches!(backend.start("abc"), Err(ComposeError::NotFound(m)) if m == "x"));
    assert!(matches!(backend.inspect("abc"), Err(ComposeError::BackendError { .. })));
    let empty = backend.list(true).unwrap();
    assert!(empty.is_empty());
    assert!(backend.check_available().is_ok());
    assert_eq!(backend.calls.len(), 4);
    assert!(matches!(&backend.calls[0], RecordedCall::Run(s) if s.image == "nginx"));
    assert!(matches!(&backend.calls[1], RecordedCall::Start(id) if id == "abc"));
    assert!(matches!(&backend.calls[2], RecordedCall::Inspect(id) if id == "abc"));
    assert!(matches!(&backend.calls[3], RecordedCall::List(true)));
    assert!(backend.responses.is_empty());
}

#[test]
fn mock_backend_sees_up_run_the_service_and_down_remove_it() {
    let spec = project("mock-project", vec![("web", "nginx")]);
    let engine = ComposeEngine::new(spec);
    let mut backend = MockBackend::new();
    let handle = engine.up(&mut backend).unwrap();
    assert_eq!(handle.services, vec!["web".to_string()]);
    assert!(backend.calls.iter().any(|c| matches!(c, RecordedCall::Run(s)
        if s.image == "nginx" && s.name.as_deref() == Some("web"))));
    engine.down(&mut backend, true).unwrap();
    assert!(matches!(backend.calls.last(), Some(RecordedCall::Remove(id, true)) if id == "web"));
}

#[test]
fn copied_spec_keeps_every_setting() {
    let mut spec = ContainerSpec::for_image("redis".to_string());
    spec.name = Some("cache".to_string());
    spec.env = Some(vec![("A".to_string(), "1".to_string())]);
    spec.rm = Some(true);
    let copy = copy_spec(&spec);
    assert_eq!(copy.image, "redis");
    assert_eq!(copy.name.as_deref(), Some("cache"));
    assert_eq!(copy.env, Some(vec![("A".to_string(), "1".to_string())]));
    assert_eq!(copy.rm, Some(true));
}

fn info(image: &str, status: &str) -> ContainerInfo {
    ContainerInfo {
        id: "c1".to_string(),
        name: "web".to_string(),
        image: image.to_string(),
        status: status.to_string(),
        ports: vec![],
        created: String::new(),
        ip: None,
    }
}

#[test]
fn second_up_of_a_running_stack_runs_nothing() {
    let engine = ComposeEngine::new(project("again", vec![("web", "nginx"), ("db", "postgres")]));
    let mut backend = MockBackend::new();
    let first = engine.up(&mut backend).unwrap();
    let runs_first = backend.calls.iter().filter(|c| matches!(c, RecordedCall::Run(_))).count();
    assert_eq!(runs_first, 2);
    let order = first.services.clone();
    let mut again = MockBackend::new();
    for name in &order {
        let image = if name == "web" { "nginx" } else { "postgres" };
        again.push_response(MockReply::Container(info(image, "running")));
    }
    let second = engine.up(&mut again).unwrap();
    assert_eq!(second.services, order);
    assert!(again.calls.iter().all(|c| matches!(c, RecordedCall::Inspect(_))));
    assert_eq!(again.calls.len(), 2);
}

#[test]
fn up_starts_a_stopped_container_and_reruns_one_of_another_image_through_the_mock() {
    let engine = ComposeEngine::new(project("mixed", vec![("web", "nginx")]));
    let mut backend = MockBackend::new();
    backend.push_response(MockReply::Container(info("nginx", "exited")));
    engine.up(&mut backend).unwrap();
    assert!(matches!(&backend.calls[1], RecordedCall::Start(id) if id == "web"));
    let mut other = MockBackend::new();
    other.push_response(MockReply::Container(info("nginx:old", "running")));
    engine.up(&mut other).unwrap();
    assert!(matches!(&other.calls[1], RecordedCall::Run(s) if s.image == "nginx"));
}

#[test]
fn failed_run_rolls_back_the_containers_run_before_it() {
    let engine = ComposeEngine::new(project("rollback", vec![("web", "nginx"), ("db", "postgres")]));
    let order = engine.up(&mut MockBackend::new()).unwrap().services;
    let mut backend = MockBackend::new();
    // First service: not found, then run with handle "first-id".
    backend.push_response(MockReply::Failure(ComposeError::NotFound("c".to_string())));
    backend.push_response(MockReply::Handle(ContainerHandle { id: "first-id".to_string(), name: None }));
    // Second service: not found, then its run fails.
    backend.push_response(MockReply::Failure(ComposeError::NotFound("c".to_string())));
    backend.push_response(MockReply::Failure(ComposeError::BackendError { code: 125, message: "boom".to_string() }));
    let r = engine.up(&mut backend);
    match r {
        Err(ComposeError::ServiceStartupFailed { service, .. }) => assert_eq!(service, order[1]),
        _ => panic!("expected a startup failure"),
    }
    let n = backend.calls.len();
    assert!(matches!(&backend.calls[n - 2], RecordedCall::Stop(id, _) if id == "first-id"));
    assert!(matches!(&backend.calls[n - 1], RecordedCall::Remove(id, true) if id == "first-id"));
}

#[test]
fn every_call_succeeding_brings_each_service_up_in_order() {
    let engine = ComposeEngine::new(project("ok", vec![("web", "nginx"), ("db", "postgres")]));
    let mut backend = MockBackend::new();
    let h = engine.up(&mut backend).unwrap();
    assert_eq!(h.project_name, "ok");
    let runs: Vec<String> = backend
        .calls
        .iter()
        .filter_map(|c| match c {
            RecordedCall::Run(s) => s.name.clone(),
            _ => None,
        })
        .collect();
    assert_eq!(runs, h.services);
    assert!(!backend.calls.iter().any(|c| matches!(c, RecordedCall::Stop(..) | RecordedCall::Remove(..))));
}
