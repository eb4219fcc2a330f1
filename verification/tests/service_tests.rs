use perry_container_compose::service::{
    generate_name, hex8, service_container_name, short_hash, suffixed_name,
};
use perry_container_compose::types::{ComposeService, Described, ListOrDict, OrderedMap, PortSpec, YamlKind, YamlValue};

fn json_of(image: &str) -> String {
    format!("{{\"image\":\"{}\"}}", image)
}

fn is_hex8(s: &str) -> bool {
    s.len() == 8 && s.chars().all(|c| c.is_ascii_digit() || ('a'..='f').contains(&c))
}

#[test]
fn test_generate_name_format() {
    let name = generate_name("nginx:latest");
    let parts: Vec<&str> = name.split('-').collect();
    assert_eq!(parts.len(), 2);
    assert_eq!(parts[0].len(), 8);
    assert_eq!(parts[1].len(), 8);
}

#[test]
fn test_service_container_name_explicit() {
    let mut svc = ComposeService::default();
    svc.container_name = Some("custom-name".to_string());
    let name = service_container_name(&svc, "web", "{}");
    assert_eq!(name, "custom-name");
}

#[test]
fn test_service_container_name_generated() {
    let svc = ComposeService::default();
    let name = service_container_name(&svc, "web", "{}");
    let parts: Vec<&str> = name.split('-').collect();
    assert_eq!(parts.len(), 2);
}

#[test]
fn test_service_container_name_format() {
    let svc = ComposeService { image: Some("redis:7".to_string()), ..Default::default() };
    let name = service_container_name(&svc, "cache", &json_of("redis:7"));
    let parts: Vec<&str> = name.split('-').collect();
    assert_eq!(parts.len(), 2);
    assert_eq!(parts[0].len(), 8);
    assert_eq!(parts[1].len(), 8);
}

#[test]
fn test_service_container_name_stability() {
    let svc = ComposeService { image: Some("postgres:16".to_string()), ..Default::default() };
    let n1 = service_container_name(&svc, "db", &json_of("postgres:16"));
    let n2 = service_container_name(&svc, "db", &json_of("postgres:16"));
    let parts1: Vec<&str> = n1.split('-').collect();
    let parts2: Vec<&str> = n2.split('-').collect();
    // the hash part is stable for the same definition
    assert_eq!(parts1[0], parts2[0]);
    // the random suffix varies
    assert_ne!(parts1[1], parts2[1]);
}

#[test]
fn test_service_container_name_override() {
    let svc = ComposeService { container_name: Some("my-custom-name".to_string()), ..Default::default() };
    let name = service_container_name(&svc, "ignored", "{}");
    assert_eq!(name, "my-custom-name");
}

fn str_value(t: &str) -> YamlValue {
    YamlValue { kind: YamlKind::String(t.to_string()), text: t.to_string(), debug: format!("String({:?})", t) }
}

fn service_with_var(val: &str) -> ComposeService {
    let mut env = OrderedMap::new();
    env.insert("VAR".to_string(), Some(str_value(val)));
    ComposeService { image: Some("alpine".to_string()), environment: Some(ListOrDict::Dict(env)), ..Default::default() }
}

// The library hashes the service's serialized text, which the program
// produces with serde_json; each service below is given with that text.
#[test]
fn test_service_container_name_sensitive_to_spec_changes() {
    let svc1 = service_with_var("val1");
    let svc2 = service_with_var("val2");
    let json1 = r#"{"image":"alpine","environment":{"VAR":"val1"}}"#;
    let json2 = r#"{"image":"alpine","environment":{"VAR":"val2"}}"#;
    let n1 = service_container_name(&svc1, "svc", json1);
    let n2 = service_container_name(&svc2, "svc", json2);
    let hash1 = n1.split('-').next().unwrap().to_string();
    let hash2 = n2.split('-').next().unwrap().to_string();
    assert_ne!(hash1, hash2, "Hash should change when environment variables change");

    let mut svc3 = service_with_var("val1");
    svc3.ports = Some(vec![Described {
        value: PortSpec::Short(str_value("80:80")),
        debug: "Short(String(\"80:80\"))".to_string(),
    }]);
    let json3 = r#"{"image":"alpine","environment":{"VAR":"val1"},"ports":["80:80"]}"#;
    let n3 = service_container_name(&svc3, "svc", json3);
    let hash3 = n3.split('-').next().unwrap().to_string();
    assert_ne!(hash1, hash3, "Hash should change when ports change");

    let again = service_container_name(&service_with_var("val1"), "other", json1);
    assert_eq!(again.split('-').next().unwrap(), hash1, "equal services give equal hashes");
}

#[test]
fn short_hash_is_the_md5_prefix() {
    // MD5("") = d41d8cd98f00b204e9800998ecf8427e
    assert_eq!(short_hash(""), "d41d8cd9");
    // MD5("abc") = 900150983cd24fb0d6963f7d28e17f72
    assert_eq!(short_hash("abc"), "90015098");
}

#[test]
fn hex8_pads_and_uses_lowercase() {
    assert_eq!(hex8(0), "00000000");
    assert_eq!(hex8(255), "000000ff");
    assert_eq!(hex8(0xDEADBEEF), "deadbeef");
    assert_eq!(suffixed_name("abcd1234", 26), "abcd1234-0000001a");
    let n = generate_name("x");
    assert!(is_hex8(&n[9..]));
}
