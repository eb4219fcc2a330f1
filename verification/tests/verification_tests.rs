use perry_container_compose::verification::{
    get_chainguard_image, get_default_base_image, VerificationCache,
};

#[test]
fn test_chainguard_image_lookup() {
    assert_eq!(get_chainguard_image("git"), Some("cgr.dev/chainguard/git".to_string()));
    assert_eq!(get_chainguard_image("node"), Some("cgr.dev/chainguard/node".to_string()));
    assert_eq!(get_chainguard_image("rust"), Some("cgr.dev/chainguard/rust".to_string()));
    assert_eq!(get_chainguard_image("nonexistent"), None);
}

#[test]
fn test_default_base_image() {
    assert_eq!(get_default_base_image(), "cgr.dev/chainguard/alpine-base");
}

#[test]
fn verify_image_digest_is_byte_length() {
    let mut cache = VerificationCache::new();
    assert_eq!(cache.verify_image("alpine:3"), Ok("sha256:8".to_string()));
    // bytes, not characters
    assert_eq!(cache.verify_image("é"), Ok("sha256:2".to_string()));
}

#[test]
fn verify_image_is_idempotent() {
    let mut cache = VerificationCache::new();
    let first = cache.verify_image("cgr.dev/chainguard/node").unwrap();
    let second = cache.verify_image("cgr.dev/chainguard/node").unwrap();
    assert_eq!(first, second);
    assert_eq!(first, "sha256:23");
}
