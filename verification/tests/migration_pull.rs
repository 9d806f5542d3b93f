//! The image that a migration goes to.

use bootc_migrate_core::migration::pull::{
    finish_pull, is_sha256_digest, parse_pull_digests, phase2_pull_image, pin_image_reference,
    podman_image, podman_manifest_digest, refresh_target_image, PullStep, ResolvedTargetImage,
};

#[test]
fn parse_pull_digests_kanpur_format_no_manifest_line() {
    // bootc 1.13.0: config + verity, no "manifest" line. The old code used the
    // whole multi-line output as manifest_digest, corrupting the .origin ini.
    let out = "config sha256:39f5731c23efd9\nverity b0e7a7dabb84cb9d";
    let (manifest, config) = parse_pull_digests(out);
    // No usable manifest digest from this output (caller falls back to podman).
    assert_eq!(manifest, None);
    // Config digest is parsed clean and single-line.
    assert_eq!(config.as_deref(), Some("sha256:39f5731c23efd9"));
}

#[test]
fn parse_pull_digests_with_manifest_line() {
    let out = "manifest sha256:aaa\nconfig sha256:bbb\nverity ccc";
    let (manifest, config) = parse_pull_digests(out);
    assert_eq!(manifest.as_deref(), Some("sha256:aaa"));
    assert_eq!(config.as_deref(), Some("sha256:bbb"));
}

#[test]
fn parse_pull_digests_single_line_fallback() {
    // Single bare digest line → config via the sha256: token fallback.
    let (manifest, config) = parse_pull_digests("sha256:deadbeef");
    assert_eq!(manifest, None);
    assert_eq!(config.as_deref(), Some("sha256:deadbeef"));
}

#[test]
fn parse_pull_digests_never_returns_multiline() {
    // Even a malformed multi-token "manifest" line must be rejected, never
    // passed through to corrupt the .origin ini.
    let (manifest, _) = parse_pull_digests("manifest sha256:x extra junk");
    assert_eq!(manifest, None);
}

#[test]
fn pin_image_reference_replaces_a_tag_but_preserves_a_registry_port() {
    let digest = "sha256:0123456789abcdef0123456789abcdef0123456789abcdef0123456789abcdef";
    assert_eq!(
        pin_image_reference("ghcr.io/projectbluefin/dakota-nvidia:testing", digest).unwrap(),
        format!("ghcr.io/projectbluefin/dakota-nvidia@{digest}")
    );
    assert_eq!(
        pin_image_reference("docker://localhost:5000/ns/image:testing", digest).unwrap(),
        format!("localhost:5000/ns/image@{digest}")
    );
    assert_eq!(
        pin_image_reference(
            "ghcr.io/projectbluefin/dakota-nvidia@sha256:ffffffffffffffffffffffffffffffffffffffffffffffffffffffffffffffff",
            digest
        )
        .unwrap(),
        format!("ghcr.io/projectbluefin/dakota-nvidia@{digest}")
    );
}

#[test]
fn sha256_digest_validation_requires_full_hex_digest() {
    assert!(is_sha256_digest(
        "sha256:0123456789abcdef0123456789abcdef0123456789abcdef0123456789abcdef"
    ));
    assert!(!is_sha256_digest("sha256:deadbeef"));
    assert!(!is_sha256_digest(
        "sha512:0123456789abcdef0123456789abcdef0123456789abcdef0123456789abcdef"
    ));
}

const MANIFEST: &str = "sha256:0000000000000000000000000000000000000000000000000000000000000000";
const OTHER: &str = "sha256:ffffffffffffffffffffffffffffffffffffffffffffffffffffffffffffffff";
const CONFIG: &str = "sha256:1111111111111111111111111111111111111111111111111111111111111111";

fn resolved(manifest: &str) -> ResolvedTargetImage {
    ResolvedTargetImage {
        image_reference: format!("example.invalid/mock@{manifest}"),
        manifest_digest: manifest.into(),
    }
}

fn stored() -> String {
    format!("manifest {MANIFEST}\nconfig {CONFIG}\n")
}

#[test]
fn phase2_imports_the_resolved_manifest_reference() {
    assert_eq!(phase2_pull_image("example.invalid/mock:latest", false), PullStep::Resolve);
    let result =
        finish_pull("example.invalid/mock:latest", resolved(MANIFEST), &stored()).unwrap();
    assert_eq!(result.manifest_digest, MANIFEST);
    assert!(result.config_digest.starts_with("sha256:1111"));
    assert_eq!(result.image_reference, format!("example.invalid/mock@{MANIFEST}"));
}

#[test]
fn phase2_dry_run_does_not_resolve_or_pull() {
    match phase2_pull_image("example.invalid/mock:latest", true) {
        PullStep::Done(image) => assert_eq!(image.image_reference, "example.invalid/mock:latest"),
        PullStep::Resolve => panic!("dry run must not resolve the target image"),
    }
}

#[test]
fn phase2_rejects_a_store_manifest_from_another_generation() {
    assert!(finish_pull("example.invalid/mock:latest", resolved(OTHER), &stored()).is_err());
}

#[test]
fn phase2_does_not_pull_when_resolution_fails() {
    let refused = refresh_target_image("example.invalid/mock:latest", Some("test failure"), None);
    assert!(refused.is_err());
    assert!(refresh_target_image("example.invalid/mock:latest", None, None).is_err());
    let found = refresh_target_image("example.invalid/mock:latest", None, Some(MANIFEST)).unwrap();
    assert_eq!(found, resolved(MANIFEST));
}

#[test]
fn podman_names_have_no_transport() {
    assert_eq!(podman_image("docker://a/b:c"), "a/b:c");
    assert_eq!(podman_manifest_digest(&format!("{MANIFEST}\n")).as_deref(), Some(MANIFEST));
    assert_eq!(podman_manifest_digest("nothing\n"), None);
}

#[test]
fn transports_other_than_docker_are_refused() {
    let digest = "sha256:0123456789abcdef0123456789abcdef0123456789abcdef0123456789abcdef";
    for image in [
        "oci:a/b:t",
        "oci:5000/a",
        "oci-archive:/tmp/x.tar",
        "dir:/tmp/x",
        "docker-daemon:a:b",
        "containers-storage:quay.io/a/b:c",
        "ostree-unverified-registry:quay.io/a/b",
        "oci://a/b",
        "docker://oci://a/b",
    ] {
        let refused = pin_image_reference(image, digest).unwrap_err();
        assert!(refused.starts_with("unsupported image transport in "), "{image}: {refused}");
    }
    assert_eq!(pin_image_reference("fedora:41", digest).unwrap(), format!("fedora@{digest}"));
    assert_eq!(
        pin_image_reference("localhost:5000/a", digest).unwrap(),
        format!("localhost:5000/a@{digest}")
    );
}

#[test]
fn what_names_a_registry_is_pinned() {
    let digest = "sha256:0123456789abcdef0123456789abcdef0123456789abcdef0123456789abcdef";
    for (image, name) in [
        ("docker://oci:latest", "oci"),
        ("docker://oci:5000/a:t", "oci:5000/a"),
        ("docker://sif:a/b", "sif:a/b"),
        ("oci:latest", "oci"),
        ("[::1]:5000/ns/image:tag", "[::1]:5000/ns/image"),
        ("docker://[::1]:5000/ns/image:tag", "[::1]:5000/ns/image"),
        ("localhost:5000/a:b/c", "localhost:5000/a:b/c"),
        ("quay.io:port/a", "quay.io:port/a"),
    ] {
        assert_eq!(pin_image_reference(image, digest).unwrap(), format!("{name}@{digest}"));
        let found = refresh_target_image(image, None, Some(digest)).unwrap();
        assert_eq!(found.image_reference, format!("{name}@{digest}"));
    }
    // One transport is taken off before podman sees the image, and one after.
    let twice = "docker://docker://a/b:t";
    assert!(pin_image_reference(twice, digest).is_err());
    assert_eq!(
        refresh_target_image(twice, None, Some(digest)).unwrap().image_reference,
        format!("a/b@{digest}")
    );
}
