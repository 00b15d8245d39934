use tailor::ports::ResolvedBase;
use tailor::reference::{base_image_ref, has_tag_or_digest, oci_repository, toolchain_reference};
use tailor::schema::{SemVer, ToolchainEntry};

#[test]
fn oci_repository_strips_tag_and_digest() {
    assert_eq!(
        oci_repository("mcr.microsoft.com/azurelinux/3.0/image/minimal-os:latest"),
        "mcr.microsoft.com/azurelinux/3.0/image/minimal-os"
    );
    assert_eq!(
        oci_repository("registry.example/base@sha256:abc"),
        "registry.example/base"
    );
    assert_eq!(
        oci_repository("registry.example/base:1.2@sha256:abc"),
        "registry.example/base"
    );
    // A `host:port` registry must be preserved (the tag is the `:` after the last `/`).
    assert_eq!(
        oci_repository("localhost:5000/base:dev"),
        "localhost:5000/base"
    );
    assert_eq!(oci_repository("repo"), "repo");
}

#[test]
fn base_image_ref_pins_registry_bases_and_skips_local() {
    let oci = ResolvedBase::Oci {
        reference: "mcr.microsoft.com/azurelinux/3.0/image/minimal-os:latest".to_owned(),
        platform: "linux/amd64".to_owned(),
        digest: "sha256:dead".to_owned(),
    };
    assert_eq!(
        base_image_ref(&oci).as_deref(),
        Some("oci:mcr.microsoft.com/azurelinux/3.0/image/minimal-os@sha256:dead")
    );
    let local = ResolvedBase::LocalFile {
        sha256: [0; 32],
        size: 0,
    };
    assert_eq!(base_image_ref(&local), None);
}

fn toolchain(tag: Option<String>) -> ToolchainEntry {
    ToolchainEntry {
        container: "mcr.microsoft.com/azurelinux/imagecustomizer".to_owned(),
        version: Some(SemVer {
            major: 1,
            minor: 3,
            patch: 0,
            pre: String::new(),
            build: String::new(),
        }),
        tag,
    }
}

#[test]
fn defaults_tag_to_semver_without_v() {
    assert_eq!(
        toolchain_reference(&toolchain(None)),
        "mcr.microsoft.com/azurelinux/imagecustomizer:1.3.0"
    );
}

#[test]
fn defaults_to_latest_when_no_tag_or_version() {
    let entry = ToolchainEntry {
        container: "mcr.microsoft.com/azurelinux/imagecustomizer".to_owned(),
        version: None,
        tag: None,
    };
    assert_eq!(
        toolchain_reference(&entry),
        "mcr.microsoft.com/azurelinux/imagecustomizer:latest"
    );
}

#[test]
fn uses_explicit_tag() {
    assert_eq!(
        toolchain_reference(&toolchain(Some("latest".to_owned()))),
        "mcr.microsoft.com/azurelinux/imagecustomizer:latest"
    );
}

#[test]
fn preserves_existing_tag_or_digest() {
    let mut tagged = toolchain(None);
    tagged.container = "localhost:5000/repo/image:custom".to_owned();
    assert_eq!(toolchain_reference(&tagged), tagged.container);

    let mut digested = toolchain(None);
    digested.container = "example.com/repo/image@sha256:aaaaaaaaaaaaaaaaaaaaaaaaaaaaaaaaaaaaaaaaaaaaaaaaaaaaaaaaaaaaaaaa".to_owned();
    assert_eq!(toolchain_reference(&digested), digested.container);
}

#[test]
fn registry_port_is_not_a_tag() {
    assert!(!has_tag_or_digest("localhost:5000/repo"));
    assert!(has_tag_or_digest("localhost:5000/repo:1"));
    assert!(has_tag_or_digest("repo@sha256:00"));
}

#[test]
fn prerelease_and_build_metadata_appear_in_the_version_tag() {
    let entry = ToolchainEntry {
        container: "ic".to_owned(),
        version: Some(SemVer {
            major: 10,
            minor: 0,
            patch: 207,
            pre: "rc.1".to_owned(),
            build: "abc".to_owned(),
        }),
        tag: None,
    };
    assert_eq!(entry.effective_tag(), "10.0.207-rc.1+abc");
}
