use sha2::{Digest, Sha256};
use tailor::fingerprint::{fingerprint, fingerprint_message_bytes, FingerprintInputs};
use tailor::ports::ResolvedBase;
use tailor::types::Operation;

fn base() -> ResolvedBase {
    ResolvedBase::LocalFile { sha256: [1; 32], size: 100 }
}

/// The canonical byte form of a config document, as the renderer serialises it.
fn config(text: &str) -> Vec<u8> {
    let value: serde_yaml_ng::Value = serde_yaml_ng::from_str(text).unwrap();
    serde_yaml_ng::to_string(&value).unwrap().into_bytes()
}

fn inputs<'a>(slug: &'a str, config: &'a [u8], base: &'a ResolvedBase) -> FingerprintInputs<'a> {
    FingerprintInputs {
        slug,
        toolchain_digest: "sha256:abc",
        base,
        config,
        operation: Operation::Customize,
        inject_files: false,
        extra_dependency_hashes: &[],
        rpm_source_hashes: &[],
    }
}

#[test]
fn fingerprint_is_deterministic() {
    let base = base();
    let cfg = config("os:\n  hostname: a\n");
    let a = fingerprint(&inputs("cell", &cfg, &base));
    let b = fingerprint(&inputs("cell", &cfg, &base));
    assert_eq!(a, b);
}

#[test]
fn config_change_changes_fingerprint() {
    let base = base();
    let cfg_a = config("os:\n  hostname: a\n");
    let cfg_b = config("os:\n  hostname: b\n");
    assert_ne!(fingerprint(&inputs("cell", &cfg_a, &base)), fingerprint(&inputs("cell", &cfg_b, &base)));
}

#[test]
fn slug_is_part_of_the_fingerprint() {
    let base = base();
    let cfg = config("os:\n  hostname: a\n");
    assert_ne!(fingerprint(&inputs("cell-a", &cfg, &base)), fingerprint(&inputs("cell-b", &cfg, &base)));
}

fn le(n: u64) -> Vec<u8> {
    n.to_le_bytes().to_vec()
}

fn field(label: &str, bytes: &[u8]) -> Vec<u8> {
    let mut out = le(label.len() as u64);
    out.extend_from_slice(label.as_bytes());
    out.extend(le(bytes.len() as u64));
    out.extend_from_slice(bytes);
    out
}

#[test]
fn message_frames_every_field_in_order() {
    let base = ResolvedBase::Oci {
        reference: "registry.example/base:1".to_owned(),
        platform: "linux/arm64".to_owned(),
        digest: "sha256:beef".to_owned(),
    };
    let deps = [[7u8; 32]];
    let rpms = [[8u8; 32], [9u8; 32]];
    let inputs = FingerprintInputs {
        slug: "img_cosi",
        toolchain_digest: "sha256:abc",
        base: &base,
        config: b"os: {}\n",
        operation: Operation::Convert,
        inject_files: true,
        extra_dependency_hashes: &deps,
        rpm_source_hashes: &rpms,
    };
    let mut expected = Vec::new();
    expected.extend(field("slug", b"img_cosi"));
    expected.extend(field("toolchain", b"sha256:abc"));
    expected.extend(field("base.oci.ref", b"registry.example/base:1"));
    expected.extend(field("base.oci.platform", b"linux/arm64"));
    expected.extend(field("base.oci.digest", b"sha256:beef"));
    expected.extend(field("config", b"os: {}\n"));
    expected.extend(field("operation", b"convert"));
    expected.extend(field("inject", &[1]));
    expected.extend(field("dep", &[7u8; 32]));
    expected.extend(field("rpm", &[8u8; 32]));
    expected.extend(field("rpm", &[9u8; 32]));
    assert_eq!(fingerprint_message_bytes(&inputs), expected);
}

#[test]
fn local_base_frames_hash_and_size() {
    let base = ResolvedBase::LocalFile { sha256: [3; 32], size: 0x0102 };
    let cfg: Vec<u8> = Vec::new();
    let msg = fingerprint_message_bytes(&inputs("s", &cfg, &base));
    let mut expected = Vec::new();
    expected.extend(field("slug", b"s"));
    expected.extend(field("toolchain", b"sha256:abc"));
    expected.extend(field("base.local", &[3; 32]));
    expected.extend(field("base.size", &[2, 1, 0, 0, 0, 0, 0, 0]));
    expected.extend(field("config", b""));
    expected.extend(field("operation", b"customize"));
    expected.extend(field("inject", &[0]));
    assert_eq!(msg, expected);
}

#[test]
fn fingerprint_is_the_sha256_of_the_message() {
    let base = base();
    let cfg = config("os:\n  hostname: a\n");
    let i = inputs("cell", &cfg, &base);
    let expected: [u8; 32] = Sha256::digest(fingerprint_message_bytes(&i)).into();
    assert_eq!(fingerprint(&i).0, expected);
    assert_ne!(fingerprint(&i).0.to_vec(), fingerprint_message_bytes(&i));
}

#[test]
fn moving_bytes_between_fields_changes_the_message() {
    // Without framing, "ab" + "c" and "a" + "bc" would concatenate to the same bytes.
    let base = base();
    let cfg: Vec<u8> = Vec::new();
    let mut a = inputs("ab", &cfg, &base);
    a.toolchain_digest = "c";
    let mut b = inputs("a", &cfg, &base);
    b.toolchain_digest = "bc";
    assert_ne!(fingerprint_message_bytes(&a), fingerprint_message_bytes(&b));
}
