use tailor::error::CoreError;
use tailor::lockfile::{lock_requests, locked_container, locked_toolchain_digest, require_locked_base};
use tailor::matrix::AxisTuple;
use tailor::orchestrator::{LockedBase, Lockfile};
use tailor::render::RenderedCell;
use tailor::schema::{AzureLinuxBase, BaseSource, OciBase, SemVer, ToolchainEntry};
use tailor::types::Arch;
use tailor::yaml::Yaml;

fn lock() -> Lockfile {
    Lockfile { toolchains: Vec::new(), bases: Vec::new(), runtime: None }
}

fn base(reference: &str, platform: &str, digest: &str) -> LockedBase {
    LockedBase { reference: reference.to_owned(), platform: platform.to_owned(), digest: digest.to_owned() }
}

fn entry(tag: Option<&str>) -> ToolchainEntry {
    ToolchainEntry {
        container: "mcr.microsoft.com/azurelinux/imagecustomizer".to_owned(),
        version: Some(SemVer { major: 1, minor: 3, patch: 0, pre: String::new(), build: String::new() }),
        tag: tag.map(str::to_owned),
    }
}

#[test]
fn upsert_replaces_the_same_reference_and_platform_and_appends_others() {
    let mut l = lock();
    l.upsert_base(base("r", "linux/amd64", "sha256:1"));
    l.upsert_base(base("r", "linux/arm64", "sha256:2"));
    l.upsert_base(base("r", "linux/amd64", "sha256:3"));
    assert_eq!(l.bases.len(), 2);
    assert_eq!(l.base_digest("r", "linux/amd64").as_deref(), Some("sha256:3"));
    assert_eq!(l.base_digest("r", "linux/arm64").as_deref(), Some("sha256:2"));
    assert_eq!(l.base_digest("q", "linux/arm64"), None);
}

#[test]
fn locked_mode_requires_a_pinned_base() {
    let mut l = lock();
    l.upsert_base(base("r", "linux/amd64", "sha256:1"));
    assert_eq!(require_locked_base(&l, "r", "linux/amd64").unwrap(), "sha256:1");
    let err = require_locked_base(&l, "r", "linux/arm64").unwrap_err();
    assert!(matches!(&err, CoreError::LockMissing { reference, platform } if reference == "r" && platform == "linux/arm64"));
    assert_eq!(err.message(), "tailor.lock is missing a `linux/arm64` entry for `r`; run `tailor lock`");
}

#[test]
fn locked_container_records_what_was_resolved() {
    let c = locked_container(&entry(None), "sha256:ic".to_owned());
    assert_eq!(c.container, "mcr.microsoft.com/azurelinux/imagecustomizer");
    assert_eq!(c.version.as_deref(), Some("1.3.0"));
    assert_eq!(c.tag.as_deref(), Some("1.3.0"));
    assert_eq!(c.digest, "sha256:ic");
}

#[test]
fn locked_toolchains_must_be_present_and_current() {
    let mut l = lock();
    let err = locked_toolchain_digest(&l, "ic", &entry(None)).unwrap_err();
    assert!(matches!(&err, CoreError::LockMissing { reference, platform } if reference == "ic" && platform == "toolchain"));
    l.toolchains.push(("ic".to_owned(), locked_container(&entry(None), "sha256:ic".to_owned())));
    assert_eq!(locked_toolchain_digest(&l, "ic", &entry(None)).unwrap(), "sha256:ic");
    let err = locked_toolchain_digest(&l, "ic", &entry(Some("2.0"))).unwrap_err();
    match err {
        CoreError::LockDrift { detail } => assert_eq!(
            detail,
            "toolchain `ic` is locked to `mcr.microsoft.com/azurelinux/imagecustomizer:1.3.0` but the workspace names \
             `mcr.microsoft.com/azurelinux/imagecustomizer:2.0`"
        ),
        other => panic!("unexpected {other:?}"),
    }
}

fn rendered(tuple: Vec<(&str, &str)>, base: BaseSource) -> RenderedCell {
    RenderedCell {
        tuple: AxisTuple { values: tuple.into_iter().map(|(a, v)| (a.to_owned(), v.to_owned())).collect() },
        ic_config: Yaml::Null,
        base,
        outputs: Vec::new(),
        rpm_sources: Vec::new(),
    }
}

#[test]
fn lock_requests_cover_registry_bases_per_architecture() {
    let cells = vec![
        rendered(vec![], BaseSource::Oci { oci: OciBase { uri: "r".to_owned(), platform: None } }),
        rendered(vec![], BaseSource::Path { path: "b.img".to_owned() }),
        rendered(
            vec![("arch", "arm64")],
            BaseSource::AzureLinux { azure_linux: AzureLinuxBase { version: "3.0".to_owned(), variant: "core".to_owned() } },
        ),
    ];
    let requests = lock_requests(&cells, &vec![Arch::Amd64, Arch::Arm64]);
    let arches: Vec<Arch> = requests.iter().map(|r| r.1).collect();
    assert_eq!(arches, vec![Arch::Amd64, Arch::Arm64, Arch::Arm64]);
    assert!(matches!(&requests[0].0, BaseSource::Oci { oci } if oci.uri == "r"));
    assert!(matches!(&requests[2].0, BaseSource::AzureLinux { .. }));
}
