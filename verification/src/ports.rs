//! The values exchanged with the execution and resolution adapters: what an executor needs to run
//! one cell, what it reports, container requests and results, and resolved base images.
use vstd::prelude::*;

verus! {

/// Everything an executor needs to run one cell, resolved up front by the orchestrator.
#[derive(Debug)]
pub struct ExecutionContext {
    /// Where artifacts are written.
    pub output_dir: String,
    /// The toolchain image reference (`container@sha256:…`, or `container:tag` for a dry run).
    pub ic_image_ref: String,
    /// The digest-pinned base reference for a registry base, when one was resolved.
    pub base_ref: Option<String>,
    /// The container platform, `linux/<arch>`.
    pub platform: String,
    /// `Some(i)` for the i-th clone; suffixes all per-clone paths so clones never race.
    pub clone_index: Option<u32>,
    /// Print the resolved invocation without running.
    pub dry_run: bool,
    /// Runtime knobs (path translation root, privilege, janitor image, …).
    pub runtime: RuntimeConfig,
}

/// The result of one cell execution.
#[derive(Debug)]
pub struct ExecutionResult {
    /// The produced artifact (a file, or a directory for `pxe-dir`).
    pub artifact_path: String,
    /// The Image Customizer process exit code.
    pub exit_code: i64,
    /// Trailing log lines, for error reporting.
    pub logs: String,
}

/// Resolved runtime settings for the container execution layer.
#[derive(Debug)]
pub struct RuntimeConfig {
    /// The root under which the host filesystem is bound into the container.
    pub host_root: String,
    /// Whether to run the Image Customizer container privileged.
    pub privileged: bool,
    /// Scratch directory for working copies and RPM farms.
    pub build_dir: Option<String>,
    /// Image Customizer `--log-level`.
    pub log_level: Option<String>,
    /// Host directory forwarded as `--image-cache-dir`.
    pub image_cache_dir: Option<String>,
    /// Directory for per-cell persisted logs.
    pub log_dir: Option<String>,
    /// The ownership janitor image.
    pub janitor_image: String,
}

impl Default for RuntimeConfig {
    fn default() -> (r: Self)
        ensures
            r.host_root@ == "/host"@,
            r.privileged,
            r.build_dir is None,
            r.log_level is None,
            r.image_cache_dir is None,
            r.log_dir is None,
            r.janitor_image@ == Seq::<char>::empty(),
    {
        RuntimeConfig {
            host_root: "/host".to_owned(),
            privileged: true,
            build_dir: None,
            log_level: None,
            image_cache_dir: None,
            log_dir: None,
            janitor_image: String::new(),
        }
    }
}

/// A request to create and run one container.
#[derive(Debug)]
pub struct ContainerConfig {
    pub image_ref: String,
    pub platform: String,
    pub name: String,
    pub args: Vec<String>,
    pub binds: Vec<String>,
    pub privileged: bool,
}

/// The outcome of a container run.
#[derive(Debug)]
pub struct ContainerResult {
    pub exit_code: i64,
    pub logs: String,
}

/// Daemon configuration relevant to ownership translation (user-namespace remapping, rootless).
#[derive(Debug)]
pub struct DaemonInfo {
    pub rootless: bool,
    pub userns_remap: bool,
}

impl Default for DaemonInfo {
    fn default() -> (r: Self)
        ensures
            !r.rootless,
            !r.userns_remap,
    {
        DaemonInfo { rootless: false, userns_remap: false }
    }
}

/// A resolved base image: a local-file content hash, or a registry digest pin.
#[derive(Debug)]
pub enum ResolvedBase {
    /// A local base, hashed to detect drift.
    LocalFile { sha256: [u8; 32], size: u64 },
    /// A registry base, digest-pinned.
    Oci { reference: String, platform: String, digest: String },
}

/// Filesystem operations that need special handling: the RPM farm and the working copy. Errors
/// carry the underlying I/O failure as text.
pub trait FilesystemOps {
    /// Build an adjacent reflink/hardlink/copy farm for an `rpmSources` directory, skipping any
    /// existing `repodata/`.
    fn build_rpm_farm(&self, source: &str, dest: &str) -> Result<(), String>;

    /// Write the working-copy Image Customizer config.
    fn write_working_copy(&self, content: &[u8], path: &str) -> Result<(), String>;
}

} // verus!
