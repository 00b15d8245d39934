//! The workspace and image-definition data that the planning logic reads: base-image sources,
//! outputs, runtime knobs, defaults and toolchains. Each type has a view over plain texts.
use vstd::prelude::*;
use crate::text::{copy_string, decimal, push_char, push_str, u64_text};
use crate::types::{Arch, LogLevel, OutputFormat};

verus! {

pub open spec fn opt_text(o: Option<String>) -> Option<Seq<char>> {
    match o {
        Some(s) => Some(s@),
        None => None,
    }
}

pub fn copy_opt_string(o: &Option<String>) -> (r: Option<String>)
    ensures
        opt_text(r) == opt_text(*o),
{
    match o {
        Some(s) => Some(copy_string(s)),
        None => None,
    }
}

/// A base OS image source: exactly one of a local file, an OCI reference, Azure Linux registry
/// sugar, or a reference to a workspace catalogue slot.
#[derive(Debug)]
pub enum BaseSource {
    /// A local base image file, resolved relative to the image directory.
    Path { path: String },
    /// A base image pulled from an OCI registry.
    Oci { oci: OciBase },
    /// Microsoft Container Registry sugar for an Azure Linux base.
    AzureLinux { azure_linux: AzureLinuxBase },
    /// A named slot of the workspace base-image catalogue.
    Ref { reference: String },
}

#[derive(Debug)]
pub struct OciBase {
    pub uri: String,
    pub platform: Option<String>,
}

#[derive(Debug)]
pub struct AzureLinuxBase {
    pub version: String,
    pub variant: String,
}

/// The plain form of a base source.
pub enum BaseV {
    Path(Seq<char>),
    Oci(Seq<char>, Option<Seq<char>>),
    AzureLinux(Seq<char>, Seq<char>),
    Ref(Seq<char>),
}

impl BaseSource {
    pub open spec fn view(&self) -> BaseV {
        match self {
            BaseSource::Path { path } => BaseV::Path(path@),
            BaseSource::Oci { oci } => BaseV::Oci(oci.uri@, opt_text(oci.platform)),
            BaseSource::AzureLinux { azure_linux } => BaseV::AzureLinux(azure_linux.version@, azure_linux.variant@),
            BaseSource::Ref { reference } => BaseV::Ref(reference@),
        }
    }

    /// A copy of this source.
    pub fn copy(&self) -> (r: BaseSource)
        ensures
            r.view() == self.view(),
    {
        match self {
            BaseSource::Path { path } => BaseSource::Path { path: copy_string(path) },
            BaseSource::Oci { oci } => BaseSource::Oci {
                oci: OciBase { uri: copy_string(&oci.uri), platform: copy_opt_string(&oci.platform) },
            },
            BaseSource::AzureLinux { azure_linux } => BaseSource::AzureLinux {
                azure_linux: AzureLinuxBase {
                    version: copy_string(&azure_linux.version),
                    variant: copy_string(&azure_linux.variant),
                },
            },
            BaseSource::Ref { reference } => BaseSource::Ref { reference: copy_string(reference) },
        }
    }
}

/// One output: a format plus optional knobs.
#[derive(Debug)]
pub struct OutputSpec {
    pub format: OutputFormat,
    pub cosi_compression_level: Option<u8>,
    pub name: Option<String>,
}

impl OutputSpec {
    pub open spec fn view(&self) -> (OutputFormat, Option<u8>, Option<Seq<char>>) {
        (self.format, self.cosi_compression_level, opt_text(self.name))
    }

    /// A copy of this output.
    pub fn copy(&self) -> (r: OutputSpec)
        ensures
            r.view() == self.view(),
    {
        OutputSpec {
            format: self.format,
            cosi_compression_level: self.cosi_compression_level,
            name: copy_opt_string(&self.name),
        }
    }
}

pub open spec fn outputs_view(v: Seq<OutputSpec>) -> Seq<(OutputFormat, Option<u8>, Option<Seq<char>>)> {
    v.map_values(|o: OutputSpec| o.view())
}

/// Container-runtime knobs of the workspace.
#[derive(Debug)]
pub struct Runtime {
    pub privileged: Option<bool>,
    pub mounts: Option<Mounts>,
    pub build_dir: Option<String>,
    pub log_level: Option<LogLevel>,
    pub image_cache_dir: Option<String>,
    pub log_dir: Option<String>,
    pub janitor_image: Option<JanitorImage>,
}

#[derive(Debug)]
pub struct Mounts {
    pub host_root: Option<String>,
    pub dev: Option<bool>,
}

#[derive(Debug)]
pub struct JanitorImage {
    pub container: String,
    pub tag: Option<String>,
}

/// Defaults inherited by every image that does not set the field itself.
#[derive(Debug)]
pub struct Defaults {
    pub architectures: Option<Vec<Arch>>,
    pub outputs: Option<Vec<OutputSpec>>,
}

/// A semantic version: `major.minor.patch`, an optional pre-release and build metadata.
#[derive(Debug)]
pub struct SemVer {
    pub major: u64,
    pub minor: u64,
    pub patch: u64,
    pub pre: String,
    pub build: String,
}

/// The canonical text of a version: `major.minor.patch`, then `-pre` and `+build` when present.
pub open spec fn semver_text(v: SemVer) -> Seq<char> {
    let core = decimal(v.major as nat) + seq!['.'] + decimal(v.minor as nat) + seq!['.'] + decimal(v.patch as nat);
    let with_pre = if v.pre@.len() == 0 { core } else { core + seq!['-'] + v.pre@ };
    if v.build@.len() == 0 { with_pre } else { with_pre + seq!['+'] + v.build@ }
}

impl SemVer {
    /// The canonical text of this version.
    pub fn text(&self) -> (s: String)
        ensures
            s@ == semver_text(*self),
    {
        let mut s = u64_text(self.major);
        push_char(&mut s, '.');
        let minor = u64_text(self.minor);
        push_str(&mut s, minor.as_str());
        push_char(&mut s, '.');
        let patch = u64_text(self.patch);
        push_str(&mut s, patch.as_str());
        if !self.pre.as_str().is_empty() {
            push_char(&mut s, '-');
            push_str(&mut s, self.pre.as_str());
        }
        if !self.build.as_str().is_empty() {
            push_char(&mut s, '+');
            push_str(&mut s, self.build.as_str());
        }
        assert(s@ =~= semver_text(*self));
        s
    }
}

/// A pinned Image Customizer container.
///
/// `version` is informational metadata; the registry tag actually pulled is `tag`, else the
/// version's text, else `latest`.
#[derive(Debug)]
pub struct ToolchainEntry {
    pub container: String,
    pub version: Option<SemVer>,
    pub tag: Option<String>,
}

/// The tag used when a toolchain declares neither a tag nor a version.
pub const DEFAULT_IC_TAG: &'static str = "latest";

/// The registry tag a toolchain entry pulls.
pub open spec fn effective_tag_text(t: ToolchainEntry) -> Seq<char> {
    match t.tag {
        Some(tag) => tag@,
        None => match t.version {
            Some(v) => semver_text(v),
            None => DEFAULT_IC_TAG@,
        },
    }
}

impl ToolchainEntry {
    /// The registry tag to pull: an explicit `tag`, else the `version` text, else `latest`.
    pub fn effective_tag(&self) -> (s: String)
        ensures
            s@ == effective_tag_text(*self),
    {
        match &self.tag {
            Some(tag) => copy_string(tag),
            None => match &self.version {
                Some(v) => v.text(),
                None => DEFAULT_IC_TAG.to_owned(),
            },
        }
    }
}

/// How an image selects its toolchain: an id (workspace) or an inline definition (standalone).
#[derive(Debug)]
pub enum ToolchainRef {
    Id(String),
    Inline(ToolchainEntry),
}

/// The workspace toolchains: the default id and the entries by id (ascending).
#[derive(Debug)]
pub struct Toolchains {
    pub default: String,
    pub entries: Vec<(String, ToolchainEntry)>,
}

/// The workspace tool configuration that planning reads.
#[derive(Debug)]
pub struct ToolConfig {
    pub schema_version: u32,
    pub toolchains: Toolchains,
    pub runtime: Option<Runtime>,
    pub defaults: Option<Defaults>,
}

} // verus!

verus! {

/// The janitor container used when the workspace configures none.
pub const DEFAULT_JANITOR_CONTAINER: &'static str = "mcr.microsoft.com/azurelinux/busybox";
/// The janitor tag used when the workspace configures none.
pub const DEFAULT_JANITOR_TAG: &'static str = "1.36";

impl SemVer {
    pub open spec fn view(&self) -> (u64, u64, u64, Seq<char>, Seq<char>) {
        (self.major, self.minor, self.patch, self.pre@, self.build@)
    }

    /// A copy of this version.
    pub fn copy(&self) -> (r: SemVer)
        ensures
            r.view() == self.view(),
    {
        SemVer { major: self.major, minor: self.minor, patch: self.patch, pre: self.pre.clone(), build: self.build.clone() }
    }
}

impl ToolchainEntry {
    pub open spec fn view(&self) -> (Seq<char>, Option<(u64, u64, u64, Seq<char>, Seq<char>)>, Option<Seq<char>>) {
        (self.container@, match self.version { Some(v) => Some(v.view()), None => None }, opt_text(self.tag))
    }

    /// A copy of this entry.
    pub fn copy(&self) -> (r: ToolchainEntry)
        ensures
            r.view() == self.view(),
            effective_tag_text(r) == effective_tag_text(*self),
    {
        ToolchainEntry {
            container: self.container.clone(),
            version: match &self.version {
                Some(v) => Some(v.copy()),
                None => None,
            },
            tag: copy_opt_string(&self.tag),
        }
    }
}

} // verus!
