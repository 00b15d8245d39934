//! The base resolver: which lookup a base source needs. A `path` base is hashed from the file it
//! names, read relative to the image directory (never the process working directory, so the hash
//! covers the same file Image Customizer will read); registry bases are pinned to a digest; a
//! catalogue reference must have been expanded before it reaches the resolver.
use vstd::prelude::*;
use crate::error::ResolveError;
use crate::paths::{absolutize, absolutized};
use crate::schema::BaseSource;
use crate::text::copy_string;
use crate::types::Arch;

verus! {

/// Resolves base images and toolchain containers against local files and OCI registries.
#[derive(Debug, Default, Clone, Copy)]
pub struct OciResolver;

impl OciResolver {
    pub fn new() -> (r: Self) {
        OciResolver
    }
}

/// What resolving a base source takes.
#[derive(Debug)]
pub enum BaseLookup {
    /// Hash the local file at this absolute path.
    LocalFile { path: String },
    /// Pin an OCI registry image for an architecture.
    Oci { uri: String, platform: Option<String>, arch: Arch },
    /// Pin an Azure Linux image from Microsoft Container Registry for an architecture.
    AzureLinux { version: String, variant: String, arch: Arch },
}

/// The message for a catalogue reference that reached the resolver unexpanded.
pub open spec fn unresolved_reference_text(reference: Seq<char>) -> Seq<char> {
    "unresolved base reference `"@ + reference
        + "`: a catalogue reference must be expanded before resolution"@
}

impl OciResolver {
    /// The lookup `source` needs: a `path` base becomes its file, absolutized against
    /// `image_dir`; an `oci` or `azureLinux` base becomes a registry pin for `arch`; a catalogue
    /// reference is an error, since the orchestrator expands references first.
    pub fn lookup(&self, source: &BaseSource, arch: Arch, image_dir: &str) -> (r: Result<BaseLookup, ResolveError>)
        ensures
            match (*source, r) {
                (BaseSource::Path { path }, Ok(BaseLookup::LocalFile { path: p })) => p@ == absolutized(path@, image_dir@),
                (BaseSource::Oci { oci }, Ok(BaseLookup::Oci { uri, platform, arch: a })) =>
                    uri@ == oci.uri@ && platform.is_some() == oci.platform.is_some()
                        && (platform matches Some(p) ==> p@ == oci.platform->0@) && a == arch,
                (BaseSource::AzureLinux { azure_linux }, Ok(BaseLookup::AzureLinux { version, variant, arch: a })) =>
                    version@ == azure_linux.version@ && variant@ == azure_linux.variant@ && a == arch,
                (BaseSource::Ref { reference }, Err(ResolveError::Other(msg))) =>
                    msg@ == unresolved_reference_text(reference@),
                _ => false,
            },
    {
        match source {
            BaseSource::Path { path } => Ok(BaseLookup::LocalFile { path: absolutize(path.as_str(), image_dir) }),
            BaseSource::Oci { oci } => {
                let platform = match &oci.platform {
                    Some(p) => Some(copy_string(p)),
                    None => None,
                };
                Ok(BaseLookup::Oci { uri: copy_string(&oci.uri), platform, arch })
            },
            BaseSource::AzureLinux { azure_linux } => Ok(BaseLookup::AzureLinux {
                version: copy_string(&azure_linux.version),
                variant: copy_string(&azure_linux.variant),
                arch,
            }),
            BaseSource::Ref { reference } => {
                let mut msg = "unresolved base reference `".to_owned();
                crate::text::push_str(&mut msg, reference.as_str());
                crate::text::push_str(&mut msg, "`: a catalogue reference must be expanded before resolution");
                Err(ResolveError::Other(msg))
            },
        }
    }
}

} // verus!
