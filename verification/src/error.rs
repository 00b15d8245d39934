//! Error types. Configuration errors come from rendering image definitions; `ExecError` and
//! `ResolveError` are what the execution and resolution adapters report; `CoreError` is the
//! orchestration error that wraps them.
use vstd::prelude::*;
use crate::types::{arch_text, Arch};
use crate::text::{i64_text, push_str, signed_decimal};

verus! {

/// Errors in an image definition or workspace configuration.
#[derive(Debug, Clone, PartialEq, Eq)]
pub enum ConfigError {
    /// A file could not be read.
    Read { path: String, detail: String },
    /// A file could not be written.
    Write { path: String, detail: String },
    /// A file is not valid YAML for its schema.
    Parse { path: String, detail: String },
    /// A matrix axis declares no values.
    EmptyAxis { axis: String },
    /// An inclusion/exclusion selector names an undeclared axis.
    SelectorUnknownAxis { selector: String, axis: String },
    /// An inclusion/exclusion selector pins an undeclared value.
    SelectorUnknownValue { selector: String, axis: String, value: String },
    /// An inclusion selector does not pin every axis.
    IncludeIncomplete { axis: String },
    /// A fragment directory names an undeclared axis.
    UnknownFragmentAxis { axis: String },
    /// A fragment file names an undeclared axis value or feature.
    UnknownFragmentValue { axis: String, value: String, file: String },
    /// Two matched fragments set a parameter to different values.
    ParamConflict { name: String, existing: String, incoming: String },
    /// A cell has no base image.
    MissingBase { slug: String },
    /// A cell's base names more than one base kind.
    AmbiguousBase { slug: String, kinds: String },
    /// A merged tailor field does not have the expected shape.
    InvalidField { slug: String, field: &'static str, detail: String },
    /// A mapping/list meets a value of another kind at the same path.
    TypeConflict {
        path: String,
        existing_kind: String,
        incoming_kind: String,
        fragment: String,
    },
    /// Two fragments set a scalar to different values without `$set`.
    ScalarConflict { path: String, existing: String, incoming: String, fragment: String },
    /// A `$`-directive is mixed with sibling keys (or two directives share a mapping).
    DirectiveNotSole { directive: String, path: String },
    /// A directive's argument has the wrong shape.
    DirectiveShape { directive: String, path: String, expected: String },
    /// A directive tailor does not support.
    UnsupportedDirective { directive: String, path: String },
    /// A directive that must be resolved before merging reached the merger.
    UnresolvedDirective { directive: String, path: String },
    /// A `$`-key that is not a known directive.
    UnknownDirective { directive: String, path: String },
    /// A `${name}` names neither an axis nor a parameter.
    UnknownVariable { name: String, text: String },
    /// A `${` has no closing `}`.
    UnterminatedVariable { text: String },
    /// An `$include` names a file that was not loaded.
    IncludeNotLoaded { path: String },
}

/// Errors from container execution (the executor and container-runtime ports).
#[derive(Debug, Clone, PartialEq, Eq)]
pub enum ExecError {
    /// The container runtime failed.
    Runtime(String),
    /// Image Customizer exited non-zero.
    IcFailed { code: i64, logs: String },
    /// Execution was cancelled.
    Cancelled,
    /// An I/O operation failed.
    Io { context: String, detail: String },
    /// A directory is unsafe to use as a scratch or read-write target.
    UnsafeDir { path: String, reason: String },
    /// Any other failure.
    Other(String),
}

/// Errors from base-image / digest resolution.
#[derive(Debug, Clone, PartialEq, Eq)]
pub enum ResolveError {
    /// A local base image could not be read.
    LocalRead { path: String, detail: String },
    /// Registry resolution failed.
    Registry { reference: String, detail: String },
    /// Any other failure.
    Other(String),
}

/// Top-level orchestration errors.
#[derive(Debug, Clone, PartialEq, Eq)]
pub enum CoreError {
    Config(ConfigError),
    Resolve(ResolveError),
    Exec(ExecError),
    /// The lock file has no entry for a reference/platform.
    LockMissing { reference: String, platform: String },
    /// The lock file disagrees with the configuration.
    LockDrift { detail: String },
    /// An image's `arch` axis holds a value that is not a known architecture.
    MissingArchBase { image: String, arch: String },
    /// An image selects a toolchain id the workspace does not define.
    UnknownToolchain { id: String, image: String },
    /// A `--select` entry is not `axis=value`.
    SelectorSyntax { entry: String },
    /// A `--select` entry names an axis the image does not declare.
    UnknownSelectorAxis { axis: String, image: String, declared: String },
    /// The selection matches no cell of an image.
    NoCellsSelected { image: String },
    /// `base: { ref: <name> }` names no catalogue slot.
    UnknownBaseImage { image: String, name: String, known: String },
    /// A catalogue slot's `arch` disagrees with the cell's arch.
    BaseImageArchMismatch { image: String, slug: String, name: String, slot_arch: Arch, cell_arch: Arch },
    /// An OCI base's platform arch disagrees with the cell's arch.
    PlatformArchMismatch {
        image: String,
        slug: String,
        platform: String,
        platform_arch: String,
        cell_arch: Arch,
    },
    /// A file could not be accessed.
    Io { path: String, detail: String },
    /// A file could not be (de)serialized.
    Serde { path: String, detail: String },
}

/// The text of a `ConfigError`.
pub open spec fn config_message(e: ConfigError) -> Seq<char>
{
    match e {
        ConfigError::Read { path, detail } => "failed to read `"@ + path@ + "`: "@ + detail@,
        ConfigError::Write { path, detail } => "failed to write `"@ + path@ + "`: "@ + detail@,
        ConfigError::Parse { path, detail } => "failed to parse `"@ + path@ + "`: "@ + detail@,
        ConfigError::EmptyAxis { axis } => "matrix axis `"@ + axis@ + "` declares no values"@,
        ConfigError::SelectorUnknownAxis { selector, axis } => "matrix "@ + selector@ + " selector references undeclared axis `"@ + axis@ + "`"@,
        ConfigError::SelectorUnknownValue { selector, axis, value } => "matrix "@ + selector@ + " selector pins undeclared value `"@ + value@ + "` for axis `"@ + axis@ + "`"@,
        ConfigError::IncludeIncomplete { axis } => "matrix include selector does not pin axis `"@ + axis@ + "`"@,
        ConfigError::UnknownFragmentAxis { axis } => "fragment directory `by-"@ + axis@ + "` names an undeclared axis"@,
        ConfigError::UnknownFragmentValue { axis, value, file } => "fragment `"@ + file@ + "` names undeclared "@ + axis@ + " value `"@ + value@ + "`"@,
        ConfigError::ParamConflict { name, existing, incoming } => "param `"@ + name@ + "` is set to both `"@ + existing@ + "` and `"@ + incoming@ + "`"@,
        ConfigError::MissingBase { slug } => "cell `"@ + slug@ + "` has no base image"@,
        ConfigError::AmbiguousBase { slug, kinds } => "cell `"@ + slug@ + "` declares more than one base kind ("@ + kinds@ + "); use `$set` to replace the inherited base"@,
        ConfigError::InvalidField { slug, field, detail } => "cell `"@ + slug@ + "`: invalid `"@ + field@ + "`: "@ + detail@,
        ConfigError::TypeConflict { path, existing_kind, incoming_kind, fragment } => "`"@ + path@ + "`: "@ + fragment@ + " merges a "@ + incoming_kind@ + " onto a "@ + existing_kind@,
        ConfigError::ScalarConflict { path, existing, incoming, fragment } => "`"@ + path@ + "`: "@ + fragment@ + " sets `"@ + incoming@ + "` over `"@ + existing@ + "`; use `$set` to override"@,
        ConfigError::DirectiveNotSole { directive, path } => "`"@ + path@ + "`: `"@ + directive@ + "` must be the only key of its mapping"@,
        ConfigError::DirectiveShape { directive, path, expected } => "`"@ + path@ + "`: `"@ + directive@ + "` expects "@ + expected@,
        ConfigError::UnsupportedDirective { directive, path } => "`"@ + path@ + "`: `"@ + directive@ + "` is not supported"@,
        ConfigError::UnresolvedDirective { directive, path } => "`"@ + path@ + "`: `"@ + directive@ + "` must be resolved before merging"@,
        ConfigError::UnknownDirective { directive, path } => "`"@ + path@ + "`: unknown directive `"@ + directive@ + "`"@,
        ConfigError::UnknownVariable { name, text } => "`"@ + text@ + "`: unknown variable `${"@ + name@ + "}`"@,
        ConfigError::UnterminatedVariable { text } => "`"@ + text@ + "`: unterminated `${`"@,
        ConfigError::IncludeNotLoaded { path } => "`$include` of `"@ + path@ + "` was not loaded"@,
    }
}

impl ConfigError {
    /// The message this error reads as.
    pub fn message(&self) -> (r: String)
        ensures
            r@ == config_message(*self),
    {
        match self {
            ConfigError::Read { path, detail } => {
                let mut s = "failed to read `".to_owned();
                push_str(&mut s, path.as_str());
                push_str(&mut s, "`: ");
                push_str(&mut s, detail.as_str());
                s
            },
            ConfigError::Write { path, detail } => {
                let mut s = "failed to write `".to_owned();
                push_str(&mut s, path.as_str());
                push_str(&mut s, "`: ");
                push_str(&mut s, detail.as_str());
                s
            },
            ConfigError::Parse { path, detail } => {
                let mut s = "failed to parse `".to_owned();
                push_str(&mut s, path.as_str());
                push_str(&mut s, "`: ");
                push_str(&mut s, detail.as_str());
                s
            },
            ConfigError::EmptyAxis { axis } => {
                let mut s = "matrix axis `".to_owned();
                push_str(&mut s, axis.as_str());
                push_str(&mut s, "` declares no values");
                s
            },
            ConfigError::SelectorUnknownAxis { selector, axis } => {
                let mut s = "matrix ".to_owned();
                push_str(&mut s, selector.as_str());
                push_str(&mut s, " selector references undeclared axis `");
                push_str(&mut s, axis.as_str());
                push_str(&mut s, "`");
                s
            },
            ConfigError::SelectorUnknownValue { selector, axis, value } => {
                let mut s = "matrix ".to_owned();
                push_str(&mut s, selector.as_str());
                push_str(&mut s, " selector pins undeclared value `");
                push_str(&mut s, value.as_str());
                push_str(&mut s, "` for axis `");
                push_str(&mut s, axis.as_str());
                push_str(&mut s, "`");
                s
            },
            ConfigError::IncludeIncomplete { axis } => {
                let mut s = "matrix include selector does not pin axis `".to_owned();
                push_str(&mut s, axis.as_str());
                push_str(&mut s, "`");
                s
            },
            ConfigError::UnknownFragmentAxis { axis } => {
                let mut s = "fragment directory `by-".to_owned();
                push_str(&mut s, axis.as_str());
                push_str(&mut s, "` names an undeclared axis");
                s
            },
            ConfigError::UnknownFragmentValue { axis, value, file } => {
                let mut s = "fragment `".to_owned();
                push_str(&mut s, file.as_str());
                push_str(&mut s, "` names undeclared ");
                push_str(&mut s, axis.as_str());
                push_str(&mut s, " value `");
                push_str(&mut s, value.as_str());
                push_str(&mut s, "`");
                s
            },
            ConfigError::ParamConflict { name, existing, incoming } => {
                let mut s = "param `".to_owned();
                push_str(&mut s, name.as_str());
                push_str(&mut s, "` is set to both `");
                push_str(&mut s, existing.as_str());
                push_str(&mut s, "` and `");
                push_str(&mut s, incoming.as_str());
                push_str(&mut s, "`");
                s
            },
            ConfigError::MissingBase { slug } => {
                let mut s = "cell `".to_owned();
                push_str(&mut s, slug.as_str());
                push_str(&mut s, "` has no base image");
                s
            },
            ConfigError::AmbiguousBase { slug, kinds } => {
                let mut s = "cell `".to_owned();
                push_str(&mut s, slug.as_str());
                push_str(&mut s, "` declares more than one base kind (");
                push_str(&mut s, kinds.as_str());
                push_str(&mut s, "); use `$set` to replace the inherited base");
                s
            },
            ConfigError::InvalidField { slug, field, detail } => {
                let mut s = "cell `".to_owned();
                push_str(&mut s, slug.as_str());
                push_str(&mut s, "`: invalid `");
                push_str(&mut s, field);
                push_str(&mut s, "`: ");
                push_str(&mut s, detail.as_str());
                s
            },
            ConfigError::TypeConflict { path, existing_kind, incoming_kind, fragment } => {
                let mut s = "`".to_owned();
                push_str(&mut s, path.as_str());
                push_str(&mut s, "`: ");
                push_str(&mut s, fragment.as_str());
                push_str(&mut s, " merges a ");
                push_str(&mut s, incoming_kind.as_str());
                push_str(&mut s, " onto a ");
                push_str(&mut s, existing_kind.as_str());
                s
            },
            ConfigError::ScalarConflict { path, existing, incoming, fragment } => {
                let mut s = "`".to_owned();
                push_str(&mut s, path.as_str());
                push_str(&mut s, "`: ");
                push_str(&mut s, fragment.as_str());
                push_str(&mut s, " sets `");
                push_str(&mut s, incoming.as_str());
                push_str(&mut s, "` over `");
                push_str(&mut s, existing.as_str());
                push_str(&mut s, "`; use `$set` to override");
                s
            },
            ConfigError::DirectiveNotSole { directive, path } => {
                let mut s = "`".to_owned();
                push_str(&mut s, path.as_str());
                push_str(&mut s, "`: `");
                push_str(&mut s, directive.as_str());
                push_str(&mut s, "` must be the only key of its mapping");
                s
            },
            ConfigError::DirectiveShape { directive, path, expected } => {
                let mut s = "`".to_owned();
                push_str(&mut s, path.as_str());
                push_str(&mut s, "`: `");
                push_str(&mut s, directive.as_str());
                push_str(&mut s, "` expects ");
                push_str(&mut s, expected.as_str());
                s
            },
            ConfigError::UnsupportedDirective { directive, path } => {
                let mut s = "`".to_owned();
                push_str(&mut s, path.as_str());
                push_str(&mut s, "`: `");
                push_str(&mut s, directive.as_str());
                push_str(&mut s, "` is not supported");
                s
            },
            ConfigError::UnresolvedDirective { directive, path } => {
                let mut s = "`".to_owned();
                push_str(&mut s, path.as_str());
                push_str(&mut s, "`: `");
                push_str(&mut s, directive.as_str());
                push_str(&mut s, "` must be resolved before merging");
                s
            },
            ConfigError::UnknownDirective { directive, path } => {
                let mut s = "`".to_owned();
                push_str(&mut s, path.as_str());
                push_str(&mut s, "`: unknown directive `");
                push_str(&mut s, directive.as_str());
                push_str(&mut s, "`");
                s
            },
            ConfigError::UnknownVariable { name, text } => {
                let mut s = "`".to_owned();
                push_str(&mut s, text.as_str());
                push_str(&mut s, "`: unknown variable `${");
                push_str(&mut s, name.as_str());
                push_str(&mut s, "}`");
                s
            },
            ConfigError::UnterminatedVariable { text } => {
                let mut s = "`".to_owned();
                push_str(&mut s, text.as_str());
                push_str(&mut s, "`: unterminated `${`");
                s
            },
            ConfigError::IncludeNotLoaded { path } => {
                let mut s = "`$include` of `".to_owned();
                push_str(&mut s, path.as_str());
                push_str(&mut s, "` was not loaded");
                s
            },
        }
    }
}

/// The text of an `ExecError`.
pub open spec fn exec_message(e: ExecError) -> Seq<char>
{
    match e {
        ExecError::Runtime(m) => "container runtime error: "@ + m@,
        ExecError::IcFailed { code, logs } => "Image Customizer exited with code "@ + signed_decimal(code as int),
        ExecError::Cancelled => "execution cancelled"@,
        ExecError::Io { context, detail } => context@,
        ExecError::UnsafeDir { path, reason } => "refusing to use `"@ + path@ + "`: "@ + reason@,
        ExecError::Other(m) => m@,
    }
}

impl ExecError {
    /// The message this error reads as.
    pub fn message(&self) -> (r: String)
        ensures
            r@ == exec_message(*self),
    {
        match self {
            ExecError::Runtime(m) => {
                let mut s = "container runtime error: ".to_owned();
                push_str(&mut s, m.as_str());
                s
            },
            ExecError::IcFailed { code, .. } => {
                let mut s = "Image Customizer exited with code ".to_owned();
                let n = i64_text(*code); push_str(&mut s, n.as_str());
                s
            },
            ExecError::Cancelled => {
                let mut s = "execution cancelled".to_owned();
                s
            },
            ExecError::Io { context, detail } => {
                let mut s = context.clone();
                s
            },
            ExecError::UnsafeDir { path, reason } => {
                let mut s = "refusing to use `".to_owned();
                push_str(&mut s, path.as_str());
                push_str(&mut s, "`: ");
                push_str(&mut s, reason.as_str());
                s
            },
            ExecError::Other(m) => {
                let mut s = m.clone();
                s
            },
        }
    }
}

/// The text of a `ResolveError`.
pub open spec fn resolve_message(e: ResolveError) -> Seq<char>
{
    match e {
        ResolveError::LocalRead { path, detail } => "failed to read local base `"@ + path@ + "`: "@ + detail@,
        ResolveError::Registry { reference, detail } => "registry resolution failed for `"@ + reference@ + "`: "@ + detail@,
        ResolveError::Other(m) => m@,
    }
}

impl ResolveError {
    /// The message this error reads as.
    pub fn message(&self) -> (r: String)
        ensures
            r@ == resolve_message(*self),
    {
        match self {
            ResolveError::LocalRead { path, detail } => {
                let mut s = "failed to read local base `".to_owned();
                push_str(&mut s, path.as_str());
                push_str(&mut s, "`: ");
                push_str(&mut s, detail.as_str());
                s
            },
            ResolveError::Registry { reference, detail } => {
                let mut s = "registry resolution failed for `".to_owned();
                push_str(&mut s, reference.as_str());
                push_str(&mut s, "`: ");
                push_str(&mut s, detail.as_str());
                s
            },
            ResolveError::Other(m) => {
                let mut s = m.clone();
                s
            },
        }
    }
}

/// The text of a `CoreError`.
pub open spec fn core_message(e: CoreError) -> Seq<char>
    decreases e,
{
    match e {
        CoreError::Config(e) => config_message(e),
        CoreError::Resolve(e) => resolve_message(e),
        CoreError::Exec(e) => exec_message(e),
        CoreError::LockMissing { reference, platform } => "tailor.lock is missing a `"@ + platform@ + "` entry for `"@ + reference@ + "`; run `tailor lock`"@,
        CoreError::LockDrift { detail } => "tailor.lock is out of date: "@ + detail@,
        CoreError::MissingArchBase { image, arch } => "image `"@ + image@ + "` declares no base for architecture `"@ + arch@ + "`"@,
        CoreError::UnknownToolchain { id, image } => "unknown toolchain id `"@ + id@ + "` (image `"@ + image@ + "`)"@,
        CoreError::SelectorSyntax { entry } => "invalid `--select` entry `"@ + entry@ + "` (expected `axis=value`)"@,
        CoreError::UnknownSelectorAxis { axis, image, declared } => "`--select` references axis `"@ + axis@ + "`, which image `"@ + image@ + "` does not declare (axes: "@ + declared@ + ")"@,
        CoreError::NoCellsSelected { image } => "no cells match the selection for image `"@ + image@ + "`"@,
        CoreError::UnknownBaseImage { image, name, known } => "image `"@ + image@ + "` references unknown base image `"@ + name@ + "` (known: "@ + known@ + ")"@,
        CoreError::BaseImageArchMismatch { image, slug, name, slot_arch, cell_arch } => "cell `"@ + slug@ + "` of image `"@ + image@ + "` is "@ + arch_text(cell_arch) + " but base image `"@ + name@ + "` is "@ + arch_text(slot_arch),
        CoreError::PlatformArchMismatch { image, slug, platform, platform_arch, cell_arch } => "cell `"@ + slug@ + "` of image `"@ + image@ + "` is "@ + arch_text(cell_arch) + " but its base platform `"@ + platform@ + "` is "@ + platform_arch@,
        CoreError::Io { path, detail } => "failed to access `"@ + path@ + "`: "@ + detail@,
        CoreError::Serde { path, detail } => "failed to (de)serialize `"@ + path@ + "`: "@ + detail@,
    }
}

impl CoreError {
    /// The message this error reads as.
    pub fn message(&self) -> (r: String)
        ensures
            r@ == core_message(*self),
    {
        match self {
            CoreError::Config(e) => {
                let mut s = e.message();
                s
            },
            CoreError::Resolve(e) => {
                let mut s = e.message();
                s
            },
            CoreError::Exec(e) => {
                let mut s = e.message();
                s
            },
            CoreError::LockMissing { reference, platform } => {
                let mut s = "tailor.lock is missing a `".to_owned();
                push_str(&mut s, platform.as_str());
                push_str(&mut s, "` entry for `");
                push_str(&mut s, reference.as_str());
                push_str(&mut s, "`; run `tailor lock`");
                s
            },
            CoreError::LockDrift { detail } => {
                let mut s = "tailor.lock is out of date: ".to_owned();
                push_str(&mut s, detail.as_str());
                s
            },
            CoreError::MissingArchBase { image, arch } => {
                let mut s = "image `".to_owned();
                push_str(&mut s, image.as_str());
                push_str(&mut s, "` declares no base for architecture `");
                push_str(&mut s, arch.as_str());
                push_str(&mut s, "`");
                s
            },
            CoreError::UnknownToolchain { id, image } => {
                let mut s = "unknown toolchain id `".to_owned();
                push_str(&mut s, id.as_str());
                push_str(&mut s, "` (image `");
                push_str(&mut s, image.as_str());
                push_str(&mut s, "`)");
                s
            },
            CoreError::SelectorSyntax { entry } => {
                let mut s = "invalid `--select` entry `".to_owned();
                push_str(&mut s, entry.as_str());
                push_str(&mut s, "` (expected `axis=value`)");
                s
            },
            CoreError::UnknownSelectorAxis { axis, image, declared } => {
                let mut s = "`--select` references axis `".to_owned();
                push_str(&mut s, axis.as_str());
                push_str(&mut s, "`, which image `");
                push_str(&mut s, image.as_str());
                push_str(&mut s, "` does not declare (axes: ");
                push_str(&mut s, declared.as_str());
                push_str(&mut s, ")");
                s
            },
            CoreError::NoCellsSelected { image } => {
                let mut s = "no cells match the selection for image `".to_owned();
                push_str(&mut s, image.as_str());
                push_str(&mut s, "`");
                s
            },
            CoreError::UnknownBaseImage { image, name, known } => {
                let mut s = "image `".to_owned();
                push_str(&mut s, image.as_str());
                push_str(&mut s, "` references unknown base image `");
                push_str(&mut s, name.as_str());
                push_str(&mut s, "` (known: ");
                push_str(&mut s, known.as_str());
                push_str(&mut s, ")");
                s
            },
            CoreError::BaseImageArchMismatch { image, slug, name, slot_arch, cell_arch } => {
                let mut s = "cell `".to_owned();
                push_str(&mut s, slug.as_str());
                push_str(&mut s, "` of image `");
                push_str(&mut s, image.as_str());
                push_str(&mut s, "` is ");
                push_str(&mut s, cell_arch.as_str());
                push_str(&mut s, " but base image `");
                push_str(&mut s, name.as_str());
                push_str(&mut s, "` is ");
                push_str(&mut s, slot_arch.as_str());
                s
            },
            CoreError::PlatformArchMismatch { image, slug, platform, platform_arch, cell_arch } => {
                let mut s = "cell `".to_owned();
                push_str(&mut s, slug.as_str());
                push_str(&mut s, "` of image `");
                push_str(&mut s, image.as_str());
                push_str(&mut s, "` is ");
                push_str(&mut s, cell_arch.as_str());
                push_str(&mut s, " but its base platform `");
                push_str(&mut s, platform.as_str());
                push_str(&mut s, "` is ");
                push_str(&mut s, platform_arch.as_str());
                s
            },
            CoreError::Io { path, detail } => {
                let mut s = "failed to access `".to_owned();
                push_str(&mut s, path.as_str());
                push_str(&mut s, "`: ");
                push_str(&mut s, detail.as_str());
                s
            },
            CoreError::Serde { path, detail } => {
                let mut s = "failed to (de)serialize `".to_owned();
                push_str(&mut s, path.as_str());
                push_str(&mut s, "`: ");
                push_str(&mut s, detail.as_str());
                s
            },
        }
    }
}

} // verus!
