//! Shared vocabulary: architectures, output formats, operations and log levels.
use vstd::prelude::*;

verus! {

/// A target CPU architecture.
#[derive(Debug, Clone, Copy, PartialEq, Eq, PartialOrd, Ord, Hash, Structural)]
pub enum Arch {
    Amd64,
    Arm64,
}

pub open spec fn arch_text(arch: Arch) -> Seq<char> {
    match arch {
        Arch::Amd64 => "amd64"@,
        Arch::Arm64 => "arm64"@,
    }
}

impl Arch {
    /// The architecture's name as used in platforms, slugs and matrix axes.
    pub fn as_str(&self) -> (s: &'static str)
        ensures
            s@ == arch_text(*self),
    {
        match self {
            Arch::Amd64 => "amd64",
            Arch::Arm64 => "arm64",
        }
    }
}

/// An Image Customizer output image format.
#[derive(Debug, Clone, Copy, PartialEq, Eq, Hash, Structural)]
pub enum OutputFormat {
    Vhd,
    VhdFixed,
    Vhdx,
    Qcow2,
    Raw,
    Iso,
    Cosi,
    PxeDir,
    PxeTar,
    BaremetalImage,
}

pub open spec fn format_text(format: OutputFormat) -> Seq<char> {
    match format {
        OutputFormat::Vhd => "vhd"@,
        OutputFormat::VhdFixed => "vhd-fixed"@,
        OutputFormat::Vhdx => "vhdx"@,
        OutputFormat::Qcow2 => "qcow2"@,
        OutputFormat::Raw => "raw"@,
        OutputFormat::Iso => "iso"@,
        OutputFormat::Cosi => "cosi"@,
        OutputFormat::PxeDir => "pxe-dir"@,
        OutputFormat::PxeTar => "pxe-tar"@,
        OutputFormat::BaremetalImage => "baremetal-image"@,
    }
}

impl OutputFormat {
    /// The format's Image Customizer name (`--output-image-format`), also used in slugs.
    pub fn as_str(&self) -> (s: &'static str)
        ensures
            s@ == format_text(*self),
    {
        match self {
            OutputFormat::Vhd => "vhd",
            OutputFormat::VhdFixed => "vhd-fixed",
            OutputFormat::Vhdx => "vhdx",
            OutputFormat::Qcow2 => "qcow2",
            OutputFormat::Raw => "raw",
            OutputFormat::Iso => "iso",
            OutputFormat::Cosi => "cosi",
            OutputFormat::PxeDir => "pxe-dir",
            OutputFormat::PxeTar => "pxe-tar",
            OutputFormat::BaremetalImage => "baremetal-image",
        }
    }
}

/// Whether an image is customized (the default) or only converted.
#[derive(Debug, Clone, Copy, PartialEq, Eq, Structural)]
pub enum Operation {
    Customize,
    Convert,
}

/// Image Customizer log levels (`--log-level`).
#[derive(Debug, Clone, Copy, PartialEq, Eq, Structural)]
pub enum LogLevel {
    Panic,
    Fatal,
    Error,
    Warn,
    Info,
    Debug,
    Trace,
}

pub open spec fn log_level_text(level: LogLevel) -> Seq<char> {
    match level {
        LogLevel::Panic => "panic"@,
        LogLevel::Fatal => "fatal"@,
        LogLevel::Error => "error"@,
        LogLevel::Warn => "warn"@,
        LogLevel::Info => "info"@,
        LogLevel::Debug => "debug"@,
        LogLevel::Trace => "trace"@,
    }
}

impl LogLevel {
    /// The level's Image Customizer name.
    pub fn as_str(&self) -> (s: &'static str)
        ensures
            s@ == log_level_text(*self),
    {
        match self {
            LogLevel::Panic => "panic",
            LogLevel::Fatal => "fatal",
            LogLevel::Error => "error",
            LogLevel::Warn => "warn",
            LogLevel::Info => "info",
            LogLevel::Debug => "debug",
            LogLevel::Trace => "trace",
        }
    }
}

/// The architecture a name denotes; anything but `amd64`/`arm64` is unknown.
pub open spec fn arch_named(value: Seq<char>) -> Option<Arch> {
    if value == "amd64"@ {
        Some(Arch::Amd64)
    } else if value == "arm64"@ {
        Some(Arch::Arm64)
    } else {
        None
    }
}

/// Parses an architecture name; anything but `amd64`/`arm64` is unknown.
pub fn parse_arch(value: &str) -> (r: Option<Arch>)
    ensures
        r == arch_named(value@),
{
    if crate::text::str_eq(value, "amd64") {
        Some(Arch::Amd64)
    } else if crate::text::str_eq(value, "arm64") {
        Some(Arch::Arm64)
    } else {
        None
    }
}

} // verus!

verus! {

/// An image parameter value. A floating-point value is held as its canonical text.
#[derive(Debug)]
pub enum ParamValue {
    Bool(bool),
    Int(i64),
    Float(String),
    Str(String),
}

} // verus!
