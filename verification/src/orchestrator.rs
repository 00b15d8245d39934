//! Build planning: expanding an image's rendered matrix cells into buildable cells (one per matrix
//! point × architecture × output format), narrowing them with a selection, and naming artifacts.
use vstd::prelude::*;
use crate::error::CoreError;
use crate::matrix::{cell_slug, coordinate_of, lookup, row_view, slug_text, AxisTuple, Point};
use crate::paths::{absolutize, absolutized};
use crate::render::RenderedCell;
use crate::ports::RuntimeConfig;
use crate::schema::{copy_opt_string, effective_tag_text, opt_text, outputs_view, BaseSource, BaseV, OutputSpec, ToolConfig, ToolchainEntry, ToolchainRef, DEFAULT_JANITOR_CONTAINER, DEFAULT_JANITOR_TAG};
use crate::selector::{group_axes, selects, Selector, SelectorV};
use crate::text::{str_eq, contains_string, insert_sorted, insert_sorted_string, before_first, chars_of, copy_strings, first_index, index_of, join_strings, join_with, push_char, push_str, string_of_range, sub_vec, views};
use crate::types::{arch_named, arch_text, format_text, log_level_text, parse_arch, Arch, Operation, OutputFormat};
use crate::yaml::{yaml_clone, YamlV};

verus! {

/// A named slot of the workspace base-image catalogue.
#[derive(Debug)]
pub struct BaseImageSlot {
    /// The slot's image file, relative to the workspace root.
    pub path: String,
    /// The architecture the slot's image is built for, if declared.
    pub arch: Option<Arch>,
    /// Where the slot's image can be downloaded from, if anywhere.
    pub source: Option<String>,
}

/// One image to build, with the workspace settings it inherits.
#[derive(Debug)]
pub struct Target {
    /// The image name.
    pub name: String,
    /// The image's toolchain selection, if any.
    pub toolchain: Option<ToolchainRef>,
    /// Whether the image is customized (the default) or only converted.
    pub operation: Option<Operation>,
    /// The image directory.
    pub dir: String,
    /// The workspace default architectures (empty when none are declared).
    pub architectures: Vec<Arch>,
    /// The workspace default outputs, for cells that render none.
    pub default_outputs: Vec<OutputSpec>,
    /// The workspace root.
    pub root: String,
    /// The base-image catalogue, by slot name in ascending order.
    pub base_images: Vec<(String, BaseImageSlot)>,
}

/// One buildable cell: a rendered matrix point for one architecture and one output format.
#[derive(Debug)]
pub struct Cell {
    /// The image name.
    pub image: String,
    /// The image directory, against which the cell's relative paths resolve.
    pub image_dir: String,
    /// The image's operation, if declared.
    pub operation: Option<Operation>,
    /// The cell's axis values (the matrix point, plus `arch` when the matrix has no such axis).
    pub axes: Vec<(String, String)>,
    pub arch: Arch,
    pub output: OutputSpec,
    /// The cell slug, also the artifact basename.
    pub slug: String,
    pub ic_config: crate::yaml::Yaml,
    /// The effective base (a catalogue slot collapses to a root-relative `path` base).
    pub base: BaseSource,
    /// The catalogue slot name, when the base is a catalogue reference.
    pub base_image: Option<String>,
    pub rpm_sources: Vec<String>,
}

/// The plain form of a cell.
pub struct CellV {
    pub image: Seq<char>,
    pub image_dir: Seq<char>,
    pub operation: Option<Operation>,
    pub axes: Point,
    pub arch: Arch,
    pub output: (OutputFormat, Option<u8>, Option<Seq<char>>),
    pub slug: Seq<char>,
    pub ic_config: YamlV,
    pub base: BaseV,
    pub base_image: Option<Seq<char>>,
    pub rpm_sources: Seq<Seq<char>>,
}

impl Cell {
    pub open spec fn view(&self) -> CellV {
        CellV {
            image: self.image@,
            image_dir: self.image_dir@,
            operation: self.operation,
            axes: row_view(self.axes),
            arch: self.arch,
            output: self.output.view(),
            slug: self.slug@,
            ic_config: self.ic_config.view(),
            base: self.base.view(),
            base_image: crate::schema::opt_text(self.base_image),
            rpm_sources: views(self.rpm_sources@),
        }
    }
}

pub open spec fn cells_view(v: Seq<Cell>) -> Seq<CellV> {
    v.map_values(|c: Cell| c.view())
}

/// What can go wrong while planning, over plain values.
pub enum CoreFault {
    MissingArchBase { image: Seq<char>, arch: Seq<char> },
    UnknownBaseImage { image: Seq<char>, name: Seq<char>, known: Seq<char> },
    BaseImageArchMismatch { image: Seq<char>, slug: Seq<char>, name: Seq<char>, slot_arch: Arch, cell_arch: Arch },
    PlatformArchMismatch { image: Seq<char>, slug: Seq<char>, platform: Seq<char>, platform_arch: Seq<char>, cell_arch: Arch },
    UnknownSelectorAxis { axis: Seq<char>, image: Seq<char>, declared: Seq<char> },
    NoCellsSelected { image: Seq<char> },
    UnknownToolchain { id: Seq<char>, image: Seq<char> },
    SelectorSyntax { entry: Seq<char> },
}

/// Whether an orchestration error is the given fault.
pub open spec fn core_fault_is(e: CoreError, f: CoreFault) -> bool {
    match f {
        CoreFault::MissingArchBase { image, arch } =>
            e matches CoreError::MissingArchBase { image: i, arch: a } && i@ == image && a@ == arch,
        CoreFault::UnknownBaseImage { image, name, known } =>
            e matches CoreError::UnknownBaseImage { image: i, name: n, known: k } && i@ == image && n@ == name && k@ == known,
        CoreFault::BaseImageArchMismatch { image, slug, name, slot_arch, cell_arch } =>
            e matches CoreError::BaseImageArchMismatch { image: i, slug: s, name: n, slot_arch: sa, cell_arch: ca }
                && i@ == image && s@ == slug && n@ == name && sa == slot_arch && ca == cell_arch,
        CoreFault::PlatformArchMismatch { image, slug, platform, platform_arch, cell_arch } =>
            e matches CoreError::PlatformArchMismatch { image: i, slug: s, platform: p, platform_arch: pa, cell_arch: ca }
                && i@ == image && s@ == slug && p@ == platform && pa@ == platform_arch && ca == cell_arch,
        CoreFault::UnknownSelectorAxis { axis, image, declared } =>
            e matches CoreError::UnknownSelectorAxis { axis: a, image: i, declared: d } && a@ == axis && i@ == image && d@ == declared,
        CoreFault::NoCellsSelected { image } => e matches CoreError::NoCellsSelected { image: i } && i@ == image,
        CoreFault::UnknownToolchain { id, image } =>
            e matches CoreError::UnknownToolchain { id: d, image: i } && d@ == id && i@ == image,
        CoreFault::SelectorSyntax { entry } => e matches CoreError::SelectorSyntax { entry: x } && x@ == entry,
    }
}

/// The catalogue's slot names, in order.
pub open spec fn slot_names(cat: Seq<(String, BaseImageSlot)>) -> Seq<Seq<char>> {
    cat.map_values(|e: (String, BaseImageSlot)| e.0@)
}

/// A base after catalogue resolution: the effective base, the slot name and the slot's arch.
pub type ResolvedBaseV = (BaseV, Option<Seq<char>>, Option<Arch>);

/// Resolving a `ref` base against the catalogue; other bases pass through.
pub open spec fn resolved_base_of(t: Target, b: BaseV) -> Result<ResolvedBaseV, CoreFault> {
    match b {
        BaseV::Ref(name) => match index_of(slot_names(t.base_images@), name) {
            Some(i) => Ok((BaseV::Path(absolutized(t.base_images@[i].1.path@, t.root@)), Some(name), t.base_images@[i].1.arch)),
            None => Err(CoreFault::UnknownBaseImage {
                image: t.name@,
                name,
                known: join_with(slot_names(t.base_images@), ", "@),
            }),
        },
        _ => Ok((b, None, None)),
    }
}

/// The architectures of a rendered cell: its `arch` axis value; else the slot's arch when the
/// workspace declares just `amd64`; else the workspace architectures, or `amd64` when none.
pub open spec fn arches_of(t: Target, tuple: Point, slot_arch: Option<Arch>) -> Result<Seq<Arch>, CoreFault> {
    match lookup(tuple, "arch"@) {
        Some(v) => match arch_named(v) {
            Some(a) => Ok(seq![a]),
            None => Err(CoreFault::MissingArchBase { image: t.name@, arch: v }),
        },
        None => if slot_arch is Some && t.architectures@ == seq![Arch::Amd64] {
            Ok(seq![slot_arch->0])
        } else if t.architectures@.len() == 0 {
            Ok(seq![Arch::Amd64])
        } else {
            Ok(t.architectures@)
        },
    }
}

/// The arch component of a `linux/<arch>[/<variant>]` platform, if it is a known architecture.
pub open spec fn platform_arch_of(platform: Seq<char>) -> Option<Arch> {
    match index_of(platform, '/') {
        Some(i) => arch_named(before_first(platform.subrange(i + 1, platform.len() as int), '/')),
        None => None,
    }
}

/// `<image>_<arch>`, the slug prefix arch conflicts name.
pub open spec fn image_arch_text(image: Seq<char>, arch: Arch) -> Seq<char> {
    image + seq!['_'] + arch_text(arch)
}

/// An OCI base whose platform names another architecture conflicts with the cell's arch.
pub open spec fn platform_fault(t: Target, base: BaseV, arch: Arch) -> Option<CoreFault> {
    match base {
        BaseV::Oci(_, Some(p)) => match platform_arch_of(p) {
            Some(pa) => if pa == arch {
                None
            } else {
                Some(CoreFault::PlatformArchMismatch {
                    image: t.name@,
                    slug: image_arch_text(t.name@, arch),
                    platform: p,
                    platform_arch: arch_text(pa),
                    cell_arch: arch,
                })
            },
            None => None,
        },
        _ => None,
    }
}

/// A catalogue slot whose declared arch differs from the cell's arch conflicts with it.
pub open spec fn slot_fault(t: Target, base_image: Option<Seq<char>>, slot_arch: Option<Arch>, arch: Arch) -> Option<CoreFault> {
    match base_image {
        Some(name) => match slot_arch {
            Some(slot) => if slot != arch {
                Some(CoreFault::BaseImageArchMismatch {
                    image: t.name@,
                    slug: image_arch_text(t.name@, arch),
                    name,
                    slot_arch: slot,
                    cell_arch: arch,
                })
            } else {
                None
            },
            None => None,
        },
        None => None,
    }
}

/// A cell slug: the matrix slug when `arch` is an axis; else the arch goes before the format.
pub open spec fn slug_for_text(name: Seq<char>, tuple: Point, arch: Arch, arch_is_axis: bool, format: OutputFormat) -> Seq<char> {
    if arch_is_axis {
        slug_text(name, tuple, format)
    } else if coordinate_of(tuple).len() == 0 {
        name + seq!['_'] + arch_text(arch) + seq!['_'] + format_text(format)
    } else {
        name + seq!['_'] + coordinate_of(tuple) + seq!['_'] + arch_text(arch) + seq!['_'] + format_text(format)
    }
}

/// A cell's axes: the matrix point, plus `arch` when the point has no `arch` axis.
pub open spec fn cell_axes_of(tuple: Point, arch: Arch) -> Point {
    if lookup(tuple, "arch"@) is Some {
        tuple
    } else {
        tuple.push(("arch"@, arch_text(arch)))
    }
}

/// The outputs a rendered cell builds: its own, else the workspace defaults.
pub open spec fn outputs_of(t: Target, rc: RenderedCell) -> Seq<OutputSpec> {
    if rc.outputs@.len() == 0 {
        t.default_outputs@
    } else {
        rc.outputs@
    }
}

/// The cell for one output of a rendered cell on one architecture.
pub open spec fn cell_of(t: Target, rc: RenderedCell, rb: ResolvedBaseV, arch: Arch, o: OutputSpec) -> CellV {
    CellV {
        image: t.name@,
        image_dir: t.dir@,
        operation: t.operation,
        axes: cell_axes_of(rc.tuple.view(), arch),
        arch,
        output: o.view(),
        slug: slug_for_text(t.name@, rc.tuple.view(), arch, lookup(rc.tuple.view(), "arch"@) is Some, o.format),
        ic_config: rc.ic_config.view(),
        base: rb.0,
        base_image: rb.1,
        rpm_sources: views(rc.rpm_sources@),
    }
}

/// The cells of a rendered cell for each of `arches` in turn, stopping at the first conflict.
pub open spec fn arch_cells(t: Target, rc: RenderedCell, rb: ResolvedBaseV, arches: Seq<Arch>) -> Result<Seq<CellV>, CoreFault>
    decreases arches.len(),
{
    if arches.len() == 0 {
        Ok(Seq::empty())
    } else {
        match arch_cells(t, rc, rb, arches.drop_last()) {
            Err(f) => Err(f),
            Ok(prev) => {
                let a = arches.last();
                match platform_fault(t, rc.base.view(), a) {
                    Some(f) => Err(f),
                    None => match slot_fault(t, rb.1, rb.2, a) {
                        Some(f) => Err(f),
                        None => Ok(prev + outputs_of(t, rc).map_values(|o: OutputSpec| cell_of(t, rc, rb, a, o))),
                    },
                }
            },
        }
    }
}

/// The cells of one rendered cell.
pub open spec fn rendered_cell_cells(t: Target, rc: RenderedCell) -> Result<Seq<CellV>, CoreFault> {
    match resolved_base_of(t, rc.base.view()) {
        Err(f) => Err(f),
        Ok(rb) => match arches_of(t, rc.tuple.view(), rb.2) {
            Err(f) => Err(f),
            Ok(arches) => arch_cells(t, rc, rb, arches),
        },
    }
}

/// The cells of all rendered cells, in order, stopping at the first error.
pub open spec fn all_cells(t: Target, rcs: Seq<RenderedCell>) -> Result<Seq<CellV>, CoreFault>
    decreases rcs.len(),
{
    if rcs.len() == 0 {
        Ok(Seq::empty())
    } else {
        match all_cells(t, rcs.drop_last()) {
            Err(f) => Err(f),
            Ok(prev) => match rendered_cell_cells(t, rcs.last()) {
                Err(f) => Err(f),
                Ok(c) => Ok(prev + c),
            },
        }
    }
}

} // verus!

verus! {

/// The artifact filename for a cell slug and format (the bare slug, a directory, for `pxe-dir`).
pub open spec fn artifact_name_text(slug: Seq<char>, format: OutputFormat) -> Seq<char> {
    match format {
        OutputFormat::PxeDir => slug,
        _ => slug + seq!['.'] + artifact_extension(format),
    }
}

pub open spec fn artifact_extension(format: OutputFormat) -> Seq<char> {
    match format {
        OutputFormat::Cosi => "cosi"@,
        OutputFormat::Vhd => "vhd"@,
        OutputFormat::VhdFixed => "vhd"@,
        OutputFormat::Vhdx => "vhdx"@,
        OutputFormat::Qcow2 => "qcow2"@,
        OutputFormat::Raw => "raw"@,
        OutputFormat::BaremetalImage => "raw"@,
        OutputFormat::Iso => "iso"@,
        OutputFormat::PxeTar => "tar.gz"@,
        OutputFormat::PxeDir => Seq::empty(),
    }
}

/// The artifact filename for a cell slug and format.
pub fn artifact_name(slug: &str, format: OutputFormat) -> (r: String)
    ensures
        r@ == artifact_name_text(slug@, format),
{
    let extension = match format {
        OutputFormat::Cosi => "cosi",
        OutputFormat::Vhd => "vhd",
        OutputFormat::VhdFixed => "vhd",
        OutputFormat::Vhdx => "vhdx",
        OutputFormat::Qcow2 => "qcow2",
        OutputFormat::Raw => "raw",
        OutputFormat::BaremetalImage => "raw",
        OutputFormat::Iso => "iso",
        OutputFormat::PxeTar => "tar.gz",
        OutputFormat::PxeDir => {
            return slug.to_owned();
        },
    };
    let mut out = slug.to_owned();
    push_char(&mut out, '.');
    push_str(&mut out, extension);
    out
}

/// The arch component of a `linux/<arch>[/<variant>]` platform, if it is a known architecture.
fn platform_arch(platform: &str) -> (r: Option<Arch>)
    ensures
        r == platform_arch_of(platform@),
{
    let cs = chars_of(platform);
    match first_index(&cs, '/') {
        Some(i) => {
            let rest = sub_vec(&cs, i + 1, cs.len());
            let stop = match first_index(&rest, '/') {
                Some(j) => j,
                None => rest.len(),
            };
            let segment = string_of_range(&rest, 0, stop);
            assert(segment@ == before_first(rest@, '/')) by {
                if index_of(rest@, '/') is None {
                    assert(rest@.subrange(0, rest@.len() as int) =~= rest@);
                }
            }
            parse_arch(segment.as_str())
        },
        None => None,
    }
}

fn image_arch(name: &String, arch: Arch) -> (r: String)
    ensures
        r@ == image_arch_text(name@, arch),
{
    let mut s = name.clone();
    push_char(&mut s, '_');
    push_str(&mut s, arch.as_str());
    s
}

/// An OCI base's platform arch must equal the cell's arch; `path`/`azureLinux` bases declare none.
fn check_platform_arch(target: &Target, base: &BaseSource, arch: Arch) -> (r: Result<(), CoreError>)
    ensures
        match platform_fault(*target, base.view(), arch) {
            None => r is Ok,
            Some(f) => r is Err && core_fault_is(r->Err_0, f),
        },
{
    let oci = match base {
        BaseSource::Oci { oci } => oci,
        _ => {
            return Ok(());
        },
    };
    let platform = match &oci.platform {
        Some(p) => p,
        None => {
            return Ok(());
        },
    };
    match platform_arch(platform.as_str()) {
        Some(pa) => {
            if pa == arch {
                Ok(())
            } else {
                Err(CoreError::PlatformArchMismatch {
                    image: target.name.clone(),
                    slug: image_arch(&target.name, arch),
                    platform: platform.clone(),
                    platform_arch: pa.as_str().to_owned(),
                    cell_arch: arch,
                })
            }
        },
        None => Ok(()),
    }
}

/// A catalogue slot's arch must agree with the cell's arch; a slot with none never conflicts.
fn reconcile_slot_arch(target: &Target, base_image: &Option<String>, slot_arch: Option<Arch>, arch: Arch) -> (r: Result<(), CoreError>)
    ensures
        match slot_fault(*target, opt_text(*base_image), slot_arch, arch) {
            None => r is Ok,
            Some(f) => r is Err && core_fault_is(r->Err_0, f),
        },
{
    match base_image {
        Some(name) => match slot_arch {
            Some(slot) => {
                if slot != arch {
                    Err(CoreError::BaseImageArchMismatch {
                        image: target.name.clone(),
                        slug: image_arch(&target.name, arch),
                        name: name.clone(),
                        slot_arch: slot,
                        cell_arch: arch,
                    })
                } else {
                    Ok(())
                }
            },
            None => Ok(()),
        },
        None => Ok(()),
    }
}

/// The slug of a cell.
fn slug_for(name: &str, rc: &RenderedCell, arch: Arch, arch_is_axis: bool, format: OutputFormat) -> (r: String)
    ensures
        r@ == slug_for_text(name@, rc.tuple.view(), arch, arch_is_axis, format),
{
    if arch_is_axis {
        return cell_slug(name, &rc.tuple, format);
    }
    let coordinate = rc.tuple.coordinate();
    let mut out = name.to_owned();
    push_char(&mut out, '_');
    if !coordinate.as_str().is_empty() {
        push_str(&mut out, coordinate.as_str());
        push_char(&mut out, '_');
    }
    push_str(&mut out, arch.as_str());
    push_char(&mut out, '_');
    push_str(&mut out, format.as_str());
    assert(out@ =~= slug_for_text(name@, rc.tuple.view(), arch, arch_is_axis, format));
    out
}

/// The position of the catalogue slot named `name`.
fn find_slot(cat: &Vec<(String, BaseImageSlot)>, name: &String) -> (r: Option<usize>)
    ensures
        match index_of(slot_names(cat@), name@) {
            Some(i) => r matches Some(k) && k as int == i,
            None => r is None,
        },
        r matches Some(k) ==> k < cat.len(),
{
    proof {
        crate::text::lemma_index_of(slot_names(cat@), name@);
    }
    let mut i: usize = 0;
    while i < cat.len()
        invariant
            i <= cat.len(),
            forall|j: int| 0 <= j < i ==> slot_names(cat@)[j] != name@,
            index_of(slot_names(cat@), name@) is None <==> !slot_names(cat@).contains(name@),
            index_of(slot_names(cat@), name@) matches Some(k) ==> 0 <= k < slot_names(cat@).len()
                && slot_names(cat@)[k] == name@ && forall|j: int| 0 <= j < k ==> slot_names(cat@)[j] != name@,
        decreases cat.len() - i,
    {
        if cat[i].0 == *name {
            assert(slot_names(cat@)[i as int] == name@);
            return Some(i);
        }
        i += 1;
    }
    None
}

/// Resolves a `ref` base against the catalogue: it collapses to the slot's root-relative file and
/// reports the slot name and arch. Other bases pass through unchanged.
fn resolve_base(target: &Target, base: &BaseSource) -> (r: Result<(BaseSource, Option<String>, Option<Arch>), CoreError>)
    ensures
        match resolved_base_of(*target, base.view()) {
            Ok(rb) => r matches Ok(t) && t.0.view() == rb.0 && opt_text(t.1) == rb.1 && t.2 == rb.2,
            Err(f) => r is Err && core_fault_is(r->Err_0, f),
        },
{
    let reference = match base {
        BaseSource::Ref { reference } => reference,
        _ => {
            return Ok((base.copy(), None, None));
        },
    };
    match find_slot(&target.base_images, reference) {
        Some(i) => {
            let slot = &target.base_images[i].1;
            let path = absolutize(slot.path.as_str(), target.root.as_str());
            Ok((BaseSource::Path { path }, Some(reference.clone()), slot.arch))
        },
        None => {
            let mut names: Vec<String> = Vec::new();
            let mut k: usize = 0;
            while k < target.base_images.len()
                invariant
                    k <= target.base_images.len(),
                    views(names@) == slot_names(target.base_images@).subrange(0, k as int),
                decreases target.base_images.len() - k,
            {
                let ghost before = names@;
                names.push(target.base_images[k].0.clone());
                assert(views(names@) =~= views(before).push(target.base_images@[k as int].0@));
                assert(slot_names(target.base_images@).subrange(0, k + 1) =~= slot_names(target.base_images@).subrange(0, k as int).push(target.base_images@[k as int].0@));
                k += 1;
            }
            assert(slot_names(target.base_images@).subrange(0, target.base_images@.len() as int) =~= slot_names(target.base_images@));
            Err(CoreError::UnknownBaseImage {
                image: target.name.clone(),
                name: reference.clone(),
                known: join_strings(&names, ", "),
            })
        },
    }
}

} // verus!

verus! {

/// A cell's axes: the matrix point, plus `arch` when the point has no `arch` axis.
fn cell_axes(tuple: &AxisTuple, arch: Arch) -> (r: Vec<(String, String)>)
    ensures
        row_view(r) == cell_axes_of(tuple.view(), arch),
{
    let mut out: Vec<(String, String)> = Vec::new();
    let mut i: usize = 0;
    while i < tuple.values.len()
        invariant
            i <= tuple.values.len(),
            row_view(out) == row_view(tuple.values).subrange(0, i as int),
        decreases tuple.values.len() - i,
    {
        let ghost before = out@;
        let key = tuple.values[i].0.clone();
        let value = tuple.values[i].1.clone();
        out.push((key, value));
        assert(out@ == before.push((key, value)));
        assert(row_view(out).last() == row_view(tuple.values)[i as int]);
        assert(row_view(out).drop_last() =~= before.map_values(|e: (String, String)| crate::ordered::pin_view(e)));
        assert(row_view(tuple.values).subrange(0, i + 1).drop_last() =~= row_view(tuple.values).subrange(0, i as int));
        assert(row_view(out) =~= row_view(tuple.values).subrange(0, i + 1));
        i += 1;
    }
    assert(row_view(tuple.values).subrange(0, tuple.values@.len() as int) =~= row_view(tuple.values));
    if tuple.get("arch").is_none() {
        let ghost before = out@;
        out.push(("arch".to_owned(), arch.as_str().to_owned()));
        assert(row_view(out) =~= row_view(tuple.values).push(("arch"@, arch_text(arch))));
    }
    out
}

/// The cells of one rendered cell: one per architecture and output.
fn rendered_cells(target: &Target, rc: &RenderedCell) -> (r: Result<Vec<Cell>, CoreError>)
    ensures
        match rendered_cell_cells(*target, *rc) {
            Ok(cs) => r is Ok && cells_view(r->Ok_0@) == cs,
            Err(f) => r is Err && core_fault_is(r->Err_0, f),
        },
{
    let (base, base_image, slot_arch) = match resolve_base(target, &rc.base) {
        Ok(t) => t,
        Err(e) => {
            return Err(e);
        },
    };
    let ghost rb: ResolvedBaseV = (base.view(), opt_text(base_image), slot_arch);
    let arch_value = rc.tuple.get("arch");
    let arch_is_axis = arch_value.is_some();
    let arches: Vec<Arch> = match arch_value {
        Some(v) => match parse_arch(v) {
            Some(a) => {
                let mut one: Vec<Arch> = Vec::new();
                one.push(a);
                one
            },
            None => {
                return Err(CoreError::MissingArchBase { image: target.name.clone(), arch: v.to_owned() });
            },
        },
        None => {
            let mut chosen: Vec<Arch> = Vec::new();
            if slot_arch.is_some() && target.architectures.len() == 1 && target.architectures[0] == Arch::Amd64 {
                assert(target.architectures@ =~= seq![Arch::Amd64]);
                chosen.push(slot_arch.unwrap());
            } else if target.architectures.len() == 0 {
                chosen.push(Arch::Amd64);
            } else {
                assert(target.architectures@ != seq![Arch::Amd64] || slot_arch is None);
                let mut k: usize = 0;
                while k < target.architectures.len()
                    invariant
                        k <= target.architectures.len(),
                        chosen@ == target.architectures@.subrange(0, k as int),
                    decreases target.architectures.len() - k,
                {
                    chosen.push(target.architectures[k]);
                    k += 1;
                    assert(chosen@ =~= target.architectures@.subrange(0, k as int));
                }
                assert(target.architectures@.subrange(0, target.architectures@.len() as int) =~= target.architectures@);
            }
            chosen
        },
    };
    assert(arches_of(*target, rc.tuple.view(), slot_arch) == Ok::<Seq<Arch>, CoreFault>(arches@)) by {
        if arch_value is Some {
            assert(arches@ =~= seq![arch_named(lookup(rc.tuple.view(), "arch"@)->0)->0]);
        } else if slot_arch is Some && target.architectures@ == seq![Arch::Amd64] {
            assert(arches@ =~= seq![slot_arch->0]);
        } else if target.architectures@.len() == 0 {
            assert(arches@ =~= seq![Arch::Amd64]);
        }
    }
    let outputs: &Vec<OutputSpec> = if rc.outputs.len() == 0 { &target.default_outputs } else { &rc.outputs };
    assert(outputs@ == outputs_of(*target, *rc));
    let mut out: Vec<Cell> = Vec::new();
    let mut k: usize = 0;
    assert(arches@.subrange(0, 0) =~= Seq::<Arch>::empty());
    assert(cells_view(out@) =~= Seq::<CellV>::empty());
    while k < arches.len()
        invariant
            k <= arches.len(),
            rb == (base.view(), opt_text(base_image), slot_arch),
            resolved_base_of(*target, rc.base.view()) == Ok::<ResolvedBaseV, CoreFault>(rb),
            arches_of(*target, rc.tuple.view(), slot_arch) == Ok::<Seq<Arch>, CoreFault>(arches@),
            arch_is_axis == (lookup(rc.tuple.view(), "arch"@) is Some),
            outputs@ == outputs_of(*target, *rc),
            arch_cells(*target, *rc, rb, arches@.subrange(0, k as int)) == Ok::<Seq<CellV>, CoreFault>(cells_view(out@)),
        decreases arches.len() - k,
    {
        let a = arches[k];
        assert(arches@.subrange(0, k + 1).drop_last() =~= arches@.subrange(0, k as int));
        assert(arches@.subrange(0, k + 1).last() == a);
        match check_platform_arch(target, &rc.base, a) {
            Ok(()) => {},
            Err(e) => {
                proof {
                    lemma_arch_cells_err(*target, *rc, rb, arches@, k + 1);
                }
                return Err(e);
            },
        }
        match reconcile_slot_arch(target, &base_image, slot_arch, a) {
            Ok(()) => {},
            Err(e) => {
                proof {
                    lemma_arch_cells_err(*target, *rc, rb, arches@, k + 1);
                }
                return Err(e);
            },
        }
        let ghost prev = cells_view(out@);
        let ghost fresh = outputs_of(*target, *rc).map_values(|o: OutputSpec| cell_of(*target, *rc, rb, a, o));
        let mut j: usize = 0;
        while j < outputs.len()
            invariant
                j <= outputs.len(),
                outputs@ == outputs_of(*target, *rc),
                rb == (base.view(), opt_text(base_image), slot_arch),
                arch_is_axis == (lookup(rc.tuple.view(), "arch"@) is Some),
                fresh == outputs_of(*target, *rc).map_values(|o: OutputSpec| cell_of(*target, *rc, rb, a, o)),
                cells_view(out@) == prev + fresh.subrange(0, j as int),
            decreases outputs.len() - j,
        {
            let o = &outputs[j];
            let cell = Cell {
                image: target.name.clone(),
                image_dir: target.dir.clone(),
                operation: target.operation,
                axes: cell_axes(&rc.tuple, a),
                arch: a,
                output: o.copy(),
                slug: slug_for(target.name.as_str(), rc, a, arch_is_axis, o.format),
                ic_config: yaml_clone(&rc.ic_config),
                base: base.copy(),
                base_image: copy_opt_string(&base_image),
                rpm_sources: copy_strings(&rc.rpm_sources),
            };
            assert(cell.view() == fresh[j as int]);
            let ghost before = out@;
            let ghost cv = cell.view();
            out.push(cell);
            assert(out@ == before.push(cell));
            assert(cells_view(out@).last() == cv);
            assert(cells_view(out@).drop_last() =~= cells_view(before));
            assert((prev + fresh.subrange(0, j + 1)).drop_last() =~= prev + fresh.subrange(0, j as int));
            assert((prev + fresh.subrange(0, j + 1)).last() == fresh[j as int]);
            assert(cv == fresh[j as int]);
            assert(cells_view(out@).len() == (prev + fresh.subrange(0, j + 1)).len());
            assert forall|x: int| 0 <= x < cells_view(out@).len() implies #[trigger] cells_view(out@)[x]
                == (prev + fresh.subrange(0, j + 1))[x] by {
                if x < cells_view(out@).len() - 1 {
                    assert(cells_view(out@)[x] == cells_view(out@).drop_last()[x]);
                    assert((prev + fresh.subrange(0, j + 1))[x] == (prev + fresh.subrange(0, j + 1)).drop_last()[x]);
                }
            }
            assert(cells_view(out@) =~= prev + fresh.subrange(0, j + 1));
            j += 1;
        }
        assert(fresh.subrange(0, outputs@.len() as int) =~= fresh);
        k += 1;
    }
    assert(arches@.subrange(0, arches@.len() as int) =~= arches@);
    Ok(out)
}

proof fn lemma_arch_cells_err(t: Target, rc: RenderedCell, rb: ResolvedBaseV, arches: Seq<Arch>, k: int)
    requires
        0 <= k <= arches.len(),
        arch_cells(t, rc, rb, arches.subrange(0, k)) is Err,
    ensures
        arch_cells(t, rc, rb, arches) == arch_cells(t, rc, rb, arches.subrange(0, k)),
    decreases arches.len(),
{
    if k == arches.len() {
        assert(arches.subrange(0, k) =~= arches);
    } else {
        assert(arches.drop_last().subrange(0, k) =~= arches.subrange(0, k));
        lemma_arch_cells_err(t, rc, rb, arches.drop_last(), k);
    }
}

proof fn lemma_all_cells_err(t: Target, rcs: Seq<RenderedCell>, k: int)
    requires
        0 <= k <= rcs.len(),
        all_cells(t, rcs.subrange(0, k)) is Err,
    ensures
        all_cells(t, rcs) == all_cells(t, rcs.subrange(0, k)),
    decreases rcs.len(),
{
    if k == rcs.len() {
        assert(rcs.subrange(0, k) =~= rcs);
    } else {
        assert(rcs.drop_last().subrange(0, k) =~= rcs.subrange(0, k));
        lemma_all_cells_err(t, rcs.drop_last(), k);
    }
}

/// Expands a target's rendered cells into its cells: one per (matrix point × architecture ×
/// output format), in order, failing on the first unknown catalogue slot or arch conflict.
pub fn cells(target: &Target, rendered: &Vec<RenderedCell>) -> (r: Result<Vec<Cell>, CoreError>)
    ensures
        match all_cells(*target, rendered@) {
            Ok(cs) => r is Ok && cells_view(r->Ok_0@) == cs,
            Err(f) => r is Err && core_fault_is(r->Err_0, f),
        },
{
    let mut out: Vec<Cell> = Vec::new();
    let mut i: usize = 0;
    assert(rendered@.subrange(0, 0) =~= Seq::<RenderedCell>::empty());
    assert(cells_view(out@) =~= Seq::<CellV>::empty());
    while i < rendered.len()
        invariant
            i <= rendered.len(),
            all_cells(*target, rendered@.subrange(0, i as int)) == Ok::<Seq<CellV>, CoreFault>(cells_view(out@)),
        decreases rendered.len() - i,
    {
        assert(rendered@.subrange(0, i + 1).drop_last() =~= rendered@.subrange(0, i as int));
        assert(rendered@.subrange(0, i + 1).last() == rendered@[i as int]);
        match rendered_cells(target, &rendered[i]) {
            Ok(cs) => {
                let mut cs = cs;
                let ghost before = out@;
                let ghost added = cs@;
                out.append(&mut cs);
                assert(out@ == before + added);
                assert(cells_view(out@) =~= cells_view(before) + cells_view(added));
            },
            Err(e) => {
                proof {
                    lemma_all_cells_err(*target, rendered@, i + 1);
                }
                return Err(e);
            },
        }
        i += 1;
    }
    assert(rendered@.subrange(0, rendered@.len() as int) =~= rendered@);
    Ok(out)
}

} // verus!

verus! {

impl Cell {
    /// A copy of this cell.
    pub fn copy(&self) -> (r: Cell)
        ensures
            r.view() == self.view(),
    {
        let mut axes: Vec<(String, String)> = Vec::new();
        let mut i: usize = 0;
        while i < self.axes.len()
            invariant
                i <= self.axes.len(),
                row_view(axes) == row_view(self.axes).subrange(0, i as int),
            decreases self.axes.len() - i,
        {
            let ghost before = axes@;
            let key = self.axes[i].0.clone();
            let value = self.axes[i].1.clone();
            axes.push((key, value));
            assert(row_view(axes).drop_last() =~= before.map_values(|e: (String, String)| crate::ordered::pin_view(e)));
            assert(row_view(self.axes).subrange(0, i + 1).drop_last() =~= row_view(self.axes).subrange(0, i as int));
            assert(row_view(axes) =~= row_view(self.axes).subrange(0, i + 1));
            i += 1;
        }
        assert(row_view(self.axes).subrange(0, self.axes@.len() as int) =~= row_view(self.axes));
        Cell {
            image: self.image.clone(),
            image_dir: self.image_dir.clone(),
            operation: self.operation,
            axes,
            arch: self.arch,
            output: self.output.copy(),
            slug: self.slug.clone(),
            ic_config: yaml_clone(&self.ic_config),
            base: self.base.copy(),
            base_image: copy_opt_string(&self.base_image),
            rpm_sources: copy_strings(&self.rpm_sources),
        }
    }
}

/// The axis names of a point, in order.
pub open spec fn point_names(p: Point) -> Seq<Seq<char>> {
    p.map_values(|e: (Seq<char>, Seq<char>)| e.0)
}

/// `l` with each of `xs` inserted in order.
pub open spec fn insert_all(l: Seq<Seq<char>>, xs: Seq<Seq<char>>) -> Seq<Seq<char>>
    decreases xs.len(),
{
    if xs.len() == 0 {
        l
    } else {
        insert_sorted(insert_all(l, xs.drop_last()), xs.last())
    }
}

/// The axis names of the cells, ascending and without repeats.
pub open spec fn declared_names(cs: Seq<CellV>) -> Seq<Seq<char>>
    decreases cs.len(),
{
    if cs.len() == 0 {
        Seq::empty()
    } else {
        insert_all(declared_names(cs.drop_last()), point_names(cs.last().axes))
    }
}

/// The first of `names` that `declared` lacks.
pub open spec fn first_missing(names: Seq<Seq<char>>, declared: Seq<Seq<char>>) -> Option<Seq<char>>
    decreases names.len(),
{
    if names.len() == 0 {
        None
    } else if !declared.contains(names[0]) {
        Some(names[0])
    } else {
        first_missing(names.drop_first(), declared)
    }
}

/// The cells the selection picks, in order.
pub open spec fn chosen_cells(cs: Seq<CellV>, s: SelectorV) -> Seq<CellV>
    decreases cs.len(),
{
    if cs.len() == 0 {
        Seq::empty()
    } else if selects(s, cs.last()) {
        chosen_cells(cs.drop_last(), s).push(cs.last())
    } else {
        chosen_cells(cs.drop_last(), s)
    }
}

/// The selected cells of a target: all its cells for an empty selection; else, after checking that
/// every pinned axis is declared by some cell, the cells the selection picks (at least one).
pub open spec fn selection_of(t: Target, rcs: Seq<RenderedCell>, s: SelectorV) -> Result<Seq<CellV>, CoreFault> {
    match all_cells(t, rcs) {
        Err(f) => Err(f),
        Ok(all) => if s.groups.len() == 0 && s.cells.len() == 0 && s.arches.len() == 0 {
            Ok(all)
        } else {
            let declared = declared_names(all);
            match first_missing(group_axes(s.groups), declared) {
                Some(axis) => Err(CoreFault::UnknownSelectorAxis {
                    axis,
                    image: t.name@,
                    declared: join_with(declared, ", "@),
                }),
                None => {
                    let chosen = chosen_cells(all, s);
                    if chosen.len() == 0 {
                        Err(CoreFault::NoCellsSelected { image: t.name@ })
                    } else {
                        Ok(chosen)
                    }
                },
            }
        },
    }
}

/// The axis names of the cells, ascending and without repeats.
fn declared_axis_names(all: &Vec<Cell>) -> (r: Vec<String>)
    ensures
        views(r@) == declared_names(cells_view(all@)),
{
    let ghost cv = cells_view(all@);
    let mut names: Vec<String> = Vec::new();
    let mut i: usize = 0;
    assert(cv.subrange(0, 0) =~= Seq::<CellV>::empty());
    while i < all.len()
        invariant
            i <= all.len(),
            cv == cells_view(all@),
            views(names@) == declared_names(cv.subrange(0, i as int)),
        decreases all.len() - i,
    {
        assert(cv.subrange(0, i + 1).drop_last() =~= cv.subrange(0, i as int));
        assert(cv.subrange(0, i + 1).last() == all@[i as int].view());
        let axes = &all[i].axes;
        let ghost pn = point_names(row_view(*axes));
        let ghost start = views(names@);
        let mut k: usize = 0;
        assert(pn.subrange(0, 0) =~= Seq::<Seq<char>>::empty());
        while k < axes.len()
            invariant
                k <= axes.len(),
                pn == point_names(row_view(*axes)),
                views(names@) == insert_all(start, pn.subrange(0, k as int)),
            decreases axes.len() - k,
        {
            assert(pn.subrange(0, k + 1).drop_last() =~= pn.subrange(0, k as int));
            assert(pn.subrange(0, k + 1).last() == axes@[k as int].0@);
            insert_sorted_string(&mut names, &axes[k].0);
            k += 1;
        }
        assert(pn.subrange(0, axes@.len() as int) =~= pn);
        i += 1;
    }
    assert(cv.subrange(0, all@.len() as int) =~= cv);
    names
}

/// Expands a target's cells (as [`cells`]) and narrows them with `selector`, checking that every
/// pinned axis is declared and that the selection is not empty.
pub fn cells_selected(target: &Target, rendered: &Vec<RenderedCell>, selector: &Selector) -> (r: Result<Vec<Cell>, CoreError>)
    ensures
        match selection_of(*target, rendered@, selector.view()) {
            Ok(cs) => r is Ok && cells_view(r->Ok_0@) == cs,
            Err(f) => r is Err && core_fault_is(r->Err_0, f),
        },
{
    let all = match cells(target, rendered) {
        Ok(all) => all,
        Err(e) => {
            return Err(e);
        },
    };
    if selector.is_empty() {
        return Ok(all);
    }
    let ghost av = cells_view(all@);
    let declared = declared_axis_names(&all);
    let names = selector.axis_names();
    let ghost nv = views(names@);
    let mut i: usize = 0;
    assert(nv.subrange(0, nv.len() as int) =~= nv);
    while i < names.len()
        invariant
            i <= names.len(),
            nv == views(names@),
            views(declared@) == declared_names(av),
            first_missing(nv, views(declared@)) == first_missing(nv.subrange(i as int, nv.len() as int), views(declared@)),
            all_cells(*target, rendered@) == Ok::<Seq<CellV>, CoreFault>(av),
            !(selector.view().groups.len() == 0 && selector.view().cells.len() == 0 && selector.view().arches.len() == 0),
            nv == group_axes(selector.view().groups),
        decreases names.len() - i,
    {
        assert(nv.subrange(i as int, nv.len() as int).drop_first() =~= nv.subrange(i + 1, nv.len() as int));
        if !contains_string(&declared, &names[i]) {
            assert(nv.subrange(i as int, nv.len() as int)[0] == nv[i as int]);
            assert(first_missing(nv, views(declared@)) == Some(nv[i as int]));
            return Err(CoreError::UnknownSelectorAxis {
                axis: names[i].clone(),
                image: target.name.clone(),
                declared: join_strings(&declared, ", "),
            });
        }
        i += 1;
    }
    let mut chosen: Vec<Cell> = Vec::new();
    let mut k: usize = 0;
    assert(av.subrange(0, 0) =~= Seq::<CellV>::empty());
    assert(cells_view(chosen@) =~= Seq::<CellV>::empty());
    while k < all.len()
        invariant
            k <= all.len(),
            av == cells_view(all@),
            cells_view(chosen@) == chosen_cells(av.subrange(0, k as int), selector.view()),
        decreases all.len() - k,
    {
        assert(av.subrange(0, k + 1).drop_last() =~= av.subrange(0, k as int));
        assert(av.subrange(0, k + 1).last() == all@[k as int].view());
        if selector.matches(&all[k]) {
            let c = all[k].copy();
            let ghost before = chosen@;
            chosen.push(c);
            assert(cells_view(chosen@) =~= cells_view(before).push(c.view()));
        }
        k += 1;
    }
    assert(av.subrange(0, all@.len() as int) =~= av);
    if chosen.len() == 0 {
        return Err(CoreError::NoCellsSelected { image: target.name.clone() });
    }
    Ok(chosen)
}

} // verus!

verus! {

/// A container pinned in the lock file: what was resolved (container, version, tag) and the
/// digest it resolved to.
#[derive(Debug)]
pub struct LockedContainer {
    pub container: String,
    pub version: Option<String>,
    pub tag: Option<String>,
    pub digest: String,
}

/// A registry base pinned in the lock file, per platform.
#[derive(Debug)]
pub struct LockedBase {
    pub reference: String,
    pub platform: String,
    pub digest: String,
}

/// Runtime images pinned in the lock file.
#[derive(Debug)]
pub struct LockedRuntime {
    pub janitor_image: Option<LockedContainer>,
}

/// The digests the lock file pins: toolchains by id, registry bases by reference and platform, and
/// runtime images.
#[derive(Debug)]
pub struct Lockfile {
    pub toolchains: Vec<(String, LockedContainer)>,
    pub bases: Vec<LockedBase>,
    pub runtime: Option<LockedRuntime>,
}

/// The digest the lock pins for a toolchain id (first entry), if any.
pub open spec fn locked_digest(lock: Lockfile, id: Seq<char>) -> Option<Seq<char>>
    decreases lock.toolchains@.len(),
{
    lookup(lock.toolchains@.map_values(|e: (String, LockedContainer)| (e.0@, e.1.digest@)), id)
}

impl Lockfile {
    /// The digest pinned for a toolchain id.
    pub fn toolchain_digest(&self, id: &str) -> (r: Option<String>)
        ensures
            opt_text(r) == locked_digest(*self, id@),
    {
        let ghost pv = self.toolchains@.map_values(|e: (String, LockedContainer)| (e.0@, e.1.digest@));
        let mut i: usize = 0;
        assert(pv.subrange(0, pv.len() as int) =~= pv);
        while i < self.toolchains.len()
            invariant
                i <= self.toolchains.len(),
                pv == self.toolchains@.map_values(|e: (String, LockedContainer)| (e.0@, e.1.digest@)),
                lookup(pv, id@) == lookup(pv.subrange(i as int, pv.len() as int), id@),
            decreases self.toolchains.len() - i,
        {
            assert(pv.subrange(i as int, pv.len() as int).drop_first() =~= pv.subrange(i + 1, pv.len() as int));
            if str_eq(self.toolchains[i].0.as_str(), id) {
                return Some(self.toolchains[i].1.digest.clone());
            }
            i += 1;
        }
        None
    }
}

/// The ids of the workspace toolchain entries, in order.
pub open spec fn toolchain_ids(entries: Seq<(String, ToolchainEntry)>) -> Seq<Seq<char>> {
    entries.map_values(|e: (String, ToolchainEntry)| e.0@)
}

/// The toolchain entry the workspace defines under `id`, if any.
pub open spec fn entry_index(tool: ToolConfig, id: Seq<char>) -> Option<int> {
    index_of(toolchain_ids(tool.toolchains.entries@), id)
}

/// A target's toolchain: an inline entry (id `inline`), the entry it names, or the workspace
/// default; a name the workspace does not define is an error.
pub open spec fn toolchain_choice(t: Target, tool: ToolConfig) -> Result<(Seq<char>, ToolchainEntry), CoreFault> {
    match t.toolchain {
        Some(ToolchainRef::Inline(entry)) => Ok(("inline"@, entry)),
        Some(ToolchainRef::Id(id)) => match entry_index(tool, id@) {
            Some(i) => Ok((id@, tool.toolchains.entries@[i].1)),
            None => Err(CoreFault::UnknownToolchain { id: id@, image: t.name@ }),
        },
        None => match entry_index(tool, tool.toolchains.default@) {
            Some(i) => Ok((tool.toolchains.default@, tool.toolchains.entries@[i].1)),
            None => Err(CoreFault::UnknownToolchain { id: tool.toolchains.default@, image: t.name@ }),
        },
    }
}

fn lookup_toolchain(target: &Target, tool: &ToolConfig, id: &String) -> (r: Result<(String, ToolchainEntry), CoreError>)
    ensures
        match entry_index(*tool, id@) {
            Some(i) => r matches Ok(p) && p.0@ == id@ && p.1.view() == tool.toolchains.entries@[i].1.view()
                && effective_tag_text(p.1) == effective_tag_text(tool.toolchains.entries@[i].1),
            None => r is Err && core_fault_is(r->Err_0, CoreFault::UnknownToolchain { id: id@, image: target.name@ }),
        },
{
    let entries = &tool.toolchains.entries;
    let ghost names = toolchain_ids(entries@);
    proof {
        crate::text::lemma_index_of(names, id@);
    }
    let mut i: usize = 0;
    while i < entries.len()
        invariant
            i <= entries.len(),
            names == toolchain_ids(entries@),
            entries@ == tool.toolchains.entries@,
            forall|j: int| 0 <= j < i ==> names[j] != id@,
            index_of(names, id@) is None <==> !names.contains(id@),
            index_of(names, id@) matches Some(k) ==> 0 <= k < names.len() && names[k] == id@
                && forall|j: int| 0 <= j < k ==> names[j] != id@,
        decreases entries.len() - i,
    {
        if entries[i].0 == *id {
            assert(names[i as int] == id@);
            return Ok((id.clone(), entries[i].1.copy()));
        }
        i += 1;
    }
    Err(CoreError::UnknownToolchain { id: id.clone(), image: target.name.clone() })
}

/// Resolves a target's toolchain to its `(id, entry)`, applying the workspace default if unset.
pub fn toolchain_for(target: &Target, tool: &ToolConfig) -> (r: Result<(String, ToolchainEntry), CoreError>)
    ensures
        match toolchain_choice(*target, *tool) {
            Ok(c) => r matches Ok(p) && p.0@ == c.0 && p.1.view() == c.1.view()
                && effective_tag_text(p.1) == effective_tag_text(c.1),
            Err(f) => r is Err && core_fault_is(r->Err_0, f),
        },
{
    match &target.toolchain {
        Some(ToolchainRef::Inline(entry)) => Ok(("inline".to_owned(), entry.copy())),
        Some(ToolchainRef::Id(id)) => lookup_toolchain(target, tool, id),
        None => lookup_toolchain(target, tool, &tool.toolchains.default),
    }
}

/// The janitor image: the built-in default when none is configured; else the configured
/// container pinned to the locked digest, or at its tag (`latest` when none).
pub open spec fn janitor_text(tool: ToolConfig, lock: Lockfile) -> Seq<char> {
    let janitor = match tool.runtime {
        Some(r) => r.janitor_image,
        None => None,
    };
    match janitor {
        None => DEFAULT_JANITOR_CONTAINER@ + seq![':'] + DEFAULT_JANITOR_TAG@,
        Some(j) => {
            let digest = match lock.runtime {
                Some(lr) => match lr.janitor_image {
                    Some(c) => Some(c.digest@),
                    None => None,
                },
                None => None,
            };
            match digest {
                Some(d) => j.container@ + seq!['@'] + d,
                None => j.container@ + seq![':'] + match j.tag {
                    Some(t) => t@,
                    None => "latest"@,
                },
            }
        },
    }
}

/// The runtime settings of a workspace: `runtime:` knobs with their defaults (host root `/host`,
/// privileged), the log level's name, and the janitor image.
pub open spec fn runtime_config_of(tool: ToolConfig, lock: Lockfile, r: RuntimeConfig) -> bool {
    let rt = tool.runtime;
    &&& r.host_root@ == match rt {
        Some(x) => match x.mounts {
            Some(m) => match m.host_root {
                Some(h) => h@,
                None => "/host"@,
            },
            None => "/host"@,
        },
        None => "/host"@,
    }
    &&& r.privileged == match rt {
        Some(x) => match x.privileged {
            Some(p) => p,
            None => true,
        },
        None => true,
    }
    &&& opt_text(r.build_dir) == match rt {
        Some(x) => opt_text(x.build_dir),
        None => None,
    }
    &&& opt_text(r.log_level) == match rt {
        Some(x) => match x.log_level {
            Some(l) => Some(log_level_text(l)),
            None => None,
        },
        None => None,
    }
    &&& opt_text(r.image_cache_dir) == match rt {
        Some(x) => opt_text(x.image_cache_dir),
        None => None,
    }
    &&& opt_text(r.log_dir) == match rt {
        Some(x) => opt_text(x.log_dir),
        None => None,
    }
    &&& r.janitor_image@ == janitor_text(tool, lock)
}

/// Builds the execution runtime settings from the tool config and the lock (janitor digest).
pub fn runtime_config(tool: &ToolConfig, lock: &Lockfile) -> (r: RuntimeConfig)
    ensures
        runtime_config_of(*tool, *lock, r),
{
    let janitor_image = match &tool.runtime {
        Some(rt) => match &rt.janitor_image {
            Some(j) => {
                let digest = match &lock.runtime {
                    Some(lr) => match &lr.janitor_image {
                        Some(c) => Some(&c.digest),
                        None => None,
                    },
                    None => None,
                };
                let mut s = j.container.clone();
                match digest {
                    Some(d) => {
                        push_char(&mut s, '@');
                        push_str(&mut s, d.as_str());
                    },
                    None => {
                        push_char(&mut s, ':');
                        match &j.tag {
                            Some(t) => push_str(&mut s, t.as_str()),
                            None => push_str(&mut s, "latest"),
                        }
                    },
                }
                s
            },
            None => default_janitor(),
        },
        None => default_janitor(),
    };
    assert(janitor_image@ == janitor_text(*tool, *lock));
    let host_root = match &tool.runtime {
        Some(rt) => match &rt.mounts {
            Some(m) => match &m.host_root {
                Some(h) => h.clone(),
                None => "/host".to_owned(),
            },
            None => "/host".to_owned(),
        },
        None => "/host".to_owned(),
    };
    match &tool.runtime {
        Some(rt) => RuntimeConfig {
            host_root,
            privileged: match rt.privileged {
                Some(p) => p,
                None => true,
            },
            build_dir: copy_opt_string(&rt.build_dir),
            log_level: match rt.log_level {
                Some(l) => Some(l.as_str().to_owned()),
                None => None,
            },
            image_cache_dir: copy_opt_string(&rt.image_cache_dir),
            log_dir: copy_opt_string(&rt.log_dir),
            janitor_image,
        },
        None => RuntimeConfig {
            host_root,
            privileged: true,
            build_dir: None,
            log_level: None,
            image_cache_dir: None,
            log_dir: None,
            janitor_image,
        },
    }
}

fn default_janitor() -> (s: String)
    ensures
        s@ == DEFAULT_JANITOR_CONTAINER@ + seq![':'] + DEFAULT_JANITOR_TAG@,
{
    let mut s = DEFAULT_JANITOR_CONTAINER.to_owned();
    push_char(&mut s, ':');
    push_str(&mut s, DEFAULT_JANITOR_TAG);
    s
}

/// Options controlling a build run.
#[derive(Debug)]
pub struct BuildOptions {
    /// Rebuild even cells the stamp says are up to date.
    pub force: bool,
    /// Print the resolved invocations without running.
    pub dry_run: bool,
    /// `Some(i)` for the i-th clone.
    pub clone_index: Option<u32>,
}

impl Default for BuildOptions {
    fn default() -> (r: Self)
        ensures
            !r.force,
            !r.dry_run,
            r.clone_index is None,
    {
        BuildOptions { force: false, dry_run: false, clone_index: None }
    }
}

/// A user-facing build progress event.
#[derive(Debug)]
pub enum BuildProgress<'a> {
    /// A cell is about to be customized.
    Building { slug: &'a str },
    /// A cell finished; its artifact is at `artifact`.
    Built { slug: &'a str, artifact: &'a str, exit_code: i64 },
}

/// Wires a resolver and an executor into the build pipeline.
pub struct Orchestrator<E, R> {
    executor: E,
    resolver: R,
}

impl<E, R> Orchestrator<E, R> {
    pub closed spec fn executor_of(&self) -> E {
        self.executor
    }

    pub closed spec fn resolver_of(&self) -> R {
        self.resolver
    }

    pub fn new(executor: E, resolver: R) -> (r: Self)
        ensures
            r.executor_of() == executor,
            r.resolver_of() == resolver,
    {
        Orchestrator { executor, resolver }
    }

    /// The executor.
    pub fn executor(&self) -> (r: &E)
        ensures
            *r == self.executor_of(),
    {
        &self.executor
    }

    /// The resolver.
    pub fn resolver(&self) -> (r: &R)
        ensures
            *r == self.resolver_of(),
    {
        &self.resolver
    }
}

/// Whether a planned cell runs: stale cells always, up-to-date ones only when forced.
pub fn should_build(up_to_date: bool, options: &BuildOptions) -> (r: bool)
    ensures
        r == (!up_to_date || options.force),
{
    !up_to_date || options.force
}

/// The toolchain image of a real build: the container pinned to its digest.
pub fn pinned_image_ref(container: &str, digest: &str) -> (r: String)
    ensures
        r@ == container@ + seq!['@'] + digest@,
{
    let mut s = container.to_owned();
    push_char(&mut s, '@');
    push_str(&mut s, digest);
    s
}

/// The toolchain image of a dry run, which resolves no digests: the container at its tag.
pub fn tagged_image_ref(toolchain: &ToolchainEntry) -> (r: String)
    ensures
        r@ == toolchain.container@ + seq![':'] + effective_tag_text(*toolchain),
{
    let mut s = toolchain.container.clone();
    push_char(&mut s, ':');
    let tag = toolchain.effective_tag();
    push_str(&mut s, tag.as_str());
    s
}

/// The container platform of an architecture, `linux/<arch>`.
pub fn platform_of(arch: Arch) -> (r: String)
    ensures
        r@ == "linux/"@ + arch_text(arch),
{
    let mut s = "linux/".to_owned();
    push_str(&mut s, arch.as_str());
    s
}

} // verus!

verus! {

proof fn lemma_chosen_is_filter(cs: Seq<CellV>, s: SelectorV)
    ensures
        chosen_cells(cs, s) == cs.filter(|c: CellV| selects(s, c)),
    decreases cs.len(),
{
    reveal(Seq::filter);
    if cs.len() > 0 {
        lemma_chosen_is_filter(cs.drop_last(), s);
    }
}

/// A selection narrows a target's cells and never invents one: an empty selection yields every
/// cell; otherwise a successful selection yields, in order, exactly the cells the selector picks,
/// and at least one.
pub proof fn law_selection_filters_cells(t: Target, rcs: Seq<RenderedCell>, s: SelectorV)
    requires
        all_cells(t, rcs) is Ok,
    ensures
        s.groups.len() == 0 && s.cells.len() == 0 && s.arches.len() == 0
            ==> selection_of(t, rcs, s) == Ok::<Seq<CellV>, CoreFault>(all_cells(t, rcs)->Ok_0),
        !(s.groups.len() == 0 && s.cells.len() == 0 && s.arches.len() == 0) && selection_of(t, rcs, s) is Ok
            ==> selection_of(t, rcs, s)->Ok_0 == all_cells(t, rcs)->Ok_0.filter(|c: CellV| selects(s, c))
                && selection_of(t, rcs, s)->Ok_0.len() > 0,
        !(s.groups.len() == 0 && s.cells.len() == 0 && s.arches.len() == 0) ==> (
            (selection_of(t, rcs, s) matches Err(CoreFault::UnknownSelectorAxis { .. }))
                <==> exists|i: int| 0 <= i < group_axes(s.groups).len()
                    && !declared_names(all_cells(t, rcs)->Ok_0).contains(#[trigger] group_axes(s.groups)[i])),
        !(s.groups.len() == 0 && s.cells.len() == 0 && s.arches.len() == 0) ==> (
            (selection_of(t, rcs, s) matches Err(CoreFault::NoCellsSelected { .. }))
                <==> (forall|i: int| 0 <= i < group_axes(s.groups).len()
                    ==> declared_names(all_cells(t, rcs)->Ok_0).contains(#[trigger] group_axes(s.groups)[i]))
                    && all_cells(t, rcs)->Ok_0.filter(|c: CellV| selects(s, c)).len() == 0),
{
    lemma_chosen_is_filter(all_cells(t, rcs)->Ok_0, s);
    lemma_first_missing(group_axes(s.groups), declared_names(all_cells(t, rcs)->Ok_0));
}

/// `first_missing` finds a name exactly when some name is not declared.
proof fn lemma_first_missing(names: Seq<Seq<char>>, declared: Seq<Seq<char>>)
    ensures
        first_missing(names, declared) is Some <==> exists|i: int| 0 <= i < names.len() && !declared.contains(#[trigger] names[i]),
    decreases names.len(),
{
    if names.len() > 0 {
        lemma_first_missing(names.drop_first(), declared);
        if declared.contains(names[0]) {
            if exists|i: int| 0 <= i < names.len() && !declared.contains(#[trigger] names[i]) {
                let i = choose|i: int| 0 <= i < names.len() && !declared.contains(#[trigger] names[i]);
                assert(i > 0);
                assert(names.drop_first()[i - 1] == names[i]);
            }
            if exists|i: int| 0 <= i < names.drop_first().len() && !declared.contains(#[trigger] names.drop_first()[i]) {
                let i = choose|i: int| 0 <= i < names.drop_first().len() && !declared.contains(#[trigger] names.drop_first()[i]);
                assert(names[i + 1] == names.drop_first()[i]);
            }
        } else {
            assert(!declared.contains(names[0]));
        }
    }
}

proof fn lemma_arch_cells_layout(t: Target, rc: RenderedCell, rb: ResolvedBaseV, arches: Seq<Arch>)
    requires
        arch_cells(t, rc, rb, arches) is Ok,
    ensures
        arch_cells(t, rc, rb, arches)->Ok_0.len() == arches.len() * outputs_of(t, rc).len(),
        forall|a: int, o: int| 0 <= a < arches.len() && 0 <= o < outputs_of(t, rc).len()
            ==> #[trigger] arch_cells(t, rc, rb, arches)->Ok_0[a * outputs_of(t, rc).len() + o]
                == cell_of(t, rc, rb, arches[a], outputs_of(t, rc)[o]),
    decreases arches.len(),
{
    if arches.len() > 0 {
        let front = arches.drop_last();
        lemma_arch_cells_layout(t, rc, rb, front);
        let n = outputs_of(t, rc).len() as int;
        let prev = arch_cells(t, rc, rb, front)->Ok_0;
        let all = arch_cells(t, rc, rb, arches)->Ok_0;
        let last = arches.last();
        let added = outputs_of(t, rc).map_values(|o: OutputSpec| cell_of(t, rc, rb, last, o));
        assert(all == prev + added);
        assert(front.len() * n + n == arches.len() * n) by (nonlinear_arith)
            requires
                front.len() + 1 == arches.len(),
        ;
        assert forall|a: int, o: int| 0 <= a < arches.len() && 0 <= o < n
            implies #[trigger] all[a * n + o] == cell_of(t, rc, rb, arches[a], outputs_of(t, rc)[o]) by {
            if a < front.len() {
                assert(a * n + o < front.len() * n) by (nonlinear_arith)
                    requires
                        0 <= a < front.len(),
                        0 <= o < n,
                ;
                assert(0 <= a * n + o) by (nonlinear_arith)
                    requires
                        0 <= a,
                        0 <= o,
                        0 <= n,
                ;
                assert(front[a] == arches[a]);
                assert(all[a * n + o] == prev[a * n + o]);
            } else {
                assert(a * n == front.len() * n);
                assert(all[a * n + o] == added[o]);
            }
        }
    }
}

/// Every cell's axes pin `arch` to the cell's architecture: a matrix `arch` axis names it, and a
/// cell of a matrix without one gets `arch` added, so `-s arch=…` selects by architecture either way.
pub proof fn law_cells_pin_their_arch(t: Target, rcs: Seq<RenderedCell>)
    requires
        all_cells(t, rcs) is Ok,
    ensures
        forall|i: int| 0 <= i < all_cells(t, rcs)->Ok_0.len()
            ==> lookup(#[trigger] all_cells(t, rcs)->Ok_0[i].axes, "arch"@) == Some(arch_text(all_cells(t, rcs)->Ok_0[i].arch)),
    decreases rcs.len(),
{
    if rcs.len() > 0 {
        law_cells_pin_their_arch(t, rcs.drop_last());
        let prev = all_cells(t, rcs.drop_last())->Ok_0;
        let rc = rcs.last();
        let rb = resolved_base_of(t, rc.base.view())->Ok_0;
        let arches = arches_of(t, rc.tuple.view(), rb.2)->Ok_0;
        lemma_arches_pinned(t, rc.tuple.view(), rb.2);
        lemma_arch_cells_pin(t, rc, rb, arches);
        let mine = rendered_cell_cells(t, rc)->Ok_0;
        let all = all_cells(t, rcs)->Ok_0;
        assert(all == prev + mine);
        assert forall|i: int| 0 <= i < all.len()
            implies lookup(#[trigger] all[i].axes, "arch"@) == Some(arch_text(all[i].arch)) by {
            if i < prev.len() {
                assert(all[i] == prev[i]);
            } else {
                assert(all[i] == mine[i - prev.len()]);
            }
        }
    }
}

/// Looking a name up after appending an entry: the earlier entries win.
proof fn lemma_lookup_push(p: Point, e: (Seq<char>, Seq<char>), k: Seq<char>)
    ensures
        lookup(p.push(e), k) == if lookup(p, k) is Some { lookup(p, k) } else if e.0 == k { Some(e.1) } else { None::<Seq<char>> },
    decreases p.len(),
{
    if p.len() > 0 {
        assert(p.push(e).drop_first() =~= p.drop_first().push(e));
        assert(p.push(e)[0] == p[0]);
        lemma_lookup_push(p.drop_first(), e, k);
    } else {
        assert(p.push(e).drop_first() =~= Seq::<(Seq<char>, Seq<char>)>::empty());
        assert(p.push(e)[0] == e);
        assert(lookup(Seq::<(Seq<char>, Seq<char>)>::empty(), k) is None);
    }
}

/// Each architecture a rendered cell is built for gets axes that pin it.
proof fn lemma_arches_pinned(t: Target, tuple: Point, slot_arch: Option<Arch>)
    requires
        arches_of(t, tuple, slot_arch) is Ok,
    ensures
        forall|j: int| 0 <= j < arches_of(t, tuple, slot_arch)->Ok_0.len()
            ==> lookup(cell_axes_of(tuple, #[trigger] arches_of(t, tuple, slot_arch)->Ok_0[j]), "arch"@)
                == Some(arch_text(arches_of(t, tuple, slot_arch)->Ok_0[j])),
{
    let arches = arches_of(t, tuple, slot_arch)->Ok_0;
    assert forall|j: int| 0 <= j < arches.len()
        implies lookup(cell_axes_of(tuple, #[trigger] arches[j]), "arch"@) == Some(arch_text(arches[j])) by {
        match lookup(tuple, "arch"@) {
            Some(v) => {
                assert(arches[j] == arch_named(v)->0);
                reveal_strlit("amd64");
                reveal_strlit("arm64");
            },
            None => {
                lemma_lookup_push(tuple, ("arch"@, arch_text(arches[j])), "arch"@);
            },
        }
    }
}

proof fn lemma_arch_cells_pin(t: Target, rc: RenderedCell, rb: ResolvedBaseV, arches: Seq<Arch>)
    requires
        arch_cells(t, rc, rb, arches) is Ok,
        forall|j: int| 0 <= j < arches.len()
            ==> lookup(cell_axes_of(rc.tuple.view(), #[trigger] arches[j]), "arch"@) == Some(arch_text(arches[j])),
    ensures
        forall|i: int| 0 <= i < arch_cells(t, rc, rb, arches)->Ok_0.len()
            ==> lookup(#[trigger] arch_cells(t, rc, rb, arches)->Ok_0[i].axes, "arch"@)
                == Some(arch_text(arch_cells(t, rc, rb, arches)->Ok_0[i].arch)),
    decreases arches.len(),
{
    if arches.len() > 0 {
        let front = arches.drop_last();
        assert forall|j: int| 0 <= j < front.len()
            implies lookup(cell_axes_of(rc.tuple.view(), #[trigger] front[j]), "arch"@) == Some(arch_text(front[j])) by {
            assert(front[j] == arches[j]);
        }
        lemma_arch_cells_pin(t, rc, rb, front);
        let prev = arch_cells(t, rc, rb, front)->Ok_0;
        let a = arches.last();
        let added = outputs_of(t, rc).map_values(|o: OutputSpec| cell_of(t, rc, rb, a, o));
        let all = arch_cells(t, rc, rb, arches)->Ok_0;
        assert(all == prev + added);
        assert(lookup(cell_axes_of(rc.tuple.view(), arches[arches.len() - 1]), "arch"@) == Some(arch_text(arches[arches.len() - 1])));
        assert forall|i: int| 0 <= i < all.len()
            implies lookup(#[trigger] all[i].axes, "arch"@) == Some(arch_text(all[i].arch)) by {
            if i < prev.len() {
                assert(all[i] == prev[i]);
            } else {
                assert(all[i] == added[i - prev.len()]);
                assert(added[i - prev.len()].axes == cell_axes_of(rc.tuple.view(), a));
            }
        }
    }
}

/// One cell per architecture and output format: a rendered cell that expands without error yields
/// `arches × outputs` cells, the cell for the `a`-th architecture and `o`-th output at position
/// `a * outputs + o`.
pub proof fn law_one_cell_per_arch_and_output(t: Target, rc: RenderedCell)
    requires
        rendered_cell_cells(t, rc) is Ok,
    ensures
        ({
            let rb = resolved_base_of(t, rc.base.view())->Ok_0;
            let arches = arches_of(t, rc.tuple.view(), rb.2)->Ok_0;
            let outs = outputs_of(t, rc);
            &&& rendered_cell_cells(t, rc)->Ok_0.len() == arches.len() * outs.len()
            &&& forall|a: int, o: int| 0 <= a < arches.len() && 0 <= o < outs.len()
                ==> #[trigger] rendered_cell_cells(t, rc)->Ok_0[a * outs.len() + o] == cell_of(t, rc, rb, arches[a], outs[o])
        }),
{
    let rb = resolved_base_of(t, rc.base.view())->Ok_0;
    let arches = arches_of(t, rc.tuple.view(), rb.2)->Ok_0;
    lemma_arch_cells_layout(t, rc, rb, arches);
}

} // verus!
