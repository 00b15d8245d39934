use tailor::error::CoreError;
use tailor::matrix::AxisTuple;
use tailor::orchestrator::{artifact_name, cells, cells_selected, BaseImageSlot, Target};
use tailor::render::RenderedCell;
use tailor::schema::{BaseSource, OciBase, OutputSpec};
use tailor::selector::Selector;
use tailor::types::{Arch, OutputFormat};
use tailor::yaml::Yaml;

fn s(x: &str) -> String {
    x.to_owned()
}

fn hostname(name: &str) -> Yaml {
    Yaml::Mapping(vec![(
        Yaml::Str(s("os")),
        Yaml::Mapping(vec![(Yaml::Str(s("hostname")), Yaml::Str(s(name)))]),
    )])
}

fn cosi() -> OutputSpec {
    OutputSpec { format: OutputFormat::Cosi, cosi_compression_level: None, name: None }
}

fn tuple(pairs: &[(&str, &str)]) -> AxisTuple {
    AxisTuple { values: pairs.iter().map(|(k, v)| (s(k), s(v))).collect() }
}

fn path_base(p: &str) -> BaseSource {
    BaseSource::Path { path: s(p) }
}

fn rendered(t: AxisTuple, base: BaseSource, outputs: Vec<OutputSpec>, host: &str) -> RenderedCell {
    RenderedCell { tuple: t, ic_config: hostname(host), base, outputs, rpm_sources: Vec::new() }
}

fn target(name: &str, arches: Vec<Arch>, default_outputs: Vec<OutputSpec>, catalogue: Vec<(String, BaseImageSlot)>) -> Target {
    Target {
        name: s(name),
        toolchain: None,
        operation: None,
        dir: s("/work/img"),
        architectures: arches,
        default_outputs,
        root: s("/work"),
        base_images: catalogue,
    }
}

/// The `mini` image: edition [lite, pro] × arch [amd64, arm64], one cosi output, a path base.
fn mini() -> (Target, Vec<RenderedCell>) {
    let mut rendered_cells = Vec::new();
    for edition in ["lite", "pro"] {
        for arch in ["amd64", "arm64"] {
            rendered_cells.push(rendered(
                tuple(&[("edition", edition), ("arch", arch)]),
                path_base("./b.img"),
                vec![cosi()],
                "mini",
            ));
        }
    }
    (target("mini", vec![Arch::Amd64, Arch::Arm64], Vec::new(), Vec::new()), rendered_cells)
}

fn select(entries: &[&str]) -> Selector {
    Selector::parse(&entries.iter().map(|e| s(e)).collect(), &Vec::new(), &Vec::new()).unwrap()
}

fn solo(t: AxisTuple, base: BaseSource, arches: Vec<Arch>, catalogue: Vec<(String, BaseImageSlot)>) -> (Target, Vec<RenderedCell>) {
    (target("solo", arches, vec![cosi()], catalogue), vec![rendered(t, base, Vec::new(), "solo")])
}

fn oci(platform: &str) -> BaseSource {
    BaseSource::Oci { oci: OciBase { uri: s("registry.example/base:edge"), platform: Some(s(platform)) } }
}

fn slot(arch: Option<Arch>) -> BaseImageSlot {
    BaseImageSlot { path: s("bases/baremetal.vhdx"), arch, source: None }
}

fn slot_ref() -> BaseSource {
    BaseSource::Ref { reference: s("baremetal") }
}

#[test]
fn mini_target_expands_to_one_cell_per_point() {
    let (t, r) = mini();
    let all = cells(&t, &r).unwrap();
    assert_eq!(all.len(), 4);
    let slugs: Vec<&str> = all.iter().map(|c| c.slug.as_str()).collect();
    assert_eq!(slugs, vec!["mini_lite_amd64_cosi", "mini_lite_arm64_cosi", "mini_pro_amd64_cosi", "mini_pro_arm64_cosi"]);
}

#[test]
fn cells_selected_narrows_to_a_slice_and_a_single_cell() {
    let (t, r) = mini();
    assert_eq!(cells_selected(&t, &r, &select(&["arch=amd64"])).unwrap().len(), 2);

    let selected = cells_selected(&t, &r, &select(&["edition=lite,arch=amd64"])).unwrap();
    assert_eq!(selected.len(), 1);
    assert_eq!(selected[0].slug.as_str(), "mini_lite_amd64_cosi");
}

#[test]
fn cells_selected_rejects_unknown_axis_and_empty_selection() {
    let (t, r) = mini();
    assert!(matches!(
        cells_selected(&t, &r, &select(&["distro=fedora"])).unwrap_err(),
        CoreError::UnknownSelectorAxis { .. }
    ));
    assert!(matches!(
        cells_selected(&t, &r, &select(&["edition=does-not-exist"])).unwrap_err(),
        CoreError::NoCellsSelected { .. }
    ));
}

#[test]
fn defaults_to_amd64_with_no_arch_axis_and_no_architectures() {
    let (t, r) = solo(tuple(&[]), path_base("./b.img"), Vec::new(), Vec::new());
    let all = cells(&t, &r).unwrap();
    assert_eq!(all.len(), 1);
    assert_eq!(all[0].arch, Arch::Amd64);
    assert_eq!(all[0].slug.as_str(), "solo_amd64_cosi");
}

#[test]
fn workspace_architectures_override_default() {
    let (t, r) = solo(tuple(&[]), path_base("./b.img"), vec![Arch::Arm64], Vec::new());
    let all = cells(&t, &r).unwrap();
    assert_eq!(all.len(), 1);
    assert_eq!(all[0].arch, Arch::Arm64);
}

#[test]
fn arch_axis_drives_one_cell_per_value() {
    let (t, _) = solo(tuple(&[]), path_base("./b.img"), Vec::new(), Vec::new());
    let r = vec![
        rendered(tuple(&[("arch", "amd64")]), path_base("./b.img"), Vec::new(), "solo"),
        rendered(tuple(&[("arch", "arm64")]), path_base("./b.img"), Vec::new(), "solo"),
    ];
    let mut arches: Vec<Arch> = cells(&t, &r).unwrap().iter().map(|c| c.arch).collect();
    arches.sort_unstable();
    assert_eq!(arches, vec![Arch::Amd64, Arch::Arm64]);
}

#[test]
fn oci_platform_mismatch_is_an_error() {
    let (t, r) = solo(tuple(&[]), oci("linux/arm64"), Vec::new(), Vec::new());
    assert!(matches!(cells(&t, &r).unwrap_err(), CoreError::PlatformArchMismatch { .. }));
}

#[test]
fn oci_platform_matching_arch_is_accepted() {
    let (t, r) = solo(tuple(&[]), oci("linux/amd64"), Vec::new(), Vec::new());
    assert_eq!(cells(&t, &r).unwrap()[0].arch, Arch::Amd64);
}

#[test]
fn oci_platform_matches_declared_arch_axis() {
    // The base platform `linux/${arch}` renders to the cell's own arch.
    let (t, r) = solo(tuple(&[("arch", "arm64")]), oci("linux/arm64"), Vec::new(), Vec::new());
    assert_eq!(cells(&t, &r).unwrap()[0].arch, Arch::Arm64);
}

#[test]
fn base_image_resolves_to_root_relative_path_and_exposes_name() {
    let cat = vec![(s("baremetal"), slot(Some(Arch::Amd64)))];
    let (t, r) = solo(tuple(&[]), slot_ref(), vec![Arch::Amd64], cat);
    let all = cells(&t, &r).unwrap();
    assert_eq!(all[0].base_image.as_deref(), Some("baremetal"));
    let BaseSource::Path { path } = &all[0].base else {
        panic!("slot did not collapse to a path base: {:?}", all[0].base);
    };
    assert_eq!(path, "/work/bases/baremetal.vhdx");
}

#[test]
fn slot_arch_supplies_cell_arch_when_image_declares_none() {
    let cat = vec![(s("baremetal"), slot(Some(Arch::Arm64)))];
    let (t, r) = solo(tuple(&[]), slot_ref(), vec![Arch::Amd64], cat);
    assert_eq!(cells(&t, &r).unwrap()[0].arch, Arch::Arm64);
}

#[test]
fn slot_arch_conflict_with_axis_is_an_error() {
    let cat = vec![(s("baremetal"), slot(Some(Arch::Arm64)))];
    let (t, r) = solo(tuple(&[("arch", "amd64")]), slot_ref(), Vec::new(), cat);
    assert!(
        matches!(cells(&t, &r).unwrap_err(), CoreError::BaseImageArchMismatch { .. }),
        "expected arch mismatch"
    );
}

#[test]
fn unknown_base_image_name_is_a_config_error() {
    let cat = vec![(s("other"), slot(None))];
    let (t, r) = solo(tuple(&[]), slot_ref(), vec![Arch::Amd64], cat);
    assert!(
        matches!(cells(&t, &r).unwrap_err(), CoreError::UnknownBaseImage { .. }),
        "expected unknown base image"
    );
}

#[test]
fn sourceless_slot_arch_unset_defaults_to_amd64() {
    let cat = vec![(s("baremetal"), slot(None))];
    let (t, r) = solo(tuple(&[]), slot_ref(), vec![Arch::Amd64], cat);
    assert_eq!(cells(&t, &r).unwrap()[0].arch, Arch::Amd64);
}

#[test]
fn unknown_base_image_lists_known_slots() {
    let cat = vec![(s("alpha"), slot(None)), (s("beta"), slot(None))];
    let (t, r) = solo(tuple(&[]), slot_ref(), vec![Arch::Amd64], cat);
    match cells(&t, &r).unwrap_err() {
        CoreError::UnknownBaseImage { image, name, known } => {
            assert_eq!(image, "solo");
            assert_eq!(name, "baremetal");
            assert_eq!(known, "alpha, beta");
        }
        other => panic!("unexpected error {other:?}"),
    }
}

#[test]
fn artifact_names_carry_the_format_extension() {
    assert_eq!(artifact_name("mini_lite_amd64_cosi", OutputFormat::Cosi), "mini_lite_amd64_cosi.cosi");
    assert_eq!(artifact_name("x_vhd-fixed", OutputFormat::VhdFixed), "x_vhd-fixed.vhd");
}
