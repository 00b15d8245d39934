use tailor::commands::{
    cell_arches, default_cosi, fill_template, select_images, target_architectures, target_default_outputs,
    validate_name,
};
use tailor::matrix::AxisTuple;
use tailor::render::RenderedCell;
use tailor::schema::{BaseSource, Defaults, OutputSpec};
use tailor::types::{Arch, OutputFormat};
use tailor::yaml::Yaml;

fn names(v: &[&str]) -> Vec<String> {
    v.iter().map(|s| (*s).to_owned()).collect()
}

#[test]
fn bare_names_are_accepted() {
    assert_eq!(validate_name("webserver"), Ok(()));
    assert_eq!(validate_name("a.b"), Ok(()));
}

#[test]
fn names_that_escape_their_directory_are_rejected() {
    for bad in ["", "a/b", "a\\b", ".hidden", "..", "/abs"] {
        assert_eq!(
            validate_name(bad),
            Err(format!("invalid name `{bad}`: use a bare name without path separators")),
            "{bad:?}"
        );
    }
}

#[test]
fn fill_template_replaces_every_token() {
    assert_eq!(
        fill_template("name: __IMAGE_NAME__\nhostname: __IMAGE_NAME__\n", "web"),
        "name: web\nhostname: web\n"
    );
    assert_eq!(fill_template("no token here", "web"), "no token here");
    assert_eq!(fill_template("__IMAGE_NAME____IMAGE_NAME__", "x"), "xx");
    assert_eq!(fill_template("__IMAGE_NAME_", "x"), "__IMAGE_NAME_");
}

#[test]
fn default_output_is_one_cosi() {
    let d = default_cosi();
    assert_eq!(d.len(), 1);
    assert_eq!(d[0].format, OutputFormat::Cosi);
    assert_eq!(d[0].cosi_compression_level, None);
    assert_eq!(d[0].name, None);
}

fn cell(pairs: &[(&str, &str)]) -> RenderedCell {
    RenderedCell {
        tuple: AxisTuple { values: pairs.iter().map(|(k, v)| ((*k).to_owned(), (*v).to_owned())).collect() },
        ic_config: Yaml::Null,
        base: BaseSource::Path { path: "./b.img".to_owned() },
        outputs: Vec::new(),
        rpm_sources: Vec::new(),
    }
}

#[test]
fn arch_axis_pins_the_cell_arch() {
    let all = vec![Arch::Amd64, Arch::Arm64];
    assert_eq!(cell_arches(&cell(&[("arch", "arm64")]), &all), vec![Arch::Arm64]);
    assert_eq!(cell_arches(&cell(&[("variant", "x")]), &all), all);
    assert_eq!(cell_arches(&cell(&[("arch", "riscv")]), &all), all);
}

#[test]
fn image_architectures_beat_workspace_defaults() {
    let defaults = Some(Defaults { architectures: Some(vec![Arch::Arm64]), outputs: None });
    assert_eq!(target_architectures(&Some(vec![Arch::Amd64]), &defaults), vec![Arch::Amd64]);
    assert_eq!(target_architectures(&None, &defaults), vec![Arch::Arm64]);
    assert_eq!(target_architectures(&None, &None), vec![Arch::Amd64]);
}

#[test]
fn workspace_outputs_or_cosi() {
    let defaults = Some(Defaults {
        architectures: None,
        outputs: Some(vec![OutputSpec { format: OutputFormat::Vhdx, cosi_compression_level: None, name: None }]),
    });
    assert_eq!(target_default_outputs(&defaults)[0].format, OutputFormat::Vhdx);
    assert_eq!(target_default_outputs(&None)[0].format, OutputFormat::Cosi);
}

#[test]
fn no_names_selects_every_image() {
    assert_eq!(select_images(&Vec::new(), &names(&["a", "b"]), &vec![false, false]), Ok(vec![0, 1]));
}

#[test]
fn names_select_in_discovery_order() {
    assert_eq!(select_images(&names(&["b", "zz"]), &names(&["a", "b", "c"]), &vec![false, false, false]), Ok(vec![1]));
}

#[test]
fn unmatched_names_are_an_error() {
    assert_eq!(
        select_images(&names(&["x", "y"]), &names(&["a"]), &vec![false]),
        Err("no matching images: x, y".to_owned())
    );
}

#[test]
fn bulk_selection_skips_a_skip_image() {
    assert_eq!(select_images(&Vec::new(), &names(&["gadget", "exp"]), &vec![false, true]), Ok(vec![0]));
    assert_eq!(select_images(&Vec::new(), &names(&["exp"]), &vec![true]), Ok(vec![]));
}

#[test]
fn naming_a_skip_image_builds_it() {
    assert_eq!(select_images(&names(&["exp"]), &names(&["gadget", "exp"]), &vec![false, true]), Ok(vec![1]));
    assert_eq!(
        select_images(&names(&["nope"]), &names(&["gadget", "exp"]), &vec![false, true]),
        Err("no matching images: nope".to_owned())
    );
}
