use indexmap::IndexMap;
use tailor::error::ConfigError;
use tailor::matrix::{cell_slug, expand, AxisTuple, Matrix};
use tailor::types::OutputFormat;

fn axes(pairs: &[(&str, &[&str])]) -> IndexMap<String, Vec<String>> {
    pairs
        .iter()
        .map(|(k, vs)| ((*k).to_owned(), vs.iter().map(|v| (*v).to_owned()).collect()))
        .collect()
}

fn selector(pairs: &[(&str, &str)]) -> IndexMap<String, String> {
    pairs
        .iter()
        .map(|(k, v)| ((*k).to_owned(), (*v).to_owned()))
        .collect()
}

fn matrix(
    axis_pairs: &[(&str, &[&str])],
    includes: Vec<IndexMap<String, String>>,
    exclude: Vec<IndexMap<String, String>>,
) -> Matrix {
    Matrix {
        includes,
        exclude,
        axes: axes(axis_pairs),
    }
}

#[test]
fn cartesian_product_preserves_declared_order() {
    let m = matrix(
        &[("variant", &["grub", "root-verity"]), ("arch", &["amd64", "arm64"])],
        Vec::new(),
        Vec::new(),
    );
    let cells = expand(&m).unwrap();
    let coords: Vec<_> = cells.iter().map(AxisTuple::coordinate).collect();
    assert_eq!(
        coords,
        [
            "grub_amd64",
            "grub_arm64",
            "root-verity_amd64",
            "root-verity_arm64"
        ]
    );
}

#[test]
fn slug_is_image_axes_format() {
    let m = matrix(
        &[
            ("variant", &["grub"]),
            ("arch", &["amd64"]),
            ("release", &["4.0"]),
            ("phase", &["base"]),
        ],
        Vec::new(),
        Vec::new(),
    );
    let cells = expand(&m).unwrap();
    assert_eq!(
        cell_slug("trident-vm-testimage", &cells[0], OutputFormat::Cosi),
        "trident-vm-testimage_grub_amd64_4.0_base_cosi"
    );
}

#[test]
fn exclude_drops_matching_cells() {
    let m = matrix(
        &[("variant", &["grub", "usr-verity"]), ("release", &["3.0", "4.0"])],
        Vec::new(),
        vec![selector(&[("variant", "usr-verity"), ("release", "3.0")])],
    );
    let cells = expand(&m).unwrap();
    assert_eq!(cells.len(), 3);
    assert!(!cells
        .iter()
        .any(|c| c.get("variant") == Some("usr-verity") && c.get("release") == Some("3.0")));
}

#[test]
fn include_readds_a_full_declared_cell() {
    let m = matrix(
        &[("variant", &["grub", "usr-verity"]), ("release", &["3.0", "4.0"])],
        vec![selector(&[("variant", "usr-verity"), ("release", "3.0")])],
        vec![selector(&[("variant", "usr-verity"), ("release", "3.0")])],
    );
    assert_eq!(expand(&m).unwrap().len(), 4);
}

#[test]
fn empty_axis_is_an_error() {
    let m = matrix(&[("variant", &[])], Vec::new(), Vec::new());
    let err = expand(&m).unwrap_err();
    assert!(matches!(err, ConfigError::EmptyAxis { .. }), "got {err:?}");
}

#[test]
fn selector_with_undeclared_value_is_an_error() {
    let m = matrix(
        &[("variant", &["grub"])],
        Vec::new(),
        vec![selector(&[("variant", "nope")])],
    );
    let err = expand(&m).unwrap_err();
    assert!(
        matches!(err, ConfigError::SelectorUnknownValue { .. }),
        "got {err:?}"
    );
}

#[test]
fn selector_with_undeclared_axis_names_it() {
    let m = matrix(
        &[("variant", &["grub"])],
        Vec::new(),
        vec![selector(&[("distro", "x")])],
    );
    match expand(&m).unwrap_err() {
        ConfigError::SelectorUnknownAxis { selector, axis } => {
            assert_eq!(selector, "exclude");
            assert_eq!(axis, "distro");
        }
        other => panic!("got {other:?}"),
    }
}

#[test]
fn partial_inclusion_selector_is_incomplete() {
    let m = matrix(
        &[("variant", &["grub"]), ("arch", &["amd64"])],
        vec![selector(&[("variant", "grub")])],
        Vec::new(),
    );
    assert!(matches!(
        expand(&m).unwrap_err(),
        ConfigError::IncludeIncomplete { .. }
    ));
}

#[test]
fn no_axes_is_one_empty_cell() {
    let m = matrix(&[], Vec::new(), Vec::new());
    let cells = expand(&m).unwrap();
    assert_eq!(cells.len(), 1);
    assert_eq!(cells[0].coordinate(), "");
}

#[test]
fn get_finds_the_pinned_value() {
    let t = AxisTuple {
        values: vec![
            ("arch".to_owned(), "amd64".to_owned()),
            ("edition".to_owned(), "lite".to_owned()),
        ],
    };
    assert_eq!(t.get("edition"), Some("lite"));
    assert_eq!(t.get("release"), None);
    assert_eq!(t.coordinate(), "amd64_lite");
}
