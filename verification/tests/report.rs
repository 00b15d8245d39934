use indexmap::IndexMap;
use tailor::matrix::Matrix;
use tailor::report::{image_cell_count, list_text, show_text, validate_line};
use tailor::schema::{OutputSpec, SemVer, ToolConfig, ToolchainEntry, Toolchains};
use tailor::types::OutputFormat;

fn trident() -> Matrix {
    let mut axes = IndexMap::new();
    axes.insert("variant".to_owned(), vec!["grub".to_owned(), "root-verity".to_owned(), "usr-verity".to_owned(), "vm-img".to_owned()]);
    axes.insert("arch".to_owned(), vec!["amd64".to_owned()]);
    axes.insert("release".to_owned(), vec!["3.0".to_owned(), "4.0".to_owned()]);
    axes.insert("phase".to_owned(), vec!["base".to_owned(), "update".to_owned()]);
    Matrix { includes: Vec::new(), exclude: Vec::new(), axes }
}

#[test]
fn cell_count_follows_the_matrix() {
    assert_eq!(image_cell_count(None), 1);
    assert_eq!(image_cell_count(Some(&trident())), 16);
    let mut empty = trident();
    empty.axes.insert("broken".to_owned(), Vec::new());
    assert_eq!(image_cell_count(Some(&empty)), 0);
}

#[test]
fn show_lists_the_dimensions_and_their_values() {
    let outputs = vec![OutputSpec { format: OutputFormat::Cosi, cosi_compression_level: None, name: None }];
    let text = show_text("trident-vm-testimage", "/w/trident", Some(&trident()), &outputs, &vec!["pcrlock".to_owned()]);
    assert_eq!(
        text,
        "name:    trident-vm-testimage\n\
         dir:     /w/trident\n\
         matrix:  16 cell(s) across 4 axis(es)\n\
         \x20 variant : grub, root-verity, usr-verity, vm-img\n\
         \x20 arch    : amd64\n\
         \x20 release : 3.0, 4.0\n\
         \x20 phase   : base, update\n\
         outputs: cosi\n\
         features: pcrlock\n"
    );
    assert!(text.contains("16 cell(s) across 4 axis(es)"));
    assert!(text.contains("grub, root-verity, usr-verity, vm-img"));
    assert!(text.contains("3.0, 4.0"));
}

#[test]
fn show_without_a_matrix_says_single_cell() {
    let text = show_text("solo", "/w/solo", None, &Vec::new(), &Vec::new());
    assert_eq!(text, "name:    solo\ndir:     /w/solo\nmatrix:  none (single cell)\n");
}

#[test]
fn show_counts_exclude_rules() {
    let mut m = trident();
    let mut sel = IndexMap::new();
    sel.insert("phase".to_owned(), "update".to_owned());
    m.exclude.push(sel);
    let text = show_text("t", "/d", Some(&m), &Vec::new(), &Vec::new());
    assert!(text.contains("matrix:  8 cell(s) across 4 axis(es)\n"));
    assert!(text.ends_with("  (1 exclude rule(s))\n"));
}

#[test]
fn list_pads_names_and_lists_toolchains() {
    let tool = ToolConfig {
        schema_version: 1,
        toolchains: Toolchains {
            default: "ic".to_owned(),
            entries: vec![(
                "ic".to_owned(),
                ToolchainEntry {
                    container: "mcr.microsoft.com/azurelinux/imagecustomizer".to_owned(),
                    version: Some(SemVer { major: 1, minor: 3, patch: 0, pre: String::new(), build: String::new() }),
                    tag: None,
                },
            )],
        },
        runtime: None,
        defaults: None,
    };
    let text = list_text(&vec![("webserver".to_owned(), 1, false), ("database".to_owned(), 4, false)], Some(&tool));
    assert_eq!(
        text,
        format!(
            "Images:\n  {:<28} 1 cell(s)\n  {:<28} 4 cell(s)\n\nToolchains (default: ic):\n  {:<10} mcr.microsoft.com/azurelinux/imagecustomizer:1.3.0\n",
            "webserver", "database", "ic"
        )
    );
    assert_eq!(list_text(&Vec::new(), None), "Images:\n");
}

#[test]
fn list_marks_a_skip_image() {
    let text = list_text(&vec![("gadget".to_owned(), 4, false), ("exp".to_owned(), 1, true)], None);
    assert_eq!(text, format!("Images:\n  {:<28} 4 cell(s)\n  {:<28} 1 cell(s) (skip)\n", "gadget", "exp"));
    assert!(text.contains("exp") && text.contains("(skip)"));
}

#[test]
fn validate_line_reports_the_cell_count() {
    assert_eq!(validate_line("trident-vm-testimage", 16), format!("✓ {:<28} 16 cell(s) valid", "trident-vm-testimage"));
    let long = "x".repeat(40);
    assert_eq!(validate_line(&long, 8), format!("✓ {long} 8 cell(s) valid"));
}
