use tailor::arg_builder::{build_ic_args, host_root_bind, DEV_BIND};
use tailor::fingerprint::{fingerprint, FingerprintInputs};
use tailor::orchestrator::{BuildOptions, Cell};
use tailor::planning::{
    cells_to_build, dry_run_context, execution_context, ic_container, plan_cell, stamp_path, stamp_records, stamp_text,
    PlannedCell,
};
use tailor::ports::{ExecutionContext, ResolvedBase, RuntimeConfig};
use tailor::schema::{BaseSource, OutputSpec};
use tailor::types::{Arch, Operation, OutputFormat};
use tailor::yaml::Yaml;

fn cell(slug: &str) -> Cell {
    Cell {
        image: "img".to_owned(),
        image_dir: "/w/img".to_owned(),
        operation: None,
        axes: Vec::new(),
        arch: Arch::Arm64,
        output: OutputSpec { format: OutputFormat::Cosi, cosi_compression_level: None, name: None },
        slug: slug.to_owned(),
        ic_config: Yaml::Null,
        base: BaseSource::Path { path: "b.img".to_owned() },
        base_image: None,
        rpm_sources: Vec::new(),
    }
}

fn oci() -> ResolvedBase {
    ResolvedBase::Oci {
        reference: "mcr.microsoft.com/azurelinux/base/core:3.0".to_owned(),
        platform: "linux/arm64".to_owned(),
        digest: "sha256:feed".to_owned(),
    }
}

fn expected_fingerprint(slug: &str, base: &ResolvedBase) -> [u8; 32] {
    fingerprint(&FingerprintInputs {
        slug,
        toolchain_digest: "sha256:ic",
        base,
        config: b"os: {}\n",
        operation: Operation::Customize,
        inject_files: false,
        extra_dependency_hashes: &[],
        rpm_source_hashes: &[],
    })
    .0
}

fn planned(slug: &str, stamp: Option<&str>, artifact_exists: bool) -> PlannedCell {
    plan_cell(cell(slug), "sha256:ic", "ic@sha256:ic".to_owned(), &oci(), b"os: {}\n", false, stamp, artifact_exists)
}

#[test]
fn plans_all_cells_as_stale() {
    let p = planned("img_arm64_cosi", None, false);
    assert!(!p.up_to_date);
    assert_eq!(p.fingerprint.0, expected_fingerprint("img_arm64_cosi", &oci()));
    assert_eq!(p.base_ref.as_deref(), Some("oci:mcr.microsoft.com/azurelinux/base/core@sha256:feed"));
    assert_eq!(p.ic_image_ref, "ic@sha256:ic");
}

#[test]
fn a_matching_stamp_and_artifact_make_a_cell_current() {
    let fresh = planned("img_arm64_cosi", None, true);
    let stamp = stamp_text(&fresh.fingerprint);
    assert_eq!(stamp.len(), 65);
    assert!(stamp.ends_with('\n'));
    assert!(planned("img_arm64_cosi", Some(&stamp), true).up_to_date);
    // Without the artifact, or with a stamp for other inputs, the cell is stale.
    assert!(!planned("img_arm64_cosi", Some(&stamp), false).up_to_date);
    let other = stamp_text(&planned("other_slug", None, true).fingerprint);
    assert!(!planned("img_arm64_cosi", Some(&other), true).up_to_date);
}

#[test]
fn stamps_read_back_without_their_line_break_but_not_in_another_case() {
    let p = planned("img_arm64_cosi", None, true);
    let text = stamp_text(&p.fingerprint);
    assert!(stamp_records(Some(text.trim_end()), &p.fingerprint));
    assert!(stamp_records(Some(&format!("{}\r\n", text.trim_end())), &p.fingerprint));
    assert!(!stamp_records(Some(&text.to_uppercase()), &p.fingerprint));
    assert!(!stamp_records(None, &p.fingerprint));
}

#[test]
fn stamp_lives_beside_the_artifact() {
    assert_eq!(stamp_path("/out", "img_arm64_cosi"), "/out/img_arm64_cosi.stamp");
    assert_eq!(stamp_path("/out/", "x"), "/out/x.stamp");
}

#[test]
fn build_executes_stale_cells_and_skips_current_ones_unless_forced() {
    let fresh = planned("a", None, true);
    let stamp = stamp_text(&fresh.fingerprint);
    let plan = vec![planned("a", Some(&stamp), true), planned("b", None, false), planned("c", None, true)];
    let normal = BuildOptions { force: false, dry_run: false, clone_index: None };
    assert_eq!(cells_to_build(&plan, &normal), vec![1, 2]);
    let forced = BuildOptions { force: true, dry_run: false, clone_index: None };
    assert_eq!(cells_to_build(&plan, &forced), vec![0, 1, 2]);
}

#[test]
fn execution_context_pins_the_planned_references() {
    let p = planned("img_arm64_cosi", None, false);
    let options = BuildOptions { force: false, dry_run: false, clone_index: Some(3) };
    let ctx = execution_context(&p, "/out", &options, RuntimeConfig::default());
    assert_eq!(ctx.output_dir, "/out");
    assert_eq!(ctx.ic_image_ref, "ic@sha256:ic");
    assert_eq!(ctx.base_ref.as_deref(), Some("oci:mcr.microsoft.com/azurelinux/base/core@sha256:feed"));
    assert_eq!(ctx.platform, "linux/arm64");
    assert_eq!(ctx.clone_index, Some(3));
    assert!(!ctx.dry_run);
}

#[test]
fn dry_run_renders_every_cell_without_resolution() {
    let ctx = dry_run_context(&cell("x"), "/out", "ic:1.0.0", RuntimeConfig::default());
    assert_eq!(ctx.ic_image_ref, "ic:1.0.0");
    assert_eq!(ctx.base_ref, None);
    assert_eq!(ctx.platform, "linux/arm64");
    assert_eq!(ctx.clone_index, None);
    assert!(ctx.dry_run);
}

#[test]
fn the_ic_container_carries_the_cell_invocation() {
    let c = cell("img_arm64_cosi");
    let ctx = ExecutionContext {
        output_dir: "/out".to_owned(),
        ic_image_ref: "ic@sha256:ic".to_owned(),
        base_ref: None,
        platform: "linux/arm64".to_owned(),
        clone_index: Some(2),
        dry_run: false,
        runtime: RuntimeConfig::default(),
    };
    let container = ic_container(&c, &ctx, 42);
    assert_eq!(container.image_ref, "ic@sha256:ic");
    assert_eq!(container.platform, "linux/arm64");
    assert_eq!(container.name, "tailor-ic-img_arm64_cosi_clone2-42");
    assert_eq!(container.args, build_ic_args(&c, &ctx));
    assert_eq!(container.binds, vec![host_root_bind(&ctx.runtime), DEV_BIND.to_owned()]);
    assert_eq!(container.privileged, ctx.runtime.privileged);
}
