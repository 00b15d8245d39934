use indexmap::IndexMap;
use tailor::arg_builder::{group_tokens, log_file_path, working_copy_path};
use tailor::error::{ConfigError, CoreError, ExecError, ResolveError};
use tailor::executor::{container_name, farm_name};
use tailor::fragment::{plan_fragments, Predicate};
use tailor::guard::ensure_safe_rw_target;
use tailor::matrix::{AxisTuple, Matrix};
use tailor::orchestrator::{cells, BaseImageSlot, Cell, Target};
use tailor::paths::{absolutize, normalize};
use tailor::ports::{ExecutionContext, RuntimeConfig};
use tailor::reference::{has_tag_or_digest, oci_repository, toolchain_reference};
use tailor::render::{merge_config, RenderedCell};
use tailor::schema::{BaseSource, OutputSpec, ToolchainEntry};
use tailor::types::{Arch, OutputFormat};
use tailor::yaml::Yaml;

fn out(format: OutputFormat) -> OutputSpec {
    OutputSpec { format, cosi_compression_level: None, name: None }
}

#[test]
fn one_cell_per_arch_and_output_in_arch_major_order() {
    let target = Target {
        name: "img".to_owned(),
        toolchain: None,
        operation: None,
        dir: "/w/img".to_owned(),
        architectures: vec![Arch::Amd64, Arch::Arm64],
        default_outputs: Vec::new(),
        root: "/w".to_owned(),
        base_images: Vec::<(String, BaseImageSlot)>::new(),
    };
    let rendered = vec![RenderedCell {
        tuple: AxisTuple { values: Vec::new() },
        ic_config: Yaml::Null,
        base: BaseSource::Path { path: "b.img".to_owned() },
        outputs: vec![out(OutputFormat::Cosi), out(OutputFormat::Vhdx)],
        rpm_sources: Vec::new(),
    }];
    let all = cells(&target, &rendered).unwrap();
    let slugs: Vec<&str> = all.iter().map(|c| c.slug.as_str()).collect();
    assert_eq!(slugs, vec!["img_amd64_cosi", "img_amd64_vhdx", "img_arm64_cosi", "img_arm64_vhdx"]);
}

#[test]
fn normalizing_twice_changes_nothing() {
    for p in ["/a/./b/../c//d/", "x/../../y", "/..", "", ".", "a/b/.."] {
        let once = normalize(p);
        assert_eq!(normalize(&once), once, "{p:?}");
    }
}

#[test]
fn absolutized_paths_are_clean() {
    assert_eq!(absolutize("../x/./y", "/a/b"), "/a/x/y");
    let p = absolutize("./../../../z", "/a");
    assert_eq!(p, "/z");
    assert_eq!(normalize(&p), p);
}

#[test]
fn repositories_carry_no_tag_or_digest() {
    for r in ["repo", "repo:tag", "host:5000/repo:tag@sha256:x", "a/b/c:1", "h:1/r"] {
        assert!(!has_tag_or_digest(&oci_repository(r)), "{r}");
    }
}

#[test]
fn toolchain_references_are_always_pinned() {
    for (container, tag) in [("repo", None), ("host:5000/repo", Some("v1")), ("r@sha256:x", None)] {
        let entry = ToolchainEntry { container: container.to_owned(), version: None, tag: tag.map(str::to_owned) };
        assert!(has_tag_or_digest(&toolchain_reference(&entry)), "{container}");
    }
}

#[test]
fn grouping_keeps_every_token_in_order() {
    let tokens: Vec<String> = ["--a", "1", "b", "--c", "--d", "2", "e"].iter().map(|s| (*s).to_owned()).collect();
    let lines = group_tokens(&tokens, 0);
    assert_eq!(lines, vec!["--a 1", "b", "--c", "--d 2", "e"]);
    assert_eq!(lines.join(" "), tokens.join(" "));
}

#[test]
fn root_working_dir_and_parent_are_refused() {
    let cwd = "/home/me/project";
    for p in ["/", ".", "..", cwd] {
        assert!(matches!(ensure_safe_rw_target(p, cwd), Err(ExecError::UnsafeDir { .. })), "{p}");
    }
    assert!(ensure_safe_rw_target("out", cwd).is_ok());
}

#[test]
fn fragments_follow_axis_declaration_order() {
    let mut axes = IndexMap::new();
    axes.insert("zz".to_owned(), vec!["x".to_owned()]);
    axes.insert("aa".to_owned(), vec!["x".to_owned()]);
    let matrix = Matrix { includes: Vec::new(), exclude: Vec::new(), axes };
    let listing = vec![
        ("by-aa".to_owned(), vec!["x.yaml".to_owned()]),
        ("by-zz".to_owned(), vec!["x.yaml".to_owned()]),
    ];
    let plan = plan_fragments(&listing, Some(&matrix), &Vec::new()).unwrap();
    let labels: Vec<&str> = plan.iter().map(|p| p.label.as_str()).collect();
    assert_eq!(labels, vec!["by-zz/x.yaml", "by-aa/x.yaml"]);
    assert!(matches!(&plan[0].predicate, Predicate::Axis { axis, .. } if axis == "zz"));
}

fn set_hostname(value: &str) -> Yaml {
    let set = Yaml::Mapping(vec![(Yaml::Str("$set".to_owned()), Yaml::Str(value.to_owned()))]);
    let os = Yaml::Mapping(vec![(Yaml::Str("hostname".to_owned()), set)]);
    Yaml::Mapping(vec![(Yaml::Str("os".to_owned()), os)])
}

fn rendered_hostname(first_axis: &str, second_axis: &str) -> String {
    let mut axes = IndexMap::new();
    axes.insert(first_axis.to_owned(), vec!["x".to_owned()]);
    axes.insert(second_axis.to_owned(), vec!["x".to_owned()]);
    let matrix = Matrix { includes: Vec::new(), exclude: Vec::new(), axes };
    let listing = vec![
        ("by-aa".to_owned(), vec!["x.yaml".to_owned()]),
        ("by-zz".to_owned(), vec!["x.yaml".to_owned()]),
    ];
    let plan = plan_fragments(&listing, Some(&matrix), &Vec::new()).unwrap();
    let base = Yaml::Mapping(vec![(
        Yaml::Str("os".to_owned()),
        Yaml::Mapping(vec![(Yaml::Str("hostname".to_owned()), Yaml::Str("from-base".to_owned()))]),
    )]);
    let mut deltas = vec![("image.yaml".to_owned(), base)];
    for planned in &plan {
        let value = if planned.label.starts_with("by-aa") { "from-aa" } else { "from-zz" };
        deltas.push((planned.label.clone(), set_hostname(value)));
    }
    let merged = merge_config(deltas, &"ord_cosi".to_owned()).unwrap();
    let os = merged.iter().find(|(k, _)| matches!(k, Yaml::Str(s) if s == "os")).unwrap();
    match &os.1 {
        Yaml::Mapping(entries) => match &entries[0].1 {
            Yaml::Str(s) => s.clone(),
            other => panic!("hostname is not a string: {other:?}"),
        },
        other => panic!("os is not a mapping: {other:?}"),
    }
}

#[test]
fn later_declared_axis_wins_the_merge() {
    assert_eq!(rendered_hostname("aa", "zz"), "from-zz");
    assert_eq!(rendered_hostname("zz", "aa"), "from-aa");
}

fn cell() -> Cell {
    Cell {
        image: "img".to_owned(),
        image_dir: "/w/img".to_owned(),
        operation: None,
        axes: Vec::new(),
        arch: Arch::Amd64,
        output: out(OutputFormat::Cosi),
        slug: "img_amd64_cosi".to_owned(),
        ic_config: Yaml::Null,
        base: BaseSource::Path { path: "b.img".to_owned() },
        base_image: None,
        rpm_sources: Vec::new(),
    }
}

fn context(clone_index: Option<u32>) -> ExecutionContext {
    let mut runtime = RuntimeConfig::default();
    runtime.log_dir = Some("/logs".to_owned());
    ExecutionContext {
        output_dir: "/out".to_owned(),
        ic_image_ref: "ic:1".to_owned(),
        base_ref: None,
        platform: "linux/amd64".to_owned(),
        clone_index,
        dry_run: false,
        runtime,
    }
}

#[test]
fn clones_never_share_paths() {
    let c = cell();
    let runs = [None, Some(1), Some(2), Some(12)];
    for (i, a) in runs.iter().enumerate() {
        for b in &runs[i + 1..] {
            assert_ne!(working_copy_path(&c, *a), working_copy_path(&c, *b));
            assert_ne!(log_file_path(&c, &context(*a)), log_file_path(&c, &context(*b)));
            assert_ne!(farm_name(&c.slug, *a, 0), farm_name(&c.slug, *b, 0));
            assert_ne!(container_name(&c, &context(*a), 7), container_name(&c, &context(*b), 7));
        }
    }
    assert_eq!(working_copy_path(&c, Some(1)), "/w/img/.tailor-render.img_amd64_cosi_clone1.ic.yaml");
}

#[test]
fn error_messages_name_their_subjects() {
    assert_eq!(
        CoreError::NoCellsSelected { image: "web".to_owned() }.message(),
        "no cells match the selection for image `web`"
    );
    assert_eq!(
        CoreError::Exec(ExecError::IcFailed { code: -3, logs: String::new() }).message(),
        "Image Customizer exited with code -3"
    );
    assert_eq!(
        ResolveError::Registry { reference: "r".to_owned(), detail: "down".to_owned() }.message(),
        "registry resolution failed for `r`: down"
    );
    assert_eq!(
        ConfigError::MissingBase { slug: "s".to_owned() }.message(),
        "cell `s` has no base image"
    );
    assert_eq!(
        CoreError::BaseImageArchMismatch {
            image: "i".to_owned(),
            slug: "i_amd64".to_owned(),
            name: "b".to_owned(),
            slot_arch: Arch::Arm64,
            cell_arch: Arch::Amd64,
        }
        .message(),
        "cell `i_amd64` of image `i` is amd64 but base image `b` is arm64"
    );
}
