use tailor::arg_builder::{build_ic_args, build_run_command, render_command};
use tailor::orchestrator::Cell;
use tailor::ports::{ExecutionContext, RuntimeConfig};
use tailor::schema::{AzureLinuxBase, BaseSource, OciBase, OutputSpec};
use tailor::types::{Arch, Operation, OutputFormat};
use tailor::yaml::Yaml;

fn sample_context() -> ExecutionContext {
    ExecutionContext {
        output_dir: "/out".to_owned(),
        ic_image_ref: "ic@sha256:abc".to_owned(),
        base_ref: None,
        platform: "linux/amd64".to_owned(),
        clone_index: None,
        dry_run: false,
        runtime: RuntimeConfig {
            host_root: "/host".to_owned(),
            privileged: true,
            build_dir: None,
            log_level: Some("debug".to_owned()),
            image_cache_dir: Some("/cache".to_owned()),
            log_dir: None,
            janitor_image: "janitor@sha256:def".to_owned(),
        },
    }
}

fn sample_cell(operation: Operation, base: BaseSource) -> Cell {
    Cell {
        image: "sample".to_owned(),
        image_dir: "/images".to_owned(),
        operation: Some(operation),
        axes: Vec::new(),
        arch: Arch::Amd64,
        output: OutputSpec {
            format: OutputFormat::Cosi,
            cosi_compression_level: Some(7),
            name: None,
        },
        slug: "sample_cosi".to_owned(),
        ic_config: Yaml::Mapping(Vec::new()),
        base,
        base_image: None,
        rpm_sources: vec!["/rpms/one".to_owned()],
    }
}

fn path_base(path: &str) -> BaseSource {
    BaseSource::Path {
        path: path.to_owned(),
    }
}

fn has_pair(args: &[String], a: &str, b: &str) -> bool {
    args.windows(2).any(|pair| pair[0] == a && pair[1] == b)
}

#[test]
fn builds_customize_args_with_translated_paths() {
    let cell = sample_cell(Operation::Customize, path_base("/base.raw"));
    let context = sample_context();

    let args = build_ic_args(&cell, &context);

    assert_eq!(
        args,
        [
            "customize",
            "--config-file",
            "/host/images/.tailor-render.sample_cosi.ic.yaml",
            "--log-format",
            "json",
            "--log-color",
            "never",
            "--log-level",
            "debug",
            "--build-dir",
            "/tmp",
            "--image-file",
            "/host/base.raw",
            "--output-image-format",
            "cosi",
            "--output-image-file",
            "/host/out/sample_cosi.cosi",
            "--cosi-compression-level",
            "7",
            "--rpm-source",
            "/host/rpms/one",
            "--image-cache-dir",
            "/host/cache",
        ]
    );
}

#[test]
fn builds_convert_args_without_config_or_rpm_sources() {
    let cell = sample_cell(Operation::Convert, path_base("/base.vhdx"));
    let context = sample_context();

    let args = build_ic_args(&cell, &context);

    assert!(!args.iter().any(|arg| arg == "--config-file"));
    assert!(!args.iter().any(|arg| arg == "--rpm-source"));
    assert_eq!(args[0], "convert");
    assert!(has_pair(&args, "--image-file", "/host/base.vhdx"));
}

#[test]
fn run_command_carries_the_docker_prelude() {
    let cell = sample_cell(Operation::Customize, path_base("/base.raw"));
    let context = sample_context();

    let argv = build_run_command(&cell, &context);

    assert_eq!(&argv[..3], ["docker", "run", "--rm"]);
    assert!(argv.iter().any(|t| t == "--privileged"));
    assert!(has_pair(&argv, "--platform", "linux/amd64"));
    assert!(has_pair(&argv, "-v", "/:/host"));
    assert!(has_pair(&argv, "-v", "/dev:/dev"));
    // The IC image precedes its subcommand and arguments.
    let image = argv.iter().position(|t| t == "ic@sha256:abc").unwrap();
    let customize = argv.iter().position(|t| t == "customize").unwrap();
    assert!(image < customize);
}

#[test]
fn render_command_groups_flags_and_values_per_line() {
    let argv = vec![
        "docker".to_owned(),
        "run".to_owned(),
        "--rm".to_owned(),
        "--platform".to_owned(),
        "linux/amd64".to_owned(),
        "image".to_owned(),
        "customize".to_owned(),
        "--config-file".to_owned(),
        "/host/x.yaml".to_owned(),
    ];
    let rendered = render_command(&argv);
    let expected = "docker run \\\n  --rm \\\n  --platform linux/amd64 \\\n  image \\\n  \
         customize \\\n  --config-file /host/x.yaml";
    assert_eq!(rendered, expected);
}

#[test]
fn customize_registry_base_uses_image_flag() {
    let cell = sample_cell(
        Operation::Customize,
        BaseSource::Oci {
            oci: OciBase {
                uri: "registry.example/base@sha256:abc".to_owned(),
                platform: Some("linux/amd64".to_owned()),
            },
        },
    );
    let context = sample_context();

    let args = build_ic_args(&cell, &context);

    assert!(has_pair(&args, "--image", "oci:registry.example/base@sha256:abc"));
}

#[test]
fn customize_uses_the_pinned_base_ref_when_present() {
    // A real build threads the digest-pinned `base_ref`; it must win over the manifest uri.
    let cell = sample_cell(
        Operation::Customize,
        BaseSource::AzureLinux {
            azure_linux: AzureLinuxBase {
                version: "3.0".to_owned(),
                variant: "minimal-os".to_owned(),
            },
        },
    );
    let mut context = sample_context();
    context.base_ref =
        Some("oci:mcr.microsoft.com/azurelinux/3.0/image/minimal-os@sha256:dead".to_owned());

    let args = build_ic_args(&cell, &context);

    assert!(has_pair(
        &args,
        "--image",
        "oci:mcr.microsoft.com/azurelinux/3.0/image/minimal-os@sha256:dead"
    ));
}

#[test]
fn always_runs_ic_structured_at_debug_by_default() {
    let cell = sample_cell(Operation::Customize, path_base("/base.raw"));
    let mut context = sample_context();
    // No explicit log level: IC must still run structured at the `debug` default.
    context.runtime.log_level = None;

    let args = build_ic_args(&cell, &context);

    assert!(has_pair(&args, "--log-format", "json"));
    assert!(has_pair(&args, "--log-color", "never"));
    assert!(has_pair(&args, "--log-level", "debug"));
    // Persistence is off by default: no `--log-file`.
    assert!(!args.iter().any(|arg| arg == "--log-file"));
}

#[test]
fn persists_per_cell_log_when_log_dir_is_set() {
    let cell = sample_cell(Operation::Customize, path_base("/base.raw"));
    let mut context = sample_context();
    context.runtime.log_dir = Some("/logs".to_owned());

    let args = build_ic_args(&cell, &context);

    assert!(has_pair(&args, "--log-file", "/host/logs/sample_cosi.log"));
}

#[test]
fn unpinned_azure_linux_base_falls_back_to_the_registry_path() {
    let cell = sample_cell(
        Operation::Customize,
        BaseSource::AzureLinux {
            azure_linux: AzureLinuxBase {
                version: "3.0".to_owned(),
                variant: "minimal-os".to_owned(),
            },
        },
    );
    let args = build_ic_args(&cell, &sample_context());
    assert!(has_pair(
        &args,
        "--image",
        "oci:mcr.microsoft.com/azurelinux/3.0/image/minimal-os"
    ));
}

#[test]
fn clones_suffix_the_log_and_working_copy() {
    let cell = sample_cell(Operation::Customize, path_base("/base.raw"));
    let mut context = sample_context();
    context.clone_index = Some(2);
    context.runtime.log_dir = Some("/logs".to_owned());
    let args = build_ic_args(&cell, &context);
    assert!(has_pair(&args, "--log-file", "/host/logs/sample_cosi_clone2.log"));
    assert!(has_pair(
        &args,
        "--config-file",
        "/host/images/.tailor-render.sample_cosi_clone2.ic.yaml"
    ));
}

#[test]
fn a_short_argv_renders_on_one_line() {
    assert_eq!(render_command(&vec!["docker".to_owned()]), "docker");
    assert_eq!(render_command(&Vec::new()), "");
}

#[test]
fn unprivileged_runs_omit_the_flag() {
    let cell = sample_cell(Operation::Customize, path_base("/base.raw"));
    let mut context = sample_context();
    context.runtime.privileged = false;
    let argv = build_run_command(&cell, &context);
    assert!(!argv.iter().any(|t| t == "--privileged"));
}
