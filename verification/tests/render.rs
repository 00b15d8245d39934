use serde_yaml_ng::Value;
use tailor::cell::render_cell;
use tailor::error::ConfigError;
use tailor::fragment::{Fragment, LoadedFragment, Predicate};
use tailor::interpolate::{interpolate, interpolate_text, interpolation_context};
use tailor::matrix::AxisTuple;
use tailor::splice::{include_requests, splice_includes};
use tailor::types::ParamValue;
use tailor::yaml::Yaml;

fn to_yaml(v: &Value) -> Yaml {
    match v {
        Value::Null => Yaml::Null,
        Value::Bool(b) => Yaml::Bool(*b),
        Value::Number(n) => Yaml::Number(n.to_string()),
        Value::String(s) => Yaml::Str(s.clone()),
        Value::Sequence(items) => Yaml::List(items.iter().map(to_yaml).collect()),
        Value::Mapping(m) => Yaml::Mapping(m.iter().map(|(k, v)| (to_yaml(k), to_yaml(v))).collect()),
        Value::Tagged(t) => Yaml::Tagged(t.tag.to_string().trim_start_matches('!').to_owned(), Box::new(to_yaml(&t.value))),
    }
}

fn yaml(text: &str) -> Yaml {
    to_yaml(&serde_yaml_ng::from_str::<Value>(text).unwrap())
}

fn s(x: &str) -> String {
    x.to_owned()
}

fn pairs(v: &[(&str, &str)]) -> Vec<(String, String)> {
    v.iter().map(|(a, b)| (s(a), s(b))).collect()
}

fn get<'a>(v: &'a Yaml, key: &str) -> &'a Yaml {
    match v {
        Yaml::Mapping(es) => &es.iter().find(|(k, _)| matches!(k, Yaml::Str(x) if x == key)).unwrap().1,
        other => panic!("not a mapping: {other:?}"),
    }
}

fn strings(v: &Yaml) -> Vec<String> {
    match v {
        Yaml::List(xs) => xs
            .iter()
            .map(|x| match x {
                Yaml::Str(s) => s.clone(),
                other => panic!("not a string: {other:?}"),
            })
            .collect(),
        other => panic!("not a list: {other:?}"),
    }
}

fn text(v: &Yaml) -> &str {
    match v {
        Yaml::Str(s) => s,
        other => panic!("not a string: {other:?}"),
    }
}

#[test]
fn interpolates_every_variable_of_a_string() {
    let ctx = pairs(&[("arch", "arm64"), ("efiArch", "aa64")]);
    assert_eq!(interpolate_text("linux/${arch}", &ctx).unwrap(), "linux/arm64");
    assert_eq!(interpolate_text("${efiArch}-${arch}$x{", &ctx).unwrap(), "aa64-arm64$x{");
    assert_eq!(interpolate_text("plain", &ctx).unwrap(), "plain");
}

#[test]
fn unknown_and_unterminated_variables_are_errors() {
    let ctx = pairs(&[("arch", "amd64")]);
    let err = interpolate_text("boot-${nope}", &ctx).unwrap_err();
    assert!(matches!(&err, ConfigError::UnknownVariable { name, text } if name == "nope" && text == "boot-${nope}"));
    assert_eq!(err.message(), "`boot-${nope}`: unknown variable `${nope}`");
    let err = interpolate_text("boot-${arch", &ctx).unwrap_err();
    assert!(matches!(&err, ConfigError::UnterminatedVariable { text } if text == "boot-${arch"));
}

#[test]
fn parameters_interpolate_against_axes_and_earlier_parameters() {
    let ctx = interpolation_context(&pairs(&[("arch", "amd64")]), &pairs(&[("efiArch", "x64"), ("bootPkg", "boot-${efiArch}")])).unwrap();
    assert_eq!(ctx, pairs(&[("arch", "amd64"), ("efiArch", "x64"), ("bootPkg", "boot-x64")]));
    assert!(interpolation_context(&Vec::new(), &pairs(&[("a", "${b}"), ("b", "1")])).is_err());
}

#[test]
fn interpolation_reaches_nested_strings_but_not_keys() {
    let ctx = pairs(&[("v", "X")]);
    let out = interpolate(&yaml("a:\n  ${v}: [\"${v}\", 1, true]\n"), &ctx).unwrap();
    let inner = get(&out, "a");
    match inner {
        Yaml::Mapping(es) => {
            assert!(matches!(&es[0].0, Yaml::Str(k) if k == "${v}"));
            match &es[0].1 {
                Yaml::List(xs) => assert!(matches!(&xs[0], Yaml::Str(x) if x == "X")),
                other => panic!("{other:?}"),
            }
        }
        other => panic!("{other:?}"),
    }
}

#[test]
fn includes_are_requested_in_document_order_and_spliced() {
    let delta = yaml("storage:\n  $include: layouts/disk.yaml\nos:\n  - $include: a.yaml\n");
    assert_eq!(include_requests(&delta), vec![s("layouts/disk.yaml"), s("a.yaml")]);
    let loaded = vec![(s("layouts/disk.yaml"), yaml("bootType: efi\n")), (s("a.yaml"), Yaml::Str(s("x")))];
    let out = splice_includes(&delta, &loaded).unwrap();
    assert_eq!(text(get(get(&out, "storage"), "bootType")), "efi");
    let only_disk = vec![(s("layouts/disk.yaml"), yaml("bootType: efi\n"))];
    let err = splice_includes(&delta, &only_disk).unwrap_err();
    assert!(matches!(&err, ConfigError::IncludeNotLoaded { path } if path == "a.yaml"));
}

fn fragment(label: &str, predicate: Predicate, doc: &str, params: &[(&str, &str)]) -> LoadedFragment {
    let d = yaml(doc);
    let field = |k: &str| match &d {
        Yaml::Mapping(es) => es.iter().find(|(key, _)| matches!(key, Yaml::Str(x) if x == k)).map(|(_, v)| clone(v)),
        _ => None,
    };
    LoadedFragment {
        label: s(label),
        predicate,
        doc: Fragment {
            match_expr: None,
            base: field("base"),
            outputs: field("outputs"),
            params: params.iter().map(|(n, v)| (s(n), ParamValue::Str(s(v)))).collect(),
            rpm_sources: Vec::new(),
            config: field("config"),
        },
    }
}

fn clone(v: &Yaml) -> Yaml {
    match v {
        Yaml::Null => Yaml::Null,
        Yaml::Bool(b) => Yaml::Bool(*b),
        Yaml::Number(n) => Yaml::Number(n.clone()),
        Yaml::Str(x) => Yaml::Str(x.clone()),
        Yaml::List(xs) => Yaml::List(xs.iter().map(clone).collect()),
        Yaml::Mapping(es) => Yaml::Mapping(es.iter().map(|(k, v)| (clone(k), clone(v))).collect()),
        Yaml::Tagged(t, x) => Yaml::Tagged(t.clone(), Box::new(clone(x))),
    }
}

fn axis(a: &str, v: &str) -> Predicate {
    Predicate::Axis { axis: s(a), value: s(v) }
}

/// The mini image: list append, `$remove`, `$replace`, `$set`, `$include`, and nested parameter
/// interpolation across by-arch/by-edition fragments.
fn mini() -> Vec<LoadedFragment> {
    vec![
        fragment(
            "image.yaml",
            Predicate::Always,
            "outputs:\n  - format: cosi\nconfig:\n  os:\n    packages:\n      install:\n        - core\n        - \"${bootPkg}\"\n",
            &[],
        ),
        fragment("by-arch/amd64.yaml", axis("arch", "amd64"), "base:\n  path: ./amd64.img\n", &[("efiArch", "x64")]),
        fragment("by-arch/arm64.yaml", axis("arch", "arm64"), "base:\n  path: ./arm64.img\n", &[("efiArch", "aa64")]),
        fragment(
            "by-edition/lite.yaml",
            axis("edition", "lite"),
            "config:\n  storage:\n    $include: layouts/disk.yaml\n",
            &[("bootPkg", "boot-${efiArch}")],
        ),
        fragment(
            "by-edition/pro.yaml",
            axis("edition", "pro"),
            "outputs:\n  $replace:\n    - format: raw\nbase:\n  $set:\n    oci:\n      uri: registry.example/mini:pro\n      platform: \"linux/${arch}\"\nconfig:\n  os:\n    packages:\n      install:\n        $remove:\n          - core\n",
            &[("bootPkg", "boot-pro")],
        ),
    ]
}

fn loaded() -> Vec<(String, Yaml)> {
    vec![(s("layouts/disk.yaml"), yaml("bootType: efi\n"))]
}

fn tuple(arch: &str, edition: &str) -> AxisTuple {
    AxisTuple { values: pairs(&[("arch", arch), ("edition", edition)]) }
}

#[test]
fn renders_one_cell_per_matrix_point() {
    let fs = mini();
    let mut n = 0;
    for arch in ["amd64", "arm64"] {
        for edition in ["lite", "pro"] {
            render_cell("mini", &fs, tuple(arch, edition), &Vec::new(), &loaded()).unwrap();
            n += 1;
        }
    }
    assert_eq!(n, 4);
}

#[test]
fn lite_cell_keeps_path_base_appends_packages_and_resolves_include_and_nested_params() {
    let lite = render_cell("mini", &mini(), tuple("amd64", "lite"), &Vec::new(), &loaded()).unwrap();
    assert_eq!(text(get(&lite.base, "path")), "./amd64.img");
    match &lite.outputs {
        Some(Yaml::List(xs)) => {
            assert_eq!(xs.len(), 1);
            assert_eq!(text(get(&xs[0], "format")), "cosi");
        }
        other => panic!("{other:?}"),
    }
    assert_eq!(strings(get(get(get(&lite.ic_config, "os"), "packages"), "install")), vec![s("core"), s("boot-x64")]);
    assert_eq!(text(get(get(&lite.ic_config, "storage"), "bootType")), "efi");
}

#[test]
fn pro_cell_applies_set_base_replace_outputs_and_remove() {
    let pro = render_cell("mini", &mini(), tuple("arm64", "pro"), &Vec::new(), &loaded()).unwrap();
    assert_eq!(text(get(get(&pro.base, "oci"), "platform")), "linux/arm64");
    match &pro.outputs {
        Some(Yaml::List(xs)) => {
            assert_eq!(xs.len(), 1);
            assert_eq!(text(get(&xs[0], "format")), "raw");
        }
        other => panic!("{other:?}"),
    }
    assert_eq!(strings(get(get(get(&pro.ic_config, "os"), "packages"), "install")), vec![s("boot-pro")]);
}

#[test]
fn an_image_with_no_base_is_an_error() {
    let fs = vec![fragment("image.yaml", Predicate::Always, "config:\n  os:\n    hostname: x\n", &[])];
    let err = render_cell("nobase", &fs, AxisTuple { values: Vec::new() }, &Vec::new(), &Vec::new()).unwrap_err();
    assert!(matches!(err, ConfigError::MissingBase { .. }), "got {err:?}");
}

#[test]
fn merge_precedence_follows_axis_declaration_order_not_directory_names() {
    fn rendered_hostname(first: &str, second: &str) -> String {
        let base = fragment(
            "image.yaml",
            Predicate::Always,
            "outputs:\n  - format: cosi\nbase:\n  path: ./b.img\nconfig:\n  os:\n    hostname: from-base\n",
            &[],
        );
        let aa = fragment("by-aa/x.yaml", axis("aa", "x"), "config:\n  os:\n    hostname:\n      $set: from-aa\n", &[]);
        let zz = fragment("by-zz/x.yaml", axis("zz", "x"), "config:\n  os:\n    hostname:\n      $set: from-zz\n", &[]);
        // Fragments apply in axis declaration order (the plan's order).
        let fs = if first == "aa" { vec![base, aa, zz] } else { vec![base, zz, aa] };
        let t = AxisTuple { values: pairs(&[(first, "x"), (second, "x")]) };
        let cell = render_cell("ord", &fs, t, &Vec::new(), &Vec::new()).unwrap();
        text(get(get(&cell.ic_config, "os"), "hostname")).to_owned()
    }
    assert_eq!(rendered_hostname("aa", "zz"), "from-zz");
    assert_eq!(rendered_hostname("zz", "aa"), "from-aa");
}
