use serde_yaml_ng::Value;
use tailor::error::ConfigError;
use tailor::merge::{merge_field, merge_into};
use tailor::yaml::Yaml;

fn to_yaml(v: &Value) -> Yaml {
    match v {
        Value::Null => Yaml::Null,
        Value::Bool(b) => Yaml::Bool(*b),
        Value::Number(n) => Yaml::Number(n.to_string()),
        Value::String(s) => Yaml::Str(s.clone()),
        Value::Sequence(items) => Yaml::List(items.iter().map(to_yaml).collect()),
        Value::Mapping(m) => Yaml::Mapping(m.iter().map(|(k, v)| (to_yaml(k), to_yaml(v))).collect()),
        Value::Tagged(t) => Yaml::Tagged(
            t.tag.to_string().trim_start_matches('!').to_owned(),
            Box::new(to_yaml(&t.value)),
        ),
    }
}

fn to_value(y: &Yaml) -> Value {
    match y {
        Yaml::Null => Value::Null,
        Yaml::Bool(b) => Value::Bool(*b),
        Yaml::Number(n) => serde_yaml_ng::from_str(n).unwrap(),
        Yaml::Str(s) => Value::String(s.clone()),
        Yaml::List(items) => Value::Sequence(items.iter().map(to_value).collect()),
        Yaml::Mapping(es) => {
            let mut m = serde_yaml_ng::Mapping::new();
            for (k, v) in es {
                m.insert(to_value(k), to_value(v));
            }
            Value::Mapping(m)
        }
        Yaml::Tagged(t, v) => Value::Tagged(Box::new(serde_yaml_ng::value::TaggedValue {
            tag: serde_yaml_ng::value::Tag::new(t.clone()),
            value: to_value(v),
        })),
    }
}

fn yaml(text: &str) -> Vec<(Yaml, Yaml)> {
    let v: Value = serde_yaml_ng::from_str(text).unwrap();
    match to_yaml(&v) {
        Yaml::Mapping(es) => es,
        other => panic!("not a mapping: {other:?}"),
    }
}

fn merged(base: &str, overlay: &str) -> Vec<(Yaml, Yaml)> {
    let mut acc = yaml(base);
    merge_into(&mut acc, yaml(overlay), "overlay").unwrap();
    acc
}

fn to_text(map: &[(Yaml, Yaml)]) -> String {
    serde_yaml_ng::to_string(&to_value(&Yaml::Mapping(map.to_vec_yaml()))).unwrap()
}

trait CloneEntries {
    fn to_vec_yaml(&self) -> Vec<(Yaml, Yaml)>;
}

impl CloneEntries for [(Yaml, Yaml)] {
    fn to_vec_yaml(&self) -> Vec<(Yaml, Yaml)> {
        self.iter()
            .map(|(k, v)| (to_yaml(&to_value(k)), to_yaml(&to_value(v))))
            .collect()
    }
}

fn get<'a>(map: &'a [(Yaml, Yaml)], path: &[&str]) -> &'a Yaml {
    let (first, rest) = path.split_first().unwrap();
    let value = map
        .iter()
        .find(|(k, _)| matches!(k, Yaml::Str(s) if s == first))
        .map(|(_, v)| v)
        .unwrap_or_else(|| panic!("missing key {first}"));
    if rest.is_empty() {
        value
    } else {
        match value {
            Yaml::Mapping(es) => get(es, rest),
            other => panic!("not a mapping: {other:?}"),
        }
    }
}

fn strings(v: &Yaml) -> Vec<String> {
    match v {
        Yaml::List(items) => items
            .iter()
            .filter_map(|i| match i {
                Yaml::Str(s) => Some(s.clone()),
                _ => None,
            })
            .collect(),
        other => panic!("not a list: {other:?}"),
    }
}

#[test]
fn maps_deep_merge_and_preserve_insertion_order() {
    let out = merged("os:\n  a: 1\n  b: 2\n", "os:\n  b: 2\n  c: 3\n");
    // `c` appends after the existing keys; `a`/`b` keep their positions.
    assert_eq!(to_text(&out), "os:\n  a: 1\n  b: 2\n  c: 3\n");
}

#[test]
fn lists_append_by_default() {
    let out = merged(
        "os:\n  packages:\n    install: [a, b]\n",
        "os:\n  packages:\n    install: [c]\n",
    );
    assert_eq!(strings(get(&out, &["os", "packages", "install"])), ["a", "b", "c"]);
}

#[test]
fn replace_directive_swaps_the_inherited_list() {
    let out = merged("outputs: [cosi]\n", "outputs:\n  $replace:\n    - vhd-fixed\n");
    assert_eq!(strings(get(&out, &["outputs"])), ["vhd-fixed"]);
}

#[test]
fn remove_directive_drops_inherited_items() {
    let out = merged(
        "os:\n  packages:\n    install: [a, b, c]\n",
        "os:\n  packages:\n    install:\n      $remove: [b]\n",
    );
    assert_eq!(strings(get(&out, &["os", "packages", "install"])), ["a", "c"]);
}

#[test]
fn set_directive_overrides_without_conflict() {
    let out = merged(
        "os:\n  selinux:\n    mode: disabled\n",
        "os:\n  selinux:\n    mode:\n      $set: enforcing\n",
    );
    assert!(matches!(get(&out, &["os", "selinux", "mode"]), Yaml::Str(s) if s == "enforcing"));
}

#[test]
fn differing_scalar_without_set_is_a_conflict() {
    let mut acc = yaml("os:\n  hostname: a\n");
    let err = merge_into(&mut acc, yaml("os:\n  hostname: b\n"), "frag-b").unwrap_err();
    match err {
        ConfigError::ScalarConflict {
            path,
            existing,
            incoming,
            fragment,
        } => {
            assert_eq!(path, "os.hostname");
            assert_eq!(existing, "a");
            assert_eq!(incoming, "b");
            assert!(fragment.contains("frag-b"), "got {fragment}");
        }
        other => panic!("got {other:?}"),
    }
}

#[test]
fn equal_scalar_set_twice_is_fine() {
    let out = merged("os:\n  hostname: a\n", "os:\n  hostname: a\n");
    assert!(matches!(get(&out, &["os", "hostname"]), Yaml::Str(s) if s == "a"));
}

#[test]
fn storage_lists_append_generically_without_keying() {
    // No keyed merge: a second `partitions` list appends rather than merging by id.
    let out = merged(
        "storage:\n  disks:\n    - partitions:\n        - id: esp\n          size: 8M\n",
        "storage:\n  disks:\n    - partitions:\n        - id: esp\n          size: 16M\n",
    );
    // `disks` is a list, so it appends; both single-disk entries are kept.
    match get(&out, &["storage", "disks"]) {
        Yaml::List(items) => assert_eq!(items.len(), 2),
        other => panic!("got {other:?}"),
    }
}

#[test]
fn directive_mixed_with_siblings_is_rejected() {
    let mut acc = yaml("x: [a]\n");
    let err = merge_into(&mut acc, yaml("x:\n  $replace: [b]\n  extra: 1\n"), "f").unwrap_err();
    assert!(
        matches!(err, ConfigError::DirectiveNotSole { .. }),
        "got {err:?}"
    );
}

#[test]
fn two_directives_are_named_together() {
    let mut acc = yaml("x: [a]\n");
    let err = merge_into(&mut acc, yaml("x:\n  $replace: [b]\n  $remove: [a]\n"), "f").unwrap_err();
    match err {
        ConfigError::DirectiveNotSole { directive, path } => {
            assert_eq!(directive, "$replace`, `$remove");
            assert_eq!(path, "x");
        }
        other => panic!("got {other:?}"),
    }
}

#[test]
fn a_mapping_over_a_list_is_a_type_conflict() {
    let mut acc = yaml("x: [a]\n");
    let before = acc.len();
    let err = merge_into(&mut acc, yaml("x:\n  y: 1\n"), "f").unwrap_err();
    match err {
        ConfigError::TypeConflict {
            existing_kind,
            incoming_kind,
            ..
        } => {
            assert_eq!(existing_kind, "list");
            assert_eq!(incoming_kind, "mapping");
        }
        other => panic!("got {other:?}"),
    }
    // A failed merge leaves the accumulator as it was.
    assert_eq!(acc.len(), before);
}

#[test]
fn unsupported_unresolved_and_unknown_directives() {
    let cases = [
        ("x:\n  $rename: y\n", "unsupported"),
        ("x:\n  $select: y\n", "unresolved"),
        ("x:\n  $frobnicate: y\n", "unknown"),
    ];
    for (overlay, expected) in cases {
        let mut acc = yaml("x: 1\n");
        let err = merge_into(&mut acc, yaml(overlay), "f").unwrap_err();
        let got = match err {
            ConfigError::UnsupportedDirective { .. } => "unsupported",
            ConfigError::UnresolvedDirective { .. } => "unresolved",
            ConfigError::UnknownDirective { .. } => "unknown",
            _ => "other",
        };
        assert_eq!(got, expected, "{overlay}");
    }
}

#[test]
fn remove_needs_a_list_argument() {
    let mut acc = yaml("x: [a]\n");
    let err = merge_into(&mut acc, yaml("x:\n  $remove: a\n"), "f").unwrap_err();
    match err {
        ConfigError::DirectiveShape {
            directive,
            expected,
            ..
        } => {
            assert_eq!(directive, "$remove");
            assert_eq!(expected, "a list");
        }
        other => panic!("got {other:?}"),
    }
}

#[test]
fn merge_field_names_the_field_in_conflicts() {
    let err = merge_field(
        Some(Yaml::Str("a".to_owned())),
        Yaml::Str("b".to_owned()),
        "base",
        "by-arch/amd64.yaml",
    )
    .unwrap_err();
    match err {
        ConfigError::ScalarConflict { path, fragment, .. } => {
            assert_eq!(path, "base");
            assert_eq!(fragment, "by-arch/amd64.yaml");
        }
        other => panic!("got {other:?}"),
    }
    let set = yaml("v:\n  $set: b\n");
    let overlay = set.into_iter().next().unwrap().1;
    let out = merge_field(Some(Yaml::Str("a".to_owned())), overlay, "base", "f").unwrap();
    assert!(matches!(out, Yaml::Str(s) if s == "b"));
}

#[test]
fn empty_overlay_leaves_the_base_unchanged() {
    let out = merged("os:\n  a: 1\n", "{}\n");
    assert_eq!(to_text(&out), "os:\n  a: 1\n");
}
