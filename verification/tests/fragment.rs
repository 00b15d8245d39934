use tailor::fragment::{leaf_matches, Match, MatchValue};

fn axes(pairs: &[(&str, &str)]) -> Vec<(String, String)> {
    pairs
        .iter()
        .map(|(k, v)| ((*k).to_owned(), (*v).to_owned()))
        .collect()
}

fn one(key: &str, value: &str) -> Match {
    Match::Leaf(vec![(key.to_owned(), MatchValue::One(value.to_owned()))])
}

fn many(key: &str, values: &[&str]) -> Match {
    Match::Leaf(vec![(
        key.to_owned(),
        MatchValue::Many(values.iter().map(|v| (*v).to_owned()).collect()),
    )])
}

#[test]
fn equality_leaf_matches_axis_value() {
    let m = one("release", "4.0");
    assert!(m.evaluate(&axes(&[("release", "4.0")]), &Vec::new()));
    assert!(!m.evaluate(&axes(&[("release", "3.0")]), &Vec::new()));
}

#[test]
fn set_membership_leaf() {
    let m = many("variant", &["root-verity", "usr-verity"]);
    assert!(m.evaluate(&axes(&[("variant", "usr-verity")]), &Vec::new()));
    assert!(!m.evaluate(&axes(&[("variant", "grub")]), &Vec::new()));
}

#[test]
fn all_any_not_combinators() {
    let all = Match::All {
        all: vec![one("release", "3.0"), one("variant", "grub")],
    };
    assert!(all.evaluate(&axes(&[("release", "3.0"), ("variant", "grub")]), &Vec::new()));
    assert!(!all.evaluate(&axes(&[("release", "3.0"), ("variant", "vm-img")]), &Vec::new()));

    let any = Match::Any {
        any: vec![one("variant", "grub"), one("phase", "update")],
    };
    assert!(any.evaluate(&axes(&[("variant", "grub"), ("phase", "base")]), &Vec::new()));

    let not = Match::Not {
        not: Box::new(one("release", "4.0")),
    };
    assert!(not.evaluate(&axes(&[("release", "3.0")]), &Vec::new()));
    assert!(!not.evaluate(&axes(&[("release", "4.0")]), &Vec::new()));
}

#[test]
fn feature_leaf_consults_enabled_features() {
    let m = one("feature", "pcrlock-static-files");
    assert!(m.evaluate(&axes(&[]), &vec!["pcrlock-static-files".to_owned()]));
    assert!(!m.evaluate(&axes(&[]), &Vec::new()));
}

#[test]
fn compound_feature_and_release() {
    let m = Match::All {
        all: vec![one("feature", "pcrlock-static-files"), one("release", "3.0")],
    };
    let feats = vec!["pcrlock-static-files".to_owned()];
    assert!(m.evaluate(&axes(&[("release", "3.0")]), &feats));
    assert!(!m.evaluate(&axes(&[("release", "4.0")]), &feats));
}

#[test]
fn an_axis_the_cell_lacks_never_matches() {
    let value = MatchValue::One("x".to_owned());
    assert!(!leaf_matches("distro", &value, &axes(&[("release", "3.0")]), &Vec::new()));
}

#[test]
fn empty_all_holds_and_empty_any_does_not() {
    assert!(Match::All { all: Vec::new() }.evaluate(&axes(&[]), &Vec::new()));
    assert!(!Match::Any { any: Vec::new() }.evaluate(&axes(&[]), &Vec::new()));
}
