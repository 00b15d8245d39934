//! Per-cell rendering: the merged config, base and outputs of one matrix cell, and the steps that
//! produce them from the matched fragments.
use vstd::prelude::*;
use crate::error::ConfigError;
use crate::matrix::{coordinate_of, find_axis, lookup, row_view, AxisTuple, Point};
use crate::merge::{merge_field, merge_fault_is, merge_into, merged_entries, merged_value, opt_view, untag, Entries, MergeFault};
use crate::schema::{BaseSource, OutputSpec};
use crate::text::{i64_text, join_strings, join_with, push_char, push_str, signed_decimal, str_eq, views};
use crate::types::ParamValue;
use crate::yaml::{entries_view, lemma_entries_view, yaml_clone, yaml_clone_entries, Yaml, YamlV};

verus! {

/// One fully rendered matrix cell, ready for execution or golden snapshotting.
#[derive(Debug)]
pub struct RenderedCell {
    /// The cell's axis coordinate (matrix-declared order).
    pub tuple: AxisTuple,
    /// The merged Image Customizer config (the `config:` tree).
    pub ic_config: Yaml,
    /// The single resolved base image source.
    pub base: BaseSource,
    /// The output formats to build for this cell.
    pub outputs: Vec<OutputSpec>,
    /// Local RPM sources passed to Image Customizer as `--rpm-source`.
    pub rpm_sources: Vec<String>,
}

} // verus!

verus! {

/// The text a parameter value interpolates as.
pub open spec fn param_text(v: ParamValue) -> Seq<char> {
    match v {
        ParamValue::Bool(b) => if b { "true"@ } else { "false"@ },
        ParamValue::Int(i) => signed_decimal(i as int),
        ParamValue::Float(f) => f@,
        ParamValue::Str(s) => s@,
    }
}

/// The text of a parameter value.
pub fn param_string(value: &ParamValue) -> (r: String)
    ensures
        r@ == param_text(*value),
{
    match value {
        ParamValue::Bool(b) => if *b { "true".to_owned() } else { "false".to_owned() },
        ParamValue::Int(i) => i64_text(*i),
        ParamValue::Float(f) => f.clone(),
        ParamValue::Str(s) => s.clone(),
    }
}

/// The parameters of the matched fragments, flattened in order, as (name, text) pairs.
pub open spec fn param_pairs(groups: Seq<Vec<(String, ParamValue)>>) -> Seq<(Seq<char>, Seq<char>)>
    decreases groups.len(),
{
    if groups.len() == 0 {
        Seq::empty()
    } else {
        param_pairs(groups.drop_last()) + groups.last()@.map_values(|e: (String, ParamValue)| (e.0@, param_text(e.1)))
    }
}

/// A parameter set to two different values: (name, existing, incoming).
pub type ParamClash = (Seq<char>, Seq<char>, Seq<char>);

/// Parameters merged in order: a name keeps its first position; setting it again to the same
/// text is fine, to another text is a conflict.
pub open spec fn merged_params(pairs: Seq<(Seq<char>, Seq<char>)>) -> Result<Seq<(Seq<char>, Seq<char>)>, ParamClash>
    decreases pairs.len(),
{
    if pairs.len() == 0 {
        Ok(Seq::empty())
    } else {
        match merged_params(pairs.drop_last()) {
            Err(c) => Err(c),
            Ok(acc) => {
                let (name, value) = pairs.last();
                match lookup(acc, name) {
                    Some(existing) => if existing != value {
                        Err((name, existing, value))
                    } else {
                        Ok(acc)
                    },
                    None => Ok(acc.push((name, value))),
                }
            },
        }
    }
}

proof fn lemma_params_err(pairs: Seq<(Seq<char>, Seq<char>)>, k: int)
    requires
        0 <= k <= pairs.len(),
        merged_params(pairs.subrange(0, k)) is Err,
    ensures
        merged_params(pairs) == merged_params(pairs.subrange(0, k)),
    decreases pairs.len(),
{
    if k == pairs.len() {
        assert(pairs.subrange(0, k) =~= pairs);
    } else {
        assert(pairs.drop_last().subrange(0, k) =~= pairs.subrange(0, k));
        lemma_params_err(pairs.drop_last(), k);
    }
}

/// Merges the parameters of the matched fragments (each fragment's in authored order).
pub fn merge_params(groups: &Vec<Vec<(String, ParamValue)>>) -> (r: Result<Vec<(String, String)>, ConfigError>)
    ensures
        match merged_params(param_pairs(groups@)) {
            Ok(m) => r matches Ok(v) && row_view(v) == m,
            Err(c) => r matches Err(ConfigError::ParamConflict { name, existing, incoming })
                && name@ == c.0 && existing@ == c.1 && incoming@ == c.2,
        },
{
    let ghost all = param_pairs(groups@);
    let mut params: Vec<(String, String)> = Vec::new();
    let mut g: usize = 0;
    assert(groups@.subrange(0, 0) =~= Seq::<Vec<(String, ParamValue)>>::empty());
    assert(row_view(params) =~= Seq::<(Seq<char>, Seq<char>)>::empty());
    while g < groups.len()
        invariant
            g <= groups.len(),
            all == param_pairs(groups@),
            merged_params(param_pairs(groups@.subrange(0, g as int))) == Ok::<Seq<(Seq<char>, Seq<char>)>, ParamClash>(row_view(params)),
        decreases groups.len() - g,
    {
        assert(groups@.subrange(0, g + 1).drop_last() =~= groups@.subrange(0, g as int));
        let group = &groups[g];
        let ghost done = param_pairs(groups@.subrange(0, g as int));
        let ghost these = group@.map_values(|e: (String, ParamValue)| (e.0@, param_text(e.1)));
        assert(param_pairs(groups@.subrange(0, g + 1)) == done + these);
        let mut i: usize = 0;
        assert(done + these.subrange(0, 0) =~= done);
        while i < group.len()
            invariant
                i <= group.len(),
                all == param_pairs(groups@),
                these == group@.map_values(|e: (String, ParamValue)| (e.0@, param_text(e.1))),
                done == param_pairs(groups@.subrange(0, g as int)),
                param_pairs(groups@.subrange(0, g + 1)) == done + these,
                g < groups.len(),
                merged_params(done + these.subrange(0, i as int)) == Ok::<Seq<(Seq<char>, Seq<char>)>, ParamClash>(row_view(params)),
            decreases group.len() - i,
        {
            let ghost cur = done + these.subrange(0, i as int);
            assert((done + these.subrange(0, i + 1)).drop_last() =~= cur);
            assert((done + these.subrange(0, i + 1)).last() == these[i as int]);
            let name = &group[i].0;
            let value = param_string(&group[i].1);
            match find_axis(&params, name.as_str()) {
                Some(k) => {
                    if params[k].1 != value {
                        proof {
                            let cur2 = done + these.subrange(0, i + 1);
                            let k2 = done.len() + i + 1;
                            assert(merged_params(cur2) == Err::<Seq<(Seq<char>, Seq<char>)>, ParamClash>((name@, params@[k as int].1@, value@)));
                            lemma_groups_prefix(groups@, g as int + 1);
                            let dt = done + these;
                            assert(all.subrange(0, dt.len() as int) == dt);
                            assert forall|x: int| 0 <= x < k2 implies #[trigger] all.subrange(0, k2)[x] == cur2[x] by {
                                assert(all.subrange(0, dt.len() as int)[x] == dt[x]);
                            }
                            assert(all.subrange(0, k2) =~= cur2);
                            lemma_params_err(all, k2);
                        }
                        return Err(ConfigError::ParamConflict {
                            name: name.clone(),
                            existing: params[k].1.clone(),
                            incoming: value,
                        });
                    }
                },
                None => {
                    let ghost before = params@;
                    params.push((name.clone(), value));
                    assert(row_view(params) =~= before.map_values(|e: (String, String)| crate::ordered::pin_view(e)).push((name@, value@)));
                },
            }
            i += 1;
        }
        assert(these.subrange(0, group@.len() as int) =~= these);
        g += 1;
    }
    assert(groups@.subrange(0, groups@.len() as int) =~= groups@);
    Ok(params)
}

proof fn lemma_groups_prefix(groups: Seq<Vec<(String, ParamValue)>>, g: int)
    requires
        0 <= g <= groups.len(),
    ensures
        param_pairs(groups.subrange(0, g)) == param_pairs(groups).subrange(0, param_pairs(groups.subrange(0, g)).len() as int),
        param_pairs(groups.subrange(0, g)).len() <= param_pairs(groups).len(),
    decreases groups.len(),
{
    if g == groups.len() {
        assert(groups.subrange(0, g) =~= groups);
        assert(param_pairs(groups).subrange(0, param_pairs(groups).len() as int) =~= param_pairs(groups));
    } else {
        assert(groups.drop_last().subrange(0, g) =~= groups.subrange(0, g));
        lemma_groups_prefix(groups.drop_last(), g);
        let p = param_pairs(groups.drop_last());
        let q = param_pairs(groups.subrange(0, g));
        assert(param_pairs(groups).subrange(0, q.len() as int) =~= p.subrange(0, q.len() as int));
    }
}

} // verus!

verus! {

/// The name of an image's cell in messages: the image name, then `_` and the coordinate when the
/// cell has one.
pub open spec fn cell_label_text(name: Seq<char>, tuple: Point) -> Seq<char> {
    if coordinate_of(tuple).len() == 0 {
        name
    } else {
        name + seq!['_'] + coordinate_of(tuple)
    }
}

/// The name of an image's cell in messages.
pub fn slug(name: &str, tuple: &AxisTuple) -> (r: String)
    ensures
        r@ == cell_label_text(name@, tuple.view()),
{
    let coordinate = tuple.coordinate();
    if coordinate.as_str().is_empty() {
        return name.to_owned();
    }
    let mut s = name.to_owned();
    push_char(&mut s, '_');
    push_str(&mut s, coordinate.as_str());
    s
}

/// Whether a (possibly tagged) mapping has an entry under the plain string key `k`.
pub open spec fn has_str_key(v: YamlV, k: Seq<char>) -> bool {
    match untag(v) {
        YamlV::Mapping(es) => exists|i: int| 0 <= i < es.len() && es[i].0 == YamlV::Str(k),
        _ => false,
    }
}

/// The base kinds a merged base names, in the order `path`, `oci`, `azureLinux`.
pub open spec fn base_kinds(v: YamlV) -> Seq<Seq<char>> {
    let a: Seq<Seq<char>> = if has_str_key(v, "path"@) { seq!["path"@] } else { Seq::empty() };
    let b: Seq<Seq<char>> = if has_str_key(v, "oci"@) { seq!["oci"@] } else { Seq::empty() };
    let c: Seq<Seq<char>> = if has_str_key(v, "azureLinux"@) { seq!["azureLinux"@] } else { Seq::empty() };
    a + b + c
}

fn untagged_ref(v: &Yaml) -> (r: &Yaml)
    ensures
        r.view() == untag(v.view()),
    decreases v,
{
    match v {
        Yaml::Tagged(_, x) => untagged_ref(&**x),
        _ => v,
    }
}

/// Whether `v` is a mapping with an entry under the plain string key `k` (`Value::get`).
fn has_key(v: &Yaml, k: &str) -> (r: bool)
    ensures
        r == has_str_key(v.view(), k@),
{
    match untagged_ref(v) {
        Yaml::Mapping(es) => {
            proof {
                lemma_entries_view(es@);
            }
            let ghost ev = entries_view(es@);
            assert(untag(v.view()) == YamlV::Mapping(ev));
            let mut i: usize = 0;
            while i < es.len()
                invariant
                    i <= es.len(),
                    untag(v.view()) == YamlV::Mapping(ev),
                    ev == entries_view(es@),
                    ev.len() == es.len(),
                    forall|j: int| 0 <= j < es.len() ==> #[trigger] ev[j] == (es@[j].0.view(), es@[j].1.view()),
                    forall|j: int| 0 <= j < i ==> ev[j].0 != YamlV::Str(k@),
                decreases es.len() - i,
            {
                let hit = match &es[i].0 {
                    Yaml::Str(s) => str_eq(s.as_str(), k),
                    _ => false,
                };
                if hit {
                    assert(ev[i as int].0 == YamlV::Str(k@));
                    return true;
                }
                i += 1;
            }
            false
        },
        _ => false,
    }
}

/// A base must name exactly one kind: none is a missing base, several are ambiguous.
pub fn ensure_single_base_kind(base: &Yaml, slug: &String) -> (r: Result<(), ConfigError>)
    ensures
        base_kinds(base.view()).len() == 1 ==> r is Ok,
        base_kinds(base.view()).len() == 0 ==> (r matches Err(ConfigError::MissingBase { slug: s }) && s@ == slug@),
        base_kinds(base.view()).len() > 1 ==> (r matches Err(ConfigError::AmbiguousBase { slug: s, kinds })
            && s@ == slug@ && kinds@ == join_with(base_kinds(base.view()), ", "@)),
{
    let mut present: Vec<String> = Vec::new();
    if has_key(base, "path") {
        present.push("path".to_owned());
    }
    if has_key(base, "oci") {
        present.push("oci".to_owned());
    }
    if has_key(base, "azureLinux") {
        present.push("azureLinux".to_owned());
    }
    assert(views(present@) =~= base_kinds(base.view()));
    if present.len() == 1 {
        Ok(())
    } else if present.len() == 0 {
        Err(ConfigError::MissingBase { slug: slug.clone() })
    } else {
        Err(ConfigError::AmbiguousBase { slug: slug.clone(), kinds: join_strings(&present, ", ") })
    }
}

/// The `config:` deltas merged in order onto an empty mapping; a delta that is not a mapping is
/// an invalid field of the cell.
pub open spec fn merged_config(deltas: Seq<(Seq<char>, YamlV)>) -> Result<Entries, Option<MergeFault>>
    decreases deltas.len(),
{
    if deltas.len() == 0 {
        Ok(Seq::empty())
    } else {
        match merged_config(deltas.drop_last()) {
            Err(f) => Err(f),
            Ok(acc) => match deltas.last().1 {
                YamlV::Mapping(es) => match merged_entries(acc, es, Seq::empty(), deltas.last().0) {
                    Ok(m) => Ok(m),
                    Err(f) => Err(Some(f)),
                },
                _ => Err(None),
            },
        }
    }
}

proof fn lemma_config_err(deltas: Seq<(Seq<char>, YamlV)>, k: int)
    requires
        0 <= k <= deltas.len(),
        merged_config(deltas.subrange(0, k)) is Err,
    ensures
        merged_config(deltas) == merged_config(deltas.subrange(0, k)),
    decreases deltas.len(),
{
    if k == deltas.len() {
        assert(deltas.subrange(0, k) =~= deltas);
    } else {
        assert(deltas.drop_last().subrange(0, k) =~= deltas.subrange(0, k));
        lemma_config_err(deltas.drop_last(), k);
    }
}

pub open spec fn labelled_view(v: Seq<(String, Yaml)>) -> Seq<(Seq<char>, YamlV)> {
    v.map_values(|e: (String, Yaml)| (e.0@, e.1.view()))
}

/// The detail of a `config:` that is not an inline mapping.
pub const CONFIG_NOT_MAPPING: &'static str = "expected a mapping (inline IC config); path-string config is not yet supported";

/// Merges the matched fragments' `config:` deltas (label, delta) in order into the cell's config.
pub fn merge_config(deltas: Vec<(String, Yaml)>, slug: &String) -> (r: Result<Vec<(Yaml, Yaml)>, ConfigError>)
    ensures
        match merged_config(labelled_view(deltas@)) {
            Ok(m) => r matches Ok(v) && entries_view(v@) == m,
            Err(Some(f)) => r is Err && merge_fault_is(r->Err_0, f),
            Err(None) => r matches Err(ConfigError::InvalidField { slug: s, field, detail })
                && s@ == slug@ && field@ == "config"@ && detail@ == CONFIG_NOT_MAPPING@,
        },
{
    let ghost dv = labelled_view(deltas@);
    let mut config: Vec<(Yaml, Yaml)> = Vec::new();
    let mut i: usize = 0;
    assert(dv.subrange(0, 0) =~= Seq::<(Seq<char>, YamlV)>::empty());
    assert(entries_view(config@) =~= Seq::<(YamlV, YamlV)>::empty());
    while i < deltas.len()
        invariant
            i <= deltas.len(),
            dv == labelled_view(deltas@),
            merged_config(dv.subrange(0, i as int)) == Ok::<Entries, Option<MergeFault>>(entries_view(config@)),
        decreases deltas.len() - i,
    {
        assert(dv.subrange(0, i + 1).drop_last() =~= dv.subrange(0, i as int));
        assert(dv.subrange(0, i + 1).last() == dv[i as int]);
        match &deltas[i].1 {
            Yaml::Mapping(es) => {
                let overlay = yaml_clone_entries(es, Ghost(deltas@[i as int].1));
                proof {
                    lemma_entries_view(overlay@);
                    lemma_entries_view(es@);
                    assert(entries_view(overlay@) =~= entries_view(es@));
                }
                match merge_into(&mut config, overlay, deltas[i].0.as_str()) {
                    Ok(()) => {},
                    Err(e) => {
                        proof {
                            lemma_config_err(dv, i + 1);
                        }
                        return Err(e);
                    },
                }
            },
            _ => {
                proof {
                    lemma_config_err(dv, i + 1);
                }
                return Err(ConfigError::InvalidField {
                    slug: slug.clone(),
                    field: "config",
                    detail: CONFIG_NOT_MAPPING.to_owned(),
                });
            },
        }
        i += 1;
    }
    assert(dv.subrange(0, deltas@.len() as int) =~= dv);
    Ok(config)
}

/// A tailor field's values (label, value) merged in order with `merge_field`.
pub open spec fn merged_field(values: Seq<(Seq<char>, YamlV)>, field: Seq<char>) -> Result<Option<YamlV>, MergeFault>
    decreases values.len(),
{
    if values.len() == 0 {
        Ok(None)
    } else {
        match merged_field(values.drop_last(), field) {
            Err(f) => Err(f),
            Ok(acc) => match merged_value(acc, values.last().1, seq![field], values.last().0) {
                Ok(v) => Ok(Some(v)),
                Err(f) => Err(f),
            },
        }
    }
}

proof fn lemma_field_err(values: Seq<(Seq<char>, YamlV)>, field: Seq<char>, k: int)
    requires
        0 <= k <= values.len(),
        merged_field(values.subrange(0, k), field) is Err,
    ensures
        merged_field(values, field) == merged_field(values.subrange(0, k), field),
    decreases values.len(),
{
    if k == values.len() {
        assert(values.subrange(0, k) =~= values);
    } else {
        assert(values.drop_last().subrange(0, k) =~= values.subrange(0, k));
        lemma_field_err(values.drop_last(), field, k);
    }
}

/// Merges a tailor field (`base` or `outputs`) across the matched fragments' values, in order;
/// `None` when no fragment sets it.
pub fn merge_field_values(values: Vec<(String, Yaml)>, field: &str) -> (r: Result<Option<Yaml>, ConfigError>)
    ensures
        match merged_field(labelled_view(values@), field@) {
            Ok(None) => r matches Ok(None),
            Ok(Some(v)) => r matches Ok(Some(y)) && y.view() == v,
            Err(f) => r is Err && merge_fault_is(r->Err_0, f),
        },
{
    let ghost vv = labelled_view(values@);
    let mut acc: Option<Yaml> = None;
    let mut i: usize = 0;
    assert(vv.subrange(0, 0) =~= Seq::<(Seq<char>, YamlV)>::empty());
    while i < values.len()
        invariant
            i <= values.len(),
            vv == labelled_view(values@),
            merged_field(vv.subrange(0, i as int), field@) == Ok::<Option<YamlV>, MergeFault>(opt_view(acc)),
        decreases values.len() - i,
    {
        assert(vv.subrange(0, i + 1).drop_last() =~= vv.subrange(0, i as int));
        assert(vv.subrange(0, i + 1).last() == vv[i as int]);
        let overlay = yaml_clone(&values[i].1);
        let prev = acc;
        match merge_field(prev, overlay, field, values[i].0.as_str()) {
            Ok(v) => {
                acc = Some(v);
            },
            Err(e) => {
                proof {
                    lemma_field_err(vv, field@, i + 1);
                }
                return Err(e);
            },
        }
        i += 1;
    }
    assert(vv.subrange(0, values@.len() as int) =~= vv);
    Ok(acc)
}

} // verus!
