//! Rendering one matrix cell: the fragments that apply to it, their parameters merged into the
//! interpolation context, their `config:` deltas (with `$include`s spliced) merged and
//! interpolated, their `base:` merged, interpolated and checked to name one kind, their
//! `outputs:` merged, and their RPM sources joined. The typed reading of the base and outputs is
//! the caller's.
use vstd::prelude::*;
use crate::error::ConfigError;
use crate::fragment::{matched_fragments, matching, LoadedFragment};
use crate::interpolate::{context_of, interp_fault_is, interp_value, interpolate, interpolation_context, InterpFault};
use crate::matrix::{row_view, AxisTuple, Point};
use crate::merge::{merge_fault_is, Entries, MergeFault};
use crate::render::{
    base_kinds, cell_label_text, ensure_single_base_kind, labelled_view, merge_config, merge_field_values, merge_params,
    merged_config, merged_field, merged_params, param_pairs, param_text, slug, ParamClash, CONFIG_NOT_MAPPING,
};
use crate::splice::{loaded_view, splice_includes, spliced};
use crate::text::{copy_string, join_with, views};
use crate::types::ParamValue;
use crate::yaml::{yaml_clone, Yaml, YamlV};

verus! {

/// A rendered cell before the typed reading of its base and outputs.
#[derive(Debug)]
pub struct CellDraft {
    pub tuple: AxisTuple,
    /// The merged, spliced and interpolated Image Customizer config.
    pub ic_config: Yaml,
    /// The merged and interpolated base, naming exactly one kind.
    pub base: Yaml,
    /// The merged outputs, if any fragment sets them.
    pub outputs: Option<Yaml>,
    /// The matched fragments' RPM sources, in order.
    pub rpm_sources: Vec<String>,
}

/// A draft as plain values: (config, base, outputs, RPM sources).
pub type DraftV = (YamlV, YamlV, Option<YamlV>, Seq<Seq<char>>);

/// Why a cell does not render.
pub enum RenderFault {
    Param(ParamClash),
    Interp(InterpFault),
    Include(Seq<char>),
    Config(Option<MergeFault>),
    Field(MergeFault),
    MissingBase,
    AmbiguousBase(Seq<Seq<char>>),
}

/// Whether an error is the one a fault reads as, for the cell labelled `slug`.
pub open spec fn render_fault_is(e: ConfigError, f: RenderFault, slug: Seq<char>) -> bool {
    match f {
        RenderFault::Param(c) => e matches ConfigError::ParamConflict { name, existing, incoming }
            && name@ == c.0 && existing@ == c.1 && incoming@ == c.2,
        RenderFault::Interp(i) => interp_fault_is(e, i),
        RenderFault::Include(p) => e matches ConfigError::IncludeNotLoaded { path } && path@ == p,
        RenderFault::Config(Some(m)) => merge_fault_is(e, m),
        RenderFault::Config(None) => e matches ConfigError::InvalidField { slug: s, field, detail }
            && s@ == slug && field@ == "config"@ && detail@ == CONFIG_NOT_MAPPING@,
        RenderFault::Field(m) => merge_fault_is(e, m),
        RenderFault::MissingBase => e matches ConfigError::MissingBase { slug: s } && s@ == slug,
        RenderFault::AmbiguousBase(kinds) => e matches ConfigError::AmbiguousBase { slug: s, kinds: k }
            && s@ == slug && k@ == join_with(kinds, ", "@),
    }
}

/// The parameters of the fragments at positions `m`, in order, as (name, text).
pub open spec fn params_of(fs: Seq<LoadedFragment>, m: Seq<int>) -> Seq<(Seq<char>, Seq<char>)>
    decreases m.len(),
{
    if m.len() == 0 {
        Seq::empty()
    } else {
        params_of(fs, m.drop_last()) + fs[m.last()].doc.params@.map_values(|e: (String, ParamValue)| (e.0@, param_text(e.1)))
    }
}

/// The `config:` deltas of the fragments at positions `m`, each with its `$include`s spliced,
/// labelled by fragment; the first path not loaded is the error.
pub open spec fn spliced_configs(fs: Seq<LoadedFragment>, m: Seq<int>, loaded: Seq<(Seq<char>, YamlV)>) -> Result<Seq<(Seq<char>, YamlV)>, Seq<char>>
    decreases m.len(),
{
    if m.len() == 0 {
        Ok(Seq::empty())
    } else {
        match spliced_configs(fs, m.drop_last(), loaded) {
            Err(p) => Err(p),
            Ok(acc) => match fs[m.last()].doc.config {
                None => Ok(acc),
                Some(c) => match spliced(c.view(), loaded) {
                    Ok(y) => Ok(acc.push((fs[m.last()].label@, y))),
                    Err(p) => Err(p),
                },
            },
        }
    }
}

/// The `base:` values of the fragments at positions `m`, labelled.
pub open spec fn base_values(fs: Seq<LoadedFragment>, m: Seq<int>) -> Seq<(Seq<char>, YamlV)>
    decreases m.len(),
{
    if m.len() == 0 {
        Seq::empty()
    } else {
        base_values(fs, m.drop_last()) + match fs[m.last()].doc.base {
            Some(b) => seq![(fs[m.last()].label@, b.view())],
            None => Seq::empty(),
        }
    }
}

/// The `outputs:` values of the fragments at positions `m`, labelled.
pub open spec fn output_values(fs: Seq<LoadedFragment>, m: Seq<int>) -> Seq<(Seq<char>, YamlV)>
    decreases m.len(),
{
    if m.len() == 0 {
        Seq::empty()
    } else {
        output_values(fs, m.drop_last()) + match fs[m.last()].doc.outputs {
            Some(b) => seq![(fs[m.last()].label@, b.view())],
            None => Seq::empty(),
        }
    }
}

/// The RPM sources of the fragments at positions `m`, in order.
pub open spec fn rpm_sources_of(fs: Seq<LoadedFragment>, m: Seq<int>) -> Seq<Seq<char>>
    decreases m.len(),
{
    if m.len() == 0 {
        Seq::empty()
    } else {
        rpm_sources_of(fs, m.drop_last()) + views(fs[m.last()].doc.rpm_sources@)
    }
}

/// What a cell renders to (see the module documentation), or why it does not.
pub open spec fn rendered_of(fs: Seq<LoadedFragment>, axes: Point, features: Seq<Seq<char>>, loaded: Seq<(Seq<char>, YamlV)>) -> Result<DraftV, RenderFault> {
    let m = matching(fs, axes, features);
    match merged_params(params_of(fs, m)) {
        Err(c) => Err(RenderFault::Param(c)),
        Ok(params) => match context_of(axes, params) {
            Err(f) => Err(RenderFault::Interp(f)),
            Ok(ctx) => match spliced_configs(fs, m, loaded) {
                Err(p) => Err(RenderFault::Include(p)),
                Ok(deltas) => match merged_config(deltas) {
                    Err(f) => Err(RenderFault::Config(f)),
                    Ok(cfg) => match interp_value(YamlV::Mapping(cfg), ctx) {
                        Err(f) => Err(RenderFault::Interp(f)),
                        Ok(config) => match merged_field(base_values(fs, m), "base"@) {
                            Err(f) => Err(RenderFault::Field(f)),
                            Ok(None) => Err(RenderFault::MissingBase),
                            Ok(Some(b)) => match interp_value(b, ctx) {
                                Err(f) => Err(RenderFault::Interp(f)),
                                Ok(base) => if base_kinds(base).len() == 0 {
                                    Err(RenderFault::MissingBase)
                                } else if base_kinds(base).len() > 1 {
                                    Err(RenderFault::AmbiguousBase(base_kinds(base)))
                                } else {
                                    match merged_field(output_values(fs, m), "outputs"@) {
                                        Err(f) => Err(RenderFault::Field(f)),
                                        Ok(outs) => Ok((config, base, outs, rpm_sources_of(fs, m))),
                                    }
                                },
                            },
                        },
                    },
                },
            },
        },
    }
}

/// A draft as plain values.
pub open spec fn draft_view(d: CellDraft) -> DraftV {
    (d.ic_config.view(), d.base.view(), match d.outputs {
        Some(o) => Some(o.view()),
        None => None,
    }, views(d.rpm_sources@))
}

fn param_copy(v: &ParamValue) -> (r: ParamValue)
    ensures
        param_text(r) == param_text(*v),
{
    match v {
        ParamValue::Bool(b) => ParamValue::Bool(*b),
        ParamValue::Int(i) => ParamValue::Int(*i),
        ParamValue::Float(f) => ParamValue::Float(copy_string(f)),
        ParamValue::Str(s) => ParamValue::Str(copy_string(s)),
    }
}

/// A parameter as (name, text).
pub open spec fn param_entry(e: (String, ParamValue)) -> (Seq<char>, Seq<char>) {
    (e.0@, param_text(e.1))
}

fn params_copy(ps: &Vec<(String, ParamValue)>) -> (r: Vec<(String, ParamValue)>)
    ensures
        r@.map_values(|e: (String, ParamValue)| (e.0@, param_text(e.1)))
            == ps@.map_values(|e: (String, ParamValue)| (e.0@, param_text(e.1))),
{
    let mut r: Vec<(String, ParamValue)> = Vec::new();
    let mut i: usize = 0;
    while i < ps.len()
        invariant
            i <= ps@.len(),
            r@.len() == i,
            forall|j: int| 0 <= j < i ==> #[trigger] param_entry(r@[j]) == param_entry(ps@[j]),
        decreases ps@.len() - i,
    {
        let a = copy_string(&ps[i].0);
        let b = param_copy(&ps[i].1);
        r.push((a, b));
        i = i + 1;
    }
    let ghost rv = r@.map_values(|e: (String, ParamValue)| (e.0@, param_text(e.1)));
    let ghost pv = ps@.map_values(|e: (String, ParamValue)| (e.0@, param_text(e.1)));
    assert forall|j: int| 0 <= j < rv.len() implies #[trigger] rv[j] == pv[j] by {
        assert(param_entry(r@[j]) == param_entry(ps@[j]));
    }
    assert(rv =~= pv);
    r
}

proof fn lemma_spliced_err(fs: Seq<LoadedFragment>, m: Seq<int>, loaded: Seq<(Seq<char>, YamlV)>, n: int)
    requires
        0 <= n <= m.len(),
        spliced_configs(fs, m.take(n), loaded) is Err,
    ensures
        spliced_configs(fs, m, loaded) == spliced_configs(fs, m.take(n), loaded),
    decreases m.len() - n,
{
    if n < m.len() {
        assert(m.take(n + 1).drop_last() =~= m.take(n));
        lemma_spliced_err(fs, m, loaded, n + 1);
    } else {
        assert(m.take(n) =~= m);
    }
}

/// Renders one cell of the image `name` from its fragments (in plan order), the image's enabled
/// features, and the documents its `$include`s name (path, document).
pub fn render_cell(name: &str, fragments: &Vec<LoadedFragment>, tuple: AxisTuple, features: &Vec<String>, loaded: &Vec<(String, Yaml)>) -> (r: Result<CellDraft, ConfigError>)
    ensures
        match rendered_of(fragments@, row_view(tuple.values), views(features@), loaded_view(loaded@)) {
            Ok(d) => r matches Ok(c) && draft_view(c) == d && row_view(c.tuple.values) == row_view(tuple.values),
            Err(f) => r is Err && render_fault_is(r->Err_0, f, cell_label_text(name@, row_view(tuple.values))),
        },
{
    let ghost fs = fragments@;
    let ghost lv = loaded_view(loaded@);
    let label = slug(name, &tuple);
    let matched = matched_fragments(fragments, &tuple.values, features);
    let ghost m = matched@.map_values(|i: usize| i as int);
    proof {
        crate::fragment::lemma_matching_bounds(fs, row_view(tuple.values), views(features@));
    }

    // Parameters, base, outputs and RPM sources of the matched fragments, in order.
    let mut groups: Vec<Vec<(String, ParamValue)>> = Vec::new();
    let mut bases: Vec<(String, Yaml)> = Vec::new();
    let mut outputs: Vec<(String, Yaml)> = Vec::new();
    let mut rpm_sources: Vec<String> = Vec::new();
    let mut k: usize = 0;
    while k < matched.len()
        invariant
            k <= matched@.len(),
            fs == fragments@,
            m == matched@.map_values(|i: usize| i as int),
            forall|j: int| 0 <= j < m.len() ==> 0 <= #[trigger] m[j] < fs.len(),
            param_pairs(groups@) == params_of(fs, m.take(k as int)),
            labelled_view(bases@) == base_values(fs, m.take(k as int)),
            labelled_view(outputs@) == output_values(fs, m.take(k as int)),
            views(rpm_sources@) == rpm_sources_of(fs, m.take(k as int)),
        decreases matched@.len() - k,
    {
        let i = matched[k];
        assert(m[k as int] == i as int);
        assert(m.take(k + 1).drop_last() =~= m.take(k as int));
        assert(m.take(k + 1).last() == i as int);
        let f = &fragments[i];
        let ghost g0 = groups@;
        groups.push(params_copy(&f.doc.params));
        assert(groups@.drop_last() =~= g0);
        let ghost b0 = bases@;
        match &f.doc.base {
            Some(b) => {
                bases.push((copy_string(&f.label), yaml_clone(b)));
                assert(labelled_view(bases@) =~= labelled_view(b0) + seq![(f.label@, b.view())]);
            },
            None => {
                assert(labelled_view(bases@) =~= labelled_view(b0) + Seq::<(Seq<char>, YamlV)>::empty());
            },
        }
        let ghost o0 = outputs@;
        match &f.doc.outputs {
            Some(o) => {
                outputs.push((copy_string(&f.label), yaml_clone(o)));
                assert(labelled_view(outputs@) =~= labelled_view(o0) + seq![(f.label@, o.view())]);
            },
            None => {
                assert(labelled_view(outputs@) =~= labelled_view(o0) + Seq::<(Seq<char>, YamlV)>::empty());
            },
        }
        let ghost r0 = views(rpm_sources@);
        let mut more = crate::text::copy_strings(&f.doc.rpm_sources);
        let ghost mv = views(more@);
        rpm_sources.append(&mut more);
        assert(views(rpm_sources@) =~= r0 + mv);
        k = k + 1;
    }
    assert(m.take(k as int) =~= m);

    let params = merge_params(&groups)?;
    let ghost pv = row_view(params);
    let context = interpolation_context(&tuple.values, &params)?;

    // Config deltas, with their `$include`s spliced.
    let mut deltas: Vec<(String, Yaml)> = Vec::new();
    let mut k: usize = 0;
    assert(m.take(0) =~= Seq::<int>::empty());
    assert(labelled_view(deltas@) =~= Seq::<(Seq<char>, YamlV)>::empty());
    while k < matched.len()
        invariant
            k <= matched@.len(),
            fs == fragments@,
            lv == loaded_view(loaded@),
            m == matched@.map_values(|i: usize| i as int),
            m == matching(fs, row_view(tuple.values), views(features@)),
            match merged_params(params_of(fs, m)) {
                Ok(p) => context_of(row_view(tuple.values), p) is Ok,
                Err(_) => false,
            },
            forall|j: int| 0 <= j < m.len() ==> 0 <= #[trigger] m[j] < fs.len(),
            spliced_configs(fs, m.take(k as int), lv) == Ok::<Seq<(Seq<char>, YamlV)>, Seq<char>>(labelled_view(deltas@)),
        decreases matched@.len() - k,
    {
        let i = matched[k];
        assert(m[k as int] == i as int);
        assert(m.take(k + 1).drop_last() =~= m.take(k as int));
        assert(m.take(k + 1).last() == i as int);
        let f = &fragments[i];
        match &f.doc.config {
            Some(c) => match splice_includes(c, loaded) {
                Ok(y) => {
                    let ghost d0 = deltas@;
                    deltas.push((copy_string(&f.label), y));
                    assert(labelled_view(deltas@) =~= labelled_view(d0).push((f.label@, y.view())));
                },
                Err(e) => {
                    proof {
                        lemma_spliced_err(fs, m, lv, k as int + 1);
                    }
                    return Err(e);
                },
            },
            None => {},
        }
        k = k + 1;
    }
    assert(m.take(k as int) =~= m);

    let merged = merge_config(deltas, &label)?;
    let ic_config = interpolate(&Yaml::Mapping(merged), &context)?;
    let merged_base = match merge_field_values(bases, "base")? {
        Some(b) => b,
        None => {
            return Err(ConfigError::MissingBase { slug: label });
        },
    };
    let base = interpolate(&merged_base, &context)?;
    ensure_single_base_kind(&base, &label)?;
    let outputs = merge_field_values(outputs, "outputs")?;
    Ok(CellDraft { tuple, ic_config, base, outputs, rpm_sources })
}

} // verus!
