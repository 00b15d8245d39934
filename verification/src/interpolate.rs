//! `${name}` interpolation: the context a cell interpolates against (its axis values, then its
//! parameters, each parameter itself interpolated against what precedes it), and the
//! substitution of every `${name}` in the string scalars of a YAML tree.
use vstd::prelude::*;
use crate::error::ConfigError;
use crate::matrix::{find_axis, lookup, row_view, Point};
use crate::text::{chars_of, copy_string, push_char, push_str, string_of_range};
use crate::yaml::{entries_view, lemma_entries_view, lemma_list_view, list_view, yaml_clone, Yaml, YamlV};

verus! {

/// Why a string cannot be interpolated: a variable the context lacks, or a `${` never closed.
/// Each carries the whole string.
pub enum InterpFault {
    Unknown { name: Seq<char>, text: Seq<char> },
    Unterminated { text: Seq<char> },
}

/// The first `}` at or after `from`.
pub open spec fn close_at(s: Seq<char>, from: int) -> Option<int>
    decreases s.len() - from,
{
    if from < 0 || from >= s.len() {
        None
    } else if s[from] == '}' {
        Some(from)
    } else {
        close_at(s, from + 1)
    }
}

proof fn lemma_close_at(s: Seq<char>, from: int)
    ensures
        close_at(s, from) matches Some(j) ==> from <= j < s.len() && s[j] == '}',
    decreases s.len() - from,
{
    if 0 <= from < s.len() && s[from] != '}' {
        lemma_close_at(s, from + 1);
    }
}

/// `s` from position `i` on, with each `${name}` replaced by the context's value for `name` (the
/// first entry of that name).
pub open spec fn interp_from(s: Seq<char>, i: int, ctx: Point) -> Result<Seq<char>, InterpFault>
    decreases s.len() - i,
{
    if i < 0 || i >= s.len() {
        Ok(Seq::empty())
    } else if i + 1 < s.len() && s[i] == '$' && s[i + 1] == '{' {
        match close_at(s, i + 2) {
            None => Err(InterpFault::Unterminated { text: s }),
            Some(j) => if j < i + 2 || j >= s.len() {
                Err(InterpFault::Unterminated { text: s })
            } else {
                match lookup(ctx, s.subrange(i + 2, j)) {
                    None => Err(InterpFault::Unknown { name: s.subrange(i + 2, j), text: s }),
                    Some(v) => match interp_from(s, j + 1, ctx) {
                        Ok(rest) => Ok(v + rest),
                        Err(f) => Err(f),
                    },
                }
            },
        }
    } else {
        match interp_from(s, i + 1, ctx) {
            Ok(rest) => Ok(seq![s[i]] + rest),
            Err(f) => Err(f),
        }
    }
}

/// Text without a `$` interpolates to itself, whatever the context: only `${…}` is substituted.
pub proof fn law_plain_text_is_unchanged(s: Seq<char>, ctx: Point)
    requires
        !s.contains('$'),
    ensures
        interp_text(s, ctx) == Ok::<Seq<char>, InterpFault>(s),
{
    lemma_plain_from(s, 0, ctx);
    assert(s.subrange(0, s.len() as int) =~= s);
}

proof fn lemma_plain_from(s: Seq<char>, i: int, ctx: Point)
    requires
        0 <= i <= s.len(),
        !s.contains('$'),
    ensures
        interp_from(s, i, ctx) == Ok::<Seq<char>, InterpFault>(s.subrange(i, s.len() as int)),
    decreases s.len() - i,
{
    if i < s.len() {
        assert(s[i] != '$') by {
            if s[i] == '$' {
                assert(s.contains('$'));
            }
        }
        lemma_plain_from(s, i + 1, ctx);
        assert(seq![s[i]] + s.subrange(i + 1, s.len() as int) =~= s.subrange(i, s.len() as int));
    } else {
        assert(s.subrange(i, s.len() as int) =~= Seq::<char>::empty());
    }
}

/// A string with every `${name}` replaced from the context.
pub open spec fn interp_text(s: Seq<char>, ctx: Point) -> Result<Seq<char>, InterpFault> {
    interp_from(s, 0, ctx)
}

/// Whether an error is the one a fault reads as.
pub open spec fn interp_fault_is(e: ConfigError, f: InterpFault) -> bool {
    match f {
        InterpFault::Unknown { name, text } => e matches ConfigError::UnknownVariable { name: n, text: t }
            && n@ == name && t@ == text,
        InterpFault::Unterminated { text } => e matches ConfigError::UnterminatedVariable { text: t } && t@ == text,
    }
}

/// Whether a result is the one a spec outcome reads as.
pub open spec fn text_outcome_is(r: Result<String, ConfigError>, o: Result<Seq<char>, InterpFault>) -> bool {
    match o {
        Ok(s) => r matches Ok(x) && x@ == s,
        Err(f) => r is Err && interp_fault_is(r->Err_0, f),
    }
}

spec fn prepend(out: Seq<char>, o: Result<Seq<char>, InterpFault>) -> Result<Seq<char>, InterpFault> {
    match o {
        Ok(r) => Ok(out + r),
        Err(f) => Err(f),
    }
}

/// The first `}` at or after `from`.
fn find_close(v: &Vec<char>, from: usize) -> (r: Option<usize>)
    ensures
        match close_at(v@, from as int) {
            Some(j) => r == Some(j as usize) && j < v@.len(),
            None => r is None,
        },
    decreases v@.len() - from,
{
    if from >= v.len() {
        None
    } else if v[from] == '}' {
        Some(from)
    } else {
        find_close(v, from + 1)
    }
}

/// `s` with every `${name}` replaced by the context's value for `name`.
pub fn interpolate_text(s: &str, ctx: &Vec<(String, String)>) -> (r: Result<String, ConfigError>)
    ensures
        text_outcome_is(r, interp_text(s@, row_view(*ctx))),
{
    let v = chars_of(s);
    let ghost sv = v@;
    let ghost cv = row_view(*ctx);
    let mut out = String::new();
    let mut i: usize = 0;
    proof {
        assert(out@ =~= Seq::<char>::empty());
        assert(prepend(out@, interp_from(sv, 0, cv)) == interp_from(sv, 0, cv)) by {
            match interp_from(sv, 0, cv) {
                Ok(r) => { assert(Seq::<char>::empty() + r =~= r); },
                Err(_) => {},
            }
        }
    }
    while i < v.len()
        invariant
            sv == v@,
            sv == s@,
            cv == row_view(*ctx),
            i <= v@.len(),
            interp_from(sv, 0, cv) == prepend(out@, interp_from(sv, i as int, cv)),
        decreases v@.len() - i,
    {
        if i + 1 < v.len() && v[i] == '$' && v[i + 1] == '{' {
            proof {
                lemma_close_at(sv, i + 2);
            }
            match find_close(&v, i + 2) {
                None => {
                    return Err(ConfigError::UnterminatedVariable { text: s.to_owned() });
                },
                Some(j) => {
                    let name = string_of_range(&v, i + 2, j);
                    match find_axis(ctx, name.as_str()) {
                        None => {
                            return Err(ConfigError::UnknownVariable { name, text: s.to_owned() });
                        },
                        Some(k) => {
                            let ghost before = out@;
                            push_str(&mut out, ctx[k].1.as_str());
                            proof {
                                match interp_from(sv, j + 1, cv) {
                                    Ok(rest) => { assert(before + (ctx@[k as int].1@ + rest) =~= out@ + rest); },
                                    Err(_) => {},
                                }
                            }
                            i = j + 1;
                        },
                    }
                },
            }
        } else {
            let ghost before = out@;
            push_char(&mut out, v[i]);
            proof {
                match interp_from(sv, i + 1, cv) {
                    Ok(rest) => { assert(before + (seq![sv[i as int]] + rest) =~= out@ + rest); },
                    Err(_) => {},
                }
            }
            i = i + 1;
        }
    }
    proof {
        assert(out@ + Seq::<char>::empty() =~= out@);
    }
    Ok(out)
}

/// The interpolation context of a cell: its axis values, then each parameter in turn, itself
/// interpolated against the axes and the parameters before it. Lookups take the first entry of a
/// name, so an axis value is never shadowed by a parameter.
pub open spec fn context_of(axes: Point, params: Point) -> Result<Point, InterpFault>
    decreases params.len(),
{
    if params.len() == 0 {
        Ok(axes)
    } else {
        match context_of(axes, params.drop_last()) {
            Err(f) => Err(f),
            Ok(ctx) => match interp_text(params.last().1, ctx) {
                Ok(v) => Ok(ctx.push((params.last().0, v))),
                Err(f) => Err(f),
            },
        }
    }
}

/// The context a cell interpolates against (see `context_of`).
pub fn interpolation_context(axes: &Vec<(String, String)>, params: &Vec<(String, String)>) -> (r: Result<Vec<(String, String)>, ConfigError>)
    ensures
        match context_of(row_view(*axes), row_view(*params)) {
            Ok(c) => r matches Ok(v) && row_view(v) == c,
            Err(f) => r is Err && interp_fault_is(r->Err_0, f),
        },
{
    let mut ctx: Vec<(String, String)> = Vec::new();
    let mut i: usize = 0;
    while i < axes.len()
        invariant
            i <= axes@.len(),
            row_view(ctx) == row_view(*axes).take(i as int),
        decreases axes@.len() - i,
    {
        let ghost before = row_view(ctx);
        ctx.push((copy_string(&axes[i].0), copy_string(&axes[i].1)));
        assert(row_view(ctx) =~= before.push((axes@[i as int].0@, axes@[i as int].1@)));
        assert(row_view(*axes).take(i + 1) =~= row_view(*axes).take(i as int).push((axes@[i as int].0@, axes@[i as int].1@)));
        i = i + 1;
    }
    assert(row_view(*axes).take(i as int) =~= row_view(*axes));
    let mut k: usize = 0;
    while k < params.len()
        invariant
            k <= params@.len(),
            context_of(row_view(*axes), row_view(*params).take(k as int)) == Ok::<Point, InterpFault>(row_view(ctx)),
        decreases params@.len() - k,
    {
        assert(row_view(*params).take(k + 1).drop_last() =~= row_view(*params).take(k as int));
        let value = match interpolate_text(params[k].1.as_str(), &ctx) {
            Ok(x) => x,
            Err(e) => {
                proof {
                    lemma_context_err(row_view(*axes), row_view(*params), k as int + 1);
                }
                return Err(e);
            },
        };
        let ghost before = row_view(ctx);
        ctx.push((copy_string(&params[k].0), value));
        assert(row_view(ctx) =~= before.push((params@[k as int].0@, value@)));
        k = k + 1;
    }
    assert(row_view(*params).take(k as int) =~= row_view(*params));
    Ok(ctx)
}

/// A failure on a prefix of the parameters is the failure of the whole.
proof fn lemma_context_err(axes: Point, params: Point, n: int)
    requires
        0 <= n <= params.len(),
        context_of(axes, params.take(n)) is Err,
    ensures
        context_of(axes, params) == context_of(axes, params.take(n)),
    decreases params.len() - n,
{
    if n < params.len() {
        assert(params.take(n + 1).drop_last() =~= params.take(n));
        lemma_context_err(axes, params, n + 1);
    } else {
        assert(params.take(n) =~= params);
    }
}

/// A YAML tree with every string scalar interpolated (mapping keys are left as written).
pub open spec fn interp_value(v: YamlV, ctx: Point) -> Result<YamlV, InterpFault>
    decreases v, 1nat,
{
    match v {
        YamlV::Str(s) => match interp_text(s, ctx) {
            Ok(x) => Ok(YamlV::Str(x)),
            Err(f) => Err(f),
        },
        YamlV::List(xs) => match interp_items(xs, ctx) {
            Ok(ys) => Ok(YamlV::List(ys)),
            Err(f) => Err(f),
        },
        YamlV::Mapping(es) => match interp_entries(es, ctx) {
            Ok(ys) => Ok(YamlV::Mapping(ys)),
            Err(f) => Err(f),
        },
        YamlV::Tagged(t, x) => match interp_value(*x, ctx) {
            Ok(y) => Ok(YamlV::Tagged(t, Box::new(y))),
            Err(f) => Err(f),
        },
        _ => Ok(v),
    }
}

/// List items interpolated in order; the first failure wins.
pub open spec fn interp_items(xs: Seq<YamlV>, ctx: Point) -> Result<Seq<YamlV>, InterpFault>
    decreases xs, 0nat,
{
    if xs.len() == 0 {
        Ok(Seq::empty())
    } else {
        match interp_items(xs.drop_last(), ctx) {
            Err(f) => Err(f),
            Ok(ys) => match interp_value(xs[xs.len() - 1], ctx) {
                Ok(y) => Ok(ys.push(y)),
                Err(f) => Err(f),
            },
        }
    }
}

/// Mapping values interpolated in order (keys kept); the first failure wins.
pub open spec fn interp_entries(es: Seq<(YamlV, YamlV)>, ctx: Point) -> Result<Seq<(YamlV, YamlV)>, InterpFault>
    decreases es, 0nat,
{
    if es.len() == 0 {
        Ok(Seq::empty())
    } else {
        match interp_entries(es.drop_last(), ctx) {
            Err(f) => Err(f),
            Ok(ys) => match interp_value(es[es.len() - 1].1, ctx) {
                Ok(y) => Ok(ys.push((es[es.len() - 1].0, y))),
                Err(f) => Err(f),
            },
        }
    }
}

/// Whether a result is the one a spec outcome reads as.
pub open spec fn yaml_outcome_is(r: Result<Yaml, ConfigError>, o: Result<YamlV, InterpFault>) -> bool {
    match o {
        Ok(v) => r matches Ok(y) && y.view() == v,
        Err(f) => r is Err && interp_fault_is(r->Err_0, f),
    }
}

/// `value` with every `${name}` in its string scalars replaced from the context.
pub fn interpolate(value: &Yaml, context: &Vec<(String, String)>) -> (r: Result<Yaml, ConfigError>)
    ensures
        yaml_outcome_is(r, interp_value(value.view(), row_view(*context))),
    decreases value,
{
    match value {
        Yaml::Str(s) => match interpolate_text(s.as_str(), context) {
            Ok(x) => Ok(Yaml::Str(x)),
            Err(e) => Err(e),
        },
        Yaml::List(xs) => {
            proof {
                lemma_list_view(xs@);
            }
            match interpolate_items(xs, context, Ghost(*value)) {
                Ok(ys) => Ok(Yaml::List(ys)),
                Err(e) => Err(e),
            }
        },
        Yaml::Mapping(es) => {
            proof {
                lemma_entries_view(es@);
            }
            match interpolate_entries(es, context, Ghost(*value)) {
                Ok(ys) => Ok(Yaml::Mapping(ys)),
                Err(e) => Err(e),
            }
        },
        Yaml::Tagged(t, x) => match interpolate(&**x, context) {
            Ok(y) => Ok(Yaml::Tagged(copy_string(t), Box::new(y))),
            Err(e) => Err(e),
        },
        _ => Ok(yaml_clone(value)),
    }
}

fn interpolate_items(xs: &Vec<Yaml>, context: &Vec<(String, String)>, Ghost(outer): Ghost<Yaml>) -> (r: Result<Vec<Yaml>, ConfigError>)
    requires
        outer == Yaml::List(*xs),
    ensures
        match interp_items(list_view(xs@), row_view(*context)) {
            Ok(ys) => r matches Ok(v) && list_view(v@) == ys,
            Err(f) => r is Err && interp_fault_is(r->Err_0, f),
        },
    decreases outer, 0nat,
{
    let ghost cv = row_view(*context);
    let mut out: Vec<Yaml> = Vec::new();
    let mut i: usize = 0;
    proof {
        lemma_list_view(xs@);
    }
    while i < xs.len()
        invariant
            i <= xs.len(),
            outer == Yaml::List(*xs),
            cv == row_view(*context),
            list_view(xs@).len() == xs@.len(),
            forall|k: int| 0 <= k < xs@.len() ==> #[trigger] list_view(xs@)[k] == xs@[k].view(),
            interp_items(list_view(xs@).take(i as int), cv) == Ok::<Seq<YamlV>, InterpFault>(list_view(out@)),
        decreases xs.len() - i,
    {
        proof {
            assert(decreases_to!(outer => outer->List_0));
            assert(decreases_to!(*xs => xs@));
            assert(decreases_to!(xs@ => xs@[i as int]));
            assert(list_view(xs@).take(i + 1).drop_last() =~= list_view(xs@).take(i as int));
            assert(list_view(xs@).take(i + 1)[i as int] == xs@[i as int].view());
        }
        match interpolate(&xs[i], context) {
            Ok(y) => {
                let ghost before = out@;
                out.push(y);
                assert(list_view(out@) == list_view(before).push(y.view())) by {
                    assert(out@.drop_last() =~= before);
                }
            },
            Err(e) => {
                proof {
                    lemma_items_err(list_view(xs@), cv, i as int + 1);
                }
                return Err(e);
            },
        }
        i = i + 1;
    }
    assert(list_view(xs@).take(i as int) =~= list_view(xs@));
    Ok(out)
}

proof fn lemma_items_err(xs: Seq<YamlV>, ctx: Point, n: int)
    requires
        0 <= n <= xs.len(),
        interp_items(xs.take(n), ctx) is Err,
    ensures
        interp_items(xs, ctx) == interp_items(xs.take(n), ctx),
    decreases xs.len() - n,
{
    if n < xs.len() {
        assert(xs.take(n + 1).drop_last() =~= xs.take(n));
        lemma_items_err(xs, ctx, n + 1);
    } else {
        assert(xs.take(n) =~= xs);
    }
}

fn interpolate_entries(es: &Vec<(Yaml, Yaml)>, context: &Vec<(String, String)>, Ghost(outer): Ghost<Yaml>) -> (r: Result<Vec<(Yaml, Yaml)>, ConfigError>)
    requires
        outer == Yaml::Mapping(*es),
    ensures
        match interp_entries(entries_view(es@), row_view(*context)) {
            Ok(ys) => r matches Ok(v) && entries_view(v@) == ys,
            Err(f) => r is Err && interp_fault_is(r->Err_0, f),
        },
    decreases outer, 0nat,
{
    let ghost cv = row_view(*context);
    let mut out: Vec<(Yaml, Yaml)> = Vec::new();
    let mut i: usize = 0;
    proof {
        lemma_entries_view(es@);
    }
    while i < es.len()
        invariant
            i <= es.len(),
            outer == Yaml::Mapping(*es),
            cv == row_view(*context),
            entries_view(es@).len() == es@.len(),
            forall|k: int| 0 <= k < es@.len() ==> #[trigger] entries_view(es@)[k] == (es@[k].0.view(), es@[k].1.view()),
            interp_entries(entries_view(es@).take(i as int), cv) == Ok::<Seq<(YamlV, YamlV)>, InterpFault>(entries_view(out@)),
        decreases es.len() - i,
    {
        proof {
            assert(decreases_to!(outer => outer->Mapping_0));
            assert(decreases_to!(*es => es@));
            assert(decreases_to!(es@ => es@[i as int]));
            assert(decreases_to!(es@[i as int] => es@[i as int].1));
            assert(entries_view(es@).take(i + 1).drop_last() =~= entries_view(es@).take(i as int));
            assert(entries_view(es@).take(i + 1)[i as int] == (es@[i as int].0.view(), es@[i as int].1.view()));
        }
        match interpolate(&es[i].1, context) {
            Ok(y) => {
                let key = yaml_clone(&es[i].0);
                let ghost before = out@;
                out.push((key, y));
                assert(entries_view(out@) == entries_view(before).push((key.view(), y.view()))) by {
                    assert(out@.drop_last() =~= before);
                }
            },
            Err(e) => {
                proof {
                    lemma_entries_err(entries_view(es@), cv, i as int + 1);
                }
                return Err(e);
            },
        }
        i = i + 1;
    }
    assert(entries_view(es@).take(i as int) =~= entries_view(es@));
    Ok(out)
}

proof fn lemma_entries_err(es: Seq<(YamlV, YamlV)>, ctx: Point, n: int)
    requires
        0 <= n <= es.len(),
        interp_entries(es.take(n), ctx) is Err,
    ensures
        interp_entries(es, ctx) == interp_entries(es.take(n), ctx),
    decreases es.len() - n,
{
    if n < es.len() {
        assert(es.take(n + 1).drop_last() =~= es.take(n));
        lemma_entries_err(es, ctx, n + 1);
    } else {
        assert(es.take(n) =~= es);
    }
}

} // verus!
