//! Deep-merge of Image Customizer config value trees with tailor's small directive vocabulary.
//!
//! Mappings deep-merge (keeping the insertion order the cell slug and goldens depend on), lists
//! **append**, and scalars **conflict** on a differing value unless overridden with `$set`.
//! `$replace` swaps an inherited list wholesale and `$remove` drops inherited list items. The
//! inclusion and `$select` directives are resolved in earlier passes and must never reach the
//! merger.
use vstd::prelude::*;
use crate::error::ConfigError;
use crate::text::{chars_of, copy_strings, include_label, include_label_string, join_strings, join_with, push_str, str_eq, views};
use crate::yaml::{yaml_clone_entries, entries_view, lemma_entries_view, lemma_list_view, list_view, same, yaml_clone, yaml_eq, Yaml, YamlV};

verus! {

/// The dotted path of a merge position, one segment per mapping key.
pub type KeyPath = Seq<Seq<char>>;

/// Mapping entries (key, value) in insertion order.
pub type Entries = Seq<(YamlV, YamlV)>;

/// What can go wrong in a merge, over plain texts.
pub enum MergeFault {
    TypeConflict { path: Seq<char>, existing_kind: Seq<char>, incoming_kind: Seq<char>, fragment: Seq<char> },
    ScalarConflict { path: Seq<char>, existing: Seq<char>, incoming: Seq<char>, fragment: Seq<char> },
    NotSole { directive: Seq<char>, path: Seq<char> },
    Shape { directive: Seq<char>, path: Seq<char>, expected: Seq<char> },
    Unsupported { directive: Seq<char>, path: Seq<char> },
    Unresolved { directive: Seq<char>, path: Seq<char> },
    Unknown { directive: Seq<char>, path: Seq<char> },
}

/// Whether a configuration error is the given merge fault.
pub open spec fn merge_fault_is(e: ConfigError, f: MergeFault) -> bool {
    match f {
        MergeFault::TypeConflict { path, existing_kind, incoming_kind, fragment } =>
            e matches ConfigError::TypeConflict { path: p, existing_kind: x, incoming_kind: y, fragment: s }
                && p@ == path && x@ == existing_kind && y@ == incoming_kind && s@ == fragment,
        MergeFault::ScalarConflict { path, existing, incoming, fragment } =>
            e matches ConfigError::ScalarConflict { path: p, existing: x, incoming: y, fragment: s }
                && p@ == path && x@ == existing && y@ == incoming && s@ == fragment,
        MergeFault::NotSole { directive, path } =>
            e matches ConfigError::DirectiveNotSole { directive: d, path: p } && d@ == directive && p@ == path,
        MergeFault::Shape { directive, path, expected } =>
            e matches ConfigError::DirectiveShape { directive: d, path: p, expected: x }
                && d@ == directive && p@ == path && x@ == expected,
        MergeFault::Unsupported { directive, path } =>
            e matches ConfigError::UnsupportedDirective { directive: d, path: p } && d@ == directive && p@ == path,
        MergeFault::Unresolved { directive, path } =>
            e matches ConfigError::UnresolvedDirective { directive: d, path: p } && d@ == directive && p@ == path,
        MergeFault::Unknown { directive, path } =>
            e matches ConfigError::UnknownDirective { directive: d, path: p } && d@ == directive && p@ == path,
    }
}

/// The path joined with dots.
pub open spec fn dotted_text(path: KeyPath) -> Seq<char> {
    join_with(path, "."@)
}

/// A value with its tags stripped.
pub open spec fn untag(v: YamlV) -> YamlV
    decreases v,
{
    match v {
        YamlV::Tagged(_, x) => untag(*x),
        _ => v,
    }
}

/// The text of a key that is a (possibly tagged) string, else the empty text.
pub open spec fn key_text(k: YamlV) -> Seq<char> {
    match untag(k) {
        YamlV::Str(s) => s,
        _ => Seq::empty(),
    }
}

/// Whether a key is a (possibly tagged) string beginning with `$`.
pub open spec fn is_dollar(k: YamlV) -> bool {
    untag(k) matches YamlV::Str(s) && s.len() > 0 && s[0] == '$'
}

/// The `$`-keys of a mapping, in order.
pub open spec fn dollar_names(es: Entries) -> Seq<Seq<char>>
    decreases es.len(),
{
    if es.len() == 0 {
        Seq::empty()
    } else if is_dollar(es.last().0) {
        dollar_names(es.drop_last()).push(key_text(es.last().0))
    } else {
        dollar_names(es.drop_last())
    }
}

/// The directive an overlay is, if any: `Ok(None)` for a plain overlay, `Ok(Some(name))` for a
/// mapping whose sole key is a `$`-key, and an error for a `$`-key beside other keys.
pub open spec fn directive_of(overlay: YamlV, path: KeyPath) -> Result<Option<Seq<char>>, MergeFault> {
    match overlay {
        YamlV::Mapping(es) => {
            let names = dollar_names(es);
            if names.len() == 0 {
                Ok(None)
            } else if names.len() == 1 {
                if es.len() > 1 {
                    Err(MergeFault::NotSole { directive: names[0], path: dotted_text(path) })
                } else {
                    Ok(Some(names[0]))
                }
            } else {
                Err(MergeFault::NotSole { directive: join_with(names, "`, `"@), path: dotted_text(path) })
            }
        },
        _ => Ok(None),
    }
}

/// The argument of a directive: the value under its key when the key is a plain string (a tagged
/// key is not found by name, so the argument is null).
pub open spec fn directive_arg(overlay: YamlV) -> YamlV {
    match overlay {
        YamlV::Mapping(es) => if es.len() > 0 && es[0].0 is Str {
            es[0].1
        } else {
            YamlV::Null
        },
        _ => YamlV::Null,
    }
}

pub open spec fn inclusion_directive() -> Seq<char> {
    seq!['$'] + include_label()
}

/// The kind of a value, as conflict messages name it.
pub open spec fn kind_text(v: YamlV) -> Seq<char> {
    match v {
        YamlV::Mapping(_) => "mapping"@,
        YamlV::List(_) => "list"@,
        YamlV::Str(_) => "string"@,
        YamlV::Number(_) => "number"@,
        YamlV::Bool(_) => "boolean"@,
        YamlV::Null => "null"@,
        YamlV::Tagged(_, _) => "tagged value"@,
    }
}

/// A scalar as conflict messages show it.
pub open spec fn scalar_text(v: YamlV) -> Seq<char> {
    match v {
        YamlV::Str(s) => s,
        YamlV::Bool(b) => if b { "true"@ } else { "false"@ },
        YamlV::Number(n) => n,
        YamlV::Null => "null"@,
        _ => "<complex>"@,
    }
}

pub open spec fn is_container_v(v: YamlV) -> bool {
    v is Mapping || v is List
}

/// The first entry whose key equals `k` (YAML equality), if any.
pub open spec fn find_key(es: Entries, k: YamlV) -> Option<int>
    decreases es.len(),
{
    if es.len() == 0 {
        None
    } else if same(k, es[0].0) {
        Some(0int)
    } else {
        match find_key(es.drop_first(), k) {
            Some(i) => Some(i + 1),
            None => None,
        }
    }
}

/// Whether `x` equals (YAML equality) some item of `drop`.
pub open spec fn listed(drop: Seq<YamlV>, x: YamlV) -> bool {
    exists|j: int| 0 <= j < drop.len() && same(#[trigger] drop[j], x)
}

/// The items not listed in `drop`, in order.
pub open spec fn kept_items(items: Seq<YamlV>, drop: Seq<YamlV>) -> Seq<YamlV>
    decreases items.len(),
{
    if items.len() == 0 {
        Seq::empty()
    } else if listed(drop, items.last()) {
        kept_items(items.drop_last(), drop)
    } else {
        kept_items(items.drop_last(), drop).push(items.last())
    }
}

/// The result of merging `overlay` onto `existing` at `path`; `source` labels the overlay's
/// fragment.
pub open spec fn merged_value(existing: Option<YamlV>, overlay: YamlV, path: KeyPath, source: Seq<char>) -> Result<YamlV, MergeFault>
    decreases overlay, 1nat,
{
    match directive_of(overlay, path) {
        Err(f) => Err(f),
        Ok(None) => merged_plain(existing, overlay, path, source),
        Ok(Some(name)) => applied_directive(name, overlay, existing, path, source),
    }
}

/// Applying the directive `name` of the directive mapping `overlay` to `existing`.
pub open spec fn applied_directive(name: Seq<char>, overlay: YamlV, existing: Option<YamlV>, path: KeyPath, source: Seq<char>) -> Result<YamlV, MergeFault>
    decreases overlay, 0nat,
{
    let arg = directive_arg(overlay);
    if name == "$set"@ {
        if arg is Null {
            Ok(YamlV::Null)
        } else {
            merged_value(None, arg, path, source)
        }
    } else if name == "$replace"@ {
        if arg is List {
            merged_value(None, arg, path, source)
        } else {
            Err(MergeFault::Shape { directive: name, path: dotted_text(path), expected: "a list"@ })
        }
    } else if name == "$remove"@ {
        match arg {
            YamlV::List(drop) => match existing {
                None => Ok(YamlV::List(Seq::empty())),
                Some(YamlV::List(items)) => Ok(YamlV::List(kept_items(items, drop))),
                Some(other) => Err(MergeFault::TypeConflict {
                    path: dotted_text(path),
                    existing_kind: kind_text(other),
                    incoming_kind: "list"@,
                    fragment: source,
                }),
            },
            _ => Err(MergeFault::Shape { directive: name, path: dotted_text(path), expected: "a list"@ }),
        }
    } else if name == "$rename"@ {
        Err(MergeFault::Unsupported { directive: name, path: dotted_text(path) })
    } else if name == inclusion_directive() || name == "$select"@ {
        Err(MergeFault::Unresolved { directive: name, path: dotted_text(path) })
    } else {
        Err(MergeFault::Unknown { directive: name, path: dotted_text(path) })
    }
}

/// Merging an overlay that is not a directive.
pub open spec fn merged_plain(existing: Option<YamlV>, overlay: YamlV, path: KeyPath, source: Seq<char>) -> Result<YamlV, MergeFault>
    decreases overlay, 0nat,
{
    match overlay {
        YamlV::Mapping(es) => match existing {
            Some(YamlV::Mapping(base)) => match merged_entries(base, es, path, source) {
                Ok(m) => Ok(YamlV::Mapping(m)),
                Err(f) => Err(f),
            },
            None => match merged_entries(Seq::empty(), es, path, source) {
                Ok(m) => Ok(YamlV::Mapping(m)),
                Err(f) => Err(f),
            },
            Some(other) => Err(MergeFault::TypeConflict {
                path: dotted_text(path),
                existing_kind: kind_text(other),
                incoming_kind: "mapping"@,
                fragment: source,
            }),
        },
        YamlV::List(items) => match existing {
            Some(YamlV::List(base)) => match merged_items(items, path, source) {
                Ok(s) => Ok(YamlV::List(base + s)),
                Err(f) => Err(f),
            },
            None => match merged_items(items, path, source) {
                Ok(s) => Ok(YamlV::List(s)),
                Err(f) => Err(f),
            },
            Some(other) => Err(MergeFault::TypeConflict {
                path: dotted_text(path),
                existing_kind: kind_text(other),
                incoming_kind: "list"@,
                fragment: source,
            }),
        },
        _ => match existing {
            None => Ok(overlay),
            Some(b) => if is_container_v(b) {
                Err(MergeFault::TypeConflict {
                    path: dotted_text(path),
                    existing_kind: kind_text(b),
                    incoming_kind: kind_text(overlay),
                    fragment: source,
                })
            } else if same(b, overlay) {
                Ok(b)
            } else {
                Err(MergeFault::ScalarConflict {
                    path: dotted_text(path),
                    existing: scalar_text(b),
                    incoming: scalar_text(overlay),
                    fragment: source,
                })
            },
        },
    }
}

/// Merging the overlay entries `es`, in order, onto the mapping entries `base`: a key already
/// present merges in place, a new key is appended.
pub open spec fn merged_entries(base: Entries, es: Entries, path: KeyPath, source: Seq<char>) -> Result<Entries, MergeFault>
    decreases es, 0nat,
{
    if es.len() == 0 {
        Ok(base)
    } else {
        match merged_entries(base, es.drop_last(), path, source) {
            Err(f) => Err(f),
            Ok(acc) => {
                let e = es[es.len() - 1];
                let sub = path.push(key_text(e.0));
                match find_key(acc, e.0) {
                    Some(i) => match merged_value(Some(acc[i].1), e.1, sub, source) {
                        Ok(m) => Ok(acc.update(i, (acc[i].0, m))),
                        Err(f) => Err(f),
                    },
                    None => match merged_value(None, e.1, sub, source) {
                        Ok(m) => Ok(acc.push((e.0, m))),
                        Err(f) => Err(f),
                    },
                }
            },
        }
    }
}

/// Merging list items onto nothing, in order.
pub open spec fn merged_items(items: Seq<YamlV>, path: KeyPath, source: Seq<char>) -> Result<Seq<YamlV>, MergeFault>
    decreases items, 0nat,
{
    if items.len() == 0 {
        Ok(Seq::empty())
    } else {
        match merged_items(items.drop_last(), path, source) {
            Err(f) => Err(f),
            Ok(s) => match merged_value(None, items[items.len() - 1], path, source) {
                Ok(x) => Ok(s.push(x)),
                Err(f) => Err(f),
            },
        }
    }
}

} // verus!

verus! {

pub proof fn lemma_find_key(es: Entries, k: YamlV)
    ensures
        find_key(es, k) matches Some(i) ==> 0 <= i < es.len() && same(k, es[i].0)
            && forall|j: int| 0 <= j < i ==> !same(k, #[trigger] es[j].0),
        find_key(es, k) is None ==> forall|j: int| 0 <= j < es.len() ==> !same(k, #[trigger] es[j].0),
    decreases es.len(),
{
    if es.len() > 0 {
        lemma_find_key(es.drop_first(), k);
        assert forall|j: int| 1 <= j < es.len() implies #[trigger] es[j] == es.drop_first()[j - 1] by {}
    }
}

proof fn lemma_entries_err_persists(base: Entries, es: Entries, k: int, path: KeyPath, source: Seq<char>)
    requires
        0 <= k <= es.len(),
        merged_entries(base, es.subrange(0, k), path, source) is Err,
    ensures
        merged_entries(base, es, path, source) == merged_entries(base, es.subrange(0, k), path, source),
    decreases es.len(),
{
    if k == es.len() {
        assert(es.subrange(0, k) =~= es);
    } else {
        assert(es.drop_last().subrange(0, k) =~= es.subrange(0, k));
        lemma_entries_err_persists(base, es.drop_last(), k, path, source);
    }
}

proof fn lemma_items_err_persists(items: Seq<YamlV>, k: int, path: KeyPath, source: Seq<char>)
    requires
        0 <= k <= items.len(),
        merged_items(items.subrange(0, k), path, source) is Err,
    ensures
        merged_items(items, path, source) == merged_items(items.subrange(0, k), path, source),
    decreases items.len(),
{
    if k == items.len() {
        assert(items.subrange(0, k) =~= items);
    } else {
        assert(items.drop_last().subrange(0, k) =~= items.subrange(0, k));
        lemma_items_err_persists(items.drop_last(), k, path, source);
    }
}

pub open spec fn opt_view(o: Option<Yaml>) -> Option<YamlV> {
    match o {
        Some(v) => Some(v.view()),
        None => None,
    }
}

/// Whether `r` is the exec form of the merge outcome `m`.
pub open spec fn outcome_is(r: Result<Yaml, ConfigError>, m: Result<YamlV, MergeFault>) -> bool {
    match m {
        Ok(v) => r is Ok && r->Ok_0.view() == v,
        Err(f) => r is Err && merge_fault_is(r->Err_0, f),
    }
}

/// Threaded state for one merge: the key path (for diagnostics) and the label of the fragment
/// supplying the overlay (for conflict messages).
pub struct Ctx {
    pub path: Vec<String>,
    pub source: String,
}

impl Ctx {
    pub open spec fn path_view(&self) -> KeyPath {
        views(self.path@)
    }

    /// The path joined with dots.
    pub fn dotted(&self) -> (r: String)
        ensures
            r@ == dotted_text(self.path_view()),
    {
        join_strings(&self.path, ".")
    }

    /// The context one mapping key deeper.
    fn child(&self, segment: String) -> (c: Ctx)
        ensures
            c.path_view() == self.path_view().push(segment@),
            c.source@ == self.source@,
    {
        let mut path = copy_strings(&self.path);
        let ghost before = path@;
        path.push(segment);
        assert(views(path@) =~= views(before).push(segment@));
        Ctx { path, source: self.source.clone() }
    }
}

fn untagged(v: &Yaml) -> (r: &Yaml)
    ensures
        r.view() == untag(v.view()),
    decreases v,
{
    match v {
        Yaml::Tagged(_, x) => untagged(&**x),
        _ => v,
    }
}

/// The text of a key (`Value::as_str`), or the empty string.
fn key_string(k: &Yaml) -> (r: String)
    ensures
        r@ == key_text(k.view()),
{
    match untagged(k) {
        Yaml::Str(s) => s.clone(),
        _ => String::new(),
    }
}

fn dollar_key(k: &Yaml) -> (r: bool)
    ensures
        r == is_dollar(k.view()),
{
    match untagged(k) {
        Yaml::Str(s) => {
            let cs = chars_of(s.as_str());
            cs.len() > 0 && cs[0] == '$'
        },
        _ => false,
    }
}

fn is_container(value: &Yaml) -> (r: bool)
    ensures
        r == is_container_v(value.view()),
{
    match value {
        Yaml::Mapping(_) => true,
        Yaml::List(_) => true,
        _ => false,
    }
}

fn kind(value: &Yaml) -> (r: String)
    ensures
        r@ == kind_text(value.view()),
{
    match value {
        Yaml::Mapping(_) => "mapping".to_owned(),
        Yaml::List(_) => "list".to_owned(),
        Yaml::Str(_) => "string".to_owned(),
        Yaml::Number(_) => "number".to_owned(),
        Yaml::Bool(_) => "boolean".to_owned(),
        Yaml::Null => "null".to_owned(),
        Yaml::Tagged(_, _) => "tagged value".to_owned(),
    }
}

fn scalar_string(value: &Yaml) -> (r: String)
    ensures
        r@ == scalar_text(value.view()),
{
    match value {
        Yaml::Str(s) => s.clone(),
        Yaml::Bool(b) => if *b { "true".to_owned() } else { "false".to_owned() },
        Yaml::Number(n) => n.clone(),
        Yaml::Null => "null".to_owned(),
        _ => "<complex>".to_owned(),
    }
}

} // verus!

verus! {

/// If `overlay` is a mapping whose sole key is a `$`-directive, its name. A `$`-key mixed with
/// other keys, or two `$`-keys, is an error.
fn extract_directive(overlay: &Yaml, ctx: &Ctx) -> (r: Result<Option<String>, ConfigError>)
    ensures
        match directive_of(overlay.view(), ctx.path_view()) {
            Ok(None) => r matches Ok(None),
            Ok(Some(n)) => r matches Ok(Some(s)) && s@ == n,
            Err(f) => r is Err && merge_fault_is(r->Err_0, f),
        },
{
    match overlay {
        Yaml::Mapping(es) => {
            proof {
                lemma_entries_view(es@);
            }
            let ghost ev = entries_view(es@);
            assert(overlay.view() == YamlV::Mapping(ev));
            let mut names: Vec<String> = Vec::new();
            let mut i: usize = 0;
            while i < es.len()
                invariant
                    i <= es.len(),
                    ev == entries_view(es@),
                    ev.len() == es.len(),
                    forall|k: int| 0 <= k < es.len() ==> #[trigger] ev[k] == (es@[k].0.view(), es@[k].1.view()),
                    views(names@) == dollar_names(ev.subrange(0, i as int)),
                decreases es.len() - i,
            {
                assert(ev.subrange(0, i + 1).drop_last() =~= ev.subrange(0, i as int));
                assert(ev.subrange(0, i + 1).last() == ev[i as int]);
                if dollar_key(&es[i].0) {
                    let ghost before = names@;
                    let n = key_string(&es[i].0);
                    names.push(n);
                    assert(views(names@) =~= views(before).push(n@));
                }
                i += 1;
            }
            assert(ev.subrange(0, es@.len() as int) =~= ev);
            if names.len() == 0 {
                Ok(None)
            } else if names.len() == 1 {
                assert(views(names@)[0] == names@[0]@);
                if es.len() > 1 {
                    Err(ConfigError::DirectiveNotSole { directive: names[0].clone(), path: ctx.dotted() })
                } else {
                    Ok(Some(names[0].clone()))
                }
            } else {
                Err(ConfigError::DirectiveNotSole { directive: join_strings(&names, "`, `"), path: ctx.dotted() })
            }
        },
        _ => Ok(None),
    }
}

/// The items of `items` that `drop` does not list, in order (each copied).
fn kept(items: &Vec<Yaml>, drop: &Vec<Yaml>) -> (out: Vec<Yaml>)
    ensures
        list_view(out@) == kept_items(list_view(items@), list_view(drop@)),
{
    proof {
        lemma_list_view(items@);
        lemma_list_view(drop@);
    }
    let ghost iv = list_view(items@);
    let ghost dv = list_view(drop@);
    let mut out: Vec<Yaml> = Vec::new();
    let mut i: usize = 0;
    while i < items.len()
        invariant
            i <= items.len(),
            iv == list_view(items@),
            dv == list_view(drop@),
            iv.len() == items.len(),
            dv.len() == drop.len(),
            forall|k: int| 0 <= k < items.len() ==> #[trigger] iv[k] == items@[k].view(),
            forall|k: int| 0 <= k < drop.len() ==> #[trigger] dv[k] == drop@[k].view(),
            list_view(out@) == kept_items(iv.subrange(0, i as int), dv),
        decreases items.len() - i,
    {
        let mut found = false;
        let mut j: usize = 0;
        while j < drop.len()
            invariant
                i < items.len(),
                j <= drop.len(),
                iv == list_view(items@),
                dv == list_view(drop@),
                iv.len() == items.len(),
                dv.len() == drop.len(),
                forall|k: int| 0 <= k < items.len() ==> #[trigger] iv[k] == items@[k].view(),
                forall|k: int| 0 <= k < drop.len() ==> #[trigger] dv[k] == drop@[k].view(),
                found == exists|t: int| 0 <= t < j && same(#[trigger] dv[t], iv[i as int]),
            decreases drop.len() - j,
        {
            let e = yaml_eq(&drop[j], &items[i]);
            proof {
                if e {
                    assert(same(dv[j as int], iv[i as int]));
                }
                if !found && !e {
                    assert forall|t: int| 0 <= t < j + 1 implies !same(#[trigger] dv[t], iv[i as int]) by {}
                }
            }
            found = found || e;
            j += 1;
        }
        assert(found == listed(dv, iv[i as int]));
        assert(iv.subrange(0, i + 1).drop_last() =~= iv.subrange(0, i as int));
        assert(iv.subrange(0, i + 1).last() == iv[i as int]);
        if !found {
            let c = yaml_clone(&items[i]);
            let ghost before = out@;
            out.push(c);
            assert(out@.drop_last() =~= before);
        }
        i += 1;
    }
    assert(iv.subrange(0, items@.len() as int) =~= iv);
    out
}

} // verus!

verus! {

/// The position of the first entry whose key equals `key`, if any.
fn find_entry(es: &Vec<(Yaml, Yaml)>, key: &Yaml) -> (r: Option<usize>)
    ensures
        match find_key(entries_view(es@), key.view()) {
            Some(i) => r matches Some(k) && k as int == i,
            None => r is None,
        },
        r matches Some(i) ==> i < es.len(),
{
    proof {
        lemma_entries_view(es@);
        lemma_find_key(entries_view(es@), key.view());
    }
    let ghost ev = entries_view(es@);
    let mut k: usize = 0;
    while k < es.len()
        invariant
            k <= es.len(),
            ev == entries_view(es@),
            ev.len() == es.len(),
            forall|t: int| 0 <= t < es.len() ==> #[trigger] ev[t] == (es@[t].0.view(), es@[t].1.view()),
            forall|t: int| 0 <= t < k ==> !same(key.view(), #[trigger] ev[t].0),
            find_key(ev, key.view()) matches Some(i) ==> 0 <= i < ev.len() && same(key.view(), ev[i].0)
                && forall|j: int| 0 <= j < i ==> !same(key.view(), #[trigger] ev[j].0),
            find_key(ev, key.view()) is None ==> forall|j: int| 0 <= j < ev.len() ==> !same(key.view(), #[trigger] ev[j].0),
        decreases es.len() - k,
    {
        if yaml_eq(key, &es[k].0) {
            assert(same(key.view(), ev[k as int].0));
            return Some(k);
        }
        k += 1;
    }
    None
}

/// Merges `overlay` onto `existing` (absent for a fresh position).
fn merge_value(existing: Option<Yaml>, overlay: &Yaml, ctx: &Ctx) -> (r: Result<Yaml, ConfigError>)
    ensures
        outcome_is(r, merged_value(opt_view(existing), overlay.view(), ctx.path_view(), ctx.source@)),
    decreases overlay, 1nat,
{
    match extract_directive(overlay, ctx) {
        Err(e) => {
            return Err(e);
        },
        Ok(Some(name)) => {
            return apply_directive(&name, overlay, existing, ctx);
        },
        Ok(None) => {},
    }
    match overlay {
        Yaml::Mapping(es) => {
            assert(decreases_to!(*overlay => overlay->Mapping_0));
            match existing {
                Some(Yaml::Mapping(base)) => match merge_mapping(base, es, ctx) {
                    Ok(m) => Ok(Yaml::Mapping(m)),
                    Err(e) => Err(e),
                },
                None => {
                    let empty: Vec<(Yaml, Yaml)> = Vec::new();
                    assert(entries_view(empty@) =~= Seq::empty());
                    match merge_mapping(empty, es, ctx) {
                        Ok(m) => Ok(Yaml::Mapping(m)),
                        Err(e) => Err(e),
                    }
                },
                Some(other) => Err(ConfigError::TypeConflict {
                    path: ctx.dotted(),
                    existing_kind: kind(&other),
                    incoming_kind: "mapping".to_owned(),
                    fragment: ctx.source.clone(),
                }),
            }
        },
        Yaml::List(items) => {
            assert(decreases_to!(*overlay => overlay->List_0));
            match existing {
                Some(Yaml::List(base)) => merge_sequence(base, items, ctx),
                None => {
                    let empty: Vec<Yaml> = Vec::new();
                    assert(list_view(empty@) =~= Seq::empty());
                    let r = merge_sequence(empty, items, ctx);
                    proof {
                        match merged_items(list_view(items@), ctx.path_view(), ctx.source@) {
                            Ok(s) => {
                                assert(Seq::<YamlV>::empty() + s =~= s);
                            },
                            Err(_) => {},
                        }
                    }
                    r
                },
                Some(other) => Err(ConfigError::TypeConflict {
                    path: ctx.dotted(),
                    existing_kind: kind(&other),
                    incoming_kind: "list".to_owned(),
                    fragment: ctx.source.clone(),
                }),
            }
        },
        _ => match existing {
            None => Ok(yaml_clone(overlay)),
            Some(b) => {
                if is_container(&b) {
                    Err(ConfigError::TypeConflict {
                        path: ctx.dotted(),
                        existing_kind: kind(&b),
                        incoming_kind: kind(overlay),
                        fragment: ctx.source.clone(),
                    })
                } else if yaml_eq(&b, overlay) {
                    Ok(b)
                } else {
                    Err(ConfigError::ScalarConflict {
                        path: ctx.dotted(),
                        existing: scalar_string(&b),
                        incoming: scalar_string(overlay),
                        fragment: ctx.source.clone(),
                    })
                }
            },
        },
    }
}

/// Merges the overlay entries, in order, onto the mapping entries `base`.
fn merge_mapping(base: Vec<(Yaml, Yaml)>, es: &Vec<(Yaml, Yaml)>, ctx: &Ctx) -> (r: Result<Vec<(Yaml, Yaml)>, ConfigError>)
    ensures
        match merged_entries(entries_view(base@), entries_view(es@), ctx.path_view(), ctx.source@) {
            Ok(m) => r is Ok && entries_view(r->Ok_0@) == m,
            Err(f) => r is Err && merge_fault_is(r->Err_0, f),
        },
    decreases es, 0nat,
{
    proof {
        lemma_entries_view(es@);
    }
    let ghost bv0 = entries_view(base@);
    let ghost ev = entries_view(es@);
    let ghost path = ctx.path_view();
    let ghost src = ctx.source@;
    let mut acc = base;
    let mut j: usize = 0;
    while j < es.len()
        invariant
            j <= es.len(),
            ev == entries_view(es@),
            ev.len() == es.len(),
            forall|k: int| 0 <= k < es.len() ==> #[trigger] ev[k] == (es@[k].0.view(), es@[k].1.view()),
            path == ctx.path_view(),
            src == ctx.source@,
            bv0 == entries_view(base@),
            merged_entries(bv0, ev.subrange(0, j as int), path, src) == Ok::<Entries, MergeFault>(entries_view(acc@)),
        decreases es.len() - j,
    {
        proof {
            lemma_entries_view(acc@);
            assert(ev.subrange(0, j + 1).drop_last() =~= ev.subrange(0, j as int));
            assert(ev.subrange(0, j + 1)[j as int] == ev[j as int]);
            assert(decreases_to!(*es => es@));
            assert(decreases_to!(es@ => es@[j as int]));
            assert(decreases_to!(es@[j as int] => es@[j as int].1));
        }
        let ghost av = entries_view(acc@);
        let seg = key_string(&es[j].0);
        let child = ctx.child(seg);
        match find_entry(&acc, &es[j].0) {
            Some(i) => {
                let ghost before = acc@;
                let (k0, old) = acc.remove(i);
                match merge_value(Some(old), &es[j].1, &child) {
                    Ok(m) => {
                        acc.insert(i, (k0, m));
                        proof {
                            lemma_entries_view(acc@);
                            assert(entries_view(acc@) =~= av.update(i as int, (av[i as int].0, m.view())));
                        }
                    },
                    Err(e) => {
                        proof {
                            let sub = ev.subrange(0, j + 1);
                            assert(sub.drop_last() =~= ev.subrange(0, j as int));
                            assert(merged_entries(bv0, sub.drop_last(), path, src) == Ok::<Entries, MergeFault>(av));
                            assert(find_key(av, ev[j as int].0) == Some(i as int));
                            assert(old.view() == av[i as int].1);
                            assert(child.path_view() == path.push(key_text(ev[j as int].0)));
                            assert(merged_value(Some(av[i as int].1), ev[j as int].1, path.push(key_text(ev[j as int].0)), src) is Err);
                            let mv = merged_value(Some(av[i as int].1), ev[j as int].1, path.push(key_text(ev[j as int].0)), src);
                            assert(es@[j as int].1.view() == ev[j as int].1);
                            assert(mv == merged_value(opt_view(Some(old)), es@[j as int].1.view(), child.path_view(), child.source@));
                            assert(mv is Err);
                            assert(merge_fault_is(e, mv->Err_0));
                            assert(merged_entries(bv0, sub, path, src) == Err::<Entries, MergeFault>(mv->Err_0));
                            lemma_entries_err_persists(bv0, ev, j + 1, path, src);
                        }
                        return Err(e);
                    },
                }
            },
            None => {
                let k0 = yaml_clone(&es[j].0);
                match merge_value(None, &es[j].1, &child) {
                    Ok(m) => {
                        acc.push((k0, m));
                        proof {
                            lemma_entries_view(acc@);
                            assert(entries_view(acc@) =~= av.push((ev[j as int].0, m.view())));
                        }
                    },
                    Err(e) => {
                        proof {
                            let sub = ev.subrange(0, j + 1);
                            assert(sub.drop_last() =~= ev.subrange(0, j as int));
                            assert(merged_entries(bv0, sub.drop_last(), path, src) == Ok::<Entries, MergeFault>(av));
                            assert(find_key(av, ev[j as int].0) is None);
                            let mv = merged_value(None, ev[j as int].1, path.push(key_text(ev[j as int].0)), src);
                            assert(es@[j as int].1.view() == ev[j as int].1);
                            assert(mv == merged_value(opt_view(None), es@[j as int].1.view(), child.path_view(), child.source@));
                            assert(mv is Err);
                            assert(merge_fault_is(e, mv->Err_0));
                            assert(merged_entries(bv0, sub, path, src) == Err::<Entries, MergeFault>(mv->Err_0));
                            lemma_entries_err_persists(bv0, ev, j + 1, path, src);
                        }
                        return Err(e);
                    },
                }
            },
        }
        j += 1;
    }
    assert(ev.subrange(0, es@.len() as int) =~= ev);
    Ok(acc)
}

/// Lists **append**: each overlay item (merged onto nothing) follows the inherited items.
fn merge_sequence(base: Vec<Yaml>, items: &Vec<Yaml>, ctx: &Ctx) -> (r: Result<Yaml, ConfigError>)
    ensures
        match merged_items(list_view(items@), ctx.path_view(), ctx.source@) {
            Ok(s) => r is Ok && r->Ok_0.view() == YamlV::List(list_view(base@) + s),
            Err(f) => r is Err && merge_fault_is(r->Err_0, f),
        },
    decreases items, 0nat,
{
    proof {
        lemma_list_view(items@);
    }
    let ghost bv = list_view(base@);
    let ghost iv = list_view(items@);
    let ghost path = ctx.path_view();
    let ghost src = ctx.source@;
    let ghost mut s: Seq<YamlV> = Seq::empty();
    let mut out = base;
    assert(list_view(out@) =~= bv + s);
    let mut j: usize = 0;
    while j < items.len()
        invariant
            j <= items.len(),
            iv == list_view(items@),
            iv.len() == items.len(),
            forall|k: int| 0 <= k < items.len() ==> #[trigger] iv[k] == items@[k].view(),
            path == ctx.path_view(),
            src == ctx.source@,
            merged_items(iv.subrange(0, j as int), path, src) == Ok::<Seq<YamlV>, MergeFault>(s),
            list_view(out@) == bv + s,
        decreases items.len() - j,
    {
        proof {
            assert(iv.subrange(0, j + 1).drop_last() =~= iv.subrange(0, j as int));
            assert(iv.subrange(0, j + 1)[j as int] == iv[j as int]);
            assert(decreases_to!(*items => items@));
            assert(decreases_to!(items@ => items@[j as int]));
        }
        match merge_value(None, &items[j], ctx) {
            Ok(x) => {
                let ghost before = out@;
                out.push(x);
                proof {
                    assert(out@.drop_last() =~= before);
                    s = s.push(x.view());
                    assert(list_view(out@) =~= bv + s);
                }
            },
            Err(e) => {
                proof {
                    lemma_items_err_persists(iv, j + 1, path, src);
                }
                return Err(e);
            },
        }
        j += 1;
    }
    assert(iv.subrange(0, items@.len() as int) =~= iv);
    Ok(Yaml::List(out))
}

/// Applies the directive `name` of the directive mapping `overlay` to `existing`.
fn apply_directive(name: &String, overlay: &Yaml, existing: Option<Yaml>, ctx: &Ctx) -> (r: Result<Yaml, ConfigError>)
    ensures
        outcome_is(r, applied_directive(name@, overlay.view(), opt_view(existing), ctx.path_view(), ctx.source@)),
    decreases overlay, 0nat,
{
    let ghost arg = directive_arg(overlay.view());
    let null_arg = Yaml::Null;
    let (has_arg, argv): (bool, &Yaml) = match overlay {
        Yaml::Mapping(es) => {
            proof {
                lemma_entries_view(es@);
            }
            if es.len() > 0 && matches!(es[0].0, Yaml::Str(_)) {
                proof {
                    assert(decreases_to!(*overlay => overlay->Mapping_0));
                    assert(decreases_to!(*es => es@));
                    assert(decreases_to!(es@ => es@[0]));
                    assert(decreases_to!(es@[0] => es@[0].1));
                }
                (true, &es[0].1)
            } else {
                (false, &null_arg)
            }
        },
        _ => (false, &null_arg),
    };
    assert(argv.view() == arg);
    if str_eq(name.as_str(), "$set") {
        if has_arg && !matches!(argv, Yaml::Null) {
            merge_value(None, argv, ctx)
        } else {
            Ok(Yaml::Null)
        }
    } else if str_eq(name.as_str(), "$replace") {
        if has_arg && matches!(argv, Yaml::List(_)) {
            merge_value(None, argv, ctx)
        } else {
            Err(ConfigError::DirectiveShape { directive: name.clone(), path: ctx.dotted(), expected: "a list".to_owned() })
        }
    } else if str_eq(name.as_str(), "$remove") {
        match argv {
            Yaml::List(drop) => match existing {
                None => {
                    let empty: Vec<Yaml> = Vec::new();
                    assert(list_view(empty@) =~= Seq::empty());
                    Ok(Yaml::List(empty))
                },
                Some(Yaml::List(items)) => Ok(Yaml::List(kept(&items, drop))),
                Some(other) => Err(ConfigError::TypeConflict {
                    path: ctx.dotted(),
                    existing_kind: kind(&other),
                    incoming_kind: "list".to_owned(),
                    fragment: ctx.source.clone(),
                }),
            },
            _ => Err(ConfigError::DirectiveShape { directive: name.clone(), path: ctx.dotted(), expected: "a list".to_owned() }),
        }
    } else if str_eq(name.as_str(), "$rename") {
        Err(ConfigError::UnsupportedDirective { directive: name.clone(), path: ctx.dotted() })
    } else {
        let inclusion = dollar_inclusion();
        if str_eq(name.as_str(), inclusion.as_str()) || str_eq(name.as_str(), "$select") {
            Err(ConfigError::UnresolvedDirective { directive: name.clone(), path: ctx.dotted() })
        } else {
            Err(ConfigError::UnknownDirective { directive: name.clone(), path: ctx.dotted() })
        }
    }
}

fn dollar_inclusion() -> (s: String)
    ensures
        s@ == inclusion_directive(),
{
    let mut s = "$".to_owned();
    proof {
        reveal_strlit("$");
    }
    push_str(&mut s, include_label_string().as_str());
    s
}

} // verus!

verus! {

/// Deep-merges `overlay` onto the `base` mapping at the config root. `source` labels the fragment
/// contributing `overlay`, so a conflict can name it. On a conflict `base` is left as it was.
pub fn merge_into(base: &mut Vec<(Yaml, Yaml)>, overlay: Vec<(Yaml, Yaml)>, source: &str) -> (r: Result<(), ConfigError>)
    ensures
        match merged_entries(entries_view(old(base)@), entries_view(overlay@), Seq::empty(), source@) {
            Ok(m) => r is Ok && entries_view(final(base)@) == m,
            Err(f) => r is Err && merge_fault_is(r->Err_0, f) && final(base)@ == old(base)@,
        },
{
    let ctx = Ctx { path: Vec::new(), source: source.to_owned() };
    assert(ctx.path_view() =~= Seq::<Seq<char>>::empty());
    let current = yaml_clone_entries(base, Ghost(Yaml::Mapping(*base)));
    proof {
        lemma_entries_view(current@);
        lemma_entries_view(base@);
        assert(entries_view(current@) =~= entries_view(base@));
    }
    match merge_mapping(current, &overlay, &ctx) {
        Ok(m) => {
            *base = m;
            Ok(())
        },
        Err(e) => Err(e),
    }
}

/// Merges one tailor field value (such as `base` or `outputs`) across fragments, honouring
/// directives; `field` names the field in diagnostics.
pub fn merge_field(existing: Option<Yaml>, overlay: Yaml, field: &str, source: &str) -> (r: Result<Yaml, ConfigError>)
    ensures
        outcome_is(r, merged_value(opt_view(existing), overlay.view(), seq![field@], source@)),
{
    let mut path: Vec<String> = Vec::new();
    path.push(field.to_owned());
    let ctx = Ctx { path, source: source.to_owned() };
    assert(ctx.path_view() =~= seq![field@]);
    merge_value(existing, &overlay, &ctx)
}

} // verus!

verus! {

/// A one-entry directive mapping `{ name: arg }`.
pub open spec fn directive(name: Seq<char>, arg: YamlV) -> YamlV {
    YamlV::Mapping(seq![(YamlV::Str(name), arg)])
}

proof fn lemma_directive_of(name: Seq<char>, arg: YamlV, path: KeyPath)
    requires
        name.len() > 0,
        name[0] == '$',
    ensures
        directive_of(directive(name, arg), path) == Ok::<Option<Seq<char>>, MergeFault>(Some(name)),
        directive_arg(directive(name, arg)) == arg,
{
    let es = seq![(YamlV::Str(name), arg)];
    assert(es.drop_last() =~= Seq::<(YamlV, YamlV)>::empty());
    assert(es.last() == (YamlV::Str(name), arg));
    assert(untag(YamlV::Str(name)) == YamlV::Str(name));
    assert(is_dollar(YamlV::Str(name)));
    assert(key_text(YamlV::Str(name)) == name);
    assert(dollar_names(es.drop_last()) =~= Seq::<Seq<char>>::empty());
    assert(dollar_names(es) =~= seq![name]);
}

proof fn lemma_items_len(items: Seq<YamlV>, path: KeyPath, source: Seq<char>)
    ensures
        merged_items(items, path, source) matches Ok(s) ==> s.len() == items.len(),
    decreases items.len(),
{
    if items.len() > 0 {
        lemma_items_len(items.drop_last(), path, source);
    }
}

/// Lists append: merging a list onto a list keeps every inherited item in place and adds one
/// item per overlay item after them.
pub proof fn law_lists_append(a: Seq<YamlV>, b: Seq<YamlV>, path: KeyPath, source: Seq<char>)
    ensures
        merged_value(Some(YamlV::List(a)), YamlV::List(b), path, source) matches Ok(r) ==> (r matches YamlV::List(out)
            && out.len() == a.len() + b.len() && out.subrange(0, a.len() as int) == a),
{
    lemma_items_len(b, path, source);
    match merged_items(b, path, source) {
        Ok(s) => {
            assert((a + s).subrange(0, a.len() as int) =~= a);
        },
        Err(_) => {},
    }
}

/// `$set` overrides whatever was inherited, without conflict: the result is its argument merged
/// onto nothing.
pub proof fn law_set_overrides(existing: Option<YamlV>, arg: YamlV, path: KeyPath, source: Seq<char>)
    ensures
        merged_value(existing, directive("$set"@, arg), path, source) == merged_value(None, arg, path, source),
{
    reveal_strlit("$set");
    lemma_directive_of("$set"@, arg, path);
    if arg is Null {
        assert(directive_of(arg, path) == Ok::<Option<Seq<char>>, MergeFault>(None));
    }
}

/// `$replace` swaps the inherited list for its argument (a list), merged onto nothing.
pub proof fn law_replace_swaps_list(existing: Option<YamlV>, items: Seq<YamlV>, path: KeyPath, source: Seq<char>)
    ensures
        merged_value(existing, directive("$replace"@, YamlV::List(items)), path, source)
            == merged_value(None, YamlV::List(items), path, source),
{
    reveal_strlit("$replace");
    reveal_strlit("$set");
    lemma_directive_of("$replace"@, YamlV::List(items), path);
    assert("$replace"@ != "$set"@) by {
        assert("$replace"@.len() != "$set"@.len());
    }
}

proof fn lemma_kept_is_filter(items: Seq<YamlV>, drop: Seq<YamlV>)
    ensures
        kept_items(items, drop) == items.filter(|x: YamlV| !listed(drop, x)),
    decreases items.len(),
{
    reveal(Seq::filter);
    if items.len() > 0 {
        lemma_kept_is_filter(items.drop_last(), drop);
    }
}

/// `$remove` keeps exactly the inherited items its argument does not list, in their order.
pub proof fn law_remove_filters(items: Seq<YamlV>, drop: Seq<YamlV>, path: KeyPath, source: Seq<char>)
    ensures
        merged_value(Some(YamlV::List(items)), directive("$remove"@, YamlV::List(drop)), path, source)
            == Ok::<YamlV, MergeFault>(YamlV::List(items.filter(|x: YamlV| !listed(drop, x)))),
{
    reveal_strlit("$remove");
    reveal_strlit("$replace");
    reveal_strlit("$set");
    lemma_directive_of("$remove"@, YamlV::List(drop), path);
    assert("$remove"@ != "$set"@) by {
        assert("$remove"@.len() != "$set"@.len());
    }
    assert("$remove"@ != "$replace"@) by {
        assert("$remove"@.len() != "$replace"@.len());
    }
    lemma_kept_is_filter(items, drop);
}

/// A scalar merged onto an equal scalar keeps it; onto a different one it is a conflict that
/// names both values and the fragment.
pub proof fn law_scalars_conflict_unless_equal(b: YamlV, o: YamlV, path: KeyPath, source: Seq<char>)
    requires
        !is_container_v(b),
        !is_container_v(o),
    ensures
        same(b, o) ==> merged_value(Some(b), o, path, source) == Ok::<YamlV, MergeFault>(b),
        !same(b, o) ==> merged_value(Some(b), o, path, source) == Err::<YamlV, MergeFault>(MergeFault::ScalarConflict {
            path: dotted_text(path),
            existing: scalar_text(b),
            incoming: scalar_text(o),
            fragment: source,
        }),
{
}

/// A mapping merge keeps the inherited keys in their insertion order; new keys follow them.
pub proof fn law_mapping_keeps_key_order(base: Entries, es: Entries, path: KeyPath, source: Seq<char>)
    ensures
        merged_entries(base, es, path, source) matches Ok(r) ==> r.len() >= base.len()
            && forall|i: int| 0 <= i < base.len() ==> #[trigger] r[i].0 == base[i].0,
    decreases es.len(),
{
    if es.len() > 0 {
        law_mapping_keeps_key_order(base, es.drop_last(), path, source);
        match merged_entries(base, es.drop_last(), path, source) {
            Ok(acc) => {
                lemma_find_key(acc, es[es.len() - 1].0);
            },
            Err(_) => {},
        }
    }
}

/// A `$`-key beside other keys is rejected, naming the directive (or all of them).
pub proof fn law_directive_must_stand_alone(existing: Option<YamlV>, es: Entries, path: KeyPath, source: Seq<char>)
    requires
        dollar_names(es).len() >= 1,
        es.len() > 1,
    ensures
        merged_value(existing, YamlV::Mapping(es), path, source) matches Err(MergeFault::NotSole { directive, path: p })
            && p == dotted_text(path),
{
}

} // verus!

verus! {

/// Mapping keys pairwise unequal (YAML equality), as in any parsed mapping.
pub open spec fn distinct_keys_v(es: Entries) -> bool {
    forall|i: int, j: int| 0 <= i < es.len() && 0 <= j < es.len() && i != j ==> !same(#[trigger] es[i].0, #[trigger] es[j].0)
}

/// A value with no `$`-key anywhere in its mappings and listed items, and distinct mapping keys.
pub open spec fn plain_tree(v: YamlV) -> bool
    decreases v,
{
    match v {
        YamlV::Mapping(es) => dollar_names(es).len() == 0 && distinct_keys_v(es)
            && forall|i: int| 0 <= i < es.len() ==> plain_tree(#[trigger] es[i].1),
        YamlV::List(items) => forall|i: int| 0 <= i < items.len() ==> plain_tree(#[trigger] items[i]),
        _ => true,
    }
}

proof fn lemma_plain_value(v: YamlV, path: KeyPath, source: Seq<char>)
    requires
        plain_tree(v),
    ensures
        merged_value(None, v, path, source) == Ok::<YamlV, MergeFault>(v),
    decreases v, 1nat,
{
    match v {
        YamlV::Mapping(es) => {
            lemma_plain_entries(es, path, source);
            assert(es.subrange(0, es.len() as int) =~= es);
        },
        YamlV::List(items) => {
            lemma_plain_items(items, path, source);
        },
        _ => {},
    }
}

proof fn lemma_plain_entries(es: Entries, path: KeyPath, source: Seq<char>)
    requires
        distinct_keys_v(es),
        forall|i: int| 0 <= i < es.len() ==> plain_tree(#[trigger] es[i].1),
    ensures
        merged_entries(Seq::empty(), es, path, source) == Ok::<Entries, MergeFault>(es),
    decreases es, 0nat,
{
    if es.len() > 0 {
        let init = es.drop_last();
        assert forall|i: int, j: int| 0 <= i < init.len() && 0 <= j < init.len() && i != j
            implies !same(#[trigger] init[i].0, #[trigger] init[j].0) by {
            assert(init[i] == es[i] && init[j] == es[j]);
        }
        assert forall|i: int| 0 <= i < init.len() implies plain_tree(#[trigger] init[i].1) by {
            assert(init[i] == es[i]);
        }
        lemma_plain_entries(init, path, source);
        let e = es[es.len() - 1];
        lemma_find_key(init, e.0);
        if find_key(init, e.0) is Some {
            let i = find_key(init, e.0)->0;
            assert(init[i] == es[i]);
            assert(!same(es[es.len() - 1].0, es[i].0));
        }
        assert(decreases_to!(es => es[es.len() - 1]));
        lemma_plain_value(e.1, path.push(key_text(e.0)), source);
        assert(init.push(e) =~= es);
    } else {
        assert(es =~= Seq::<(YamlV, YamlV)>::empty());
    }
}

proof fn lemma_plain_items(items: Seq<YamlV>, path: KeyPath, source: Seq<char>)
    requires
        forall|i: int| 0 <= i < items.len() ==> plain_tree(#[trigger] items[i]),
    ensures
        merged_items(items, path, source) == Ok::<Seq<YamlV>, MergeFault>(items),
    decreases items, 0nat,
{
    if items.len() > 0 {
        let init = items.drop_last();
        assert forall|i: int| 0 <= i < init.len() implies plain_tree(#[trigger] init[i]) by {
            assert(init[i] == items[i]);
        }
        lemma_plain_items(init, path, source);
        lemma_plain_value(items[items.len() - 1], path, source);
        assert(init.push(items[items.len() - 1]) =~= items);
    } else {
        assert(items =~= Seq::<YamlV>::empty());
    }
}

/// A directive-free value merged onto nothing is itself: the first fragment to set a position
/// sets it verbatim.
pub proof fn law_plain_onto_nothing(v: YamlV, path: KeyPath, source: Seq<char>)
    requires
        plain_tree(v),
    ensures
        merged_value(None, v, path, source) == Ok::<YamlV, MergeFault>(v),
{
    lemma_plain_value(v, path, source);
}

} // verus!
