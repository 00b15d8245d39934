//! `$include` splicing: a mapping whose only key is `$include` with a path string stands for the
//! YAML document at that path (relative to the image directory). The caller reads the files that
//! `include_requests` names; `splice_includes` puts their documents in place.
use vstd::prelude::*;
use crate::error::ConfigError;
use crate::text::{copy_string, str_eq};
use crate::yaml::{entries_view, lemma_entries_view, lemma_list_view, list_view, yaml_clone, Yaml, YamlV};

verus! {

/// The directive key that splices a file.
pub const INCLUDE_KEY: &'static str = "$include";

/// The path a value splices, when it is an `$include` node.
pub open spec fn include_of(v: YamlV) -> Option<Seq<char>> {
    match v {
        YamlV::Mapping(es) => if es.len() == 1 && es[0].0 == YamlV::Str(INCLUDE_KEY@) {
            match es[0].1 {
                YamlV::Str(p) => Some(p),
                _ => None,
            }
        } else {
            None
        },
        _ => None,
    }
}

/// The paths a tree splices, in document order (an `$include` node is not looked into).
pub open spec fn includes_in(v: YamlV) -> Seq<Seq<char>>
    decreases v, 1nat,
{
    match include_of(v) {
        Some(p) => seq![p],
        None => match v {
            YamlV::List(xs) => includes_in_items(xs),
            YamlV::Mapping(es) => includes_in_entries(es),
            YamlV::Tagged(_, x) => includes_in(*x),
            _ => Seq::empty(),
        },
    }
}

pub open spec fn includes_in_items(xs: Seq<YamlV>) -> Seq<Seq<char>>
    decreases xs, 0nat,
{
    if xs.len() == 0 {
        Seq::empty()
    } else {
        includes_in_items(xs.drop_last()) + includes_in(xs[xs.len() - 1])
    }
}

pub open spec fn includes_in_entries(es: Seq<(YamlV, YamlV)>) -> Seq<Seq<char>>
    decreases es, 0nat,
{
    if es.len() == 0 {
        Seq::empty()
    } else {
        includes_in_entries(es.drop_last()) + includes_in(es[es.len() - 1].1)
    }
}

/// Whether a YAML value is the `$include` node for a path; its path.
fn include_path(v: &Yaml) -> (r: Option<String>)
    ensures
        match include_of(v.view()) {
            Some(p) => r matches Some(s) && s@ == p,
            None => r is None,
        },
{
    match v {
        Yaml::Mapping(es) => {
            proof {
                lemma_entries_view(es@);
            }
            if es.len() == 1 {
                let is_key = match &es[0].0 {
                    Yaml::Str(k) => {
                        proof {
                            reveal_strlit("$include");
                        }
                        str_eq(k.as_str(), INCLUDE_KEY)
                    },
                    _ => false,
                };
                if is_key {
                    match &es[0].1 {
                        Yaml::Str(p) => Some(copy_string(p)),
                        _ => None,
                    }
                } else {
                    None
                }
            } else {
                None
            }
        },
        _ => None,
    }
}

/// The paths `delta` splices, in document order.
pub fn include_requests(delta: &Yaml) -> (r: Vec<String>)
    ensures
        crate::text::views(r@) == includes_in(delta.view()),
    decreases delta,
{
    match include_path(delta) {
        Some(p) => {
            let mut r: Vec<String> = Vec::new();
            r.push(p);
            assert(crate::text::views(r@) =~= seq![p@]);
            r
        },
        None => match delta {
            Yaml::List(xs) => {
                let mut r: Vec<String> = Vec::new();
                let mut i: usize = 0;
                proof {
                    lemma_list_view(xs@);
                }
                while i < xs.len()
                    invariant
                        i <= xs.len(),
                        *delta == Yaml::List(*xs),
                        list_view(xs@).len() == xs@.len(),
                        forall|k: int| 0 <= k < xs@.len() ==> #[trigger] list_view(xs@)[k] == xs@[k].view(),
                        crate::text::views(r@) == includes_in_items(list_view(xs@).take(i as int)),
                    decreases xs.len() - i,
                {
                    proof {
                        assert(decreases_to!(*delta => delta->List_0));
                        assert(decreases_to!(*xs => xs@));
                        assert(decreases_to!(xs@ => xs@[i as int]));
                        assert(list_view(xs@).take(i + 1).drop_last() =~= list_view(xs@).take(i as int));
                        assert(list_view(xs@).take(i + 1)[i as int] == xs@[i as int].view());
                    }
                    let mut more = include_requests(&xs[i]);
                    let ghost a = crate::text::views(r@);
                    let ghost b = crate::text::views(more@);
                    r.append(&mut more);
                    assert(crate::text::views(r@) =~= a + b);
                    i = i + 1;
                }
                assert(list_view(xs@).take(i as int) =~= list_view(xs@));
                r
            },
            Yaml::Mapping(es) => {
                let mut r: Vec<String> = Vec::new();
                let mut i: usize = 0;
                proof {
                    lemma_entries_view(es@);
                }
                while i < es.len()
                    invariant
                        i <= es.len(),
                        *delta == Yaml::Mapping(*es),
                        entries_view(es@).len() == es@.len(),
                        forall|k: int| 0 <= k < es@.len() ==> #[trigger] entries_view(es@)[k] == (es@[k].0.view(), es@[k].1.view()),
                        crate::text::views(r@) == includes_in_entries(entries_view(es@).take(i as int)),
                    decreases es.len() - i,
                {
                    proof {
                        assert(decreases_to!(*delta => delta->Mapping_0));
                        assert(decreases_to!(*es => es@));
                        assert(decreases_to!(es@ => es@[i as int]));
                        assert(decreases_to!(es@[i as int] => es@[i as int].1));
                        assert(entries_view(es@).take(i + 1).drop_last() =~= entries_view(es@).take(i as int));
                        assert(entries_view(es@).take(i + 1)[i as int] == (es@[i as int].0.view(), es@[i as int].1.view()));
                    }
                    let mut more = include_requests(&es[i].1);
                    let ghost a = crate::text::views(r@);
                    let ghost b = crate::text::views(more@);
                    r.append(&mut more);
                    assert(crate::text::views(r@) =~= a + b);
                    i = i + 1;
                }
                assert(entries_view(es@).take(i as int) =~= entries_view(es@));
                r
            },
            Yaml::Tagged(_, x) => include_requests(&**x),
            _ => Vec::new(),
        },
    }
}

/// The document loaded for a path (the first entry for it).
pub open spec fn loaded_doc(loaded: Seq<(Seq<char>, YamlV)>, path: Seq<char>) -> Option<YamlV>
    decreases loaded.len(),
{
    if loaded.len() == 0 {
        None
    } else if loaded[0].0 == path {
        Some(loaded[0].1)
    } else {
        loaded_doc(loaded.drop_first(), path)
    }
}

/// The loaded documents as plain values.
pub open spec fn loaded_view(loaded: Seq<(String, Yaml)>) -> Seq<(Seq<char>, YamlV)> {
    loaded.map_values(|e: (String, Yaml)| (e.0@, e.1.view()))
}

/// A tree with each `$include` node replaced by its loaded document; the first path not loaded,
/// in document order, is the error.
pub open spec fn spliced(v: YamlV, loaded: Seq<(Seq<char>, YamlV)>) -> Result<YamlV, Seq<char>>
    decreases v, 1nat,
{
    match include_of(v) {
        Some(p) => match loaded_doc(loaded, p) {
            Some(d) => Ok(d),
            None => Err(p),
        },
        None => match v {
            YamlV::List(xs) => match spliced_items(xs, loaded) {
                Ok(ys) => Ok(YamlV::List(ys)),
                Err(p) => Err(p),
            },
            YamlV::Mapping(es) => match spliced_entries(es, loaded) {
                Ok(ys) => Ok(YamlV::Mapping(ys)),
                Err(p) => Err(p),
            },
            YamlV::Tagged(t, x) => match spliced(*x, loaded) {
                Ok(y) => Ok(YamlV::Tagged(t, Box::new(y))),
                Err(p) => Err(p),
            },
            _ => Ok(v),
        },
    }
}

pub open spec fn spliced_items(xs: Seq<YamlV>, loaded: Seq<(Seq<char>, YamlV)>) -> Result<Seq<YamlV>, Seq<char>>
    decreases xs, 0nat,
{
    if xs.len() == 0 {
        Ok(Seq::empty())
    } else {
        match spliced_items(xs.drop_last(), loaded) {
            Err(p) => Err(p),
            Ok(ys) => match spliced(xs[xs.len() - 1], loaded) {
                Ok(y) => Ok(ys.push(y)),
                Err(p) => Err(p),
            },
        }
    }
}

pub open spec fn spliced_entries(es: Seq<(YamlV, YamlV)>, loaded: Seq<(Seq<char>, YamlV)>) -> Result<Seq<(YamlV, YamlV)>, Seq<char>>
    decreases es, 0nat,
{
    if es.len() == 0 {
        Ok(Seq::empty())
    } else {
        match spliced_entries(es.drop_last(), loaded) {
            Err(p) => Err(p),
            Ok(ys) => match spliced(es[es.len() - 1].1, loaded) {
                Ok(y) => Ok(ys.push((es[es.len() - 1].0, y))),
                Err(p) => Err(p),
            },
        }
    }
}

/// Whether a result is the one a spec outcome reads as.
pub open spec fn splice_outcome_is(r: Result<Yaml, ConfigError>, o: Result<YamlV, Seq<char>>) -> bool {
    match o {
        Ok(v) => r matches Ok(y) && y.view() == v,
        Err(p) => r matches Err(ConfigError::IncludeNotLoaded { path }) && path@ == p,
    }
}

fn find_loaded(loaded: &Vec<(String, Yaml)>, path: &str) -> (r: Option<usize>)
    ensures
        match r {
            Some(i) => i < loaded@.len() && loaded_doc(loaded_view(loaded@), path@) == Some(loaded@[i as int].1.view()),
            None => loaded_doc(loaded_view(loaded@), path@) is None,
        },
{
    let ghost lv = loaded_view(loaded@);
    let mut i: usize = 0;
    assert(lv.subrange(0, lv.len() as int) =~= lv);
    while i < loaded.len()
        invariant
            i <= loaded@.len(),
            lv == loaded_view(loaded@),
            loaded_doc(lv, path@) == loaded_doc(lv.subrange(i as int, lv.len() as int), path@),
        decreases loaded@.len() - i,
    {
        assert(lv.subrange(i as int, lv.len() as int).drop_first() =~= lv.subrange(i + 1, lv.len() as int));
        if str_eq(loaded[i].0.as_str(), path) {
            return Some(i);
        }
        i = i + 1;
    }
    None
}

/// `delta` with each `$include` node replaced by the document loaded for its path.
pub fn splice_includes(delta: &Yaml, loaded: &Vec<(String, Yaml)>) -> (r: Result<Yaml, ConfigError>)
    ensures
        splice_outcome_is(r, spliced(delta.view(), loaded_view(loaded@))),
    decreases delta,
{
    match include_path(delta) {
        Some(p) => match find_loaded(loaded, p.as_str()) {
            Some(i) => Ok(yaml_clone(&loaded[i].1)),
            None => Err(ConfigError::IncludeNotLoaded { path: p }),
        },
        None => match delta {
            Yaml::List(xs) => {
                let ghost lv = loaded_view(loaded@);
                let mut out: Vec<Yaml> = Vec::new();
                let mut i: usize = 0;
                proof {
                    lemma_list_view(xs@);
                }
                while i < xs.len()
                    invariant
                        i <= xs.len(),
                        *delta == Yaml::List(*xs),
                        lv == loaded_view(loaded@),
                        list_view(xs@).len() == xs@.len(),
                        forall|k: int| 0 <= k < xs@.len() ==> #[trigger] list_view(xs@)[k] == xs@[k].view(),
                        spliced_items(list_view(xs@).take(i as int), lv) == Ok::<Seq<YamlV>, Seq<char>>(list_view(out@)),
                    decreases xs.len() - i,
                {
                    proof {
                        assert(decreases_to!(*delta => delta->List_0));
                        assert(decreases_to!(*xs => xs@));
                        assert(decreases_to!(xs@ => xs@[i as int]));
                        assert(list_view(xs@).take(i + 1).drop_last() =~= list_view(xs@).take(i as int));
                        assert(list_view(xs@).take(i + 1)[i as int] == xs@[i as int].view());
                    }
                    match splice_includes(&xs[i], loaded) {
                        Ok(y) => {
                            let ghost before = out@;
                            out.push(y);
                            assert(list_view(out@) == list_view(before).push(y.view())) by {
                                assert(out@.drop_last() =~= before);
                            }
                        },
                        Err(e) => {
                            proof {
                                lemma_items_err(list_view(xs@), lv, i as int + 1);
                            }
                            return Err(e);
                        },
                    }
                    i = i + 1;
                }
                assert(list_view(xs@).take(i as int) =~= list_view(xs@));
                Ok(Yaml::List(out))
            },
            Yaml::Mapping(es) => {
                let ghost lv = loaded_view(loaded@);
                let mut out: Vec<(Yaml, Yaml)> = Vec::new();
                let mut i: usize = 0;
                proof {
                    lemma_entries_view(es@);
                }
                while i < es.len()
                    invariant
                        i <= es.len(),
                        *delta == Yaml::Mapping(*es),
                        lv == loaded_view(loaded@),
                        entries_view(es@).len() == es@.len(),
                        forall|k: int| 0 <= k < es@.len() ==> #[trigger] entries_view(es@)[k] == (es@[k].0.view(), es@[k].1.view()),
                        spliced_entries(entries_view(es@).take(i as int), lv) == Ok::<Seq<(YamlV, YamlV)>, Seq<char>>(entries_view(out@)),
                    decreases es.len() - i,
                {
                    proof {
                        assert(decreases_to!(*delta => delta->Mapping_0));
                        assert(decreases_to!(*es => es@));
                        assert(decreases_to!(es@ => es@[i as int]));
                        assert(decreases_to!(es@[i as int] => es@[i as int].1));
                        assert(entries_view(es@).take(i + 1).drop_last() =~= entries_view(es@).take(i as int));
                        assert(entries_view(es@).take(i + 1)[i as int] == (es@[i as int].0.view(), es@[i as int].1.view()));
                    }
                    match splice_includes(&es[i].1, loaded) {
                        Ok(y) => {
                            let key = yaml_clone(&es[i].0);
                            let ghost before = out@;
                            out.push((key, y));
                            assert(entries_view(out@) == entries_view(before).push((key.view(), y.view()))) by {
                                assert(out@.drop_last() =~= before);
                            }
                        },
                        Err(e) => {
                            proof {
                                lemma_entries_err(entries_view(es@), lv, i as int + 1);
                            }
                            return Err(e);
                        },
                    }
                    i = i + 1;
                }
                assert(entries_view(es@).take(i as int) =~= entries_view(es@));
                Ok(Yaml::Mapping(out))
            },
            Yaml::Tagged(t, x) => match splice_includes(&**x, loaded) {
                Ok(y) => Ok(Yaml::Tagged(copy_string(t), Box::new(y))),
                Err(e) => Err(e),
            },
            _ => Ok(yaml_clone(delta)),
        },
    }
}

proof fn lemma_items_err(xs: Seq<YamlV>, loaded: Seq<(Seq<char>, YamlV)>, n: int)
    requires
        0 <= n <= xs.len(),
        spliced_items(xs.take(n), loaded) is Err,
    ensures
        spliced_items(xs, loaded) == spliced_items(xs.take(n), loaded),
    decreases xs.len() - n,
{
    if n < xs.len() {
        assert(xs.take(n + 1).drop_last() =~= xs.take(n));
        lemma_items_err(xs, loaded, n + 1);
    } else {
        assert(xs.take(n) =~= xs);
    }
}

proof fn lemma_entries_err(es: Seq<(YamlV, YamlV)>, loaded: Seq<(Seq<char>, YamlV)>, n: int)
    requires
        0 <= n <= es.len(),
        spliced_entries(es.take(n), loaded) is Err,
    ensures
        spliced_entries(es, loaded) == spliced_entries(es.take(n), loaded),
    decreases es.len() - n,
{
    if n < es.len() {
        assert(es.take(n + 1).drop_last() =~= es.take(n));
        lemma_entries_err(es, loaded, n + 1);
    } else {
        assert(es.take(n) =~= es);
    }
}

} // verus!
