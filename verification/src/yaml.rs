//! A YAML value tree as the configuration merger reads it: scalars, lists, insertion-ordered
//! mappings and tagged values. YAML equality follows the YAML data model: mappings compare as
//! sets of entries (key order does not matter), lists compare element-wise.
use vstd::prelude::*;

verus! {

/// A YAML value.
#[derive(Debug)]
pub enum Yaml {
    Null,
    Bool(bool),
    /// A number, by its canonical text.
    Number(String),
    Str(String),
    List(Vec<Yaml>),
    /// A mapping: entries in insertion order, keys pairwise distinct.
    Mapping(Vec<(Yaml, Yaml)>),
    /// A tagged value: the tag (without its leading `!`) and the value.
    Tagged(String, Box<Yaml>),
}

/// The mathematical form of a YAML value.
pub enum YamlV {
    Null,
    Bool(bool),
    Number(Seq<char>),
    Str(Seq<char>),
    List(Seq<YamlV>),
    Mapping(Seq<(YamlV, YamlV)>),
    Tagged(Seq<char>, Box<YamlV>),
}

impl Yaml {
    pub open spec fn view(&self) -> YamlV
        decreases self,
    {
        match self {
            Yaml::Null => YamlV::Null,
            Yaml::Bool(b) => YamlV::Bool(*b),
            Yaml::Number(n) => YamlV::Number(n@),
            Yaml::Str(s) => YamlV::Str(s@),
            Yaml::List(items) => YamlV::List(list_view(items@)),
            Yaml::Mapping(entries) => YamlV::Mapping(entries_view(entries@)),
            Yaml::Tagged(t, v) => YamlV::Tagged(t@, Box::new((**v).view())),
        }
    }
}

pub open spec fn list_view(items: Seq<Yaml>) -> Seq<YamlV>
    decreases items,
{
    if items.len() == 0 {
        Seq::empty()
    } else {
        list_view(items.drop_last()).push(items.last().view())
    }
}

pub open spec fn entries_view(entries: Seq<(Yaml, Yaml)>) -> Seq<(YamlV, YamlV)>
    decreases entries,
{
    if entries.len() == 0 {
        Seq::empty()
    } else {
        entries_view(entries.drop_last()).push((entries.last().0.view(), entries.last().1.view()))
    }
}

pub proof fn lemma_list_view(items: Seq<Yaml>)
    ensures
        list_view(items).len() == items.len(),
        forall|i: int| 0 <= i < items.len() ==> #[trigger] list_view(items)[i] == items[i].view(),
    decreases items.len(),
{
    if items.len() > 0 {
        lemma_list_view(items.drop_last());
    }
}

pub proof fn lemma_entries_view(entries: Seq<(Yaml, Yaml)>)
    ensures
        entries_view(entries).len() == entries.len(),
        forall|i: int| 0 <= i < entries.len() ==> #[trigger] entries_view(entries)[i]
            == (entries[i].0.view(), entries[i].1.view()),
    decreases entries.len(),
{
    if entries.len() > 0 {
        lemma_entries_view(entries.drop_last());
    }
}

/// YAML equality: scalars by value, lists element-wise, mappings as sets of entries, tagged
/// values by tag and value.
pub open spec fn same(a: YamlV, b: YamlV) -> bool
    decreases a, 0nat,
{
    match a {
        YamlV::Null => b is Null,
        YamlV::Bool(x) => b matches YamlV::Bool(y) && x == y,
        YamlV::Number(x) => b matches YamlV::Number(y) && x == y,
        YamlV::Str(x) => b matches YamlV::Str(y) && x == y,
        YamlV::List(xs) => match b {
            YamlV::List(ys) => xs.len() == ys.len() && same_items(xs, ys),
            _ => false,
        },
        YamlV::Mapping(xs) => match b {
            YamlV::Mapping(ys) => xs.len() == ys.len() && all_found(xs, ys),
            _ => false,
        },
        YamlV::Tagged(t, x) => match b {
            YamlV::Tagged(u, y) => t == u && same(*x, *y),
            _ => false,
        },
    }
}

/// Element-wise YAML equality of two lists of equal length.
pub open spec fn same_items(xs: Seq<YamlV>, ys: Seq<YamlV>) -> bool
    decreases xs, 0nat,
{
    if xs.len() == 0 {
        true
    } else {
        same_items(xs.drop_last(), ys.drop_last()) && same(xs.last(), ys.last())
    }
}

/// Every entry of `xs` has a YAML-equal entry (key and value) in `ys`.
pub open spec fn all_found(xs: Seq<(YamlV, YamlV)>, ys: Seq<(YamlV, YamlV)>) -> bool
    decreases xs, 0nat,
{
    if xs.len() == 0 {
        true
    } else {
        all_found(xs.drop_last(), ys) && found_in(xs.last(), ys)
    }
}

/// `ys` has an entry whose key and value are YAML-equal to `e`'s.
pub open spec fn found_in(e: (YamlV, YamlV), ys: Seq<(YamlV, YamlV)>) -> bool
    decreases e, ys.len(),
{
    if ys.len() == 0 {
        false
    } else {
        found_in(e, ys.drop_last()) || (same(e.0, ys.last().0) && same(e.1, ys.last().1))
    }
}

/// YAML equality of two values (see `same`).
pub fn yaml_eq(a: &Yaml, b: &Yaml) -> (r: bool)
    ensures
        r == same(a.view(), b.view()),
    decreases a,
{
    match (a, b) {
        (Yaml::Null, Yaml::Null) => true,
        (Yaml::Bool(x), Yaml::Bool(y)) => *x == *y,
        (Yaml::Number(x), Yaml::Number(y)) => *x == *y,
        (Yaml::Str(x), Yaml::Str(y)) => *x == *y,
        (Yaml::List(xs), Yaml::List(ys)) => {
            proof {
                lemma_list_view(xs@);
                lemma_list_view(ys@);
            }
            let ghost lx = list_view(xs@);
            let ghost ly = list_view(ys@);
            assert(a.view() == YamlV::List(lx));
            assert(b.view() == YamlV::List(ly));
            if xs.len() != ys.len() {
                return false;
            }
            let mut ok = true;
            let mut i: usize = 0;
            while i < xs.len()
                invariant
                    i <= xs.len() == ys.len(),
                    *a == Yaml::List(*xs),
                    lx == list_view(xs@),
                    ly == list_view(ys@),
                    lx.len() == xs.len(),
                    ly.len() == ys.len(),
                    forall|k: int| 0 <= k < xs.len() ==> #[trigger] lx[k] == xs@[k].view(),
                    forall|k: int| 0 <= k < ys.len() ==> #[trigger] ly[k] == ys@[k].view(),
                    ok == same_items(lx.subrange(0, i as int), ly.subrange(0, i as int)),
                decreases xs.len() - i,
            {
                proof {
                    assert(decreases_to!(*a => a->List_0));
                    assert(decreases_to!(*xs => xs@));
                    assert(decreases_to!(xs@ => xs@[i as int]));
                    assert(decreases_to!(*a => xs@[i as int]));
                    assert(lx.subrange(0, i + 1).drop_last() =~= lx.subrange(0, i as int));
                    assert(ly.subrange(0, i + 1).drop_last() =~= ly.subrange(0, i as int));
                }
                let e = yaml_eq(&xs[i], &ys[i]);
                ok = ok && e;
                i += 1;
            }
            assert(lx.subrange(0, xs@.len() as int) =~= lx);
            assert(ly.subrange(0, ys@.len() as int) =~= ly);
            ok
        },
        (Yaml::Mapping(xs), Yaml::Mapping(ys)) => {
            proof {
                lemma_entries_view(xs@);
                lemma_entries_view(ys@);
            }
            let ghost xv = entries_view(xs@);
            let ghost yv = entries_view(ys@);
            assert(a.view() == YamlV::Mapping(xv));
            assert(b.view() == YamlV::Mapping(yv));
            if xs.len() != ys.len() {
                return false;
            }
            let mut ok = true;
            let mut i: usize = 0;
            while i < xs.len()
                invariant
                    i <= xs.len() == ys.len(),
                    *a == Yaml::Mapping(*xs),
                    xv == entries_view(xs@),
                    yv == entries_view(ys@),
                    xv.len() == xs.len(),
                    yv.len() == ys.len(),
                    forall|k: int| 0 <= k < xs.len() ==> #[trigger] xv[k] == (xs@[k].0.view(), xs@[k].1.view()),
                    forall|k: int| 0 <= k < ys.len() ==> #[trigger] yv[k] == (ys@[k].0.view(), ys@[k].1.view()),
                    ok == all_found(xv.subrange(0, i as int), yv),
                decreases xs.len() - i,
            {
                proof {
                    assert(decreases_to!(*a => a->Mapping_0));
                    assert(decreases_to!(*xs => xs@));
                    assert(decreases_to!(xs@ => xs@[i as int]));
                    assert(decreases_to!(xs@[i as int] => xs@[i as int].0));
                    assert(decreases_to!(xs@[i as int] => xs@[i as int].1));
                    assert(decreases_to!(*a => xs@[i as int].0));
                    assert(decreases_to!(*a => xs@[i as int].1));
                }
                let mut found = false;
                let mut j: usize = 0;
                while j < ys.len()
                    invariant
                        i < xs.len(),
                        j <= ys.len(),
                        *a == Yaml::Mapping(*xs),
                        decreases_to!(*a => xs@[i as int].0),
                        decreases_to!(*a => xs@[i as int].1),
                        xv == entries_view(xs@),
                        yv == entries_view(ys@),
                        xv.len() == xs.len(),
                        yv.len() == ys.len(),
                        forall|k: int| 0 <= k < xs.len() ==> #[trigger] xv[k] == (xs@[k].0.view(), xs@[k].1.view()),
                        forall|k: int| 0 <= k < ys.len() ==> #[trigger] yv[k] == (ys@[k].0.view(), ys@[k].1.view()),
                        found == found_in(xv[i as int], yv.subrange(0, j as int)),
                    decreases ys.len() - j,
                {
                    assert(yv.subrange(0, j + 1).drop_last() =~= yv.subrange(0, j as int));
                    let k_eq = yaml_eq(&xs[i].0, &ys[j].0);
                    let v_eq = yaml_eq(&xs[i].1, &ys[j].1);
                    found = found || (k_eq && v_eq);
                    j += 1;
                }
                assert(yv.subrange(0, ys@.len() as int) =~= yv);
                assert(xv.subrange(0, i + 1).drop_last() =~= xv.subrange(0, i as int));
                ok = ok && found;
                i += 1;
            }
            assert(xv.subrange(0, xs@.len() as int) =~= xv);
            ok
        },
        (Yaml::Tagged(t, x), Yaml::Tagged(u, y)) => {
            assert(a.view() == YamlV::Tagged(t@, Box::new((**x).view())));
            assert(b.view() == YamlV::Tagged(u@, Box::new((**y).view())));
            if *t != *u {
                return false;
            }
            yaml_eq(&**x, &**y)
        },
        _ => false,
    }
}

} // verus!

verus! {

/// A copy of a YAML value.
pub fn yaml_clone(a: &Yaml) -> (r: Yaml)
    ensures
        r.view() == a.view(),
    decreases a,
{
    match a {
        Yaml::Null => Yaml::Null,
        Yaml::Bool(b) => Yaml::Bool(*b),
        Yaml::Number(n) => Yaml::Number(n.clone()),
        Yaml::Str(s) => Yaml::Str(s.clone()),
        Yaml::List(xs) => {
            let out = yaml_clone_items(xs, Ghost(*a));
            proof {
                lemma_list_view(xs@);
                lemma_list_view(out@);
                assert(list_view(out@) =~= list_view(xs@));
            }
            Yaml::List(out)
        },
        Yaml::Mapping(es) => {
            let out = yaml_clone_entries(es, Ghost(*a));
            proof {
                lemma_entries_view(es@);
                lemma_entries_view(out@);
                assert(entries_view(out@) =~= entries_view(es@));
            }
            Yaml::Mapping(out)
        },
        Yaml::Tagged(t, v) => {
            let inner = yaml_clone(&**v);
            Yaml::Tagged(t.clone(), Box::new(inner))
        },
    }
}

fn yaml_clone_items(xs: &Vec<Yaml>, Ghost(outer): Ghost<Yaml>) -> (out: Vec<Yaml>)
    requires
        outer == Yaml::List(*xs),
    ensures
        out.len() == xs.len(),
        forall|k: int| 0 <= k < xs.len() ==> #[trigger] out@[k].view() == xs@[k].view(),
    decreases outer, 0nat,
{
    let mut out: Vec<Yaml> = Vec::new();
    let mut i: usize = 0;
    while i < xs.len()
        invariant
            i <= xs.len(),
            outer == Yaml::List(*xs),
            out.len() == i,
            forall|k: int| 0 <= k < i ==> #[trigger] out@[k].view() == xs@[k].view(),
        decreases xs.len() - i,
    {
        proof {
            assert(decreases_to!(outer => outer->List_0));
            assert(decreases_to!(*xs => xs@));
            assert(decreases_to!(xs@ => xs@[i as int]));
        }
        let c = yaml_clone(&xs[i]);
        out.push(c);
        i += 1;
    }
    out
}

pub(crate) fn yaml_clone_entries(es: &Vec<(Yaml, Yaml)>, Ghost(outer): Ghost<Yaml>) -> (out: Vec<(Yaml, Yaml)>)
    requires
        outer == Yaml::Mapping(*es),
    ensures
        out.len() == es.len(),
        forall|k: int| 0 <= k < es.len() ==> #[trigger] out@[k].0.view() == es@[k].0.view()
            && out@[k].1.view() == es@[k].1.view(),
    decreases outer, 0nat,
{
    let mut out: Vec<(Yaml, Yaml)> = Vec::new();
    let mut i: usize = 0;
    while i < es.len()
        invariant
            i <= es.len(),
            outer == Yaml::Mapping(*es),
            out.len() == i,
            forall|k: int| 0 <= k < i ==> #[trigger] out@[k].0.view() == es@[k].0.view()
                && out@[k].1.view() == es@[k].1.view(),
        decreases es.len() - i,
    {
        proof {
            assert(decreases_to!(outer => outer->Mapping_0));
            assert(decreases_to!(*es => es@));
            assert(decreases_to!(es@ => es@[i as int]));
            assert(decreases_to!(es@[i as int] => es@[i as int].0));
            assert(decreases_to!(es@[i as int] => es@[i as int].1));
        }
        let k = yaml_clone(&es[i].0);
        let v = yaml_clone(&es[i].1);
        out.push((k, v));
        i += 1;
    }
    out
}

} // verus!
