//! Fragments and conditional composition.
//!
//! A fragment is a partial document: tailor fields (`base`, `outputs`, `params`, `rpmSources`, an
//! inline `match`) plus an opaque `config:` delta. The layout encodes the condition in the path:
//! `by-<axis>/<value>.yaml` applies when that axis has that value and `by-feature/<name>.yaml` when
//! that feature is enabled. An inline `match` is ANDed with the path condition.
use vstd::prelude::*;
use crate::error::ConfigError;
use crate::matrix::{find_axis, lookup, Matrix, Point};
use crate::ordered::{axes_entries, axes_to_vec, axis_view};
use crate::text::{chars_of, contains_string, index_of, last_index, last_index_of, lemma_index_of, push_char, push_str, str_eq, string_of_range, views};
use crate::types::ParamValue;
use crate::yaml::Yaml;

verus! {

/// The tailor-field deltas and opaque `config:` a fragment (or the base document) contributes.
#[derive(Debug)]
pub struct Fragment {
    pub match_expr: Option<Match>,
    pub base: Option<Yaml>,
    pub outputs: Option<Yaml>,
    pub params: Vec<(String, ParamValue)>,
    pub rpm_sources: Vec<String>,
    pub config: Option<Yaml>,
}

/// A boolean condition over a cell's axis values and the image's enabled features.
#[derive(Debug)]
pub enum Match {
    All { all: Vec<Match> },
    Any { any: Vec<Match> },
    Not { not: Box<Match> },
    Leaf(Vec<(String, MatchValue)>),
}

/// A `match` leaf value: a single value (equality) or a list (membership).
#[derive(Debug)]
pub enum MatchValue {
    One(String),
    Many(Vec<String>),
}

/// The reserved axis name that tests enabled features.
pub open spec fn feature_axis() -> Seq<char> {
    "feature"@
}

/// Whether one leaf entry holds: `feature` tests the enabled features; any other key tests the
/// cell's value for that axis (an axis the cell lacks never matches).
pub open spec fn leaf_holds(key: Seq<char>, value: MatchValue, axes: Point, features: Seq<Seq<char>>) -> bool {
    if key == feature_axis() {
        match value {
            MatchValue::One(name) => features.contains(name@),
            MatchValue::Many(names) => exists|i: int| 0 <= i < names@.len() && features.contains(#[trigger] names@[i]@),
        }
    } else {
        match lookup(axes, key) {
            None => false,
            Some(actual) => match value {
                MatchValue::One(expected) => actual == expected@,
                MatchValue::Many(expected) => views(expected@).contains(actual),
            },
        }
    }
}

/// Whether a condition holds for a cell.
pub open spec fn holds(m: Match, axes: Point, features: Seq<Seq<char>>) -> bool
    decreases m,
{
    match m {
        Match::All { all } => forall|i: int| 0 <= i < all@.len() ==> holds(#[trigger] all@[i], axes, features),
        Match::Any { any } => exists|i: int| 0 <= i < any@.len() && holds(#[trigger] any@[i], axes, features),
        Match::Not { not } => !holds(*not, axes, features),
        Match::Leaf(entries) => forall|i: int| 0 <= i < entries@.len()
            ==> leaf_holds(#[trigger] entries@[i].0@, entries@[i].1, axes, features),
    }
}

/// Whether a leaf entry holds for a cell.
pub fn leaf_matches(key: &str, value: &MatchValue, axes: &Vec<(String, String)>, features: &Vec<String>) -> (r: bool)
    ensures
        r == leaf_holds(key@, *value, crate::matrix::row_view(*axes), views(features@)),
{
    if str_eq(key, "feature") {
        return match value {
            MatchValue::One(name) => contains_string(features, name),
            MatchValue::Many(names) => {
                let mut i: usize = 0;
                while i < names.len()
                    invariant
                        i <= names.len(),
                        key@ == feature_axis(),
                        *value == MatchValue::Many(*names),
                        forall|j: int| 0 <= j < i ==> !views(features@).contains(#[trigger] names@[j]@),
                    decreases names.len() - i,
                {
                    if contains_string(features, &names[i]) {
                        assert(views(features@).contains(names@[i as int]@));
                        assert(exists|j: int| 0 <= j < names@.len() && views(features@).contains(#[trigger] names@[j]@));
                        assert(key@ == feature_axis());
                        assert(value->Many_0 == *names);
                        assert(leaf_holds(key@, *value, crate::matrix::row_view(*axes), views(features@)));
                        return true;
                    }
                    i += 1;
                }
                false
            },
        };
    }
    let actual = match find_axis(axes, key) {
        Some(t) => &axes[t].1,
        None => {
            return false;
        },
    };
    match value {
        MatchValue::One(expected) => *actual == *expected,
        MatchValue::Many(expected) => contains_string(expected, actual),
    }
}

impl Match {
    /// Whether this condition holds for a cell's axis values and the enabled features.
    pub fn evaluate(&self, axes: &Vec<(String, String)>, features: &Vec<String>) -> (r: bool)
        ensures
            r == holds(*self, crate::matrix::row_view(*axes), views(features@)),
        decreases self,
    {
        let ghost av = crate::matrix::row_view(*axes);
        let ghost fv = views(features@);
        match self {
            Match::All { all } => {
                let mut i: usize = 0;
                while i < all.len()
                    invariant
                        i <= all.len(),
                        *self == (Match::All { all: *all }),
                        av == crate::matrix::row_view(*axes),
                        fv == views(features@),
                        forall|j: int| 0 <= j < i ==> holds(#[trigger] all@[j], av, fv),
                    decreases all.len() - i,
                {
                    proof {
                        assert(decreases_to!(*self => self->all));
                        assert(decreases_to!(*all => all@));
                        assert(decreases_to!(all@ => all@[i as int]));
                    }
                    if !all[i].evaluate(axes, features) {
                        return false;
                    }
                    i += 1;
                }
                true
            },
            Match::Any { any } => {
                let mut i: usize = 0;
                while i < any.len()
                    invariant
                        i <= any.len(),
                        *self == (Match::Any { any: *any }),
                        av == crate::matrix::row_view(*axes),
                        fv == views(features@),
                        forall|j: int| 0 <= j < i ==> !holds(#[trigger] any@[j], av, fv),
                    decreases any.len() - i,
                {
                    proof {
                        assert(decreases_to!(*self => self->any));
                        assert(decreases_to!(*any => any@));
                        assert(decreases_to!(any@ => any@[i as int]));
                    }
                    if any[i].evaluate(axes, features) {
                        return true;
                    }
                    i += 1;
                }
                false
            },
            Match::Not { not } => !(**not).evaluate(axes, features),
            Match::Leaf(entries) => {
                let mut i: usize = 0;
                while i < entries.len()
                    invariant
                        i <= entries.len(),
                        *self == Match::Leaf(*entries),
                        av == crate::matrix::row_view(*axes),
                        fv == views(features@),
                        forall|j: int| 0 <= j < i ==> leaf_holds(#[trigger] entries@[j].0@, entries@[j].1, av, fv),
                    decreases entries.len() - i,
                {
                    if !leaf_matches(entries[i].0.as_str(), &entries[i].1, axes, features) {
                        assert(!leaf_holds(entries@[i as int].0@, entries@[i as int].1, av, fv));
                        assert(self->Leaf_0 == *entries);
                        assert(!holds(*self, av, fv));
                        return false;
                    }
                    i += 1;
                }
                true
            },
        }
    }
}

/// The path-derived condition of a fragment file.
#[derive(Debug)]
pub enum Predicate {
    Always,
    Axis { axis: String, value: String },
    Feature { name: String },
}

/// A fragment with its source label and path condition, ready to test against each cell.
#[derive(Debug)]
pub struct LoadedFragment {
    pub label: String,
    pub predicate: Predicate,
    pub doc: Fragment,
}

/// Whether a fragment applies to a cell: its path condition and its inline `match`, if any.
pub open spec fn applies_to(f: LoadedFragment, axes: Point, features: Seq<Seq<char>>) -> bool {
    let path_ok = match f.predicate {
        Predicate::Always => true,
        Predicate::Axis { axis, value } => lookup(axes, axis@) == Some(value@),
        Predicate::Feature { name } => features.contains(name@),
    };
    path_ok && match f.doc.match_expr {
        Some(m) => holds(m, axes, features),
        None => true,
    }
}

impl LoadedFragment {
    /// Whether this fragment applies to a cell: its path condition AND any inline `match`.
    pub fn applies(&self, axes: &Vec<(String, String)>, features: &Vec<String>) -> (r: bool)
        ensures
            r == applies_to(*self, crate::matrix::row_view(*axes), views(features@)),
    {
        let path_ok = match &self.predicate {
            Predicate::Always => true,
            Predicate::Axis { axis, value } => match find_axis(axes, axis.as_str()) {
                Some(t) => axes[t].1 == *value,
                None => false,
            },
            Predicate::Feature { name } => contains_string(features, name),
        };
        path_ok && match &self.doc.match_expr {
            Some(m) => m.evaluate(axes, features),
            None => true,
        }
    }
}

/// The indices of the fragments that apply to a cell, in order.
pub open spec fn matching(fs: Seq<LoadedFragment>, axes: Point, features: Seq<Seq<char>>) -> Seq<int>
    decreases fs.len(),
{
    if fs.len() == 0 {
        Seq::empty()
    } else if applies_to(fs.last(), axes, features) {
        matching(fs.drop_last(), axes, features).push(fs.len() - 1)
    } else {
        matching(fs.drop_last(), axes, features)
    }
}

/// Every position `matching` yields is a position of the fragments.
pub proof fn lemma_matching_bounds(fs: Seq<LoadedFragment>, axes: Point, features: Seq<Seq<char>>)
    ensures
        forall|j: int| 0 <= j < matching(fs, axes, features).len() ==> 0 <= #[trigger] matching(fs, axes, features)[j] < fs.len(),
    decreases fs.len(),
{
    if fs.len() > 0 {
        lemma_matching_bounds(fs.drop_last(), axes, features);
        let prev = matching(fs.drop_last(), axes, features);
        if applies_to(fs.last(), axes, features) {
            assert forall|j: int| 0 <= j < matching(fs, axes, features).len() implies 0 <= #[trigger] matching(fs, axes, features)[j] < fs.len() by {
                if j < prev.len() {
                    assert(matching(fs, axes, features)[j] == prev[j]);
                }
            }
        }
    }
}

/// The positions of the fragments that apply to a cell, in apply order.
pub fn matched_fragments(fragments: &Vec<LoadedFragment>, axes: &Vec<(String, String)>, features: &Vec<String>) -> (r: Vec<usize>)
    ensures
        r@.map_values(|i: usize| i as int) == matching(fragments@, crate::matrix::row_view(*axes), views(features@)),
{
    let ghost av = crate::matrix::row_view(*axes);
    let ghost fv = views(features@);
    let mut out: Vec<usize> = Vec::new();
    let mut i: usize = 0;
    assert(out@.map_values(|i: usize| i as int) =~= Seq::<int>::empty());
    assert(fragments@.subrange(0, 0) =~= Seq::<LoadedFragment>::empty());
    while i < fragments.len()
        invariant
            i <= fragments.len(),
            av == crate::matrix::row_view(*axes),
            fv == views(features@),
            out@.map_values(|i: usize| i as int) == matching(fragments@.subrange(0, i as int), av, fv),
        decreases fragments.len() - i,
    {
        assert(fragments@.subrange(0, i + 1).drop_last() =~= fragments@.subrange(0, i as int));
        assert(fragments@.subrange(0, i + 1).last() == fragments@[i as int]);
        if fragments[i].applies(axes, features) {
            let ghost before = out@;
            out.push(i);
            assert(out@.map_values(|i: usize| i as int) =~= before.map_values(|i: usize| i as int).push(i as int));
        }
        i += 1;
    }
    assert(fragments@.subrange(0, fragments@.len() as int) =~= fragments@);
    out
}

/// What a fragment file's path condition is, or why the file names something undeclared.
pub enum PredicateV {
    Axis(Seq<char>, Seq<char>),
    Feature(Seq<char>),
    UnknownAxis(Seq<char>),
    UnknownValue(Seq<char>, Seq<char>, Seq<char>),
}

/// The declared values of `axis` in the matrix's axes, if it is declared.
pub open spec fn declared_values(axes: Seq<(Seq<char>, Seq<Seq<char>>)>, axis: Seq<char>) -> Option<Seq<Seq<char>>>
    decreases axes.len(),
{
    if axes.len() == 0 {
        None
    } else if axes[0].0 == axis {
        Some(axes[0].1)
    } else {
        declared_values(axes.drop_first(), axis)
    }
}

/// The condition of `by-<axis>/<value>.yaml` (labelled `label`): `feature` needs an enabled
/// feature; any other axis must be declared with that value.
pub open spec fn predicate_of(axis: Seq<char>, value: Seq<char>, label: Seq<char>, axes: Option<Seq<(Seq<char>, Seq<Seq<char>>)>>, features: Seq<Seq<char>>) -> PredicateV {
    if axis == feature_axis() {
        if features.contains(value) {
            PredicateV::Feature(value)
        } else {
            PredicateV::UnknownValue(feature_axis(), value, label)
        }
    } else {
        match axes {
            None => PredicateV::UnknownAxis(axis),
            Some(a) => match declared_values(a, axis) {
                None => PredicateV::UnknownAxis(axis),
                Some(vals) => if vals.contains(value) {
                    PredicateV::Axis(axis, value)
                } else {
                    PredicateV::UnknownValue(axis, value, label)
                },
            },
        }
    }
}

/// Whether an exec predicate result is the given plain one.
pub open spec fn predicate_is(r: Result<Predicate, ConfigError>, p: PredicateV) -> bool {
    match p {
        PredicateV::Axis(a, v) => r matches Ok(Predicate::Axis { axis, value }) && axis@ == a && value@ == v,
        PredicateV::Feature(n) => r matches Ok(Predicate::Feature { name }) && name@ == n,
        PredicateV::UnknownAxis(a) => r matches Err(ConfigError::UnknownFragmentAxis { axis }) && axis@ == a,
        PredicateV::UnknownValue(a, v, l) => r matches Err(ConfigError::UnknownFragmentValue { axis, value, file })
            && axis@ == a && value@ == v && file@ == l,
    }
}

pub open spec fn matrix_axes(matrix: Option<&Matrix>) -> Option<Seq<(Seq<char>, Seq<Seq<char>>)>> {
    match matrix {
        Some(m) => Some(axes_entries(m.axes)),
        None => None,
    }
}

/// The path condition of a fragment file, validated against the declared axes and features.
pub fn predicate_for(axis: &str, value: &str, label: &str, matrix: Option<&Matrix>, features: &Vec<String>) -> (r: Result<Predicate, ConfigError>)
    ensures
        predicate_is(r, predicate_of(axis@, value@, label@, matrix_axes(matrix), views(features@))),
{
    let value_s = value.to_owned();
    if str_eq(axis, "feature") {
        if !contains_string(features, &value_s) {
            return Err(ConfigError::UnknownFragmentValue {
                axis: "feature".to_owned(),
                value: value_s,
                file: label.to_owned(),
            });
        }
        return Ok(Predicate::Feature { name: value_s });
    }
    let m = match matrix {
        Some(m) => m,
        None => {
            return Err(ConfigError::UnknownFragmentAxis { axis: axis.to_owned() });
        },
    };
    let axes = axes_to_vec(&m.axes);
    let ghost av = axes@.map_values(|e: (String, Vec<String>)| axis_view(e));
    let mut i: usize = 0;
    assert(av.subrange(0, av.len() as int) =~= av);
    while i < axes.len()
        invariant
            i <= axes.len(),
            axis@ != feature_axis(),
            value_s@ == value@,
            matrix_axes(matrix) == Some(av),
            av == axes@.map_values(|e: (String, Vec<String>)| axis_view(e)),
            declared_values(av, axis@) == declared_values(av.subrange(i as int, av.len() as int), axis@),
        decreases axes.len() - i,
    {
        assert(av.subrange(i as int, av.len() as int).drop_first() =~= av.subrange(i + 1, av.len() as int));
        if str_eq(axes[i].0.as_str(), axis) {
            assert(av.subrange(i as int, av.len() as int)[0] == av[i as int]);
            assert(av[i as int].1 =~= views(axes@[i as int].1@));
            assert(declared_values(av, axis@) == Some(av[i as int].1));
            if contains_string(&axes[i].1, &value_s) {
                return Ok(Predicate::Axis { axis: axis.to_owned(), value: value_s });
            }
            return Err(ConfigError::UnknownFragmentValue {
                axis: axis.to_owned(),
                value: value_s,
                file: label.to_owned(),
            });
        }
        i += 1;
    }
    Err(ConfigError::UnknownFragmentAxis { axis: axis.to_owned() })
}

} // verus!

verus! {

/// The axis a fragment directory stands for: its name after `by-`.
pub open spec fn dir_axis(dir: Seq<char>) -> Option<Seq<char>> {
    if dir.len() >= 3 && dir.subrange(0, 3) == "by-"@ {
        Some(dir.subrange(3, dir.len() as int))
    } else {
        None
    }
}

/// The stem of a file whose extension is `yaml` (the text after its last `.`, unless that dot
/// starts the name).
pub open spec fn yaml_stem(file: Seq<char>) -> Option<Seq<char>> {
    match last_index_of(file, '.') {
        Some(i) => if i > 0 && file.subrange(i + 1, file.len() as int) == "yaml"@ {
            Some(file.subrange(0, i))
        } else {
            None
        },
        None => None,
    }
}

/// A fragment file candidate: (axis, value, label).
pub type Candidate = (Seq<char>, Seq<char>, Seq<char>);

/// The candidates in one fragment directory, in listing order.
pub open spec fn dir_candidates(dir: Seq<char>, axis: Seq<char>, files: Seq<Seq<char>>) -> Seq<Candidate>
    decreases files.len(),
{
    if files.len() == 0 {
        Seq::empty()
    } else {
        let rest = dir_candidates(dir, axis, files.drop_last());
        match yaml_stem(files.last()) {
            Some(stem) => rest.push((axis, stem, dir + seq!['/'] + files.last())),
            None => rest,
        }
    }
}

/// The candidates of a listing of (directory, files), in listing order.
pub open spec fn candidates(listing: Seq<(Seq<char>, Seq<Seq<char>>)>) -> Seq<Candidate>
    decreases listing.len(),
{
    if listing.len() == 0 {
        Seq::empty()
    } else {
        let rest = candidates(listing.drop_last());
        match dir_axis(listing.last().0) {
            Some(axis) => rest + dir_candidates(listing.last().0, axis, listing.last().1),
            None => rest,
        }
    }
}

/// The position of an axis in the matrix declaration, `feature` and anything else after all
/// declared axes.
pub open spec fn axis_rank(axes: Option<Seq<(Seq<char>, Seq<Seq<char>>)>>, axis: Seq<char>) -> nat {
    match axes {
        Some(a) => match index_of(a.map_values(|e: (Seq<char>, Seq<Seq<char>>)| e.0), axis) {
            Some(i) => i as nat,
            None => a.len(),
        },
        None => 0,
    }
}

/// A validated fragment: (label, condition, rank).
pub type Planned = (Seq<char>, PredicateV, nat);

/// The candidates validated in listing order, stopping at the first undeclared axis or value.
pub open spec fn validated(cands: Seq<Candidate>, axes: Option<Seq<(Seq<char>, Seq<Seq<char>>)>>, features: Seq<Seq<char>>) -> Result<Seq<Planned>, PredicateV>
    decreases cands.len(),
{
    if cands.len() == 0 {
        Ok(Seq::empty())
    } else {
        match validated(cands.drop_last(), axes, features) {
            Err(p) => Err(p),
            Ok(acc) => {
                let (axis, value, label) = cands.last();
                let p = predicate_of(axis, value, label, axes, features);
                match p {
                    PredicateV::UnknownAxis(_) => Err(p),
                    PredicateV::UnknownValue(_, _, _) => Err(p),
                    _ => Ok(acc.push((label, p, axis_rank(axes, axis)))),
                }
            },
        }
    }
}

/// The entries of rank `r`, in order.
pub open spec fn of_rank(ps: Seq<Planned>, r: nat) -> Seq<Planned>
    decreases ps.len(),
{
    if ps.len() == 0 {
        Seq::empty()
    } else if ps.last().2 == r {
        of_rank(ps.drop_last(), r).push(ps.last())
    } else {
        of_rank(ps.drop_last(), r)
    }
}

/// The entries of ranks `0..r`, rank by rank.
pub open spec fn by_rank(ps: Seq<Planned>, r: nat) -> Seq<Planned>
    decreases r,
{
    if r == 0 {
        Seq::empty()
    } else {
        by_rank(ps, (r - 1) as nat) + of_rank(ps, (r - 1) as nat)
    }
}

/// The apply order of the fragment files: validated in listing order, then ordered by the
/// matrix declaration order of their axes (later axes override earlier ones), `by-feature/`
/// last; within an axis in listing order.
pub open spec fn fragment_plan(listing: Seq<(Seq<char>, Seq<Seq<char>>)>, axes: Option<Seq<(Seq<char>, Seq<Seq<char>>)>>, features: Seq<Seq<char>>) -> Result<Seq<Planned>, PredicateV> {
    match validated(candidates(listing), axes, features) {
        Err(p) => Err(p),
        Ok(ps) => Ok(by_rank(ps, match axes { Some(a) => a.len() + 1, None => 1 })),
    }
}

} // verus!

verus! {

pub open spec fn listing_view(l: Seq<(String, Vec<String>)>) -> Seq<(Seq<char>, Seq<Seq<char>>)> {
    l.map_values(|e: (String, Vec<String>)| (e.0@, views(e.1@)))
}

pub open spec fn triples_view(v: Seq<(String, String, String)>) -> Seq<Candidate> {
    v.map_values(|e: (String, String, String)| (e.0@, e.1@, e.2@))
}

fn dir_axis_of(dir: &String) -> (r: Option<String>)
    ensures
        match dir_axis(dir@) {
            Some(a) => r matches Some(s) && s@ == a,
            None => r is None,
        },
{
    let cs = chars_of(dir.as_str());
    proof {
        reveal_strlit("by-");
    }
    if cs.len() >= 3 && cs[0] == 'b' && cs[1] == 'y' && cs[2] == '-' {
        assert(cs@.subrange(0, 3) =~= "by-"@);
        Some(string_of_range(&cs, 3, cs.len()))
    } else {
        assert(cs@.len() >= 3 ==> cs@.subrange(0, 3)[0] == cs@[0] && cs@.subrange(0, 3)[1] == cs@[1]
            && cs@.subrange(0, 3)[2] == cs@[2]);
        None
    }
}

fn yaml_stem_of(file: &String) -> (r: Option<String>)
    ensures
        match yaml_stem(file@) {
            Some(s) => r matches Some(t) && t@ == s,
            None => r is None,
        },
{
    let cs = chars_of(file.as_str());
    proof {
        reveal_strlit("yaml");
    }
    match last_index(&cs, '.') {
        Some(i) => {
            let ext = string_of_range(&cs, i + 1, cs.len());
            if i > 0 && str_eq(ext.as_str(), "yaml") {
                Some(string_of_range(&cs, 0, i))
            } else {
                None
            }
        },
        None => None,
    }
}

/// The fragment file candidates of a directory listing, in listing order.
fn list_candidates(listing: &Vec<(String, Vec<String>)>) -> (r: Vec<(String, String, String)>)
    ensures
        triples_view(r@) == candidates(listing_view(listing@)),
{
    let ghost lv = listing_view(listing@);
    let mut out: Vec<(String, String, String)> = Vec::new();
    let mut d: usize = 0;
    assert(lv.subrange(0, 0) =~= Seq::<(Seq<char>, Seq<Seq<char>>)>::empty());
    assert(triples_view(out@) =~= Seq::<Candidate>::empty());
    while d < listing.len()
        invariant
            d <= listing.len(),
            lv == listing_view(listing@),
            triples_view(out@) == candidates(lv.subrange(0, d as int)),
        decreases listing.len() - d,
    {
        assert(lv.subrange(0, d + 1).drop_last() =~= lv.subrange(0, d as int));
        assert(lv.subrange(0, d + 1).last() == lv[d as int]);
        let dir = &listing[d].0;
        let files = &listing[d].1;
        match dir_axis_of(dir) {
            Some(axis) => {
                let ghost start = triples_view(out@);
                let ghost fv = views(files@);
                let mut f: usize = 0;
                assert(fv.subrange(0, 0) =~= Seq::<Seq<char>>::empty());
                assert(start + dir_candidates(dir@, axis@, fv.subrange(0, 0)) =~= start);
                while f < files.len()
                    invariant
                        f <= files.len(),
                        fv == views(files@),
                        triples_view(out@) == start + dir_candidates(dir@, axis@, fv.subrange(0, f as int)),
                    decreases files.len() - f,
                {
                    assert(fv.subrange(0, f + 1).drop_last() =~= fv.subrange(0, f as int));
                    assert(fv.subrange(0, f + 1).last() == files@[f as int]@);
                    match yaml_stem_of(&files[f]) {
                        Some(stem) => {
                            let mut label = dir.clone();
                            push_char(&mut label, '/');
                            push_str(&mut label, files[f].as_str());
                            let ghost before = out@;
                            out.push((axis.clone(), stem, label));
                            assert(triples_view(out@) =~= triples_view(before).push((axis@, stem@, label@)));
                            assert(label@ =~= dir@ + seq!['/'] + files@[f as int]@);
                            assert(start + dir_candidates(dir@, axis@, fv.subrange(0, f + 1))
                                =~= (start + dir_candidates(dir@, axis@, fv.subrange(0, f as int))).push((axis@, stem@, label@)));
                        },
                        None => {},
                    }
                    f += 1;
                }
                assert(fv.subrange(0, files@.len() as int) =~= fv);
            },
            None => {},
        }
        d += 1;
    }
    assert(lv.subrange(0, listing@.len() as int) =~= lv);
    out
}

/// A fragment file to load: its label (`by-<axis>/<file>`, relative to the image directory) and
/// its path condition.
#[derive(Debug)]
pub struct PlannedFragment {
    pub label: String,
    pub predicate: Predicate,
}

pub open spec fn predicate_view(p: Predicate) -> PredicateV {
    match p {
        Predicate::Axis { axis, value } => PredicateV::Axis(axis@, value@),
        Predicate::Feature { name } => PredicateV::Feature(name@),
        Predicate::Always => PredicateV::UnknownAxis(Seq::empty()),
    }
}

pub open spec fn plan_view(v: Seq<PlannedFragment>) -> Seq<(Seq<char>, PredicateV)> {
    v.map_values(|p: PlannedFragment| (p.label@, predicate_view(p.predicate)))
}

pub open spec fn without_rank(ps: Seq<Planned>) -> Seq<(Seq<char>, PredicateV)> {
    ps.map_values(|p: Planned| (p.0, p.1))
}

proof fn lemma_validated_err(cands: Seq<Candidate>, axes: Option<Seq<(Seq<char>, Seq<Seq<char>>)>>, features: Seq<Seq<char>>, k: int)
    requires
        0 <= k <= cands.len(),
        validated(cands.subrange(0, k), axes, features) is Err,
    ensures
        validated(cands, axes, features) == validated(cands.subrange(0, k), axes, features),
    decreases cands.len(),
{
    if k == cands.len() {
        assert(cands.subrange(0, k) =~= cands);
    } else {
        assert(cands.drop_last().subrange(0, k) =~= cands.subrange(0, k));
        lemma_validated_err(cands.drop_last(), axes, features, k);
    }
}

/// The rank of an axis: its declaration position, or the number of axes.
fn rank_of(names: &Vec<String>, axis: &String) -> (r: usize)
    ensures
        r as int == match index_of(views(names@), axis@) {
            Some(i) => i,
            None => names.len() as int,
        },
{
    proof {
        crate::text::lemma_index_of(views(names@), axis@);
    }
    let mut i: usize = 0;
    while i < names.len()
        invariant
            i <= names.len(),
            forall|j: int| 0 <= j < i ==> views(names@)[j] != axis@,
            index_of(views(names@), axis@) is None <==> !views(names@).contains(axis@),
            index_of(views(names@), axis@) matches Some(k) ==> 0 <= k < views(names@).len()
                && views(names@)[k] == axis@ && forall|j: int| 0 <= j < k ==> views(names@)[j] != axis@,
        decreases names.len() - i,
    {
        if names[i] == *axis {
            assert(views(names@)[i as int] == axis@);
            return i;
        }
        i += 1;
    }
    names.len()
}

} // verus!

verus! {

impl Predicate {
    /// A copy of this condition.
    pub fn copy(&self) -> (r: Predicate)
        ensures
            predicate_view(r) == predicate_view(*self),
            (r is Always) == (*self is Always),
    {
        match self {
            Predicate::Always => Predicate::Always,
            Predicate::Axis { axis, value } => Predicate::Axis { axis: axis.clone(), value: value.clone() },
            Predicate::Feature { name } => Predicate::Feature { name: name.clone() },
        }
    }
}

/// Appends the validated fragments of rank `r`, in order.
fn append_rank(out: &mut Vec<PlannedFragment>, valid: &Vec<(String, Predicate, usize)>, r: usize)
    ensures
        plan_view(final(out)@) == plan_view(old(out)@) + without_rank(of_rank(valid_view(valid@), r as nat)),
{
    let ghost ps = valid_view(valid@);
    let ghost start = plan_view(out@);
    let mut k: usize = 0;
    assert(ps.subrange(0, 0) =~= Seq::<Planned>::empty());
    assert(start + without_rank(of_rank(ps.subrange(0, 0), r as nat)) =~= start);
    while k < valid.len()
        invariant
            k <= valid.len(),
            ps == valid_view(valid@),
            plan_view(out@) == start + without_rank(of_rank(ps.subrange(0, k as int), r as nat)),
        decreases valid.len() - k,
    {
        assert(ps.subrange(0, k + 1).drop_last() =~= ps.subrange(0, k as int));
        assert(ps.subrange(0, k + 1).last() == ps[k as int]);
        if valid[k].2 == r {
            let item = PlannedFragment { label: valid[k].0.clone(), predicate: valid[k].1.copy() };
            let ghost before = out@;
            out.push(item);
            assert(plan_view(out@) =~= plan_view(before).push((valid@[k as int].0@, predicate_view(valid@[k as int].1))));
            assert(without_rank(of_rank(ps.subrange(0, k + 1), r as nat)) =~= without_rank(of_rank(ps.subrange(0, k as int), r as nat)).push(
                (ps[k as int].0, ps[k as int].1)));
            assert(plan_view(out@) =~= start + without_rank(of_rank(ps.subrange(0, k + 1), r as nat)));
        }
        k += 1;
    }
    assert(ps.subrange(0, valid@.len() as int) =~= ps);
}

/// Whether a configuration error reports the given undeclared axis or value.
pub open spec fn plan_fault_is(e: ConfigError, p: PredicateV) -> bool {
    match p {
        PredicateV::UnknownAxis(a) => e matches ConfigError::UnknownFragmentAxis { axis } && axis@ == a,
        PredicateV::UnknownValue(a, v, l) => e matches ConfigError::UnknownFragmentValue { axis, value, file }
            && axis@ == a && value@ == v && file@ == l,
        _ => false,
    }
}

pub open spec fn valid_view(v: Seq<(String, Predicate, usize)>) -> Seq<Planned> {
    v.map_values(|e: (String, Predicate, usize)| (e.0@, predicate_view(e.1), e.2 as nat))
}

/// The fragment files to load, in apply order: validated in listing order (the first undeclared
/// axis or value is an error), then ordered by the declaration order of their axes, `by-feature/`
/// last. `listing` holds each `by-*` directory of the image with its file names, in name order.
pub fn plan_fragments(listing: &Vec<(String, Vec<String>)>, matrix: Option<&Matrix>, features: &Vec<String>) -> (r: Result<Vec<PlannedFragment>, ConfigError>)
    ensures
        match fragment_plan(listing_view(listing@), matrix_axes(matrix), views(features@)) {
            Ok(ps) => r matches Ok(v) && plan_view(v@) == without_rank(ps),
            Err(p) => r is Err && plan_fault_is(r->Err_0, p),
        },
{
    let cands = list_candidates(listing);
    let ghost cv = triples_view(cands@);
    let ghost axes = matrix_axes(matrix);
    let mut names: Vec<String> = Vec::new();
    match matrix {
        Some(m) => {
            let av = axes_to_vec(&m.axes);
            let mut k: usize = 0;
            while k < av.len()
                invariant
                    k <= av.len(),
                    views(names@) == av@.map_values(|e: (String, Vec<String>)| axis_view(e)).map_values(
                        |e: (Seq<char>, Seq<Seq<char>>)| e.0).subrange(0, k as int),
                decreases av.len() - k,
            {
                let ghost before = names@;
                let ghost mapped = av@.map_values(|e: (String, Vec<String>)| axis_view(e)).map_values(
                    |e: (Seq<char>, Seq<Seq<char>>)| e.0);
                let name = av[k].0.clone();
                names.push(name);
                assert(mapped[k as int] == av@[k as int].0@);
                assert(views(names@) =~= views(before).push(name@));
                assert(mapped.subrange(0, k + 1) =~= mapped.subrange(0, k as int).push(mapped[k as int]));
                assert(views(names@) =~= mapped.subrange(0, k + 1));
                k += 1;
            }
            assert(av@.map_values(|e: (String, Vec<String>)| axis_view(e)).map_values(|e: (Seq<char>, Seq<Seq<char>>)| e.0)
                .subrange(0, av@.len() as int) =~= av@.map_values(|e: (String, Vec<String>)| axis_view(e)).map_values(
                |e: (Seq<char>, Seq<Seq<char>>)| e.0));
        },
        None => {},
    }
    let ghost name_seq = views(names@);
    assert(axes is Some ==> name_seq == axes->0.map_values(|e: (Seq<char>, Seq<Seq<char>>)| e.0));
    assert(axes is None ==> names@.len() == 0);
    let mut valid: Vec<(String, Predicate, usize)> = Vec::new();
    let mut i: usize = 0;
    assert(cv.subrange(0, 0) =~= Seq::<Candidate>::empty());
    assert(valid_view(valid@) =~= Seq::<Planned>::empty());
    while i < cands.len()
        invariant
            i <= cands.len(),
            cv == triples_view(cands@),
            cv == candidates(listing_view(listing@)),
            axes == matrix_axes(matrix),
            name_seq == views(names@),
            axes is Some ==> name_seq == axes->0.map_values(|e: (Seq<char>, Seq<Seq<char>>)| e.0),
            axes is None ==> names@.len() == 0,
            validated(cv.subrange(0, i as int), axes, views(features@)) == Ok::<Seq<Planned>, PredicateV>(valid_view(valid@)),
        decreases cands.len() - i,
    {
        assert(cv.subrange(0, i + 1).drop_last() =~= cv.subrange(0, i as int));
        assert(cv.subrange(0, i + 1).last() == cv[i as int]);
        let c = &cands[i];
        match predicate_for(c.0.as_str(), c.1.as_str(), c.2.as_str(), matrix, features) {
            Ok(p) => {
                let rank = match matrix {
                    Some(_) => rank_of(&names, &c.0),
                    None => 0,
                };
                assert(rank as nat == axis_rank(axes, c.0@));
                let ghost before = valid@;
                valid.push((c.2.clone(), p, rank));
                assert(valid_view(valid@) =~= valid_view(before).push((c.2@, predicate_view(p), rank as nat)));
            },
            Err(e) => {
                proof {
                    let p = predicate_of(c.0@, c.1@, c.2@, axes, views(features@));
                    assert(cv[i as int] == (c.0@, c.1@, c.2@));
                    assert(p is UnknownAxis || p is UnknownValue);
                    assert(plan_fault_is(e, p));
                    assert(validated(cv.subrange(0, i + 1), axes, views(features@)) == Err::<Seq<Planned>, PredicateV>(p));
                    lemma_validated_err(cv, axes, views(features@), i + 1);
                }
                return Err(e);
            },
        }
        i += 1;
    }
    assert(cv.subrange(0, cands@.len() as int) =~= cv);
    let ghost ps = valid_view(valid@);
    let last: usize = names.len();
    assert(last as nat + 1 == match axes { Some(a) => a.len() + 1, None => 1nat });
    let mut out: Vec<PlannedFragment> = Vec::new();
    let mut r: usize = 0;
    assert(plan_view(out@) =~= without_rank(by_rank(ps, 0)));
    while r < last
        invariant
            r <= last,
            ps == valid_view(valid@),
            plan_view(out@) == without_rank(by_rank(ps, r as nat)),
        decreases last - r,
    {
        append_rank(&mut out, &valid, r);
        assert(without_rank(by_rank(ps, (r + 1) as nat)) =~= without_rank(by_rank(ps, r as nat)) + without_rank(of_rank(ps, r as nat)));
        r += 1;
    }
    append_rank(&mut out, &valid, last);
    assert(without_rank(by_rank(ps, (last + 1) as nat)) =~= without_rank(by_rank(ps, last as nat)) + without_rank(of_rank(ps, last as nat)));
    Ok(out)
}

} // verus!

verus! {

/// How many entries have rank `k`.
pub open spec fn count_rank(ps: Seq<Planned>, k: nat) -> nat
    decreases ps.len(),
{
    if ps.len() == 0 {
        0
    } else {
        count_rank(ps.drop_last(), k) + if ps.last().2 == k { 1nat } else { 0nat }
    }
}

/// How many entries have a rank below `r`.
pub open spec fn count_below(ps: Seq<Planned>, r: nat) -> nat
    decreases ps.len(),
{
    if ps.len() == 0 {
        0
    } else {
        count_below(ps.drop_last(), r) + if ps.last().2 < r { 1nat } else { 0nat }
    }
}

proof fn lemma_of_rank(ps: Seq<Planned>, k: nat)
    ensures
        of_rank(ps, k).len() == count_rank(ps, k),
        forall|i: int| 0 <= i < of_rank(ps, k).len() ==> (#[trigger] of_rank(ps, k)[i]).2 == k,
    decreases ps.len(),
{
    if ps.len() > 0 {
        lemma_of_rank(ps.drop_last(), k);
    }
}

proof fn lemma_count_split(ps: Seq<Planned>, r: nat)
    ensures
        count_below(ps, r + 1) == count_below(ps, r) + count_rank(ps, r),
    decreases ps.len(),
{
    if ps.len() > 0 {
        lemma_count_split(ps.drop_last(), r);
    }
}

proof fn lemma_count_all(ps: Seq<Planned>, r: nat)
    requires
        forall|i: int| 0 <= i < ps.len() ==> (#[trigger] ps[i]).2 < r,
    ensures
        count_below(ps, r) == ps.len(),
    decreases ps.len(),
{
    if ps.len() > 0 {
        assert forall|i: int| 0 <= i < ps.drop_last().len() implies (#[trigger] ps.drop_last()[i]).2 < r by {
            assert(ps.drop_last()[i] == ps[i]);
        }
        lemma_count_all(ps.drop_last(), r);
        assert(ps[ps.len() - 1] == ps.last());
    }
}

proof fn lemma_by_rank(ps: Seq<Planned>, r: nat)
    ensures
        by_rank(ps, r).len() == count_below(ps, r),
        forall|i: int| 0 <= i < by_rank(ps, r).len() ==> (#[trigger] by_rank(ps, r)[i]).2 < r,
        forall|i: int, j: int| 0 <= i < j < by_rank(ps, r).len() ==> by_rank(ps, r)[i].2 <= by_rank(ps, r)[j].2,
    decreases r,
{
    if r == 0 {
        assert(count_below(ps, 0) == 0) by {
            lemma_count_zero(ps);
        }
    } else {
        let k = (r - 1) as nat;
        lemma_by_rank(ps, k);
        lemma_of_rank(ps, k);
        lemma_count_split(ps, k);
        let a = by_rank(ps, k);
        let b = of_rank(ps, k);
        assert(by_rank(ps, r) == a + b);
        assert forall|i: int| 0 <= i < (a + b).len() implies (#[trigger] (a + b)[i]).2 < r by {
            if i < a.len() {
                assert((a + b)[i] == a[i]);
            } else {
                assert((a + b)[i] == b[i - a.len()]);
            }
        }
        assert forall|i: int, j: int| 0 <= i < j < (a + b).len() implies (a + b)[i].2 <= (a + b)[j].2 by {
            if j < a.len() {
                assert((a + b)[i] == a[i] && (a + b)[j] == a[j]);
            } else if i < a.len() {
                assert((a + b)[i] == a[i]);
                assert((a + b)[j] == b[j - a.len()]);
            } else {
                assert((a + b)[i] == b[i - a.len()]);
                assert((a + b)[j] == b[j - a.len()]);
            }
        }
    }
}

proof fn lemma_count_zero(ps: Seq<Planned>)
    ensures
        count_below(ps, 0) == 0,
    decreases ps.len(),
{
    if ps.len() > 0 {
        lemma_count_zero(ps.drop_last());
    }
}

proof fn lemma_validated_ranks(cands: Seq<Candidate>, axes: Option<Seq<(Seq<char>, Seq<Seq<char>>)>>, features: Seq<Seq<char>>)
    requires
        validated(cands, axes, features) is Ok,
    ensures
        forall|i: int| 0 <= i < validated(cands, axes, features)->Ok_0.len()
            ==> (#[trigger] validated(cands, axes, features)->Ok_0[i]).2 < match axes { Some(a) => a.len() + 1, None => 1 },
    decreases cands.len(),
{
    if cands.len() > 0 {
        lemma_validated_ranks(cands.drop_last(), axes, features);
        let axis = cands.last().0;
        match axes {
            Some(a) => {
                let names = a.map_values(|e: (Seq<char>, Seq<Seq<char>>)| e.0);
                lemma_index_of(names, axis);
            },
            None => {},
        }
    }
}

/// Fragments apply in the order their axes are declared in the matrix, not the order their
/// directories are listed in: the plan keeps every validated fragment file, and its ranks (the
/// declaration position of each file's axis, `by-feature/` after every declared axis) never
/// decrease, so a later axis's fragments apply later and win conflicts.
pub proof fn law_plan_follows_axis_declaration_order(
    listing: Seq<(Seq<char>, Seq<Seq<char>>)>,
    axes: Option<Seq<(Seq<char>, Seq<Seq<char>>)>>,
    features: Seq<Seq<char>>,
)
    requires
        fragment_plan(listing, axes, features) is Ok,
    ensures
        fragment_plan(listing, axes, features)->Ok_0.len() == validated(candidates(listing), axes, features)->Ok_0.len(),
        forall|i: int, j: int| 0 <= i < j < fragment_plan(listing, axes, features)->Ok_0.len()
            ==> fragment_plan(listing, axes, features)->Ok_0[i].2 <= fragment_plan(listing, axes, features)->Ok_0[j].2,
{
    let ps = validated(candidates(listing), axes, features)->Ok_0;
    let r = match axes { Some(a) => a.len() + 1, None => 1 };
    lemma_validated_ranks(candidates(listing), axes, features);
    lemma_by_rank(ps, r as nat);
    lemma_count_all(ps, r as nat);
}

/// A leaf condition holds exactly when every one of its entries holds: one entry that fails makes
/// the whole leaf fail, whatever the other entries are.
pub proof fn law_leaf_needs_every_entry(entries: Vec<(String, MatchValue)>, axes: Point, features: Seq<Seq<char>>, k: int)
    requires
        0 <= k < entries@.len(),
    ensures
        !leaf_holds(entries@[k].0@, entries@[k].1, axes, features) ==> !holds(Match::Leaf(entries), axes, features),
        holds(Match::Leaf(entries), axes, features) ==> leaf_holds(entries@[k].0@, entries@[k].1, axes, features),
        (forall|i: int| 0 <= i < entries@.len() ==> leaf_holds(#[trigger] entries@[i].0@, entries@[i].1, axes, features))
            ==> holds(Match::Leaf(entries), axes, features),
{
    let m = Match::Leaf(entries);
    assert(m->Leaf_0 == entries);
    assert(holds(m, axes, features) == forall|i: int| 0 <= i < entries@.len()
        ==> leaf_holds(#[trigger] entries@[i].0@, entries@[i].1, axes, features));
}

/// `all` holds exactly when every condition in it holds, `any` when at least one does, and `not`
/// when its condition does not.
pub proof fn law_combinators(conds: Vec<Match>, inner: Match, axes: Point, features: Seq<Seq<char>>, k: int)
    requires
        0 <= k < conds@.len(),
    ensures
        !holds(conds@[k], axes, features) ==> !holds(Match::All { all: conds }, axes, features),
        (forall|i: int| 0 <= i < conds@.len() ==> holds(#[trigger] conds@[i], axes, features))
            ==> holds(Match::All { all: conds }, axes, features),
        holds(conds@[k], axes, features) ==> holds(Match::Any { any: conds }, axes, features),
        (forall|i: int| 0 <= i < conds@.len() ==> !holds(#[trigger] conds@[i], axes, features))
            ==> !holds(Match::Any { any: conds }, axes, features),
        holds(Match::Not { not: Box::new(inner) }, axes, features) == !holds(inner, axes, features),
{
    let a = Match::All { all: conds };
    let b = Match::Any { any: conds };
    reveal_with_fuel(holds, 2);
    assert(a->all == conds);
    assert(b->any == conds);
    assert(holds(a, axes, features) == forall|i: int| 0 <= i < conds@.len() ==> holds(#[trigger] conds@[i], axes, features));
    assert(holds(b, axes, features) == exists|i: int| 0 <= i < conds@.len() && holds(#[trigger] conds@[i], axes, features));
}

} // verus!
