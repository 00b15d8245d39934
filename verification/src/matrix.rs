//! Matrix expansion: the cartesian product of an image's axes (in declared order), minus `exclude`
//! selectors, plus inclusion selectors; and the cell slug derived from a point of the product.
use vstd::prelude::*;
use indexmap::IndexMap;
use crate::error::ConfigError;
use crate::ordered::{axes_entries, axes_to_vec, axis_view, distinct_keys, pin_entries, pin_view, pins_to_vec};
use crate::text::{include_label, include_label_string, copy_string, copy_strings, join_strings, join_with, push_str, views};
use crate::types::{format_text, OutputFormat};

verus! {

/// A partial cell: axis name to a single pinned value, in authored order.
pub type CellSelector = IndexMap<String, String>;

/// An image's matrix: user-defined axes (order-preserving) plus inclusion/exclusion selectors.
pub struct Matrix {
    pub includes: Vec<CellSelector>,
    pub exclude: Vec<CellSelector>,
    pub axes: IndexMap<String, Vec<String>>,
}

/// One expanded matrix cell: ordered `(axis, value)` pairs in matrix-declared order.
#[derive(Debug)]
pub struct AxisTuple {
    pub values: Vec<(String, String)>,
}

/// A point as a sequence of (axis, value) texts.
pub type Point = Seq<(Seq<char>, Seq<char>)>;

/// The axes of a matrix as (name, values) texts.
pub type Axes = Seq<(Seq<char>, Seq<Seq<char>>)>;

pub open spec fn row_view(r: Vec<(String, String)>) -> Point {
    r@.map_values(|e: (String, String)| pin_view(e))
}

pub open spec fn rows_view(rows: Seq<Vec<(String, String)>>) -> Seq<Point> {
    rows.map_values(|r: Vec<(String, String)>| row_view(r))
}

impl AxisTuple {
    pub open spec fn view(&self) -> Point {
        row_view(self.values)
    }
}

pub open spec fn tuples_view(v: Seq<AxisTuple>) -> Seq<Point> {
    v.map_values(|t: AxisTuple| t.view())
}

/// The value pinned to `axis` in `p` (first occurrence), if any.
pub open spec fn lookup(p: Point, axis: Seq<char>) -> Option<Seq<char>>
    decreases p.len(),
{
    if p.len() == 0 {
        None
    } else if p[0].0 == axis {
        Some(p[0].1)
    } else {
        lookup(p.drop_first(), axis)
    }
}

/// The values of a point, in order.
pub open spec fn point_values(p: Point) -> Seq<Seq<char>> {
    p.map_values(|e: (Seq<char>, Seq<char>)| e.1)
}

/// The coordinate part of a slug: the point's values joined by `_`.
pub open spec fn coordinate_of(p: Point) -> Seq<char> {
    join_with(point_values(p), "_"@)
}

/// `<image>_<coordinate>_<format>`.
pub open spec fn slug_text(image: Seq<char>, p: Point, format: OutputFormat) -> Seq<char> {
    image + "_"@ + coordinate_of(p) + "_"@ + format_text(format)
}

/// Position of the first entry of `p` whose axis is `axis`.
pub(crate) fn find_axis(p: &Vec<(String, String)>, axis: &str) -> (r: Option<usize>)
    ensures
        match r {
            Some(i) => i < p.len() && lookup(row_view(*p), axis@) == Some(p@[i as int].1@),
            None => lookup(row_view(*p), axis@) is None,
        },
{
    let ghost pv = row_view(*p);
    let mut i: usize = 0;
    assert(pv.subrange(0, pv.len() as int) =~= pv);
    while i < p.len()
        invariant
            i <= p.len(),
            pv == row_view(*p),
            lookup(pv, axis@) == lookup(pv.subrange(i as int, pv.len() as int), axis@),
        decreases p.len() - i,
    {
        assert(pv.subrange(i as int, pv.len() as int).drop_first() =~= pv.subrange(i + 1, pv.len() as int));
        if crate::text::str_eq(p[i].0.as_str(), axis) {
            return Some(i);
        }
        i += 1;
    }
    None
}

impl AxisTuple {
    /// The axis-coordinate portion of a cell slug: values joined by `_`, in matrix order.
    pub fn coordinate(&self) -> (s: String)
        ensures
            s@ == coordinate_of(self.view()),
    {
        let mut vals: Vec<String> = Vec::new();
        let mut i: usize = 0;
        while i < self.values.len()
            invariant
                i <= self.values.len(),
                views(vals@) == point_values(self.view()).subrange(0, i as int),
            decreases self.values.len() - i,
        {
            let v = copy_string(&self.values[i].1);
            let ghost before = vals@;
            assert(views(before).len() == i);
            vals.push(v);
            assert(vals@ == before.push(v));
            assert(vals@[i as int]@ == point_values(self.view())[i as int]);
            assert(views(vals@) =~= point_values(self.view()).subrange(0, i + 1));
            i += 1;
        }
        assert(point_values(self.view()).subrange(0, self.values@.len() as int) =~= point_values(self.view()));
        join_strings(&vals, "_")
    }

    /// The value pinned to `axis`, if this tuple includes it.
    pub fn get(&self, axis: &str) -> (r: Option<&str>)
        ensures
            r is Some == lookup(self.view(), axis@) is Some,
            r is Some ==> r->0@ == lookup(self.view(), axis@)->0,
    {
        match find_axis(&self.values, axis) {
            Some(i) => Some(self.values[i].1.as_str()),
            None => None,
        }
    }
}

/// The full output basename for a cell: `<image>_<axis values, in order>_<format>`.
pub fn cell_slug(image_name: &str, tuple: &AxisTuple, format: OutputFormat) -> (s: String)
    ensures
        s@ == slug_text(image_name@, tuple.view(), format),
{
    let coordinate = tuple.coordinate();
    let mut out = String::new();
    push_str(&mut out, image_name);
    push_str(&mut out, "_");
    push_str(&mut out, coordinate.as_str());
    push_str(&mut out, "_");
    push_str(&mut out, format.as_str());
    out
}

// ---------------------------------------------------------------------------------------------
// Expansion
// ---------------------------------------------------------------------------------------------

/// Every partial point of `parts` extended by each value of one axis (parts outer, values inner).
pub open spec fn extend_each(parts: Seq<Point>, axis: Seq<char>, values: Seq<Seq<char>>) -> Seq<Point>
    decreases parts.len(),
{
    if parts.len() == 0 {
        Seq::empty()
    } else {
        extend_each(parts.drop_last(), axis, values)
            + values.map_values(|v: Seq<char>| parts.last().push((axis, v)))
    }
}

/// The cartesian product of the axes, in declared order (earlier axes vary slowest).
pub open spec fn product(axes: Axes) -> Seq<Point>
    decreases axes.len(),
{
    if axes.len() == 0 {
        seq![Seq::empty()]
    } else {
        extend_each(product(axes.drop_last()), axes.last().0, axes.last().1)
    }
}

/// Whether a selector pins only values that `p` has.
pub open spec fn selector_matches(sel: Point, p: Point) -> bool {
    forall|i: int| 0 <= i < sel.len() ==> lookup(p, #[trigger] sel[i].0) == Some(sel[i].1)
}

pub open spec fn excluded_by(exclude: Seq<Point>, p: Point) -> bool {
    exists|i: int| 0 <= i < exclude.len() && selector_matches(#[trigger] exclude[i], p)
}

/// The points of `cells` that no `exclude` selector matches, in order.
pub open spec fn retain_unexcluded(cells: Seq<Point>, exclude: Seq<Point>) -> Seq<Point>
    decreases cells.len(),
{
    if cells.len() == 0 {
        Seq::empty()
    } else {
        let r = retain_unexcluded(cells.drop_last(), exclude);
        if excluded_by(exclude, cells.last()) { r } else { r.push(cells.last()) }
    }
}

/// The declared values of `axis`, if declared.
pub open spec fn declared(axes: Axes, axis: Seq<char>) -> Option<Seq<Seq<char>>>
    decreases axes.len(),
{
    if axes.len() == 0 {
        None
    } else if axes[0].0 == axis {
        Some(axes[0].1)
    } else {
        declared(axes.drop_first(), axis)
    }
}

/// The error kinds of matrix validation, over texts.
pub enum MatrixFault {
    EmptyAxis { axis: Seq<char> },
    UnknownAxis { selector: Seq<char>, axis: Seq<char> },
    UnknownValue { selector: Seq<char>, axis: Seq<char>, value: Seq<char> },
    IncludeIncomplete { axis: Seq<char> },
}

/// The first axis (in order) that declares no values.
pub open spec fn first_empty_axis(axes: Axes) -> Option<Seq<char>>
    decreases axes.len(),
{
    if axes.len() == 0 {
        None
    } else if axes[0].1.len() == 0 {
        Some(axes[0].0)
    } else {
        first_empty_axis(axes.drop_first())
    }
}

/// The first problem with one selector: an undeclared axis or an undeclared value.
pub open spec fn selector_fault(axes: Axes, sel: Point, label: Seq<char>) -> Option<MatrixFault>
    decreases sel.len(),
{
    if sel.len() == 0 {
        None
    } else {
        match declared(axes, sel[0].0) {
            None => Some(MatrixFault::UnknownAxis { selector: label, axis: sel[0].0 }),
            Some(vals) => if !vals.contains(sel[0].1) {
                Some(MatrixFault::UnknownValue { selector: label, axis: sel[0].0, value: sel[0].1 })
            } else {
                selector_fault(axes, sel.drop_first(), label)
            },
        }
    }
}

/// The first problem among several selectors.
pub open spec fn selectors_fault(axes: Axes, sels: Seq<Point>, label: Seq<char>) -> Option<MatrixFault>
    decreases sels.len(),
{
    if sels.len() == 0 {
        None
    } else {
        match selector_fault(axes, sels[0], label) {
            Some(f) => Some(f),
            None => selectors_fault(axes, sels.drop_first(), label),
        }
    }
}

/// The first axis (declared order) that an inclusion selector does not pin.
pub open spec fn first_unpinned(axes: Axes, sel: Point) -> Option<Seq<char>>
    decreases axes.len(),
{
    if axes.len() == 0 {
        None
    } else if lookup(sel, axes[0].0) is None {
        Some(axes[0].0)
    } else {
        first_unpinned(axes.drop_first(), sel)
    }
}

/// The full point an inclusion selector denotes, in declared axis order.
pub open spec fn include_point(axes: Axes, sel: Point) -> Point {
    axes.map_values(|a: (Seq<char>, Seq<Seq<char>>)| (a.0, lookup(sel, a.0)->0))
}

/// Adds each inclusion point (in order) that is not already present.
pub open spec fn add_includes(cells: Seq<Point>, axes: Axes, includes: Seq<Point>) -> Result<Seq<Point>, MatrixFault>
    decreases includes.len(),
{
    if includes.len() == 0 {
        Ok(cells)
    } else {
        match add_includes(cells, axes, includes.drop_last()) {
            Err(f) => Err(f),
            Ok(acc) => match first_unpinned(axes, includes.last()) {
                Some(axis) => Err(MatrixFault::IncludeIncomplete { axis }),
                None => {
                    let t = include_point(axes, includes.last());
                    if acc.contains(t) { Ok(acc) } else { Ok(acc.push(t)) }
                },
            },
        }
    }
}

/// The result of expanding a matrix with the given axes and selectors.
pub open spec fn expansion(axes: Axes, includes: Seq<Point>, exclude: Seq<Point>) -> Result<Seq<Point>, MatrixFault> {
    if first_empty_axis(axes) is Some {
        Err(MatrixFault::EmptyAxis { axis: first_empty_axis(axes)->0 })
    } else if selectors_fault(axes, includes, include_label()) is Some {
        Err(selectors_fault(axes, includes, include_label())->0)
    } else if selectors_fault(axes, exclude, "exclude"@) is Some {
        Err(selectors_fault(axes, exclude, "exclude"@)->0)
    } else {
        add_includes(retain_unexcluded(product(axes), exclude), axes, includes)
    }
}

/// Whether a configuration error is the given matrix fault.
pub open spec fn fault_is(e: ConfigError, f: MatrixFault) -> bool {
    match f {
        MatrixFault::EmptyAxis { axis } => e matches ConfigError::EmptyAxis { axis: a } && a@ == axis,
        MatrixFault::UnknownAxis { selector, axis } =>
            e matches ConfigError::SelectorUnknownAxis { selector: s, axis: a } && s@ == selector && a@ == axis,
        MatrixFault::UnknownValue { selector, axis, value } =>
            e matches ConfigError::SelectorUnknownValue { selector: s, axis: a, value: v }
                && s@ == selector && a@ == axis && v@ == value,
        MatrixFault::IncludeIncomplete { axis } =>
            e matches ConfigError::IncludeIncomplete { axis: a } && a@ == axis,
    }
}

impl Matrix {
    pub open spec fn axes_view(&self) -> Axes {
        axes_entries(self.axes)
    }

    pub open spec fn include_view(&self) -> Seq<Point> {
        self.includes@.map_values(|s: CellSelector| pin_entries(s))
    }

    pub open spec fn exclude_view(&self) -> Seq<Point> {
        self.exclude@.map_values(|s: CellSelector| pin_entries(s))
    }
}

pub open spec fn avec_view(v: Seq<(String, Vec<String>)>) -> Axes {
    v.map_values(|e: (String, Vec<String>)| axis_view(e))
}

/// Position of the declaration of `axis`.
fn declared_index(axes: &Vec<(String, Vec<String>)>, axis: &String) -> (r: Option<usize>)
    ensures
        match r {
            Some(i) => i < axes.len() && declared(avec_view(axes@), axis@) == Some(views(axes@[i as int].1@)),
            None => declared(avec_view(axes@), axis@) is None,
        },
{
    let ghost av = avec_view(axes@);
    let mut i: usize = 0;
    assert(av.subrange(0, av.len() as int) =~= av);
    while i < axes.len()
        invariant
            i <= axes.len(),
            av == avec_view(axes@),
            declared(av, axis@) == declared(av.subrange(i as int, av.len() as int), axis@),
        decreases axes.len() - i,
    {
        assert(av.subrange(i as int, av.len() as int).drop_first() =~= av.subrange(i + 1, av.len() as int));
        if axes[i].0 == *axis {
            return Some(i);
        }
        i += 1;
    }
    None
}

/// Whether every pin of `sel` agrees with `p`.
fn matches_selector(sel: &Vec<(String, String)>, p: &Vec<(String, String)>) -> (r: bool)
    ensures
        r == selector_matches(row_view(*sel), row_view(*p)),
{
    let ghost sv = row_view(*sel);
    let mut i: usize = 0;
    while i < sel.len()
        invariant
            i <= sel.len(),
            sv == row_view(*sel),
            forall|k: int| 0 <= k < i ==> lookup(row_view(*p), #[trigger] sv[k].0) == Some(sv[k].1),
        decreases sel.len() - i,
    {
        assert(sel[i as int].0@ == sv[i as int].0 && sel[i as int].1@ == sv[i as int].1);
        match find_axis(p, sel[i].0.as_str()) {
            Some(j) => {
                if p[j].1 != sel[i].1 {
                    assert(lookup(row_view(*p), sv[i as int].0) != Some(sv[i as int].1));
                    return false;
                }
            },
            None => {
                assert(lookup(row_view(*p), sv[i as int].0) != Some(sv[i as int].1));
                return false;
            },
        }
        i += 1;
    }
    true
}

/// Whether two points are equal.
fn row_eq(a: &Vec<(String, String)>, b: &Vec<(String, String)>) -> (r: bool)
    ensures
        r == (row_view(*a) == row_view(*b)),
{
    if a.len() != b.len() {
        assert(row_view(*a).len() != row_view(*b).len());
        return false;
    }
    let mut i: usize = 0;
    while i < a.len()
        invariant
            i <= a.len() == b.len(),
            forall|k: int| 0 <= k < i ==> row_view(*a)[k] == row_view(*b)[k],
        decreases a.len() - i,
    {
        if a[i].0 != b[i].0 || a[i].1 != b[i].1 {
            assert(row_view(*a)[i as int] != row_view(*b)[i as int]);
            return false;
        }
        i += 1;
    }
    assert(row_view(*a) =~= row_view(*b));
    true
}

/// Whether `rows` contains a point equal to `p`.
fn rows_contain(rows: &Vec<Vec<(String, String)>>, p: &Vec<(String, String)>) -> (r: bool)
    ensures
        r == rows_view(rows@).contains(row_view(*p)),
{
    let mut i: usize = 0;
    while i < rows.len()
        invariant
            i <= rows.len(),
            forall|k: int| 0 <= k < i ==> rows_view(rows@)[k] != row_view(*p),
        decreases rows.len() - i,
    {
        if row_eq(&rows[i], p) {
            assert(rows_view(rows@)[i as int] == row_view(*p));
            return true;
        }
        i += 1;
    }
    false
}

fn copy_row(r: &Vec<(String, String)>) -> (out: Vec<(String, String)>)
    ensures
        row_view(out) == row_view(*r),
{
    let mut out: Vec<(String, String)> = Vec::new();
    let mut i: usize = 0;
    while i < r.len()
        invariant
            i <= r.len(),
            row_view(out) == row_view(*r).subrange(0, i as int),
        decreases r.len() - i,
    {
        let a = copy_string(&r[i].0);
        let b = copy_string(&r[i].1);
        let ghost before = out@;
        assert(before.map_values(|e: (String, String)| pin_view(e)).len() == i);
        out.push((a, b));
        assert(out@ == before.push((a, b)));
        assert(row_view(out)[i as int] == row_view(*r)[i as int]);
        assert(row_view(out) =~= row_view(*r).subrange(0, i + 1));
        i += 1;
    }
    assert(row_view(*r).subrange(0, r@.len() as int) =~= row_view(*r));
    out
}

proof fn lemma_extend_each_step(parts: Seq<Point>, j: int, axis: Seq<char>, values: Seq<Seq<char>>)
    requires
        0 <= j < parts.len(),
    ensures
        extend_each(parts.subrange(0, j + 1), axis, values)
            == extend_each(parts.subrange(0, j), axis, values)
                + values.map_values(|v: Seq<char>| parts[j].push((axis, v))),
{
    assert(parts.subrange(0, j + 1).drop_last() =~= parts.subrange(0, j));
    assert(parts.subrange(0, j + 1).last() == parts[j]);
}

/// Extends every partial point by every value of one axis.
fn extend_rows(
    parts: &Vec<Vec<(String, String)>>,
    axis: &String,
    values: &Vec<String>,
) -> (out: Vec<Vec<(String, String)>>)
    ensures
        rows_view(out@) == extend_each(rows_view(parts@), axis@, views(values@)),
{
    let ghost pv = rows_view(parts@);
    let ghost vv = views(values@);
    let mut out: Vec<Vec<(String, String)>> = Vec::new();
    let mut j: usize = 0;
    while j < parts.len()
        invariant
            j <= parts.len(),
            pv == rows_view(parts@),
            vv == views(values@),
            rows_view(out@) == extend_each(pv.subrange(0, j as int), axis@, vv),
        decreases parts.len() - j,
    {
        let ghost base = rows_view(out@);
        let mut k: usize = 0;
        while k < values.len()
            invariant
                j < parts.len(),
                k <= values.len(),
                pv == rows_view(parts@),
                vv == views(values@),
                rows_view(out@) == base + vv.subrange(0, k as int).map_values(|v: Seq<char>| pv[j as int].push((axis@, v))),
            decreases values.len() - k,
        {
            let mut row = copy_row(&parts[j]);
            let a = copy_string(axis);
            let v = copy_string(&values[k]);
            row.push((a, v));
            assert(row_view(row) =~= pv[j as int].push((axis@, vv[k as int])));
            let ghost before = out@;
            assert(rows_view(before).len() == base.len() + k);
            out.push(row);
            assert(out@ == before.push(row));
            assert(rows_view(out@) =~= rows_view(before).push(row_view(row)));
            let ghost f = |v: Seq<char>| pv[j as int].push((axis@, v));
            assert(vv.subrange(0, k + 1).map_values(f) =~= vv.subrange(0, k as int).map_values(f).push(f(vv[k as int])));
            assert(rows_view(out@) =~= base + vv.subrange(0, k + 1).map_values(f));
            k += 1;
        }
        assert(vv.subrange(0, values@.len() as int) =~= vv);
        proof {
            lemma_extend_each_step(pv, j as int, axis@, vv);
        }
        j += 1;
    }
    assert(pv.subrange(0, parts@.len() as int) =~= pv);
    out
}

/// The cartesian product of the axes, earlier axes varying slowest.
fn cartesian(axes: &Vec<(String, Vec<String>)>) -> (out: Vec<Vec<(String, String)>>)
    ensures
        rows_view(out@) == product(avec_view(axes@)),
{
    let ghost av = avec_view(axes@);
    let mut product_rows: Vec<Vec<(String, String)>> = Vec::new();
    let empty_row: Vec<(String, String)> = Vec::new();
    product_rows.push(empty_row);
    assert(row_view(empty_row) =~= Seq::<(Seq<char>, Seq<char>)>::empty());
    assert(rows_view(product_rows@) =~= product(av.subrange(0, 0)));
    let mut i: usize = 0;
    while i < axes.len()
        invariant
            i <= axes.len(),
            av == avec_view(axes@),
            rows_view(product_rows@) == product(av.subrange(0, i as int)),
        decreases axes.len() - i,
    {
        assert(av.subrange(0, i + 1).drop_last() =~= av.subrange(0, i as int));
        product_rows = extend_rows(&product_rows, &axes[i].0, &axes[i].1);
        i += 1;
    }
    assert(av.subrange(0, axes@.len() as int) =~= av);
    product_rows
}

/// Checks one selector against the declared axes and values.
fn check_selector(
    axes: &Vec<(String, Vec<String>)>,
    sel: &Vec<(String, String)>,
    label: &String,
) -> (r: Result<(), ConfigError>)
    ensures
        match selector_fault(avec_view(axes@), row_view(*sel), label@) {
            None => r is Ok,
            Some(f) => r is Err && fault_is(r->Err_0, f),
        },
{
    let ghost av = avec_view(axes@);
    let ghost sv = row_view(*sel);
    let mut i: usize = 0;
    assert(sv.subrange(0, sv.len() as int) =~= sv);
    while i < sel.len()
        invariant
            i <= sel.len(),
            av == avec_view(axes@),
            sv == row_view(*sel),
            selector_fault(av, sv, label@) == selector_fault(av, sv.subrange(i as int, sv.len() as int), label@),
        decreases sel.len() - i,
    {
        let ghost rest = sv.subrange(i as int, sv.len() as int);
        assert(rest.drop_first() =~= sv.subrange(i + 1, sv.len() as int));
        assert(rest[0] == sv[i as int]);
        match declared_index(axes, &sel[i].0) {
            None => {
                return Err(ConfigError::SelectorUnknownAxis {
                    selector: copy_string(label),
                    axis: copy_string(&sel[i].0),
                });
            },
            Some(d) => {
                if !crate::text::contains_string(&axes[d].1, &sel[i].1) {
                    return Err(ConfigError::SelectorUnknownValue {
                        selector: copy_string(label),
                        axis: copy_string(&sel[i].0),
                        value: copy_string(&sel[i].1),
                    });
                }
            },
        }
        i += 1;
    }
    Ok(())
}

/// Checks every selector of one kind, in order.
fn check_selectors(
    axes: &Vec<(String, Vec<String>)>,
    sels: &Vec<Vec<(String, String)>>,
    label: &String,
) -> (r: Result<(), ConfigError>)
    ensures
        match selectors_fault(avec_view(axes@), rows_view(sels@), label@) {
            None => r is Ok,
            Some(f) => r is Err && fault_is(r->Err_0, f),
        },
{
    let ghost sv = rows_view(sels@);
    let mut i: usize = 0;
    assert(sv.subrange(0, sv.len() as int) =~= sv);
    while i < sels.len()
        invariant
            i <= sels.len(),
            sv == rows_view(sels@),
            selectors_fault(avec_view(axes@), sv, label@)
                == selectors_fault(avec_view(axes@), sv.subrange(i as int, sv.len() as int), label@),
        decreases sels.len() - i,
    {
        let ghost rest = sv.subrange(i as int, sv.len() as int);
        assert(rest.drop_first() =~= sv.subrange(i + 1, sv.len() as int));
        assert(rest[0] == row_view(sels@[i as int]));
        let checked = check_selector(axes, &sels[i], label);
        if checked.is_err() {
            return checked;
        }
        i += 1;
    }
    Ok(())
}

/// The selectors of a list as entry vectors.
fn selectors_to_rows(sels: &Vec<CellSelector>) -> (out: Vec<Vec<(String, String)>>)
    ensures
        rows_view(out@) == sels@.map_values(|s: CellSelector| pin_entries(s)),
{
    let ghost target = sels@.map_values(|s: CellSelector| pin_entries(s));
    let mut out: Vec<Vec<(String, String)>> = Vec::new();
    let mut i: usize = 0;
    while i < sels.len()
        invariant
            i <= sels.len(),
            target == sels@.map_values(|s: CellSelector| pin_entries(s)),
            rows_view(out@) == target.subrange(0, i as int),
        decreases sels.len() - i,
    {
        let row = pins_to_vec(&sels[i]);
        let ghost before = out@;
        assert(rows_view(before).len() == i);
        out.push(row);
        assert(out@ == before.push(row));
        assert(rows_view(out@) =~= target.subrange(0, i + 1));
        i += 1;
    }
    assert(target.subrange(0, sels@.len() as int) =~= target);
    out
}

/// Whether some exclusion selector matches the point.
fn is_excluded(exclude: &Vec<Vec<(String, String)>>, p: &Vec<(String, String)>) -> (r: bool)
    ensures
        r == excluded_by(rows_view(exclude@), row_view(*p)),
{
    let ghost ev = rows_view(exclude@);
    let mut i: usize = 0;
    while i < exclude.len()
        invariant
            i <= exclude.len(),
            ev == rows_view(exclude@),
            forall|k: int| 0 <= k < i ==> !selector_matches(#[trigger] ev[k], row_view(*p)),
        decreases exclude.len() - i,
    {
        if matches_selector(&exclude[i], p) {
            assert(selector_matches(ev[i as int], row_view(*p)));
            return true;
        }
        i += 1;
    }
    false
}

/// The point an inclusion selector denotes, or the first axis it leaves unpinned.
fn inclusion_point(
    axes: &Vec<(String, Vec<String>)>,
    sel: &Vec<(String, String)>,
) -> (r: Result<Vec<(String, String)>, ConfigError>)
    ensures
        match first_unpinned(avec_view(axes@), row_view(*sel)) {
            Some(axis) => r is Err && fault_is(r->Err_0, MatrixFault::IncludeIncomplete { axis }),
            None => r is Ok && row_view(r->Ok_0) == include_point(avec_view(axes@), row_view(*sel)),
        },
{
    let ghost av = avec_view(axes@);
    let ghost sv = row_view(*sel);
    let mut out: Vec<(String, String)> = Vec::new();
    let mut i: usize = 0;
    assert(av.subrange(0, av.len() as int) =~= av);
    while i < axes.len()
        invariant
            i <= axes.len(),
            av == avec_view(axes@),
            sv == row_view(*sel),
            first_unpinned(av, sv) == first_unpinned(av.subrange(i as int, av.len() as int), sv),
            row_view(out) == include_point(av.subrange(0, i as int), sv),
        decreases axes.len() - i,
    {
        let ghost rest = av.subrange(i as int, av.len() as int);
        assert(rest.drop_first() =~= av.subrange(i + 1, av.len() as int));
        assert(rest[0] == av[i as int]);
        match find_axis(sel, axes[i].0.as_str()) {
            None => {
                return Err(ConfigError::IncludeIncomplete { axis: copy_string(&axes[i].0) });
            },
            Some(j) => {
                let a = copy_string(&axes[i].0);
                let v = copy_string(&sel[j].1);
                let ghost before = out@;
                assert(row_view(out).len() == i);
                out.push((a, v));
                assert(out@ == before.push((a, v)));
                assert(a@ == av[i as int].0);
                assert(lookup(sv, av[i as int].0) == Some(v@));
                assert(row_view(out) =~= before.map_values(|e: (String, String)| pin_view(e)).push(pin_view((a, v))));
                assert(include_point(av.subrange(0, i + 1), sv) =~= include_point(av.subrange(0, i as int), sv).push((av[i as int].0, lookup(sv, av[i as int].0)->0)));
                assert(row_view(out) =~= include_point(av.subrange(0, i + 1), sv));
            },
        }
        i += 1;
    }
    assert(av.subrange(0, axes@.len() as int) =~= av);
    Ok(out)
}

/// Expand a matrix into the cartesian product of its axes (in declared order), minus exclusion
/// selectors, plus inclusion selectors. Validates that axes are non-empty and that selectors
/// reference declared axes/values.
pub fn expand(matrix: &Matrix) -> (r: Result<Vec<AxisTuple>, ConfigError>)
    ensures
        match expansion(matrix.axes_view(), matrix.include_view(), matrix.exclude_view()) {
            Ok(cells) => r is Ok && tuples_view(r->Ok_0@) == cells,
            Err(f) => r is Err && fault_is(r->Err_0, f),
        },
{
    let axes = axes_to_vec(&matrix.axes);
    let ghost av = avec_view(axes@);
    assert(av == matrix.axes_view());
    let mut i: usize = 0;
    assert(av.subrange(0, av.len() as int) =~= av);
    while i < axes.len()
        invariant
            i <= axes.len(),
            av == avec_view(axes@),
            av == matrix.axes_view(),
            first_empty_axis(av) == first_empty_axis(av.subrange(i as int, av.len() as int)),
        decreases axes.len() - i,
    {
        let ghost rest = av.subrange(i as int, av.len() as int);
        assert(rest.drop_first() =~= av.subrange(i + 1, av.len() as int));
        assert(rest[0] == av[i as int]);
        if axes[i].1.len() == 0 {
            assert(av[i as int].1.len() == 0);
            assert(first_empty_axis(rest) == Some(av[i as int].0));
            assert(first_empty_axis(matrix.axes_view()) == Some(av[i as int].0));
            return Err(ConfigError::EmptyAxis { axis: copy_string(&axes[i].0) });
        }
        i += 1;
    }
    assert(first_empty_axis(av.subrange(axes@.len() as int, av.len() as int)) is None);
    assert(first_empty_axis(matrix.axes_view()) is None);
    let incs = selectors_to_rows(&matrix.includes);
    let excs = selectors_to_rows(&matrix.exclude);
    let inc_label = include_label_string();
    let exc_label = String::from_str("exclude");
    let checked = check_selectors(&axes, &incs, &inc_label);
    if checked.is_err() {
        return Err(checked.unwrap_err());
    }
    let checked = check_selectors(&axes, &excs, &exc_label);
    if checked.is_err() {
        return Err(checked.unwrap_err());
    }

    let all = cartesian(&axes);
    let ghost pv = rows_view(all@);
    let ghost ev = rows_view(excs@);
    let mut kept: Vec<Vec<(String, String)>> = Vec::new();
    let mut k: usize = 0;
    while k < all.len()
        invariant
            k <= all.len(),
            pv == rows_view(all@),
            ev == rows_view(excs@),
            rows_view(kept@) == retain_unexcluded(pv.subrange(0, k as int), ev),
        decreases all.len() - k,
    {
        assert(pv.subrange(0, k + 1).drop_last() =~= pv.subrange(0, k as int));
        if !is_excluded(&excs, &all[k]) {
            let row = copy_row(&all[k]);
            let ghost before = kept@;
            kept.push(row);
            assert(kept@ == before.push(row));
            assert(rows_view(kept@) =~= rows_view(before).push(row_view(row)));
        }
        k += 1;
    }
    assert(pv.subrange(0, all@.len() as int) =~= pv);

    let ghost iv = rows_view(incs@);
    let ghost start = rows_view(kept@);
    assert(start == retain_unexcluded(product(matrix.axes_view()), matrix.exclude_view()));
    let mut t: usize = 0;
    while t < incs.len()
        invariant
            t <= incs.len(),
            av == avec_view(axes@),
            iv == rows_view(incs@),
            iv == matrix.include_view(),
            av == matrix.axes_view(),
            start == retain_unexcluded(product(matrix.axes_view()), matrix.exclude_view()),
            first_empty_axis(matrix.axes_view()) is None,
            selectors_fault(matrix.axes_view(), matrix.include_view(), include_label()) is None,
            selectors_fault(matrix.axes_view(), matrix.exclude_view(), "exclude"@) is None,
            add_includes(start, av, iv.subrange(0, t as int)) == Ok::<Seq<Point>, MatrixFault>(rows_view(kept@)),
        decreases incs.len() - t,
    {
        assert(iv.subrange(0, t + 1).drop_last() =~= iv.subrange(0, t as int));
        assert(iv.subrange(0, t + 1).last() == row_view(incs@[t as int]));
        match inclusion_point(&axes, &incs[t]) {
            Err(e) => {
                proof {
                    let f = first_unpinned(av, iv[t as int]);
                    assert(f is Some);
                    assert(add_includes(start, av, iv.subrange(0, t + 1))
                        == Err::<Seq<Point>, MatrixFault>(MatrixFault::IncludeIncomplete { axis: f->0 }));
                    lemma_add_includes_error_persists(start, av, iv, t as int + 1);
                    assert(iv == matrix.include_view());
                    assert(start == retain_unexcluded(product(matrix.axes_view()), matrix.exclude_view()));
                    assert(expansion(matrix.axes_view(), matrix.include_view(), matrix.exclude_view())
                        == Err::<Seq<Point>, MatrixFault>(MatrixFault::IncludeIncomplete { axis: f->0 }));
                }
                return Err(e);
            },
            Ok(row) => {
                if !rows_contain(&kept, &row) {
                    let ghost before = kept@;
                    kept.push(row);
                    assert(kept@ == before.push(row));
                    assert(rows_view(kept@) =~= rows_view(before).push(row_view(row)));
                }
            },
        }
        t += 1;
    }
    assert(iv.subrange(0, incs@.len() as int) =~= iv);

    let mut out: Vec<AxisTuple> = Vec::new();
    let mut m: usize = 0;
    let ghost kv = rows_view(kept@);
    while m < kept.len()
        invariant
            m <= kept.len(),
            kv == rows_view(kept@),
            tuples_view(out@) == kv.subrange(0, m as int),
        decreases kept.len() - m,
    {
        let row = copy_row(&kept[m]);
        let ghost before = out@;
        let tuple = AxisTuple { values: row };
        assert(tuple.view() == kv[m as int]);
        out.push(tuple);
        assert(out@ == before.push(tuple));
        assert(tuples_view(out@) =~= tuples_view(before).push(tuple.view()));
        assert(tuples_view(out@) =~= kv.subrange(0, m + 1));
        m += 1;
    }
    assert(kv.subrange(0, kept@.len() as int) =~= kv);
    Ok(out)
}

/// Once an inclusion step fails, every longer prefix of the inclusion list fails the same way.
proof fn lemma_add_includes_error_persists(cells: Seq<Point>, axes: Axes, incs: Seq<Point>, n: int)
    requires
        0 < n <= incs.len(),
        add_includes(cells, axes, incs.subrange(0, n)) is Err,
    ensures
        add_includes(cells, axes, incs) == add_includes(cells, axes, incs.subrange(0, n)),
    decreases incs.len() - n,
{
    if n < incs.len() {
        assert(incs.subrange(0, n + 1).drop_last() =~= incs.subrange(0, n));
        lemma_add_includes_error_persists(cells, axes, incs, n + 1);
    } else {
        assert(incs.subrange(0, n) =~= incs);
    }
}

proof fn lemma_retain_members(cells: Seq<Point>, exclude: Seq<Point>, x: Point)
    ensures
        retain_unexcluded(cells, exclude).contains(x) <==> (cells.contains(x) && !excluded_by(exclude, x)),
    decreases cells.len(),
{
    if cells.len() > 0 {
        lemma_retain_members(cells.drop_last(), exclude, x);
        let r = retain_unexcluded(cells.drop_last(), exclude);
        if cells.contains(x) && !cells.drop_last().contains(x) {
            let k = choose|k: int| 0 <= k < cells.len() && cells[k] == x;
            if k < cells.len() - 1 {
                assert(cells.drop_last()[k] == x);
            }
            assert(cells.last() == x);
        }
        if cells.drop_last().contains(x) {
            let k = choose|k: int| 0 <= k < cells.drop_last().len() && cells.drop_last()[k] == x;
            assert(cells[k] == x);
        }
        if !excluded_by(exclude, cells.last()) {
            if r.push(cells.last()).contains(x) && !r.contains(x) {
                let k = choose|k: int| 0 <= k < r.push(cells.last()).len() && r.push(cells.last())[k] == x;
                assert(k == r.len());
            }
            if r.contains(x) {
                let k = choose|k: int| 0 <= k < r.len() && r[k] == x;
                assert(r.push(cells.last())[k] == x);
            }
            if x == cells.last() {
                assert(r.push(cells.last())[r.len() as int] == x);
            }
        }
    }
}

proof fn lemma_add_includes_members(cells: Seq<Point>, axes: Axes, incs: Seq<Point>)
    requires
        add_includes(cells, axes, incs) is Ok,
    ensures
        forall|x: Point| #[trigger] cells.contains(x) ==> add_includes(cells, axes, incs)->Ok_0.contains(x),
        forall|k: int| 0 <= k < incs.len() ==> add_includes(cells, axes, incs)->Ok_0.contains(include_point(axes, #[trigger] incs[k])),
        forall|x: Point| #[trigger] add_includes(cells, axes, incs)->Ok_0.contains(x) ==> cells.contains(x)
            || exists|k: int| 0 <= k < incs.len() && x == include_point(axes, #[trigger] incs[k]),
    decreases incs.len(),
{
    if incs.len() > 0 {
        let front = incs.drop_last();
        lemma_add_includes_members(cells, axes, front);
        let acc = add_includes(cells, axes, front)->Ok_0;
        let t = include_point(axes, incs.last());
        let out = add_includes(cells, axes, incs)->Ok_0;
        assert(out == acc || out == acc.push(t));
        assert forall|x: Point| acc.contains(x) implies out.contains(x) by {
            if out != acc {
                let k = choose|k: int| 0 <= k < acc.len() && acc[k] == x;
                assert(out[k] == x);
            }
        }
        assert(out.contains(t)) by {
            if out != acc {
                assert(out[acc.len() as int] == t);
            }
        }
        assert forall|k: int| 0 <= k < incs.len() implies out.contains(include_point(axes, #[trigger] incs[k])) by {
            if k < incs.len() - 1 {
                assert(front[k] == incs[k]);
                assert(acc.contains(include_point(axes, front[k])));
            }
        }
        assert forall|x: Point| #[trigger] out.contains(x) implies cells.contains(x)
            || exists|k: int| 0 <= k < incs.len() && x == include_point(axes, #[trigger] incs[k]) by {
            if acc.contains(x) {
                if !cells.contains(x) {
                    let k = choose|k: int| 0 <= k < front.len() && x == include_point(axes, #[trigger] front[k]);
                    assert(incs[k] == front[k]);
                }
            } else {
                let j = choose|j: int| 0 <= j < out.len() && out[j] == x;
                if j < acc.len() {
                    assert(acc[j] == x);
                }
                assert(x == t);
                assert(incs[incs.len() - 1] == incs.last());
            }
        }
    }
}

/// Exclusion and inclusion, as the matrix promises them: every included cell is in the expansion,
/// and every other cell of the expansion is a point of the declared cartesian product that no
/// exclusion selector matches.
pub proof fn law_expansion_members(axes: Axes, includes: Seq<Point>, exclude: Seq<Point>)
    requires
        expansion(axes, includes, exclude) is Ok,
    ensures
        forall|k: int| 0 <= k < includes.len()
            ==> expansion(axes, includes, exclude)->Ok_0.contains(include_point(axes, #[trigger] includes[k])),
        forall|x: Point| #[trigger] expansion(axes, includes, exclude)->Ok_0.contains(x)
            ==> (product(axes).contains(x) && !excluded_by(exclude, x))
                || exists|k: int| 0 <= k < includes.len() && x == include_point(axes, #[trigger] includes[k]),
{
    let cells = retain_unexcluded(product(axes), exclude);
    lemma_add_includes_members(cells, axes, includes);
    assert forall|x: Point| #[trigger] expansion(axes, includes, exclude)->Ok_0.contains(x)
        implies (product(axes).contains(x) && !excluded_by(exclude, x))
            || exists|k: int| 0 <= k < includes.len() && x == include_point(axes, #[trigger] includes[k]) by {
        lemma_retain_members(product(axes), exclude, x);
    }
}

/// Every exclusion selector removes what it matches: a cell of the expansion that any one of the
/// exclusion selectors matches is there only as an inclusion point.
pub proof fn law_every_exclusion_applies(axes: Axes, includes: Seq<Point>, exclude: Seq<Point>)
    requires
        expansion(axes, includes, exclude) is Ok,
    ensures
        forall|x: Point, k: int| #[trigger] expansion(axes, includes, exclude)->Ok_0.contains(x) && 0 <= k < exclude.len()
            && selector_matches(#[trigger] exclude[k], x)
            ==> exists|j: int| 0 <= j < includes.len() && x == include_point(axes, #[trigger] includes[j]),
{
    law_expansion_members(axes, includes, exclude);
    assert forall|x: Point, k: int| #[trigger] expansion(axes, includes, exclude)->Ok_0.contains(x) && 0 <= k < exclude.len()
        && selector_matches(#[trigger] exclude[k], x)
        implies exists|j: int| 0 <= j < includes.len() && x == include_point(axes, #[trigger] includes[j]) by {
        assert(excluded_by(exclude, x));
    }
}

/// With no inclusion or exclusion selectors, a matrix expands to its full cartesian product.
pub proof fn law_plain_matrix_is_the_product(axes: Axes)
    requires
        first_empty_axis(axes) is None,
    ensures
        expansion(axes, Seq::empty(), Seq::empty()) == Ok::<Seq<Point>, MatrixFault>(product(axes)),
{
    lemma_retain_nothing(product(axes));
}

proof fn lemma_retain_nothing(cells: Seq<Point>)
    ensures
        retain_unexcluded(cells, Seq::empty()) == cells,
    decreases cells.len(),
{
    if cells.len() > 0 {
        lemma_retain_nothing(cells.drop_last());
        assert(!excluded_by(Seq::empty(), cells.last()));
        assert(cells.drop_last().push(cells.last()) =~= cells);
    }
}

/// `x` assigns every axis, in declared order, one of its declared values.
pub open spec fn is_declared_point(axes: Axes, x: Point) -> bool {
    &&& x.len() == axes.len()
    &&& forall|i: int| 0 <= i < axes.len() ==> (#[trigger] x[i]).0 == axes[i].0 && axes[i].1.contains(x[i].1)
}

/// The number of points of the cartesian product.
pub open spec fn product_size(axes: Axes) -> nat
    decreases axes.len(),
{
    if axes.len() == 0 {
        1
    } else {
        product_size(axes.drop_last()) * axes.last().1.len()
    }
}

proof fn lemma_extend_each(parts: Seq<Point>, axis: Seq<char>, values: Seq<Seq<char>>)
    ensures
        extend_each(parts, axis, values).len() == parts.len() * values.len(),
        forall|x: Point| #[trigger] extend_each(parts, axis, values).contains(x) <==>
            exists|p: int, v: int| 0 <= p < parts.len() && 0 <= v < values.len() && x == parts[p].push((axis, values[v])),
    decreases parts.len(),
{
    if parts.len() > 0 {
        let front = parts.drop_last();
        lemma_extend_each(front, axis, values);
        let a = extend_each(front, axis, values);
        let b = values.map_values(|v: Seq<char>| parts.last().push((axis, v)));
        assert(extend_each(parts, axis, values) == a + b);
        assert((front.len() + 1) * values.len() == front.len() * values.len() + values.len()) by (nonlinear_arith);
        assert forall|x: Point| #[trigger] (a + b).contains(x) <==>
            exists|p: int, v: int| 0 <= p < parts.len() && 0 <= v < values.len() && x == parts[p].push((axis, values[v])) by {
            if (a + b).contains(x) {
                let j = choose|j: int| 0 <= j < (a + b).len() && (a + b)[j] == x;
                if j < a.len() {
                    assert(a.contains(x)) by { assert(a[j] == x); }
                    let (p, v) = choose|p: int, v: int| 0 <= p < front.len() && 0 <= v < values.len() && x == front[p].push((axis, values[v]));
                    assert(parts[p] == front[p]);
                } else {
                    let v = j - a.len();
                    assert(x == b[v]);
                    assert(x == parts[parts.len() - 1].push((axis, values[v])));
                }
            }
            if exists|p: int, v: int| 0 <= p < parts.len() && 0 <= v < values.len() && x == parts[p].push((axis, values[v])) {
                let (p, v) = choose|p: int, v: int| 0 <= p < parts.len() && 0 <= v < values.len() && x == parts[p].push((axis, values[v]));
                if p < front.len() {
                    assert(front[p] == parts[p]);
                    assert(a.contains(x));
                    let j = choose|j: int| 0 <= j < a.len() && a[j] == x;
                    assert((a + b)[j] == x);
                } else {
                    assert(b[v] == x);
                    assert((a + b)[a.len() + v] == x);
                }
            }
        }
    }
}

proof fn lemma_declared_point_split(axes: Axes, x: Point)
    requires
        axes.len() > 0,
    ensures
        is_declared_point(axes, x) <==> (x.len() > 0 && is_declared_point(axes.drop_last(), x.drop_last())
            && x.last().0 == axes.last().0 && axes.last().1.contains(x.last().1)),
{
    if x.len() > 0 && is_declared_point(axes.drop_last(), x.drop_last()) && x.last().0 == axes.last().0
        && axes.last().1.contains(x.last().1) {
        assert forall|i: int| 0 <= i < axes.len() implies (#[trigger] x[i]).0 == axes[i].0 && axes[i].1.contains(x[i].1) by {
            if i < axes.len() - 1 {
                assert(x.drop_last()[i] == x[i]);
            }
        }
    }
    if is_declared_point(axes, x) {
        assert forall|i: int| 0 <= i < axes.drop_last().len() implies (#[trigger] x.drop_last()[i]).0 == axes.drop_last()[i].0
            && axes.drop_last()[i].1.contains(x.drop_last()[i].1) by {
            assert(x[i] == x.drop_last()[i]);
        }
        assert(x[x.len() - 1] == x.last());
    }
}

/// The cartesian product holds exactly the declared points: each assigns every axis, in declared
/// order, one of its declared values; and it holds as many points as the product of the axis sizes.
pub proof fn law_product_is_every_declared_point(axes: Axes, x: Point)
    ensures
        product(axes).contains(x) <==> is_declared_point(axes, x),
        product(axes).len() == product_size(axes),
    decreases axes.len(),
{
    if axes.len() == 0 {
        if is_declared_point(axes, x) {
            assert(x =~= Seq::<(Seq<char>, Seq<char>)>::empty());
            assert(product(axes)[0] == x);
        }
    } else {
        let front = axes.drop_last();
        law_product_is_every_declared_point(front, x.drop_last());
        lemma_extend_each(product(front), axes.last().0, axes.last().1);
        lemma_declared_point_split(axes, x);
        let parts = product(front);
        if product(axes).contains(x) {
            let (p, v) = choose|p: int, v: int| 0 <= p < parts.len() && 0 <= v < axes.last().1.len()
                && x == parts[p].push((axes.last().0, axes.last().1[v]));
            assert(x.drop_last() =~= parts[p]);
            assert(parts.contains(parts[p]));
            law_product_is_every_declared_point(front, parts[p]);
            assert(axes.last().1[v] == x.last().1);
        }
        if is_declared_point(axes, x) {
            let p = choose|p: int| 0 <= p < parts.len() && parts[p] == x.drop_last();
            let v = choose|v: int| 0 <= v < axes.last().1.len() && axes.last().1[v] == x.last().1;
            assert(x =~= parts[p].push((axes.last().0, axes.last().1[v])));
        }
        lemma_product_len(axes);
    }
}

proof fn lemma_product_len(axes: Axes)
    ensures
        product(axes).len() == product_size(axes),
    decreases axes.len(),
{
    if axes.len() > 0 {
        lemma_product_len(axes.drop_last());
        lemma_extend_each(product(axes.drop_last()), axes.last().0, axes.last().1);
    }
}

} // verus!
