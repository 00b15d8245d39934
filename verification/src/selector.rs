//! Cell selection: pinned axis values (`axis=value,…`, one group per entry), exact cell slugs and
//! architectures. Within each kind any entry may match; the kinds given must all match.
use vstd::prelude::*;
use crate::error::CoreError;
use crate::matrix::{find_axis, lookup, row_view, Point};
use crate::orchestrator::{core_fault_is, Cell, CellV, CoreFault};
use crate::text::{chars_of, contains_string, copy_strings, first_index, index_of, split_on, split_text, string_of_range, views};
use crate::types::arch_text;

verus! {

/// A cell selection.
#[derive(Debug)]
pub struct Selector {
    /// Groups of pinned axis values; a cell matches a group when it has every pinned value.
    pub groups: Vec<Vec<(String, String)>>,
    /// Exact cell slugs.
    pub cells: Vec<String>,
    /// Architecture names.
    pub arches: Vec<String>,
}

/// The plain form of a selection.
pub struct SelectorV {
    pub groups: Seq<Point>,
    pub cells: Seq<Seq<char>>,
    pub arches: Seq<Seq<char>>,
}

impl Selector {
    pub open spec fn view(&self) -> SelectorV {
        SelectorV {
            groups: self.groups@.map_values(|g: Vec<(String, String)>| row_view(g)),
            cells: views(self.cells@),
            arches: views(self.arches@),
        }
    }
}

/// An `axis=value` pin: a non-empty axis before the first `=` and a non-empty value after it.
pub open spec fn pin_of(part: Seq<char>) -> Option<(Seq<char>, Seq<char>)> {
    match index_of(part, '=') {
        Some(i) => if 0 < i && i + 1 < part.len() {
            Some((part.subrange(0, i), part.subrange(i + 1, part.len() as int)))
        } else {
            None
        },
        None => None,
    }
}

/// The pins of an entry's `,`-separated parts, if every part is a pin.
pub open spec fn group_of(parts: Seq<Seq<char>>) -> Option<Point>
    decreases parts.len(),
{
    if parts.len() == 0 {
        Some(Seq::empty())
    } else {
        match group_of(parts.drop_last()) {
            None => None,
            Some(g) => match pin_of(parts.last()) {
                None => None,
                Some(p) => Some(g.push(p)),
            },
        }
    }
}

/// The groups of the `--select` entries, or the first entry that is not `axis=value,…`.
pub open spec fn groups_of(entries: Seq<Seq<char>>) -> Result<Seq<Point>, Seq<char>>
    decreases entries.len(),
{
    if entries.len() == 0 {
        Ok(Seq::empty())
    } else {
        match groups_of(entries.drop_last()) {
            Err(e) => Err(e),
            Ok(gs) => match group_of(split_text(entries.last(), ',')) {
                None => Err(entries.last()),
                Some(g) => Ok(gs.push(g)),
            },
        }
    }
}

/// The axis names the groups pin, in order.
pub open spec fn group_axes(gs: Seq<Point>) -> Seq<Seq<char>>
    decreases gs.len(),
{
    if gs.len() == 0 {
        Seq::empty()
    } else {
        group_axes(gs.drop_last()) + gs.last().map_values(|p: (Seq<char>, Seq<char>)| p.0)
    }
}

/// Every pinned value of `g` is the cell's value for that axis.
pub open spec fn group_holds(g: Point, axes: Point) -> bool {
    forall|k: int| 0 <= k < g.len() ==> lookup(axes, #[trigger] g[k].0) == Some(g[k].1)
}

/// Whether a selection picks a cell.
pub open spec fn selects(s: SelectorV, c: CellV) -> bool {
    &&& (s.groups.len() == 0 || exists|g: int| 0 <= g < s.groups.len() && group_holds(#[trigger] s.groups[g], c.axes))
    &&& (s.cells.len() == 0 || s.cells.contains(c.slug))
    &&& (s.arches.len() == 0 || s.arches.contains(arch_text(c.arch)))
}

fn parse_pin(part: &String) -> (r: Option<(String, String)>)
    ensures
        match pin_of(part@) {
            Some(p) => r matches Some(q) && q.0@ == p.0 && q.1@ == p.1,
            None => r is None,
        },
{
    let cs = chars_of(part.as_str());
    match first_index(&cs, '=') {
        Some(i) => {
            if 0 < i && i + 1 < cs.len() {
                Some((string_of_range(&cs, 0, i), string_of_range(&cs, i + 1, cs.len())))
            } else {
                None
            }
        },
        None => None,
    }
}

fn parse_group(entry: &String) -> (r: Option<Vec<(String, String)>>)
    ensures
        match group_of(split_text(entry@, ',')) {
            Some(g) => r matches Some(v) && row_view(v) == g,
            None => r is None,
        },
{
    let parts = split_on(entry.as_str(), ',');
    let ghost pv = views(parts@);
    let mut out: Vec<(String, String)> = Vec::new();
    let mut i: usize = 0;
    while i < parts.len()
        invariant
            i <= parts.len(),
            pv == views(parts@),
            pv == split_text(entry@, ','),
            group_of(pv.subrange(0, i as int)) == Some(row_view(out)),
        decreases parts.len() - i,
    {
        assert(pv.subrange(0, i + 1).drop_last() =~= pv.subrange(0, i as int));
        assert(pv.subrange(0, i + 1).last() == parts@[i as int]@);
        match parse_pin(&parts[i]) {
            Some(p) => {
                let ghost before = out@;
                out.push(p);
                assert(row_view(out) =~= row_view_seq(before).push((p.0@, p.1@)));
            },
            None => {
                proof {
                    lemma_group_none(pv, i as int + 1);
                }
                return None;
            },
        }
        i += 1;
    }
    assert(pv.subrange(0, parts@.len() as int) =~= pv);
    Some(out)
}

pub open spec fn row_view_seq(r: Seq<(String, String)>) -> Point {
    r.map_values(|e: (String, String)| crate::ordered::pin_view(e))
}

proof fn lemma_group_none(parts: Seq<Seq<char>>, k: int)
    requires
        0 <= k <= parts.len(),
        group_of(parts.subrange(0, k)) is None,
    ensures
        group_of(parts) is None,
    decreases parts.len(),
{
    if k == parts.len() {
        assert(parts.subrange(0, k) =~= parts);
    } else {
        assert(parts.drop_last().subrange(0, k) =~= parts.subrange(0, k));
        lemma_group_none(parts.drop_last(), k);
    }
}

proof fn lemma_groups_err(entries: Seq<Seq<char>>, k: int)
    requires
        0 <= k <= entries.len(),
        groups_of(entries.subrange(0, k)) is Err,
    ensures
        groups_of(entries) == groups_of(entries.subrange(0, k)),
    decreases entries.len(),
{
    if k == entries.len() {
        assert(entries.subrange(0, k) =~= entries);
    } else {
        assert(entries.drop_last().subrange(0, k) =~= entries.subrange(0, k));
        lemma_groups_err(entries.drop_last(), k);
    }
}

impl Selector {
    /// Parses the `--select` entries (`axis=value,…`), `--cell` slugs and architecture names.
    pub fn parse(select: &Vec<String>, cell: &Vec<String>, arches: &Vec<String>) -> (r: Result<Selector, CoreError>)
        ensures
            match groups_of(views(select@)) {
                Err(entry) => r is Err && core_fault_is(r->Err_0, CoreFault::SelectorSyntax { entry }),
                Ok(gs) => r matches Ok(s) && s.view().groups == gs && s.view().cells == views(cell@)
                    && s.view().arches == views(arches@),
            },
    {
        let ghost ev = views(select@);
        let mut groups: Vec<Vec<(String, String)>> = Vec::new();
        let mut i: usize = 0;
        assert(ev.subrange(0, 0) =~= Seq::<Seq<char>>::empty());
        assert(groups@.map_values(|g: Vec<(String, String)>| row_view(g)) =~= Seq::<Point>::empty());
        while i < select.len()
            invariant
                i <= select.len(),
                ev == views(select@),
                groups_of(ev.subrange(0, i as int)) == Ok::<Seq<Point>, Seq<char>>(
                    groups@.map_values(|g: Vec<(String, String)>| row_view(g))),
            decreases select.len() - i,
        {
            assert(ev.subrange(0, i + 1).drop_last() =~= ev.subrange(0, i as int));
            assert(ev.subrange(0, i + 1).last() == select@[i as int]@);
            match parse_group(&select[i]) {
                Some(g) => {
                    let ghost before = groups@;
                    groups.push(g);
                    assert(groups@.map_values(|g: Vec<(String, String)>| row_view(g)) =~= before.map_values(
                        |g: Vec<(String, String)>| row_view(g)).push(row_view(g)));
                },
                None => {
                    proof {
                        lemma_groups_err(ev, i as int + 1);
                    }
                    return Err(CoreError::SelectorSyntax { entry: select[i].clone() });
                },
            }
            i += 1;
        }
        assert(ev.subrange(0, select@.len() as int) =~= ev);
        Ok(Selector { groups, cells: copy_strings(cell), arches: copy_strings(arches) })
    }

    /// Whether the selection selects everything.
    pub fn is_empty(&self) -> (r: bool)
        ensures
            r == (self.groups.len() == 0 && self.cells.len() == 0 && self.arches.len() == 0),
    {
        self.groups.len() == 0 && self.cells.len() == 0 && self.arches.len() == 0
    }

    /// The axis names the selection pins, in order.
    pub fn axis_names(&self) -> (r: Vec<String>)
        ensures
            views(r@) == group_axes(self.view().groups),
    {
        let ghost gv = self.view().groups;
        let mut out: Vec<String> = Vec::new();
        let mut i: usize = 0;
        while i < self.groups.len()
            invariant
                i <= self.groups.len(),
                gv == self.view().groups,
                views(out@) == group_axes(gv.subrange(0, i as int)),
            decreases self.groups.len() - i,
        {
            assert(gv.subrange(0, i + 1).drop_last() =~= gv.subrange(0, i as int));
            let g = &self.groups[i];
            assert(gv[i as int] == row_view(*g));
            let ghost base = views(out@);
            let mut j: usize = 0;
            assert(base + row_view(*g).map_values(|p: (Seq<char>, Seq<char>)| p.0).subrange(0, 0) =~= base);
            while j < g.len()
                invariant
                    j <= g.len(),
                    views(out@) == base + row_view(*g).map_values(|p: (Seq<char>, Seq<char>)| p.0).subrange(0, j as int),
                decreases g.len() - j,
            {
                let ghost before = out@;
                let name = g[j].0.clone();
                out.push(name);
                assert(views(out@) =~= views(before).push(name@));
                assert(row_view(*g).map_values(|p: (Seq<char>, Seq<char>)| p.0)[j as int] == name@);
                assert(row_view(*g).map_values(|p: (Seq<char>, Seq<char>)| p.0).subrange(0, j + 1)
                    =~= row_view(*g).map_values(|p: (Seq<char>, Seq<char>)| p.0).subrange(0, j as int).push(name@));
                assert(views(out@) =~= base + row_view(*g).map_values(|p: (Seq<char>, Seq<char>)| p.0).subrange(0, j + 1));
                j += 1;
            }
            assert(row_view(*g).map_values(|p: (Seq<char>, Seq<char>)| p.0).subrange(0, g@.len() as int)
                =~= row_view(*g).map_values(|p: (Seq<char>, Seq<char>)| p.0));
            i += 1;
        }
        assert(gv.subrange(0, self.groups@.len() as int) =~= gv);
        out
    }

    /// Whether the selection picks `cell`.
    pub fn matches(&self, cell: &Cell) -> (r: bool)
        ensures
            r == selects(self.view(), cell.view()),
    {
        let ghost sv = self.view();
        let ghost cv = cell.view();
        let mut group_ok = self.groups.len() == 0;
        let mut i: usize = 0;
        while i < self.groups.len()
            invariant
                i <= self.groups.len(),
                sv == self.view(),
                cv == cell.view(),
                group_ok == (sv.groups.len() == 0 || exists|g: int| 0 <= g < i && group_holds(#[trigger] sv.groups[g], cv.axes)),
            decreases self.groups.len() - i,
        {
            let g = &self.groups[i];
            assert(sv.groups[i as int] == row_view(*g));
            let mut all = true;
            let mut j: usize = 0;
            while j < g.len()
                invariant
                    j <= g.len(),
                    cv == cell.view(),
                    all == forall|k: int| 0 <= k < j ==> lookup(cv.axes, #[trigger] row_view(*g)[k].0) == Some(row_view(*g)[k].1),
                decreases g.len() - j,
            {
                let hit = match find_axis(&cell.axes, g[j].0.as_str()) {
                    Some(t) => cell.axes[t].1 == g[j].1,
                    None => false,
                };
                proof {
                    if !hit {
                        assert(lookup(cv.axes, row_view(*g)[j as int].0) != Some(row_view(*g)[j as int].1));
                    }
                    if all && hit {
                        assert forall|k: int| 0 <= k < j + 1 implies lookup(cv.axes, #[trigger] row_view(*g)[k].0) == Some(row_view(*g)[k].1) by {}
                    }
                }
                all = all && hit;
                j += 1;
            }
            assert(all == group_holds(sv.groups[i as int], cv.axes));
            group_ok = group_ok || all;
            i += 1;
        }
        let slug_ok = self.cells.len() == 0 || contains_string(&self.cells, &cell.slug);
        let arch_name = cell.arch.as_str().to_owned();
        let arch_ok = self.arches.len() == 0 || contains_string(&self.arches, &arch_name);
        group_ok && slug_ok && arch_ok
    }
}

/// Slugs widen a selection within the other kinds: with `--cell` slugs given, a cell is picked
/// exactly when its slug is any one of them and the same selection without slugs picks it; with
/// none given, the slugs restrict nothing.
pub proof fn law_any_listed_slug_selects(s: SelectorV, c: CellV)
    ensures
        forall|i: int| 0 <= i < s.cells.len() && s.cells[i] == c.slug
            && selects(SelectorV { groups: s.groups, cells: Seq::empty(), arches: s.arches }, c)
            ==> #[trigger] selects(s, c),
        selects(s, c) && s.cells.len() > 0 ==> exists|i: int| 0 <= i < s.cells.len() && s.cells[i] == c.slug,
        selects(s, c) ==> selects(SelectorV { groups: s.groups, cells: Seq::empty(), arches: s.arches }, c),
        s.cells.len() == 0 ==> selects(s, c) == selects(SelectorV { groups: s.groups, cells: Seq::empty(), arches: s.arches }, c),
{
    assert forall|i: int| 0 <= i < s.cells.len() && s.cells[i] == c.slug
        && selects(SelectorV { groups: s.groups, cells: Seq::empty(), arches: s.arches }, c)
        implies #[trigger] selects(s, c) by {
        assert(s.cells.contains(c.slug));
    }
    if selects(s, c) && s.cells.len() > 0 {
        assert(s.cells.contains(c.slug));
        let i = choose|i: int| 0 <= i < s.cells.len() && s.cells[i] == c.slug;
    }
}

/// Architectures and `-s` groups narrow the same way: with `--arch` values given, a picked cell's
/// architecture is one of them; with groups given, some group holds for its axes; and a cell that
/// passes every kind that was given is picked.
pub proof fn law_every_kind_narrows(s: SelectorV, c: CellV)
    ensures
        selects(s, c) && s.arches.len() > 0 ==> exists|i: int| 0 <= i < s.arches.len() && s.arches[i] == arch_text(c.arch),
        selects(s, c) && s.groups.len() > 0 ==> exists|g: int| 0 <= g < s.groups.len() && group_holds(#[trigger] s.groups[g], c.axes),
        (s.groups.len() == 0 || exists|g: int| 0 <= g < s.groups.len() && group_holds(#[trigger] s.groups[g], c.axes))
            && (s.cells.len() == 0 || exists|i: int| 0 <= i < s.cells.len() && s.cells[i] == c.slug)
            && (s.arches.len() == 0 || exists|i: int| 0 <= i < s.arches.len() && s.arches[i] == arch_text(c.arch))
            ==> selects(s, c),
{
    if selects(s, c) && s.arches.len() > 0 {
        assert(s.arches.contains(arch_text(c.arch)));
        let i = choose|i: int| 0 <= i < s.arches.len() && s.arches[i] == arch_text(c.arch);
    }
    if (s.cells.len() > 0 && exists|i: int| 0 <= i < s.cells.len() && s.cells[i] == c.slug) {
        let i = choose|i: int| 0 <= i < s.cells.len() && s.cells[i] == c.slug;
        assert(s.cells.contains(c.slug));
    }
    if (s.arches.len() > 0 && exists|i: int| 0 <= i < s.arches.len() && s.arches[i] == arch_text(c.arch)) {
        let i = choose|i: int| 0 <= i < s.arches.len() && s.arches[i] == arch_text(c.arch);
        assert(s.arches.contains(arch_text(c.arch)));
    }
}

} // verus!
