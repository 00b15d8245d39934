//! Workspace discovery: the walk up to the nearest `tailor.yaml`, and which directories hold the
//! workspace's member images. The filesystem probes themselves are the caller's.
use vstd::prelude::*;
use crate::arg_builder::{join_path, path_join};
use crate::paths::{is_absolute, render, render_segments, segments, split_segments};
use crate::text::{chars_of, copy_string, push_string, str_eq, string_of_range, views};

verus! {

/// The workspace manifest file name.
pub const MANIFEST: &'static str = "tailor.yaml";
/// The image definition file name.
pub const IMAGE_FILE: &'static str = "image.yaml";

/// The directories searched for the manifest, nearest first: `start` itself, then each parent
/// (lexically) up to the root (or the empty relative root).
pub open spec fn search_dirs(start: Seq<char>) -> Seq<Seq<char>> {
    let segs = segments(start);
    seq![start] + Seq::new(segs.len(), |k: int| render(is_absolute(start), segs.subrange(0, segs.len() - 1 - k)))
}

/// The candidate manifest paths, nearest first.
pub open spec fn manifest_candidates_text(start: Seq<char>) -> Seq<Seq<char>> {
    search_dirs(start).map_values(|d: Seq<char>| path_join(d, MANIFEST@))
}

/// The candidate manifest paths for a walk up from `start`, nearest first.
pub fn manifest_candidates(start: &str) -> (r: Vec<String>)
    ensures
        views(r@) == manifest_candidates_text(start@),
{
    let cs = chars_of(start);
    let absolute = cs.len() > 0 && cs[0] == '/';
    let mut segs = split_segments(&cs);
    let ghost all = segs@.map_values(|v: Vec<char>| v@);
    let ghost dirs = search_dirs(start@);
    let mut out: Vec<String> = Vec::new();
    push_string(&mut out, join_path(start, MANIFEST));
    let mut k: usize = 0;
    let n = segs.len();
    while segs.len() > 0
        invariant
            all == segments(start@),
            absolute == is_absolute(start@),
            dirs == search_dirs(start@),
            n == all.len(),
            segs.len() + k == n,
            segs@.map_values(|v: Vec<char>| v@) == all.subrange(0, segs.len() as int),
            views(out@) == dirs.subrange(0, k + 1).map_values(|d: Seq<char>| path_join(d, MANIFEST@)),
        decreases segs.len(),
    {
        let ghost sv = segs@.map_values(|v: Vec<char>| v@);
        segs.pop();
        assert(segs@.map_values(|v: Vec<char>| v@) =~= sv.drop_last());
        assert(sv.drop_last() =~= all.subrange(0, segs.len() as int));
        let dir = render_segments(absolute, &segs);
        assert(dirs[k + 1] == render(is_absolute(start@), all.subrange(0, all.len() - 1 - k)));
        push_string(&mut out, join_path(dir.as_str(), MANIFEST));
        assert(dirs.subrange(0, k + 2).map_values(|d: Seq<char>| path_join(d, MANIFEST@))
            =~= dirs.subrange(0, k + 1).map_values(|d: Seq<char>| path_join(d, MANIFEST@)).push(path_join(dirs[k + 1], MANIFEST@)));
        k += 1;
    }
    assert(dirs.subrange(0, k + 1) =~= dirs);
    out
}

/// The nearest manifest: the first candidate (`manifest_candidates`) that `is_file` marks as an
/// existing file.
pub fn find_manifest(start: &str, is_file: &Vec<bool>) -> (r: Option<String>)
    requires
        is_file.len() == manifest_candidates_text(start@).len(),
    ensures
        match r {
            Some(m) => exists|i: int| 0 <= i < is_file.len() && #[trigger] is_file@[i]
                && m@ == manifest_candidates_text(start@)[i]
                && forall|j: int| 0 <= j < i ==> !is_file@[j],
            None => forall|i: int| 0 <= i < is_file.len() ==> !#[trigger] is_file@[i],
        },
{
    let candidates = manifest_candidates(start);
    let mut i: usize = 0;
    while i < candidates.len()
        invariant
            i <= candidates.len(),
            views(candidates@) == manifest_candidates_text(start@),
            is_file.len() == candidates.len(),
            forall|j: int| 0 <= j < i ==> !is_file@[j],
        decreases candidates.len() - i,
    {
        if is_file[i] {
            assert(views(candidates@)[i as int] == candidates@[i as int]@);
            return Some(copy_string(&candidates[i]));
        }
        i += 1;
    }
    None
}

/// A catalogue member or exclusion entry as a bare path: leading `./` and trailing `/` removed.
pub open spec fn strip_leading_dot_slash(s: Seq<char>) -> Seq<char>
    decreases s.len(),
{
    if s.len() >= 2 && s[0] == '.' && s[1] == '/' {
        strip_leading_dot_slash(s.subrange(2, s.len() as int))
    } else {
        s
    }
}

pub open spec fn strip_trailing_slash(s: Seq<char>) -> Seq<char>
    decreases s.len(),
{
    if s.len() > 0 && s.last() == '/' {
        strip_trailing_slash(s.drop_last())
    } else {
        s
    }
}

pub open spec fn member_text(entry: Seq<char>) -> Seq<char> {
    strip_trailing_slash(strip_leading_dot_slash(entry))
}

/// Normalizes a catalogue member or exclusion entry to a bare path (`./webserver/` is
/// `webserver`).
pub fn normalize_member(entry: &str) -> (r: String)
    ensures
        r@ == member_text(entry@),
{
    let cs = chars_of(entry);
    let mut start: usize = 0;
    assert(cs@.subrange(0, cs@.len() as int) =~= cs@);
    while cs.len() - start >= 2 && cs[start] == '.' && cs[start + 1] == '/'
        invariant
            start <= cs.len(),
            cs@ == entry@,
            strip_leading_dot_slash(entry@) == strip_leading_dot_slash(cs@.subrange(start as int, cs@.len() as int)),
        decreases cs.len() - start,
    {
        assert(cs@.subrange(start as int, cs@.len() as int).subrange(2, cs@.len() - start) =~= cs@.subrange(start + 2, cs@.len() as int));
        start += 2;
    }
    assert(strip_leading_dot_slash(cs@.subrange(start as int, cs@.len() as int)) == cs@.subrange(start as int, cs@.len() as int));
    let mut end: usize = cs.len();
    while end > start && cs[end - 1] == '/'
        invariant
            start <= end <= cs.len(),
            cs@ == entry@,
            member_text(entry@) == strip_trailing_slash(cs@.subrange(start as int, end as int)),
        decreases end,
    {
        assert(cs@.subrange(start as int, end as int).drop_last() =~= cs@.subrange(start as int, end - 1));
        end -= 1;
    }
    string_of_range(&cs, start, end)
}

/// The last segment of a path (its file name), or the empty text when it has none.
pub open spec fn file_name_text(p: Seq<char>) -> Seq<char> {
    if segments(p).len() == 0 || segments(p).last() == ".."@ {
        Seq::empty()
    } else {
        segments(p).last()
    }
}

/// The file name of a path.
pub fn file_name(path: &str) -> (r: String)
    ensures
        r@ == file_name_text(path@),
{
    let cs = chars_of(path);
    let segs = split_segments(&cs);
    let ghost sv = segs@.map_values(|v: Vec<char>| v@);
    if segs.len() == 0 {
        return String::new();
    }
    let last = &segs[segs.len() - 1];
    assert(sv.last() == last@);
    let name = crate::text::string_of(last);
    proof {
        reveal_strlit("..");
    }
    if str_eq(name.as_str(), "..") {
        return String::new();
    }
    name
}

/// The member directories of a workspace in order: each `members` entry under `root` (`*` stands
/// for every depth-one image directory, `all_dirs`), or `all_dirs` when no members are listed.
pub open spec fn member_dirs_text(root: Seq<char>, members: Option<Seq<Seq<char>>>, all_dirs: Seq<Seq<char>>) -> Seq<Seq<char>> {
    match members {
        None => all_dirs,
        Some(ms) => member_dirs_of(root, ms, all_dirs),
    }
}

pub open spec fn member_dirs_of(root: Seq<char>, ms: Seq<Seq<char>>, all_dirs: Seq<Seq<char>>) -> Seq<Seq<char>>
    decreases ms.len(),
{
    if ms.len() == 0 {
        Seq::empty()
    } else {
        member_dirs_of(root, ms.drop_last(), all_dirs) + if member_text(ms.last()) == seq!['*'] {
            all_dirs
        } else {
            seq![path_join(root, member_text(ms.last()))]
        }
    }
}

/// The member directories of a workspace.
pub fn member_dirs(root: &str, members: &Option<Vec<String>>, all_dirs: &Vec<String>) -> (r: Vec<String>)
    ensures
        views(r@) == member_dirs_text(root@, match members { Some(m) => Some(views(m@)), None => None }, views(all_dirs@)),
{
    match members {
        None => crate::text::copy_strings(all_dirs),
        Some(ms) => {
            let ghost mv = views(ms@);
            let mut out: Vec<String> = Vec::new();
            let mut i: usize = 0;
            assert(mv.subrange(0, 0) =~= Seq::<Seq<char>>::empty());
            assert(views(out@) =~= Seq::<Seq<char>>::empty());
            while i < ms.len()
                invariant
                    i <= ms.len(),
                    mv == views(ms@),
                    views(out@) == member_dirs_of(root@, mv.subrange(0, i as int), views(all_dirs@)),
                decreases ms.len() - i,
            {
                assert(mv.subrange(0, i + 1).drop_last() =~= mv.subrange(0, i as int));
                assert(mv.subrange(0, i + 1).last() == ms@[i as int]@);
                let m = normalize_member(ms[i].as_str());
                proof {
                    reveal_strlit("*");
                }
                let ghost before = views(out@);
                if str_eq(m.as_str(), "*") {
                    assert("*"@ =~= seq!['*']);
                    let mut k: usize = 0;
                    assert(before + views(all_dirs@).subrange(0, 0) =~= before);
                    while k < all_dirs.len()
                        invariant
                            k <= all_dirs.len(),
                            views(out@) == before + views(all_dirs@).subrange(0, k as int),
                        decreases all_dirs.len() - k,
                    {
                        push_string(&mut out, all_dirs[k].clone());
                        assert(views(all_dirs@).subrange(0, k + 1) =~= views(all_dirs@).subrange(0, k as int).push(all_dirs@[k as int]@));
                        assert(views(out@) =~= before + views(all_dirs@).subrange(0, k + 1));
                        k += 1;
                    }
                    assert(views(all_dirs@).subrange(0, all_dirs@.len() as int) =~= views(all_dirs@));
                } else {
                    assert("*"@ =~= seq!['*']);
                    push_string(&mut out, join_path(root, m.as_str()));
                    assert(views(out@) =~= before + seq![path_join(root@, member_text(ms@[i as int]@))]);
                }
                i += 1;
            }
            assert(mv.subrange(0, ms@.len() as int) =~= mv);
            out
        },
    }
}

/// Whether a member directory is excluded: its file name is one of the normalized exclusions.
pub fn is_excluded(dir: &str, exclude: &Vec<String>) -> (r: bool)
    ensures
        r == exclude@.map_values(|e: String| member_text(e@)).contains(file_name_text(dir@)),
{
    let name = file_name(dir);
    let ghost ev = exclude@.map_values(|e: String| member_text(e@));
    let mut i: usize = 0;
    while i < exclude.len()
        invariant
            i <= exclude.len(),
            ev == exclude@.map_values(|e: String| member_text(e@)),
            name@ == file_name_text(dir@),
            forall|j: int| 0 <= j < i ==> ev[j] != name@,
        decreases exclude.len() - i,
    {
        let e = normalize_member(exclude[i].as_str());
        if str_eq(e.as_str(), name.as_str()) {
            assert(ev[i as int] == name@);
            return true;
        }
        i += 1;
    }
    false
}

} // verus!
