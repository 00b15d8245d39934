//! Safety checks for directories that tailor writes into: a scratch build directory and any
//! directory bound read-write into a container. Neither may be the filesystem root or contain the
//! working directory; a build directory must also live on another device than `/`.
//!
//! Paths are normalized lexically against the working directory the caller supplies. The device
//! test needs the filesystem: `ancestor_chain` lists the candidates the caller probes, and
//! `ensure_safe_build_dir` decides on what it found.
use vstd::prelude::*;
use crate::error::ExecError;
use crate::paths::{collapse, collapse_segments, dot, dot_dot, flush, is_absolute, render, render_segments, segments, split_segments, split_state};
use crate::text::{chars_of, push_str};

verus! {

/// The segments of `path` made absolute against `cwd` and lexically normalized.
pub open spec fn lexical_parts(path: Seq<char>, cwd: Seq<char>) -> Seq<Seq<char>> {
    if is_absolute(path) {
        collapse(segments(path))
    } else {
        collapse(segments(cwd) + segments(path))
    }
}

/// Why a directory is unsafe to write into, if it is (root and working-directory checks).
pub open spec fn dir_fault(path: Seq<char>, cwd: Seq<char>) -> Option<Seq<char>> {
    let parts = lexical_parts(path, cwd);
    let cwd_parts = collapse(segments(cwd));
    if parts.len() == 0 {
        Some("must not be the filesystem root"@)
    } else if parts.len() <= cwd_parts.len() && cwd_parts.subrange(0, parts.len() as int) == parts {
        Some("must not contain the current working directory `"@ + render(true, cwd_parts) + "`"@)
    } else {
        None
    }
}

/// The normalized segments of `path` made absolute against `cwd`.
fn lexical(path: &str, cwd: &str) -> (r: Vec<Vec<char>>)
    ensures
        r@.map_values(|x: Vec<char>| x@) == lexical_parts(path@, cwd@),
{
    let p = chars_of(path);
    if p.len() > 0 && p[0] == '/' {
        collapse_segments(split_segments(&p))
    } else {
        let c = chars_of(cwd);
        let mut all = split_segments(&c);
        let mut rest = split_segments(&p);
        let ghost a = all@;
        let ghost b = rest@;
        all.append(&mut rest);
        assert(all@.map_values(|x: Vec<char>| x@) =~= a.map_values(|x: Vec<char>| x@) + b.map_values(|x: Vec<char>| x@));
        collapse_segments(all)
    }
}

/// `path` made absolute against `cwd` and lexically normalized (`.` dropped, `..` resolved, never
/// above `/`).
pub fn normalize_absolute_lexical(path: &str, cwd: &str) -> (r: String)
    ensures
        r@ == render(true, lexical_parts(path@, cwd@)),
{
    let parts = lexical(path, cwd);
    render_segments(true, &parts)
}

/// The unsafe-directory error.
pub fn unsafe_dir(path: String, reason: String) -> (e: ExecError)
    ensures
        e matches ExecError::UnsafeDir { path: p, reason: r } && p@ == path@ && r@ == reason@,
{
    ExecError::UnsafeDir { path, reason }
}

/// The root and working-directory checks; on success, the normalized directory.
fn ensure_safe_dir(path: &str, cwd: &str) -> (r: Result<String, ExecError>)
    ensures
        match dir_fault(path@, cwd@) {
            Some(reason) => r matches Err(ExecError::UnsafeDir { path: p, reason: rs })
                && p@ == render(true, lexical_parts(path@, cwd@)) && rs@ == reason,
            None => r matches Ok(n) && n@ == render(true, lexical_parts(path@, cwd@)),
        },
{
    let parts = lexical(path, cwd);
    let normalized = render_segments(true, &parts);
    if parts.len() == 0 {
        return Err(unsafe_dir(normalized, "must not be the filesystem root".to_owned()));
    }
    let cchars = chars_of(cwd);
    let cwd_parts = collapse_segments(split_segments(&cchars));
    let ghost pv = parts@.map_values(|x: Vec<char>| x@);
    let ghost cv = cwd_parts@.map_values(|x: Vec<char>| x@);
    if parts.len() <= cwd_parts.len() {
        let mut i: usize = 0;
        let mut same = true;
        assert(cv.subrange(0, 0) =~= pv.subrange(0, 0));
        while i < parts.len()
            invariant
                i <= parts.len() <= cwd_parts.len(),
                pv == parts@.map_values(|x: Vec<char>| x@),
                cv == cwd_parts@.map_values(|x: Vec<char>| x@),
                same == (cv.subrange(0, i as int) == pv.subrange(0, i as int)),
            decreases parts.len() - i,
        {
            let eq = crate::paths::same_chars(&parts[i], &cwd_parts[i]);
            proof {
                if same && eq {
                    assert(cv.subrange(0, i + 1) =~= pv.subrange(0, i + 1));
                }
                if !eq {
                    assert(cv.subrange(0, i + 1)[i as int] != pv.subrange(0, i + 1)[i as int]);
                }
                if !same {
                    assert(cv.subrange(0, i + 1).subrange(0, i as int) =~= cv.subrange(0, i as int));
                    assert(pv.subrange(0, i + 1).subrange(0, i as int) =~= pv.subrange(0, i as int));
                }
            }
            same = same && eq;
            i += 1;
        }
        assert(pv.subrange(0, parts@.len() as int) =~= pv);
        if same {
            let mut reason = "must not contain the current working directory `".to_owned();
            let shown = render_segments(true, &cwd_parts);
            push_str(&mut reason, shown.as_str());
            push_str(&mut reason, "`");
            return Err(unsafe_dir(normalized, reason));
        }
    }
    Ok(normalized)
}

/// Checks a directory that is bound read-write into a container.
pub fn ensure_safe_rw_target(path: &str, cwd: &str) -> (r: Result<(), ExecError>)
    ensures
        match dir_fault(path@, cwd@) {
            Some(reason) => r matches Err(ExecError::UnsafeDir { path: p, reason: rs })
                && p@ == render(true, lexical_parts(path@, cwd@)) && rs@ == reason,
            None => r is Ok,
        },
{
    match ensure_safe_dir(path, cwd) {
        Ok(_) => Ok(()),
        Err(e) => Err(e),
    }
}

/// The candidates for the nearest existing ancestor of a normalized directory, nearest first:
/// the directory itself, each parent in turn, and `/` last.
pub open spec fn ancestors_of(parts: Seq<Seq<char>>) -> Seq<Seq<char>>
    decreases parts.len(),
{
    if parts.len() == 0 {
        seq![seq!['/']]
    } else {
        seq![render(true, parts)] + ancestors_of(parts.drop_last())
    }
}

/// The ancestors of `path` (made absolute against `cwd`) to probe, nearest first.
pub fn ancestor_chain(path: &str, cwd: &str) -> (r: Vec<String>)
    ensures
        crate::text::views(r@) == ancestors_of(lexical_parts(path@, cwd@)),
{
    let mut parts = lexical(path, cwd);
    let ghost all = lexical_parts(path@, cwd@);
    let mut out: Vec<String> = Vec::new();
    while parts.len() > 0
        invariant
            crate::text::views(out@) + ancestors_of(parts@.map_values(|x: Vec<char>| x@)) == ancestors_of(all),
        decreases parts.len(),
    {
        let ghost pv = parts@.map_values(|x: Vec<char>| x@);
        let here = render_segments(true, &parts);
        let ghost before = crate::text::views(out@);
        out.push(here);
        parts.pop();
        assert(parts@.map_values(|x: Vec<char>| x@) =~= pv.drop_last());
        assert(crate::text::views(out@) =~= before.push(here@));
        assert(crate::text::views(out@) + ancestors_of(pv.drop_last()) =~= before + ancestors_of(pv));
    }
    let ghost before = crate::text::views(out@);
    out.push("/".to_owned());
    proof {
        reveal_strlit("/");
    }
    assert("/"@ =~= seq!['/']);
    assert(parts@.map_values(|x: Vec<char>| x@) =~= Seq::<Seq<char>>::empty());
    assert(crate::text::views(out@) =~= before.push(seq!['/']));
    assert(ancestors_of(Seq::<Seq<char>>::empty()) =~= seq![seq!['/']]);
    assert(crate::text::views(out@) =~= before + ancestors_of(Seq::<Seq<char>>::empty()));
    out
}

/// The device check of a build directory: the nearest existing ancestor (`ancestor`) must not be
/// on the same device as `/`.
pub fn device_verdict(normalized: &str, ancestor: &str, same_device_as_root: bool) -> (r: Result<(), ExecError>)
    ensures
        same_device_as_root ==> (r matches Err(ExecError::UnsafeDir { path: p, reason: rs }) && p@ == normalized@
            && rs@ == "nearest existing ancestor `"@ + ancestor@ + "` is on the same device as `/`"@),
        !same_device_as_root ==> r is Ok,
{
    if same_device_as_root {
        let mut reason = "nearest existing ancestor `".to_owned();
        push_str(&mut reason, ancestor);
        push_str(&mut reason, "` is on the same device as `/`");
        return Err(unsafe_dir(normalized.to_owned(), reason));
    }
    Ok(())
}

/// The position of the nearest existing ancestor among the candidates of `ancestors_of`, given
/// which of them exist (`exists`, nearest first): the first that exists, searching from `from`;
/// `/`, the last candidate, when none nearer does.
pub open spec fn first_existing(exists: Seq<bool>, from: int) -> int
    decreases exists.len() - from,
{
    if from >= exists.len() - 1 {
        exists.len() - 1
    } else if exists[from] {
        from
    } else {
        first_existing(exists, from + 1)
    }
}

/// Why a scratch build directory is unsafe, if it is: the root and working-directory checks, then
/// the device check of its nearest existing ancestor (`on_root_device[k]`: whether candidate `k`
/// is on the same device as `/`).
pub open spec fn build_dir_fault(path: Seq<char>, cwd: Seq<char>, exists: Seq<bool>, on_root_device: Seq<bool>) -> Option<Seq<char>> {
    match dir_fault(path, cwd) {
        Some(reason) => Some(reason),
        None => {
            let k = first_existing(exists, 0);
            if on_root_device[k] {
                Some("nearest existing ancestor `"@ + ancestors_of(lexical_parts(path, cwd))[k] + "` is on the same device as `/`"@)
            } else {
                None
            }
        },
    }
}

/// Checks a scratch build directory: not the filesystem root, not containing the working
/// directory, and with its nearest existing ancestor on another device than `/`. `exists` and
/// `on_root_device` hold, for each candidate of `ancestor_chain(path, cwd)` in order, whether it
/// exists and whether it is on the device of `/`. On success it returns the normalized directory.
pub fn ensure_safe_build_dir(path: &str, cwd: &str, exists: &Vec<bool>, on_root_device: &Vec<bool>) -> (r: Result<String, ExecError>)
    requires
        exists@.len() == ancestors_of(lexical_parts(path@, cwd@)).len(),
        on_root_device@.len() == exists@.len(),
    ensures
        match build_dir_fault(path@, cwd@, exists@, on_root_device@) {
            Some(reason) => r matches Err(ExecError::UnsafeDir { path: p, reason: rs })
                && p@ == render(true, lexical_parts(path@, cwd@)) && rs@ == reason,
            None => r matches Ok(n) && n@ == render(true, lexical_parts(path@, cwd@)),
        },
{
    let normalized = match ensure_safe_dir(path, cwd) {
        Ok(n) => n,
        Err(e) => {
            return Err(e);
        },
    };
    let chain = ancestor_chain(path, cwd);
    proof {
        lemma_ancestors_nonempty(lexical_parts(path@, cwd@));
    }
    let last = exists.len() - 1;
    let mut k: usize = 0;
    while k < last && !exists[k]
        invariant
            exists@.len() == chain@.len(),
            last == exists@.len() - 1,
            k <= last,
            first_existing(exists@, k as int) == first_existing(exists@, 0),
        decreases last - k,
    {
        k = k + 1;
    }
    assert(first_existing(exists@, k as int) == k);
    let verdict = device_verdict(normalized.as_str(), chain[k].as_str(), on_root_device[k]);
    match verdict {
        Ok(()) => Ok(normalized),
        Err(e) => Err(e),
    }
}

proof fn lemma_ancestors_nonempty(parts: Seq<Seq<char>>)
    ensures
        ancestors_of(parts).len() == parts.len() + 1,
    decreases parts.len(),
{
    if parts.len() > 0 {
        lemma_ancestors_nonempty(parts.drop_last());
    }
}

/// Neither the filesystem root, nor the working directory (named as `.` or by its absolute path),
/// nor its parent `..` is ever accepted as a directory to write into.
pub proof fn law_root_and_working_dir_are_refused(cwd: Seq<char>)
    ensures
        dir_fault(seq!['/'], cwd) is Some,
        dir_fault(dot(), cwd) is Some,
        dir_fault(dot_dot(), cwd) is Some,
        is_absolute(cwd) ==> dir_fault(cwd, cwd) is Some,
{
    let cwd_parts = collapse(segments(cwd));
    // `/` has no segments.
    let root = seq!['/'];
    assert(root.drop_last() =~= Seq::<char>::empty());
    assert(split_state(Seq::<char>::empty()) == (Seq::<Seq<char>>::empty(), Seq::<char>::empty()));
    assert(root.last() == '/');
    assert(flush(Seq::<Seq<char>>::empty(), Seq::<char>::empty()) == Seq::<Seq<char>>::empty());
    assert(split_state(root) == (Seq::<Seq<char>>::empty(), Seq::<char>::empty()));
    assert(segments(root) =~= Seq::<Seq<char>>::empty());
    assert(collapse(Seq::<Seq<char>>::empty()) == Seq::<Seq<char>>::empty());
    // `.` has no segments either, so it names the working directory.
    let d = dot();
    assert(d.drop_last() =~= Seq::<char>::empty());
    assert(d.last() == '.');
    assert(Seq::<char>::empty().push('.') =~= seq!['.']);
    assert(split_state(d) == (Seq::<Seq<char>>::empty(), seq!['.']));
    assert(segments(d) =~= Seq::<Seq<char>>::empty());
    assert(segments(cwd) + segments(d) =~= segments(cwd));
    assert(cwd_parts.subrange(0, cwd_parts.len() as int) =~= cwd_parts);
    // `..` is one segment that pops the last segment of the working directory.
    let dd = dot_dot();
    assert(dd.drop_last() =~= d);
    assert(split_state(dd) == (Seq::<Seq<char>>::empty(), seq!['.', '.']));
    assert(seq!['.', '.'] != dot()) by {
        assert(seq!['.', '.'].len() != dot().len());
    }
    assert(segments(dd) =~= seq![dd]);
    let joined = segments(cwd) + seq![dd];
    assert(joined.drop_last() =~= segments(cwd));
    assert(joined.last() == dd);
    let parent = collapse(joined);
    if cwd_parts.len() > 0 {
        assert(parent == cwd_parts.drop_last());
        assert(cwd_parts.subrange(0, parent.len() as int) =~= parent);
    } else {
        assert(parent == cwd_parts);
    }
}

} // verus!
