//! Host path handling: lexical normalization, resolving image-relative paths, and translating host
//! paths to the in-container view under the host-root bind.
//!
//! A path is modelled as its characters. `segments` splits on `/`, dropping empty and `.` segments;
//! `collapse` resolves `..` against the segments before it (never climbing above the start); and
//! `render` joins segments back with a leading `/` for absolute paths.
use vstd::prelude::*;
use crate::text::{chars_of, push_char, push_str, string_of, string_of_range};

verus! {

/// The container-side mount point used when the configured host root is empty.
pub const DEFAULT_HOST_ROOT: &'static str = "/host";

pub open spec fn is_sep(c: char) -> bool {
    c == '/'
}

/// A path is absolute when it starts with `/`.
pub open spec fn is_absolute(p: Seq<char>) -> bool {
    p.len() > 0 && p[0] == '/'
}

pub open spec fn dot() -> Seq<char> {
    seq!['.']
}

pub open spec fn dot_dot() -> Seq<char> {
    seq!['.', '.']
}

/// Adds a finished segment unless it is empty or `.`.
pub open spec fn flush(done: Seq<Seq<char>>, cur: Seq<char>) -> Seq<Seq<char>> {
    if cur.len() == 0 || cur == dot() {
        done
    } else {
        done.push(cur)
    }
}

/// Splitting state after reading `p`: the finished segments and the segment being read.
pub open spec fn split_state(p: Seq<char>) -> (Seq<Seq<char>>, Seq<char>)
    decreases p.len(),
{
    if p.len() == 0 {
        (Seq::empty(), Seq::empty())
    } else {
        let (done, cur) = split_state(p.drop_last());
        if is_sep(p.last()) {
            (flush(done, cur), Seq::empty())
        } else {
            (done, cur.push(p.last()))
        }
    }
}

/// The non-empty, non-`.` segments of `p`, in order.
pub open spec fn segments(p: Seq<char>) -> Seq<Seq<char>> {
    let (done, cur) = split_state(p);
    flush(done, cur)
}

/// Resolves `..` segments: each pops the segment before it, and is dropped when there is none.
pub open spec fn collapse(s: Seq<Seq<char>>) -> Seq<Seq<char>>
    decreases s.len(),
{
    if s.len() == 0 {
        Seq::empty()
    } else {
        let r = collapse(s.drop_last());
        if s.last() == dot_dot() {
            if r.len() > 0 { r.drop_last() } else { r }
        } else {
            r.push(s.last())
        }
    }
}

/// Segments joined by `/`.
pub open spec fn join(parts: Seq<Seq<char>>) -> Seq<char>
    decreases parts.len(),
{
    if parts.len() == 0 {
        Seq::empty()
    } else if parts.len() == 1 {
        parts[0]
    } else {
        join(parts.drop_last()) + seq!['/'] + parts.last()
    }
}

/// The path text for `parts`, with a leading `/` when `absolute`.
pub open spec fn render(absolute: bool, parts: Seq<Seq<char>>) -> Seq<char> {
    if absolute {
        seq!['/'] + join(parts)
    } else {
        join(parts)
    }
}

/// The lexical normal form of `p`.
pub open spec fn normal_form(p: Seq<char>) -> Seq<char> {
    render(is_absolute(p), collapse(segments(p)))
}

/// `path` resolved against `base_dir` (unless already absolute), then normalized.
pub open spec fn absolutized(path: Seq<char>, base_dir: Seq<char>) -> Seq<char> {
    if is_absolute(path) {
        normal_form(path)
    } else {
        render(is_absolute(base_dir), collapse(segments(base_dir) + segments(path)))
    }
}

/// Removes leading separators and leading `.` segments.
pub open spec fn trim_lead(s: Seq<char>) -> Seq<char>
    decreases s.len(),
{
    if s.len() > 0 && s[0] == '/' {
        trim_lead(s.drop_first())
    } else if s.len() > 0 && s[0] == '.' && (s.len() == 1 || s[1] == '/') {
        trim_lead(s.drop_first())
    } else {
        s
    }
}

/// Removes trailing separators and trailing `.` segments.
pub open spec fn trim_trail(s: Seq<char>) -> Seq<char>
    decreases s.len(),
{
    if s.len() > 0 && s.last() == '/' {
        trim_trail(s.drop_last())
    } else if s.len() > 0 && s.last() == '.' && (s.len() == 1 || s[s.len() - 2] == '/') {
        trim_trail(s.drop_last())
    } else {
        s
    }
}

/// The part of `p` below the filesystem root: `p` without its root, trimmed of empty and `.`
/// segments at both ends; a relative `p` is kept as written.
pub open spec fn below_root(p: Seq<char>) -> Seq<char> {
    if is_absolute(p) {
        trim_trail(trim_lead(p.drop_first()))
    } else {
        p
    }
}

/// `suffix` appended under `root`, with one `/` between them unless `root` already ends in one.
pub open spec fn push_under(root: Seq<char>, suffix: Seq<char>) -> Seq<char> {
    if root.len() > 0 && root.last() == '/' {
        root + suffix
    } else {
        root + seq!['/'] + suffix
    }
}

/// The container-side view of `host_path` under `host_root` (the default root when empty).
pub open spec fn container_path(host_path: Seq<char>, host_root: Seq<char>) -> Seq<char> {
    let root = if host_root.len() == 0 { DEFAULT_HOST_ROOT@ } else { host_root };
    push_under(root, below_root(host_path))
}

// ---------------------------------------------------------------------------------------------
// Executable code
// ---------------------------------------------------------------------------------------------

/// Splits a path into its non-empty, non-`.` segments.
pub fn split_segments(p: &Vec<char>) -> (out: Vec<Vec<char>>)
    ensures
        out@.map_values(|v: Vec<char>| v@) == segments(p@),
{
    let mut done: Vec<Vec<char>> = Vec::new();
    let mut cur: Vec<char> = Vec::new();
    let mut i: usize = 0;
    while i < p.len()
        invariant
            i <= p.len(),
            (done@.map_values(|v: Vec<char>| v@), cur@) == split_state(p@.subrange(0, i as int)),
        decreases p.len() - i,
    {
        let ghost prev = p@.subrange(0, i as int);
        assert(p@.subrange(0, i + 1).drop_last() =~= prev);
        let c = p[i];
        if c == '/' {
            if cur.len() != 0 && !(cur.len() == 1 && cur[0] == '.') {
                done.push(cur);
            } else {
                proof {
                    if cur@.len() == 1 {
                        assert(cur@ =~= dot());
                    }
                }
            }
            cur = Vec::new();
        } else {
            cur.push(c);
        }
        proof {
            if cur@.len() == 1 && cur@[0] == '.' {
                assert(cur@ =~= dot());
            }
        }
        assert(done@.map_values(|v: Vec<char>| v@) =~= split_state(p@.subrange(0, i + 1)).0);
        i += 1;
    }
    assert(p@.subrange(0, p@.len() as int) =~= p@);
    if cur.len() != 0 && !(cur.len() == 1 && cur[0] == '.') {
        done.push(cur);
    } else {
        proof {
            if cur@.len() == 1 {
                assert(cur@ =~= dot());
            }
        }
    }
    assert(done@.map_values(|v: Vec<char>| v@) =~= segments(p@));
    done
}

fn is_dot_dot(v: &Vec<char>) -> (r: bool)
    ensures
        r == (v@ == dot_dot()),
{
    let r = v.len() == 2 && v[0] == '.' && v[1] == '.';
    proof {
        if v@.len() == 2 && v@[0] == '.' && v@[1] == '.' {
            assert(v@ =~= dot_dot());
        }
    }
    r
}

/// Resolves `..` segments (see `collapse`).
pub fn collapse_segments(s: Vec<Vec<char>>) -> (out: Vec<Vec<char>>)
    ensures
        out@.map_values(|v: Vec<char>| v@) == collapse(s@.map_values(|v: Vec<char>| v@)),
{
    let ghost sv = s@.map_values(|v: Vec<char>| v@);
    let mut out: Vec<Vec<char>> = Vec::new();
    let mut i: usize = 0;
    while i < s.len()
        invariant
            i <= s.len(),
            sv == s@.map_values(|v: Vec<char>| v@),
            out@.map_values(|v: Vec<char>| v@) == collapse(sv.subrange(0, i as int)),
        decreases s.len() - i,
    {
        assert(sv.subrange(0, i + 1).drop_last() =~= sv.subrange(0, i as int));
        if is_dot_dot(&s[i]) {
            if out.len() > 0 {
                out.pop();
            }
        } else {
            out.push(s[i].clone());
        }
        assert(out@.map_values(|v: Vec<char>| v@) =~= collapse(sv.subrange(0, i + 1)));
        i += 1;
    }
    assert(sv.subrange(0, s@.len() as int) =~= sv);
    out
}

/// Renders segments as path text (see `render`).
pub fn render_segments(absolute: bool, parts: &Vec<Vec<char>>) -> (out: String)
    ensures
        out@ == render(absolute, parts@.map_values(|v: Vec<char>| v@)),
{
    let ghost pv = parts@.map_values(|v: Vec<char>| v@);
    let mut out = String::new();
    if absolute {
        push_char(&mut out, '/');
    }
    let ghost lead: Seq<char> = if absolute { seq!['/'] } else { Seq::empty() };
    let mut i: usize = 0;
    while i < parts.len()
        invariant
            i <= parts.len(),
            pv == parts@.map_values(|v: Vec<char>| v@),
            lead == (if absolute { seq!['/'] } else { Seq::<char>::empty() }),
            out@ == lead + join(pv.subrange(0, i as int)),
        decreases parts.len() - i,
    {
        assert(pv.subrange(0, i + 1).drop_last() =~= pv.subrange(0, i as int));
        if i > 0 {
            push_char(&mut out, '/');
        }
        let piece = string_of(&parts[i]);
        push_str(&mut out, piece.as_str());
        proof {
            if i == 0 {
                assert(join(pv.subrange(0, 1)) == pv[0]);
                assert(out@ =~= lead + join(pv.subrange(0, i + 1)));
            } else {
                assert(out@ =~= lead + join(pv.subrange(0, i + 1)));
            }
        }
        i += 1;
    }
    assert(pv.subrange(0, parts@.len() as int) =~= pv);
    out
}

/// The lexical normal form of a path: `.` and empty segments dropped, `..` resolved against the
/// preceding segment (never above the start), absolute paths keeping their leading `/`.
pub fn normalize(path: &str) -> (out: String)
    ensures
        out@ == normal_form(path@),
{
    let p = chars_of(path);
    let absolute = p.len() > 0 && p[0] == '/';
    let parts = collapse_segments(split_segments(&p));
    render_segments(absolute, &parts)
}

/// Resolves `path` to an absolute, lexically-normalized host path: a relative `path` (as authored
/// in an image definition) is joined onto `base_dir`, then `.`/`..` components are collapsed.
pub fn absolutize(path: &str, base_dir: &str) -> (out: String)
    ensures
        out@ == absolutized(path@, base_dir@),
{
    let p = chars_of(path);
    if p.len() > 0 && p[0] == '/' {
        return normalize(path);
    }
    let b = chars_of(base_dir);
    let base_absolute = b.len() > 0 && b[0] == '/';
    let mut all = split_segments(&b);
    let mut rest = split_segments(&p);
    let ghost sb = all@.map_values(|v: Vec<char>| v@);
    let ghost sp = rest@.map_values(|v: Vec<char>| v@);
    all.append(&mut rest);
    assert(all@.map_values(|v: Vec<char>| v@) =~= sb + sp);
    let parts = collapse_segments(all);
    render_segments(base_absolute, &parts)
}

/// Index of the first character kept by `trim_lead` on `v[from..]`.
fn trim_lead_index(v: &Vec<char>, from: usize) -> (k: usize)
    requires
        from <= v.len(),
    ensures
        from <= k <= v.len(),
        trim_lead(v@.subrange(from as int, v@.len() as int)) == v@.subrange(k as int, v@.len() as int),
{
    let n = v.len();
    let mut k = from;
    while k < n && (v[k] == '/' || (v[k] == '.' && (k + 1 == n || v[k + 1] == '/')))
        invariant
            from <= k <= n == v.len(),
            trim_lead(v@.subrange(from as int, n as int)) == trim_lead(v@.subrange(k as int, n as int)),
        decreases n - k,
    {
        assert(v@.subrange(k as int, n as int).drop_first() =~= v@.subrange(k + 1, n as int));
        k += 1;
    }
    k
}

/// Index just past the last character kept by `trim_trail` on `v[from..to]`.
fn trim_trail_index(v: &Vec<char>, from: usize, to: usize) -> (k: usize)
    requires
        from <= to <= v.len(),
    ensures
        from <= k <= to,
        trim_trail(v@.subrange(from as int, to as int)) == v@.subrange(from as int, k as int),
{
    let mut k = to;
    while k > from && (v[k - 1] == '/' || (v[k - 1] == '.' && (k - 1 == from || v[k - 2] == '/')))
        invariant
            from <= k <= to <= v.len(),
            trim_trail(v@.subrange(from as int, to as int)) == trim_trail(v@.subrange(from as int, k as int)),
        decreases k - from,
    {
        assert(v@.subrange(from as int, k as int).drop_last() =~= v@.subrange(from as int, k - 1));
        k -= 1;
    }
    k
}

/// Translate a host path to the container-side path under `host_root` (or `/host` when
/// `host_root` is empty): an absolute path loses its root and any leading/trailing empty or `.`
/// segments, then is appended under the root.
pub fn to_container_path(host_path: &str, host_root: &str) -> (out: String)
    ensures
        out@ == container_path(host_path@, host_root@),
{
    let p = chars_of(host_path);
    let r = chars_of(host_root);
    let mut out = if r.len() == 0 { String::from_str(DEFAULT_HOST_ROOT) } else { string_of(&r) };
    let ends_sep = if r.len() == 0 { false } else { r[r.len() - 1] == '/' };
    proof {
        reveal_strlit("/host");
    }
    if !ends_sep {
        push_char(&mut out, '/');
    }
    if p.len() > 0 && p[0] == '/' {
        let a = trim_lead_index(&p, 1);
        let b = trim_trail_index(&p, a, p.len());
        assert(p@.drop_first() =~= p@.subrange(1, p@.len() as int));
        let suffix = string_of_range(&p, a, b);
        push_str(&mut out, suffix.as_str());
    } else {
        push_str(&mut out, host_path);
    }
    out
}


/// Whether two character vectors are equal.
pub fn same_chars(a: &Vec<char>, b: &Vec<char>) -> (r: bool)
    ensures
        r == (a@ == b@),
{
    if a.len() != b.len() {
        return false;
    }
    let mut i: usize = 0;
    while i < a.len()
        invariant
            i <= a.len() == b.len(),
            forall|k: int| 0 <= k < i ==> a@[k] == b@[k],
        decreases a.len() - i,
    {
        if a[i] != b[i] {
            return false;
        }
        i += 1;
    }
    assert(a@ =~= b@);
    true
}

// ---------------------------------------------------------------------------------------------
// Laws
// ---------------------------------------------------------------------------------------------

/// A proper segment: non-empty, not `.`, and free of separators.
pub open spec fn proper_segment(w: Seq<char>) -> bool {
    &&& w.len() > 0
    &&& w != dot()
    &&& forall|i: int| 0 <= i < w.len() ==> !is_sep(#[trigger] w[i])
}

/// Every segment is proper.
pub open spec fn proper_segments(parts: Seq<Seq<char>>) -> bool {
    forall|i: int| 0 <= i < parts.len() ==> proper_segment(#[trigger] parts[i])
}

proof fn lemma_split_append(a: Seq<char>, w: Seq<char>)
    requires
        forall|i: int| 0 <= i < w.len() ==> !is_sep(#[trigger] w[i]),
    ensures
        split_state(a + w) == (split_state(a).0, split_state(a).1 + w),
    decreases w.len(),
{
    if w.len() == 0 {
        assert(a + w =~= a);
        assert(split_state(a).1 + w =~= split_state(a).1);
    } else {
        let front = w.drop_last();
        lemma_split_append(a, front);
        assert((a + w).drop_last() =~= a + front);
        assert((a + w).last() == w.last());
        assert(!is_sep(w[w.len() - 1]));
        assert((split_state(a).1 + front).push(w.last()) =~= split_state(a).1 + w);
    }
}

proof fn lemma_segments_push(a: Seq<char>, w: Seq<char>)
    requires
        proper_segment(w),
    ensures
        segments(a + seq!['/'] + w) == segments(a).push(w),
{
    let b = a + seq!['/'];
    assert(b.drop_last() =~= a);
    assert(split_state(b) == (segments(a), Seq::<char>::empty()));
    lemma_split_append(b, w);
    assert(Seq::<char>::empty() + w =~= w);
}

proof fn lemma_segments_single(w: Seq<char>)
    requires
        proper_segment(w),
    ensures
        segments(w) == seq![w],
        segments(seq!['/'] + w) == seq![w],
{
    lemma_split_append(Seq::empty(), w);
    assert(Seq::<char>::empty() + w =~= w);
    assert(Seq::<char>::empty() + w == w);
    assert(split_state(Seq::<char>::empty()) == (Seq::<Seq<char>>::empty(), Seq::<char>::empty()));
    assert(flush(Seq::<Seq<char>>::empty(), w) =~= seq![w]);
    let root = seq!['/'];
    assert(root.drop_last() =~= Seq::<char>::empty());
    assert(split_state(root) == (Seq::<Seq<char>>::empty(), Seq::<char>::empty()));
    lemma_split_append(root, w);
}

/// Splitting joined proper segments gives them back, with or without a leading `/`.
proof fn lemma_segments_join(parts: Seq<Seq<char>>)
    requires
        proper_segments(parts),
    ensures
        segments(join(parts)) == parts,
        segments(seq!['/'] + join(parts)) == parts,
    decreases parts.len(),
{
    if parts.len() == 0 {
        assert(join(parts) == Seq::<char>::empty());
        assert(seq!['/'] + Seq::<char>::empty() =~= seq!['/']);
        let root = seq!['/'];
        assert(root.drop_last() =~= Seq::<char>::empty());
        assert(split_state(Seq::<char>::empty()) == (Seq::<Seq<char>>::empty(), Seq::<char>::empty()));
        assert(segments(Seq::<char>::empty()) =~= Seq::<Seq<char>>::empty());
        assert(segments(root) =~= Seq::<Seq<char>>::empty());
    } else if parts.len() == 1 {
        assert(proper_segment(parts[0]));
        lemma_segments_single(parts[0]);
        assert(seq![parts[0]] =~= parts);
    } else {
        let front = parts.drop_last();
        assert(proper_segments(front)) by {
            assert forall|i: int| 0 <= i < front.len() implies proper_segment(#[trigger] front[i]) by {
                assert(front[i] == parts[i]);
            }
        }
        assert(proper_segment(parts[parts.len() - 1]));
        lemma_segments_join(front);
        lemma_segments_push(join(front), parts.last());
        lemma_segments_push(seq!['/'] + join(front), parts.last());
        assert(seq!['/'] + join(parts) =~= (seq!['/'] + join(front)) + seq!['/'] + parts.last());
        assert(front.push(parts.last()) =~= parts);
    }
}

proof fn lemma_collapse_members(s: Seq<Seq<char>>)
    ensures
        forall|x: Seq<char>| #[trigger] collapse(s).contains(x) ==> s.contains(x) && x != dot_dot(),
    decreases s.len(),
{
    if s.len() > 0 {
        lemma_collapse_members(s.drop_last());
        let r = collapse(s.drop_last());
        assert forall|x: Seq<char>| #[trigger] collapse(s).contains(x) implies s.contains(x) && x != dot_dot() by {
            let j = choose|j: int| 0 <= j < collapse(s).len() && collapse(s)[j] == x;
            if j < r.len() && (s.last() != dot_dot() || r.len() == 0 || j < r.len() - 1) {
                assert(collapse(s)[j] == r[j]);
                assert(r.contains(x));
                let k = choose|k: int| 0 <= k < s.drop_last().len() && s.drop_last()[k] == x;
                assert(s[k] == x);
            } else {
                assert(x == s.last());
                assert(s[s.len() - 1] == x);
            }
        }
    }
}

proof fn lemma_collapse_proper(s: Seq<Seq<char>>)
    requires
        proper_segments(s),
    ensures
        proper_segments(collapse(s)),
        forall|i: int| 0 <= i < collapse(s).len() ==> #[trigger] collapse(s)[i] != dot_dot(),
{
    lemma_collapse_members(s);
    assert forall|i: int| 0 <= i < collapse(s).len() implies proper_segment(#[trigger] collapse(s)[i])
        && collapse(s)[i] != dot_dot() by {
        let x = collapse(s)[i];
        assert(collapse(s).contains(x));
        let k = choose|k: int| 0 <= k < s.len() && s[k] == x;
        assert(proper_segment(s[k]));
    }
}

proof fn lemma_collapse_keeps(s: Seq<Seq<char>>)
    requires
        forall|i: int| 0 <= i < s.len() ==> #[trigger] s[i] != dot_dot(),
    ensures
        collapse(s) == s,
    decreases s.len(),
{
    if s.len() > 0 {
        lemma_collapse_keeps(s.drop_last());
        assert(s[s.len() - 1] != dot_dot());
        assert(s.drop_last().push(s.last()) =~= s);
    }
}

proof fn lemma_segments_proper(p: Seq<char>)
    ensures
        proper_segments(segments(p)),
        proper_segments(split_state(p).0),
        forall|i: int| 0 <= i < split_state(p).1.len() ==> !is_sep(#[trigger] split_state(p).1[i]),
    decreases p.len(),
{
    if p.len() > 0 {
        lemma_segments_proper(p.drop_last());
        let (done, cur) = split_state(p.drop_last());
        if !is_sep(p.last()) {
            assert forall|i: int| 0 <= i < cur.push(p.last()).len() implies !is_sep(#[trigger] cur.push(p.last())[i]) by {
                if i < cur.len() {
                    assert(cur.push(p.last())[i] == cur[i]);
                }
            }
        }
    }
    let (done, cur) = split_state(p);
    assert forall|i: int| 0 <= i < flush(done, cur).len() implies proper_segment(#[trigger] flush(done, cur)[i]) by {
        if i < done.len() {
            assert(flush(done, cur)[i] == done[i]);
        }
    }
}

proof fn lemma_proper_concat(a: Seq<Seq<char>>, b: Seq<Seq<char>>)
    requires
        proper_segments(a),
        proper_segments(b),
    ensures
        proper_segments(a + b),
{
    assert forall|i: int| 0 <= i < (a + b).len() implies proper_segment(#[trigger] (a + b)[i]) by {
        if i < a.len() {
            assert((a + b)[i] == a[i]);
        } else {
            assert((a + b)[i] == b[i - a.len()]);
        }
    }
}

/// Rendering proper segments that hold no `..` yields a path already in normal form, absolute
/// exactly when asked.
proof fn lemma_render_normal(absolute: bool, parts: Seq<Seq<char>>)
    requires
        proper_segments(parts),
        forall|i: int| 0 <= i < parts.len() ==> #[trigger] parts[i] != dot_dot(),
    ensures
        is_absolute(render(absolute, parts)) == absolute,
        normal_form(render(absolute, parts)) == render(absolute, parts),
{
    lemma_segments_join(parts);
    lemma_collapse_keeps(parts);
    if !absolute && parts.len() > 0 {
        lemma_join_first(parts);
        assert(proper_segment(parts[0]));
        assert(!is_sep(parts[0][0]));
    }
}

proof fn lemma_join_first(parts: Seq<Seq<char>>)
    requires
        parts.len() > 0,
        parts[0].len() > 0,
    ensures
        join(parts).len() > 0,
        join(parts)[0] == parts[0][0],
    decreases parts.len(),
{
    if parts.len() > 1 {
        lemma_join_first(parts.drop_last());
    }
}

/// Normalization is idempotent: a normalized path is its own normal form, and stays absolute or
/// relative as it was.
pub proof fn law_normal_form_is_idempotent(p: Seq<char>)
    ensures
        is_absolute(normal_form(p)) == is_absolute(p),
        normal_form(normal_form(p)) == normal_form(p),
{
    lemma_segments_proper(p);
    lemma_collapse_proper(segments(p));
    lemma_render_normal(is_absolute(p), collapse(segments(p)));
}

/// Resolving a path against an absolute image directory (or an absolute path against anything)
/// yields a clean absolute path: absolute, with no empty, `.` or `..` segment (so it is its own
/// normal form), unchanged when resolved again against any directory, and independent of the
/// directory when the path is already absolute.
pub proof fn law_absolutized_is_clean(path: Seq<char>, base_dir: Seq<char>, other_dir: Seq<char>)
    requires
        is_absolute(path) || is_absolute(base_dir),
    ensures
        is_absolute(absolutized(path, base_dir)),
        proper_segments(segments(absolutized(path, base_dir))),
        forall|i: int| 0 <= i < segments(absolutized(path, base_dir)).len()
            ==> #[trigger] segments(absolutized(path, base_dir))[i] != dot_dot(),
        normal_form(absolutized(path, base_dir)) == absolutized(path, base_dir),
        absolutized(absolutized(path, base_dir), other_dir) == absolutized(path, base_dir),
        is_absolute(path) ==> absolutized(path, base_dir) == absolutized(path, other_dir),
{
    let parts = if is_absolute(path) {
        collapse(segments(path))
    } else {
        collapse(segments(base_dir) + segments(path))
    };
    if is_absolute(path) {
        law_normal_form_is_idempotent(path);
        lemma_segments_proper(path);
        lemma_collapse_proper(segments(path));
    } else {
        lemma_segments_proper(base_dir);
        lemma_segments_proper(path);
        lemma_proper_concat(segments(base_dir), segments(path));
        lemma_collapse_proper(segments(base_dir) + segments(path));
        lemma_render_normal(true, parts);
    }
    assert(absolutized(path, base_dir) == render(true, parts));
    lemma_segments_join(parts);
    assert(segments(absolutized(path, base_dir)) == parts);
}

} // verus!
