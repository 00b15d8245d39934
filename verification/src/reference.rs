//! Container-image references: whether a reference already pins a tag or digest, the reference a
//! toolchain pulls, a reference's bare repository, and the digest-pinned base reference.
use vstd::prelude::*;
use crate::ports::ResolvedBase;
use crate::schema::{effective_tag_text, ToolchainEntry};
use crate::text::{
    before_first, chars_of, first_index, has_char, index_of, last_index, last_index_of, lemma_index_of,
    lemma_last_index_of, push_str, string_of_range, sub_vec,
};

verus! {

/// The last `/`-separated segment of a reference.
pub open spec fn last_segment(r: Seq<char>) -> Seq<char> {
    match last_index_of(r, '/') {
        Some(i) => r.subrange(i + 1, r.len() as int),
        None => r,
    }
}

/// A reference carries a digest (`@`) or its last path segment carries a tag (`:`).
pub open spec fn tagged_or_digested(r: Seq<char>) -> bool {
    r.contains('@') || last_segment(r).contains(':')
}

/// Whether `reference` already pins a digest or a tag (a `:` after the last `/`, so a registry
/// port does not count).
pub fn has_tag_or_digest(reference: &str) -> (r: bool)
    ensures
        r == tagged_or_digested(reference@),
{
    let cs = chars_of(reference);
    if has_char(&cs, '@') {
        return true;
    }
    let last = match last_index(&cs, '/') {
        Some(i) => sub_vec(&cs, i + 1, cs.len()),
        None => cs,
    };
    has_char(&last, ':')
}

/// The reference a toolchain pulls: its container as written when that already pins a tag or
/// digest, else `container:<effective tag>`.
pub open spec fn toolchain_reference_text(t: ToolchainEntry) -> Seq<char> {
    if tagged_or_digested(t.container@) {
        t.container@
    } else {
        t.container@ + seq![':'] + effective_tag_text(t)
    }
}

/// The registry reference to resolve for a toolchain entry.
pub fn toolchain_reference(toolchain: &ToolchainEntry) -> (r: String)
    ensures
        r@ == toolchain_reference_text(*toolchain),
{
    if has_tag_or_digest(toolchain.container.as_str()) {
        return toolchain.container.clone();
    }
    let mut out = toolchain.container.clone();
    push_str(&mut out, ":");
    let tag = toolchain.effective_tag();
    push_str(&mut out, tag.as_str());
    proof {
        reveal_strlit(":");
    }
    assert(out@ =~= toolchain_reference_text(*toolchain));
    out
}

/// The bare repository of an OCI reference: without a `@digest` and without a `:tag`, where the
/// tag is the `:` after the last `/` (a `host:port` registry is kept).
pub open spec fn repository_text(reference: Seq<char>) -> Seq<char> {
    let w = before_first(reference, '@');
    match last_index_of(w, '/') {
        Some(slash) => match index_of(w.subrange(slash, w.len() as int), ':') {
            Some(colon) => w.subrange(0, slash + colon),
            None => w,
        },
        None => before_first(w, ':'),
    }
}

/// The bare repository of an OCI reference, so a resolved digest can be reattached.
pub fn oci_repository(reference: &str) -> (r: String)
    ensures
        r@ == repository_text(reference@),
{
    let cs = chars_of(reference);
    let end = match first_index(&cs, '@') {
        Some(i) => i,
        None => cs.len(),
    };
    let w = sub_vec(&cs, 0, end);
    assert(w@ == before_first(reference@, '@')) by {
        if index_of(cs@, '@') is None {
            assert(cs@.subrange(0, cs@.len() as int) =~= cs@);
        }
    }
    match last_index(&w, '/') {
        Some(slash) => {
            let tail = sub_vec(&w, slash, w.len());
            match first_index(&tail, ':') {
                Some(colon) => string_of_range(&w, 0, slash + colon),
                None => string_of_range(&w, 0, w.len()),
            }
        },
        None => {
            let stop = match first_index(&w, ':') {
                Some(i) => i,
                None => w.len(),
            };
            string_of_range(&w, 0, stop)
        },
    }
}

/// The digest-pinned `--image` reference for a resolved base: `oci:<repository>@<digest>` for a
/// registry base, nothing for a local file.
pub open spec fn base_ref_text(resolved: ResolvedBase) -> Option<Seq<char>> {
    match resolved {
        ResolvedBase::Oci { reference, digest, .. } =>
            Some("oci:"@ + repository_text(reference@) + seq!['@'] + digest@),
        ResolvedBase::LocalFile { .. } => None,
    }
}

/// The digest-pinned Image Customizer `--image` reference for a resolved base, or `None` for a
/// local file (which uses `--image-file`).
pub fn base_image_ref(resolved: &ResolvedBase) -> (r: Option<String>)
    ensures
        match base_ref_text(*resolved) {
            Some(t) => r matches Some(s) && s@ == t,
            None => r is None,
        },
{
    match resolved {
        ResolvedBase::Oci { reference, digest, .. } => {
            let mut out = "oci:".to_owned();
            let repo = oci_repository(reference.as_str());
            push_str(&mut out, repo.as_str());
            push_str(&mut out, "@");
            push_str(&mut out, digest.as_str());
            proof {
                reveal_strlit("@");
            }
            assert(out@ =~= "oci:"@ + repository_text(reference@) + seq!['@'] + digest@);
            Some(out)
        },
        ResolvedBase::LocalFile { .. } => None,
    }
}

/// The last occurrence is pinned down by its position: `x` there and nowhere after it.
proof fn lemma_last_index_at(s: Seq<char>, x: char, i: int)
    requires
        0 <= i < s.len(),
        s[i] == x,
        forall|j: int| i < j < s.len() ==> s[j] != x,
    ensures
        last_index_of(s, x) == Some(i),
{
    lemma_last_index_of(s, x);
}

proof fn lemma_last_index_none(s: Seq<char>, x: char)
    requires
        forall|j: int| 0 <= j < s.len() ==> s[j] != x,
    ensures
        last_index_of(s, x) is None,
{
    lemma_last_index_of(s, x);
    if last_index_of(s, x) is Some {
        let i = last_index_of(s, x)->0;
        assert(s[i] == x);
    }
}

/// A repository names neither a tag nor a digest: stripping them leaves a reference that does not
/// count as tagged or digested, whatever the reference held.
pub proof fn law_repository_is_bare(reference: Seq<char>)
    ensures
        !tagged_or_digested(repository_text(reference)),
{
    lemma_index_of(reference, '@');
    let w = before_first(reference, '@');
    assert(!w.contains('@')) by {
        if w.contains('@') {
            let k = choose|k: int| 0 <= k < w.len() && w[k] == '@';
            assert(reference[k] == '@');
        }
    }
    lemma_last_index_of(w, '/');
    let res = repository_text(reference);
    match last_index_of(w, '/') {
        Some(slash) => {
            let tail = w.subrange(slash, w.len() as int);
            lemma_index_of(tail, ':');
            assert(tail[0] == '/');
            let end = match index_of(tail, ':') {
                Some(colon) => slash + colon,
                None => w.len() as int,
            };
            assert(res == w.subrange(0, end));
            assert(slash < end);
            assert(!res.contains('@')) by {
                if res.contains('@') {
                    let k = choose|k: int| 0 <= k < res.len() && res[k] == '@';
                    assert(w[k] == '@');
                }
            }
            assert(res[slash] == '/');
            assert forall|j: int| slash < j < res.len() implies res[j] != '/' by {
                assert(res[j] == w[j]);
            }
            lemma_last_index_at(res, '/', slash);
            let seg = res.subrange(slash + 1, res.len() as int);
            assert(last_segment(res) == seg);
            assert(!seg.contains(':')) by {
                if seg.contains(':') {
                    let k = choose|k: int| 0 <= k < seg.len() && seg[k] == ':';
                    assert(tail[k + 1] == ':');
                }
            }
        },
        None => {
            lemma_index_of(w, ':');
            assert(res == before_first(w, ':'));
            assert(forall|j: int| 0 <= j < res.len() ==> res[j] == w[j]);
            lemma_last_index_none(res, '/');
            assert(last_segment(res) == res);
            assert(!res.contains(':')) by {
                if res.contains(':') {
                    let k = choose|k: int| 0 <= k < res.len() && res[k] == ':';
                    assert(w[k] == ':');
                }
            }
            assert(!res.contains('@')) by {
                if res.contains('@') {
                    let k = choose|k: int| 0 <= k < res.len() && res[k] == '@';
                    assert(w[k] == '@');
                }
            }
        },
    }
}

/// The reference a toolchain pulls always pins a tag or a digest (given a tag that holds no `/`,
/// which would read as a path segment).
pub proof fn law_toolchain_reference_is_pinned(t: ToolchainEntry)
    requires
        !effective_tag_text(t).contains('/'),
    ensures
        tagged_or_digested(toolchain_reference_text(t)),
{
    let c = t.container@;
    if !tagged_or_digested(c) {
        let tag = effective_tag_text(t);
        let s = c + seq![':'] + tag;
        lemma_last_index_of(c, '/');
        match last_index_of(c, '/') {
            Some(i) => {
                assert(s[i] == '/');
                assert forall|j: int| i < j < s.len() implies s[j] != '/' by {
                    if j < c.len() {
                        assert(s[j] == c[j]);
                    } else if j > c.len() {
                        assert(s[j] == tag[j - c.len() - 1]);
                    }
                }
                lemma_last_index_at(s, '/', i);
                let seg = s.subrange(i + 1, s.len() as int);
                assert(seg[c.len() - i - 1] == ':');
            },
            None => {
                assert forall|j: int| 0 <= j < s.len() implies s[j] != '/' by {
                    if j < c.len() {
                        assert(s[j] == c[j]);
                    } else if j > c.len() {
                        assert(s[j] == tag[j - c.len() - 1]);
                    }
                }
                lemma_last_index_none(s, '/');
                assert(s[c.len() as int] == ':');
            },
        }
    }
}

} // verus!
