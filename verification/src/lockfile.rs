//! The decisions around `tailor.lock`: what a lock run resolves (the toolchains, and every registry
//! base of the selected images for each architecture it is built for), how a resolved pin enters
//! the lock, and what `--locked` mode demands of it.
use vstd::prelude::*;
use crate::commands::{cell_arches, cell_arches_of};
use crate::error::CoreError;
use crate::orchestrator::{LockedBase, LockedContainer, Lockfile};
use crate::render::RenderedCell;
use crate::schema::{effective_tag_text, opt_text, semver_text, BaseSource, BaseV, ToolchainEntry};
use crate::text::{copy_string, push_str, str_eq};
use crate::types::Arch;

verus! {

/// A locked base as plain values: (reference, platform, digest).
pub open spec fn base_entries(bases: Seq<LockedBase>) -> Seq<(Seq<char>, Seq<char>, Seq<char>)> {
    bases.map_values(|b: LockedBase| (b.reference@, b.platform@, b.digest@))
}

/// The position of the first locked base for `reference` on `platform`, if any.
pub open spec fn base_position(bases: Seq<(Seq<char>, Seq<char>, Seq<char>)>, reference: Seq<char>, platform: Seq<char>) -> Option<int>
    decreases bases.len(),
{
    if bases.len() == 0 {
        None
    } else {
        match base_position(bases.drop_last(), reference, platform) {
            Some(i) => Some(i),
            None => if bases.last().0 == reference && bases.last().1 == platform {
                Some(bases.len() - 1)
            } else {
                None
            },
        }
    }
}

/// The locked bases after pinning `base`: it replaces the entry for the same reference and
/// platform, else it is appended.
pub open spec fn upserted(bases: Seq<(Seq<char>, Seq<char>, Seq<char>)>, base: (Seq<char>, Seq<char>, Seq<char>)) -> Seq<(Seq<char>, Seq<char>, Seq<char>)> {
    match base_position(bases, base.0, base.1) {
        Some(i) => bases.update(i, base),
        None => bases.push(base),
    }
}

proof fn lemma_base_position(bases: Seq<(Seq<char>, Seq<char>, Seq<char>)>, reference: Seq<char>, platform: Seq<char>)
    ensures
        base_position(bases, reference, platform) matches Some(i) ==> 0 <= i < bases.len()
            && bases[i].0 == reference && bases[i].1 == platform,
    decreases bases.len(),
{
    if bases.len() > 0 {
        lemma_base_position(bases.drop_last(), reference, platform);
    }
}

fn find_base(bases: &Vec<LockedBase>, reference: &str, platform: &str) -> (r: Option<usize>)
    ensures
        match r {
            Some(i) => i < bases@.len() && base_position(base_entries(bases@), reference@, platform@) == Some(i as int),
            None => base_position(base_entries(bases@), reference@, platform@) is None,
        },
{
    let ghost all = base_entries(bases@);
    let mut i: usize = 0;
    while i < bases.len()
        invariant
            i <= bases@.len(),
            all == base_entries(bases@),
            base_position(all.take(i as int), reference@, platform@) is None,
        decreases bases@.len() - i,
    {
        assert(all.take(i + 1).drop_last() =~= all.take(i as int));
        if str_eq(bases[i].reference.as_str(), reference) && str_eq(bases[i].platform.as_str(), platform) {
            assert(all.take(i + 1).last() == all[i as int]);
            assert(base_position(all.take(i + 1), reference@, platform@) == Some(i as int));
            proof {
                lemma_prefix_position(all, i as int + 1, reference@, platform@);
            }
            return Some(i);
        }
        i = i + 1;
    }
    assert(all.take(i as int) =~= all);
    None
}

/// A position found in a prefix is the position in the whole.
proof fn lemma_prefix_position(bases: Seq<(Seq<char>, Seq<char>, Seq<char>)>, n: int, reference: Seq<char>, platform: Seq<char>)
    requires
        0 <= n <= bases.len(),
        base_position(bases.take(n), reference, platform) is Some,
    ensures
        base_position(bases, reference, platform) == base_position(bases.take(n), reference, platform),
    decreases bases.len() - n,
{
    if n < bases.len() {
        assert(bases.take(n + 1).drop_last() =~= bases.take(n));
        lemma_prefix_position(bases, n + 1, reference, platform);
    } else {
        assert(bases.take(n) =~= bases);
    }
}

impl Lockfile {
    /// Pins a registry base: replaces the entry for the same reference and platform, else appends
    /// one. Toolchains and runtime pins stay as they are.
    pub fn upsert_base(&mut self, base: LockedBase)
        ensures
            base_entries(final(self).bases@) == upserted(base_entries(old(self).bases@),
                (base.reference@, base.platform@, base.digest@)),
            final(self).toolchains == old(self).toolchains,
            final(self).runtime == old(self).runtime,
    {
        let ghost entry = (base.reference@, base.platform@, base.digest@);
        let ghost before = self.bases@;
        match find_base(&self.bases, base.reference.as_str(), base.platform.as_str()) {
            Some(i) => {
                self.bases.set(i, base);
                assert(base_entries(self.bases@) =~= base_entries(before).update(i as int, entry));
            },
            None => {
                self.bases.push(base);
                assert(base_entries(self.bases@) =~= base_entries(before).push(entry));
            },
        }
    }

    /// The digest pinned for `reference` on `platform`, if any.
    pub fn base_digest(&self, reference: &str, platform: &str) -> (r: Option<String>)
        ensures
            match base_position(base_entries(self.bases@), reference@, platform@) {
                Some(i) => r matches Some(d) && d@ == base_entries(self.bases@)[i].2,
                None => r is None,
            },
    {
        match find_base(&self.bases, reference, platform) {
            Some(i) => Some(copy_string(&self.bases[i].digest)),
            None => None,
        }
    }
}

/// In `--locked` mode a registry base must be pinned: its digest, or `LockMissing`.
pub fn require_locked_base(lock: &Lockfile, reference: &str, platform: &str) -> (r: Result<String, CoreError>)
    ensures
        match base_position(base_entries(lock.bases@), reference@, platform@) {
            Some(i) => r matches Ok(d) && d@ == base_entries(lock.bases@)[i].2,
            None => r matches Err(CoreError::LockMissing { reference: rf, platform: pf })
                && rf@ == reference@ && pf@ == platform@,
        },
{
    match lock.base_digest(reference, platform) {
        Some(d) => Ok(d),
        None => Err(CoreError::LockMissing { reference: reference.to_owned(), platform: platform.to_owned() }),
    }
}

/// The lock entry of a resolved toolchain: its container, version, the tag it pulls, and digest.
pub fn locked_container(entry: &ToolchainEntry, digest: String) -> (r: LockedContainer)
    ensures
        r.container@ == entry.container@,
        opt_text(r.version) == match entry.version {
            Some(v) => Some(semver_text(v)),
            None => None,
        },
        opt_text(r.tag) == Some(effective_tag_text(*entry)),
        r.digest@ == digest@,
{
    LockedContainer {
        container: copy_string(&entry.container),
        version: match &entry.version {
            Some(v) => Some(v.text()),
            None => None,
        },
        tag: Some(entry.effective_tag()),
        digest,
    }
}

/// The position of the first lock entry for toolchain `id`, if any.
pub open spec fn toolchain_position(entries: Seq<(String, LockedContainer)>, id: Seq<char>) -> Option<int>
    decreases entries.len(),
{
    if entries.len() == 0 {
        None
    } else {
        match toolchain_position(entries.drop_last(), id) {
            Some(i) => Some(i),
            None => if entries.last().0@ == id { Some(entries.len() - 1) } else { None },
        }
    }
}

proof fn lemma_toolchain_prefix(entries: Seq<(String, LockedContainer)>, n: int, id: Seq<char>)
    requires
        0 <= n <= entries.len(),
        toolchain_position(entries.take(n), id) is Some,
    ensures
        toolchain_position(entries, id) == toolchain_position(entries.take(n), id),
    decreases entries.len() - n,
{
    if n < entries.len() {
        assert(entries.take(n + 1).drop_last() =~= entries.take(n));
        lemma_toolchain_prefix(entries, n + 1, id);
    } else {
        assert(entries.take(n) =~= entries);
    }
}

fn find_toolchain(entries: &Vec<(String, LockedContainer)>, id: &str) -> (r: Option<usize>)
    ensures
        match r {
            Some(i) => i < entries@.len() && toolchain_position(entries@, id@) == Some(i as int),
            None => toolchain_position(entries@, id@) is None,
        },
{
    let mut i: usize = 0;
    while i < entries.len()
        invariant
            i <= entries@.len(),
            toolchain_position(entries@.take(i as int), id@) is None,
        decreases entries@.len() - i,
    {
        assert(entries@.take(i + 1).drop_last() =~= entries@.take(i as int));
        if str_eq(entries[i].0.as_str(), id) {
            assert(entries@.take(i + 1).last() == entries@[i as int]);
            assert(toolchain_position(entries@.take(i + 1), id@) == Some(i as int));
            proof {
                lemma_toolchain_prefix(entries@, i as int + 1, id@);
            }
            return Some(i);
        }
        i = i + 1;
    }
    assert(entries@.take(i as int) =~= entries@);
    None
}

/// A locked container as `container[:tag]`.
pub open spec fn locked_name(c: LockedContainer) -> Seq<char> {
    c.container@ + match c.tag {
        Some(t) => ":"@ + t@,
        None => Seq::empty(),
    }
}

/// Whether a toolchain's lock entry no longer matches the workspace entry: another container, or
/// another tag than the one the entry pulls.
pub open spec fn toolchain_drifted(c: LockedContainer, entry: ToolchainEntry) -> bool {
    c.container@ != entry.container@ || opt_text(c.tag) != Some(effective_tag_text(entry))
}

/// The detail of a toolchain drift.
pub open spec fn drift_text(id: Seq<char>, c: LockedContainer, entry: ToolchainEntry) -> Seq<char> {
    "toolchain `"@ + id + "` is locked to `"@ + locked_name(c) + "` but the workspace names `"@
        + entry.container@ + ":"@ + effective_tag_text(entry) + "`"@
}

/// In `--locked` mode a toolchain must be pinned, and pinned to what the workspace names: its
/// locked digest, `LockMissing` (platform `toolchain`) when it has no entry, or `LockDrift` when
/// the entry names another container or tag.
pub fn locked_toolchain_digest(lock: &Lockfile, id: &str, entry: &ToolchainEntry) -> (r: Result<String, CoreError>)
    ensures
        match toolchain_position(lock.toolchains@, id@) {
            None => r matches Err(CoreError::LockMissing { reference: rf, platform: pf })
                && rf@ == id@ && pf@ == "toolchain"@,
            Some(i) => {
                let c = lock.toolchains@[i].1;
                if toolchain_drifted(c, *entry) {
                    r matches Err(CoreError::LockDrift { detail }) && detail@ == drift_text(id@, c, *entry)
                } else {
                    r matches Ok(d) && d@ == c.digest@
                }
            },
        },
{
    let i = match find_toolchain(&lock.toolchains, id) {
        Some(i) => i,
        None => {
            proof {
                reveal_strlit("toolchain");
            }
            return Err(CoreError::LockMissing { reference: id.to_owned(), platform: "toolchain".to_owned() });
        },
    };
    let c = &lock.toolchains[i].1;
    let tag = entry.effective_tag();
    let same_tag = match &c.tag {
        Some(t) => str_eq(t.as_str(), tag.as_str()),
        None => false,
    };
    if !str_eq(c.container.as_str(), entry.container.as_str()) || !same_tag {
        let mut detail = "toolchain `".to_owned();
        push_str(&mut detail, id);
        push_str(&mut detail, "` is locked to `");
        push_str(&mut detail, c.container.as_str());
        match &c.tag {
            Some(t) => {
                push_str(&mut detail, ":");
                push_str(&mut detail, t.as_str());
            },
            None => {},
        }
        push_str(&mut detail, "` but the workspace names `");
        push_str(&mut detail, entry.container.as_str());
        push_str(&mut detail, ":");
        push_str(&mut detail, tag.as_str());
        push_str(&mut detail, "`");
        proof {
            reveal_strlit("toolchain `");
            reveal_strlit("` is locked to `");
            reveal_strlit(":");
            reveal_strlit("` but the workspace names `");
            reveal_strlit("`");
        }
        assert(detail@ =~= drift_text(id@, *c, *entry));
        return Err(CoreError::LockDrift { detail });
    }
    Ok(copy_string(&c.digest))
}

/// Whether a base is pinned through a registry (OCI or Azure Linux).
pub open spec fn is_registry(b: BaseV) -> bool {
    b is Oci || b is AzureLinux
}

/// What a lock run resolves for rendered cells: each registry base, once per architecture its
/// cell is built for, in cell order.
pub open spec fn lock_requests_of(rcs: Seq<RenderedCell>, architectures: Seq<Arch>) -> Seq<(BaseV, Arch)>
    decreases rcs.len(),
{
    if rcs.len() == 0 {
        Seq::empty()
    } else {
        let last = rcs.last();
        lock_requests_of(rcs.drop_last(), architectures) + if is_registry(last.base.view()) {
            cell_arches_of(last.tuple.view(), architectures).map_values(|a: Arch| (last.base.view(), a))
        } else {
            Seq::empty()
        }
    }
}

/// The requests as plain values.
pub open spec fn requests_view(r: Seq<(BaseSource, Arch)>) -> Seq<(BaseV, Arch)> {
    r.map_values(|e: (BaseSource, Arch)| (e.0.view(), e.1))
}

/// The registry bases a lock run resolves for an image's rendered cells, each with an
/// architecture (`architectures`: the image's).
pub fn lock_requests(rendered: &Vec<RenderedCell>, architectures: &Vec<Arch>) -> (r: Vec<(BaseSource, Arch)>)
    ensures
        requests_view(r@) == lock_requests_of(rendered@, architectures@),
{
    let mut r: Vec<(BaseSource, Arch)> = Vec::new();
    let mut i: usize = 0;
    while i < rendered.len()
        invariant
            i <= rendered@.len(),
            requests_view(r@) == lock_requests_of(rendered@.take(i as int), architectures@),
        decreases rendered@.len() - i,
    {
        let rc = &rendered[i];
        assert(rendered@.take(i + 1).drop_last() =~= rendered@.take(i as int));
        assert(rendered@.take(i + 1).last() == *rc);
        let registry = match &rc.base {
            BaseSource::Oci { .. } => true,
            BaseSource::AzureLinux { .. } => true,
            _ => false,
        };
        if registry {
            let arches = cell_arches(rc, architectures);
            let ghost start = requests_view(r@);
            let ghost bv = rc.base.view();
            let mut j: usize = 0;
            while j < arches.len()
                invariant
                    j <= arches@.len(),
                    bv == rc.base.view(),
                    requests_view(r@) == start + arches@.take(j as int).map_values(|a: Arch| (bv, a)),
                decreases arches@.len() - j,
            {
                let ghost before = r@;
                r.push((rc.base.copy(), arches[j]));
                assert(requests_view(r@) =~= requests_view(before).push((bv, arches@[j as int])));
                assert(arches@.take(j + 1).map_values(|a: Arch| (bv, a))
                    =~= arches@.take(j as int).map_values(|a: Arch| (bv, a)).push((bv, arches@[j as int])));
                j = j + 1;
            }
            assert(arches@.take(j as int) =~= arches@);
        } else {
            assert(!is_registry(rc.base.view()));
            assert(lock_requests_of(rendered@.take(i + 1), architectures@) =~= lock_requests_of(rendered@.take(i as int), architectures@));
        }
        i = i + 1;
    }
    assert(rendered@.take(i as int) =~= rendered@);
    r
}

} // verus!
