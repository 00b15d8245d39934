//! Which signing profiles a build needs, and for which images.
use vstd::prelude::*;
use crate::text::{copy_string, join_strings, join_with, push_str, str_eq, views};

verus! {

/// One signing profile that the selected images need, and the images that need it.
#[derive(Debug)]
pub struct SigningRequirement {
    pub profile_id: String,
    pub images: Vec<String>,
}

/// A requirement as plain values.
pub open spec fn requirement_view(r: SigningRequirement) -> (Seq<char>, Seq<Seq<char>>) {
    (r.profile_id@, views(r.images@))
}

/// The position of the requirement for `profile`, if any.
pub open spec fn profile_position(reqs: Seq<(Seq<char>, Seq<Seq<char>>)>, profile: Seq<char>) -> Option<int>
    decreases reqs.len(),
{
    if reqs.len() == 0 {
        None
    } else {
        match profile_position(reqs.drop_last(), profile) {
            Some(i) => Some(i),
            None => if reqs.last().0 == profile { Some(reqs.len() - 1) } else { None },
        }
    }
}

/// The requirements of images (name, profile it is signed with, if any), in order: each profile
/// once, at its first image, listing every image that needs it.
pub open spec fn requirements_of(images: Seq<(Seq<char>, Option<Seq<char>>)>) -> Seq<(Seq<char>, Seq<Seq<char>>)>
    decreases images.len(),
{
    if images.len() == 0 {
        Seq::empty()
    } else {
        let acc = requirements_of(images.drop_last());
        let (name, profile) = images.last();
        match profile {
            None => acc,
            Some(p) => match profile_position(acc, p) {
                Some(i) => acc.update(i, (acc[i].0, acc[i].1.push(name))),
                None => acc.push((p, seq![name])),
            },
        }
    }
}

/// The images as plain values.
pub open spec fn signed_images_view(images: Seq<(String, Option<String>)>) -> Seq<(Seq<char>, Option<Seq<char>>)> {
    images.map_values(|e: (String, Option<String>)| (e.0@, match e.1 {
        Some(p) => Some(p@),
        None => None,
    }))
}

proof fn lemma_profile_position(reqs: Seq<(Seq<char>, Seq<Seq<char>>)>, profile: Seq<char>)
    ensures
        profile_position(reqs, profile) matches Some(i) ==> 0 <= i < reqs.len() && reqs[i].0 == profile,
    decreases reqs.len(),
{
    if reqs.len() > 0 {
        lemma_profile_position(reqs.drop_last(), profile);
    }
}

proof fn lemma_position_prefix(reqs: Seq<(Seq<char>, Seq<Seq<char>>)>, n: int, profile: Seq<char>)
    requires
        0 <= n <= reqs.len(),
        profile_position(reqs.take(n), profile) is Some,
    ensures
        profile_position(reqs, profile) == profile_position(reqs.take(n), profile),
    decreases reqs.len() - n,
{
    if n < reqs.len() {
        assert(reqs.take(n + 1).drop_last() =~= reqs.take(n));
        lemma_position_prefix(reqs, n + 1, profile);
    } else {
        assert(reqs.take(n) =~= reqs);
    }
}

fn find_profile(reqs: &Vec<SigningRequirement>, profile: &str) -> (r: Option<usize>)
    ensures
        match r {
            Some(i) => i < reqs@.len() && profile_position(reqs@.map_values(|q: SigningRequirement| requirement_view(q)), profile@) == Some(i as int),
            None => profile_position(reqs@.map_values(|q: SigningRequirement| requirement_view(q)), profile@) is None,
        },
{
    let ghost all = reqs@.map_values(|q: SigningRequirement| requirement_view(q));
    let mut i: usize = 0;
    while i < reqs.len()
        invariant
            i <= reqs@.len(),
            all == reqs@.map_values(|q: SigningRequirement| requirement_view(q)),
            profile_position(all.take(i as int), profile@) is None,
        decreases reqs@.len() - i,
    {
        assert(all.take(i + 1).drop_last() =~= all.take(i as int));
        if str_eq(reqs[i].profile_id.as_str(), profile) {
            assert(all.take(i + 1).last() == all[i as int]);
            assert(profile_position(all.take(i + 1), profile@) == Some(i as int));
            proof {
                lemma_position_prefix(all, i as int + 1, profile@);
            }
            return Some(i);
        }
        i = i + 1;
    }
    assert(all.take(i as int) =~= all);
    None
}

/// The distinct signing profiles the images need (each image with the profile it is signed
/// with, if any), each listing the images that need it, in order of first need.
pub fn signing_requirements(images: &Vec<(String, Option<String>)>) -> (r: Vec<SigningRequirement>)
    ensures
        r@.map_values(|q: SigningRequirement| requirement_view(q)) == requirements_of(signed_images_view(images@)),
{
    let mut reqs: Vec<SigningRequirement> = Vec::new();
    let mut k: usize = 0;
    while k < images.len()
        invariant
            k <= images@.len(),
            reqs@.map_values(|q: SigningRequirement| requirement_view(q)) == requirements_of(signed_images_view(images@.take(k as int))),
        decreases images@.len() - k,
    {
        let ghost before = reqs@.map_values(|q: SigningRequirement| requirement_view(q));
        assert(signed_images_view(images@.take(k + 1)).drop_last() =~= signed_images_view(images@.take(k as int)));
        assert(signed_images_view(images@.take(k + 1)).last() == (images@[k as int].0@, match images@[k as int].1 {
            Some(p) => Some(p@),
            None => None,
        }));
        match &images[k].1 {
            None => {},
            Some(p) => {
                proof {
                    lemma_profile_position(before, p@);
                }
                match find_profile(&reqs, p.as_str()) {
                    Some(i) => {
                        let name = copy_string(&images[k].0);
                        let mut list = crate::text::copy_strings(&reqs[i].images);
                        let id = copy_string(&reqs[i].profile_id);
                        let ghost lv = views(list@);
                        list.push(name);
                        assert(views(list@) =~= lv.push(images@[k as int].0@));
                        reqs.set(i, SigningRequirement { profile_id: id, images: list });
                        assert(reqs@.map_values(|q: SigningRequirement| requirement_view(q))
                            =~= before.update(i as int, (before[i as int].0, before[i as int].1.push(images@[k as int].0@))));
                    },
                    None => {
                        let mut list: Vec<String> = Vec::new();
                        list.push(copy_string(&images[k].0));
                        assert(views(list@) =~= seq![images@[k as int].0@]);
                        let ghost pv = p@;
                        reqs.push(SigningRequirement { profile_id: copy_string(p), images: list });
                        assert(reqs@.map_values(|q: SigningRequirement| requirement_view(q))
                            =~= before.push((pv, seq![images@[k as int].0@])));
                    },
                }
            },
        }
        k = k + 1;
    }
    assert(images@.take(k as int) =~= images@);
    reqs
}

/// The refusal of a signed build while signing execution is not available.
pub open spec fn signing_refusal(profiles: Seq<Seq<char>>) -> Seq<char> {
    "signing is requested (profile(s): "@ + join_with(profiles, ", "@)
        + ") and its prerequisites are satisfied, but the signing pipeline is not yet implemented. Refusing to build a silently-unsigned image; remove `signing:` to build unsigned."@
}

/// The profile ids of requirements.
pub open spec fn profile_ids(reqs: Seq<SigningRequirement>) -> Seq<Seq<char>> {
    reqs.map_values(|q: SigningRequirement| q.profile_id@)
}

/// A build with signing requirements is refused, a dry run (which only shows the unsigned
/// invocation) is not; a build with none goes ahead.
pub fn signing_gate(reqs: &Vec<SigningRequirement>, dry_run: bool) -> (r: Result<(), String>)
    ensures
        (dry_run || reqs@.len() == 0) ==> r is Ok,
        (!dry_run && reqs@.len() > 0) ==> (r matches Err(m) && m@ == signing_refusal(profile_ids(reqs@))),
{
    if dry_run || reqs.len() == 0 {
        return Ok(());
    }
    let mut ids: Vec<String> = Vec::new();
    let mut i: usize = 0;
    while i < reqs.len()
        invariant
            i <= reqs@.len(),
            views(ids@) == profile_ids(reqs@.take(i as int)),
        decreases reqs@.len() - i,
    {
        let ghost before = views(ids@);
        ids.push(copy_string(&reqs[i].profile_id));
        assert(views(ids@) =~= before.push(reqs@[i as int].profile_id@));
        assert(profile_ids(reqs@.take(i + 1)) =~= profile_ids(reqs@.take(i as int)).push(reqs@[i as int].profile_id@));
        i = i + 1;
    }
    assert(reqs@.take(i as int) =~= reqs@);
    let mut m = "signing is requested (profile(s): ".to_owned();
    let joined = join_strings(&ids, ", ");
    push_str(&mut m, joined.as_str());
    push_str(&mut m, ") and its prerequisites are satisfied, but the signing pipeline is not yet implemented. Refusing to build a silently-unsigned image; remove `signing:` to build unsigned.");
    Err(m)
}

} // verus!
