use sha2::{Digest, Sha256};
use tailor::commands::pick_axis_target;
use tailor::content_hash::ContentHasher;
use tailor::ports::ResolvedBase;
use tailor::signing::{signing_gate, signing_requirements};

#[test]
fn hashes_local_file_and_reports_size() {
    let mut h = ContentHasher::new();
    assert!(h.has_room(5));
    h.feed(b"hello");
    h.feed(b" world");
    match h.finish() {
        ResolvedBase::LocalFile { sha256, size } => {
            let expected: [u8; 32] = Sha256::digest(b"hello world").into();
            assert_eq!(sha256, expected);
            assert_eq!(size, 11);
        }
        other => panic!("{other:?}"),
    }
}

#[test]
fn an_empty_file_hashes_to_the_empty_digest() {
    match ContentHasher::new().finish() {
        ResolvedBase::LocalFile { sha256, size } => {
            let expected: [u8; 32] = Sha256::digest(b"").into();
            assert_eq!(sha256, expected);
            assert_eq!(size, 0);
        }
        other => panic!("{other:?}"),
    }
}

fn img(name: &str, profile: Option<&str>) -> (String, Option<String>) {
    (name.to_owned(), profile.map(str::to_owned))
}

#[test]
fn signing_requirements_group_images_by_profile() {
    let reqs = signing_requirements(&vec![img("a", Some("test-ca")), img("b", None), img("c", Some("byo")), img("d", Some("test-ca"))]);
    assert_eq!(reqs.len(), 2);
    assert_eq!(reqs[0].profile_id, "test-ca");
    assert_eq!(reqs[0].images, vec!["a".to_owned(), "d".to_owned()]);
    assert_eq!(reqs[1].profile_id, "byo");
    assert_eq!(reqs[1].images, vec!["c".to_owned()]);
}

#[test]
fn build_refuses_a_signed_image_until_execution_is_implemented() {
    let reqs = signing_requirements(&vec![img("ok-default", Some("test-ca")), img("ok-byo", Some("byo"))]);
    let err = signing_gate(&reqs, false).unwrap_err();
    assert!(err.contains("not yet implemented"));
    assert!(err.contains("Refusing to build a silently-unsigned image"));
    assert!(err.contains("profile(s): test-ca, byo"));
    assert!(signing_gate(&reqs, true).is_ok());
}

#[test]
fn an_unsigned_image_is_unaffected_by_signing() {
    let reqs = signing_requirements(&vec![img("plain", None)]);
    assert!(reqs.is_empty());
    assert!(signing_gate(&reqs, false).is_ok());
}

#[test]
fn add_axis_picks_the_named_or_only_image() {
    let one = vec!["gadget".to_owned()];
    let two = vec!["gadget".to_owned(), "exp".to_owned()];
    assert_eq!(pick_axis_target(None, &one, "variant"), Ok(0));
    assert_eq!(pick_axis_target(Some("exp"), &two, "variant"), Ok(1));
    assert_eq!(pick_axis_target(Some("nope"), &two, "variant"), Err("unknown image `nope`".to_owned()));
    assert_eq!(pick_axis_target(None, &Vec::new(), "variant"), Err("no image found here".to_owned()));
    assert_eq!(
        pick_axis_target(None, &two, "variant"),
        Err("workspace has multiple images (gadget, exp); name one: tailor add axis <image> variant".to_owned())
    );
}
