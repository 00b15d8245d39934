use tailor::paths::{absolutize, to_container_path};

#[test]
fn translates_absolute_path_under_host_root() {
    assert_eq!(
        to_container_path("/home/me/image.vhdx", "/host"),
        "/host/home/me/image.vhdx"
    );
}

#[test]
fn empty_host_root_uses_default() {
    assert_eq!(to_container_path("/var/lib/x", ""), "/host/var/lib/x");
}

#[test]
fn custom_host_root_is_respected() {
    assert_eq!(
        to_container_path("/work/out.raw", "/mnt/host"),
        "/mnt/host/work/out.raw"
    );
}

#[test]
fn absolutize_resolves_relative_base_against_the_image_dir() {
    // Two levels up from `/repo/docs/img` lands in `/repo`, collapsing cleanly.
    let resolved = absolutize("../../artifacts/core.vhdx", "/repo/docs/img");
    assert_eq!(resolved, "/repo/artifacts/core.vhdx");
    assert_eq!(
        to_container_path(&resolved, "/host"),
        "/host/repo/artifacts/core.vhdx"
    );
}

#[test]
fn absolutize_leaves_absolute_paths_normalized() {
    assert_eq!(absolutize("/abs/base.vhdx", "/images"), "/abs/base.vhdx");
}

#[test]
fn relative_path_climbing_above_the_root_stops_at_the_root() {
    assert_eq!(absolutize("../../../x", "/a"), "/x");
}

#[test]
fn normalize_drops_dot_segments_and_repeated_separators() {
    assert_eq!(tailor::paths::normalize("/a/./b//c/"), "/a/b/c");
    assert_eq!(tailor::paths::normalize("a/../b"), "b");
}
