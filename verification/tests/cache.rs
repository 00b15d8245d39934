use tailor::cache::{cache_entry_hash, cache_entry_line, cache_entry_name, cache_entry_path};

const PATH: &str = "/images/base.raw";

fn hash() -> [u8; 32] {
    let mut h = [0u8; 32];
    for (i, b) in h.iter_mut().enumerate() {
        *b = (i as u8) * 7 + 1;
    }
    h
}

#[test]
fn entry_line_has_the_documented_format() {
    let line = cache_entry_line(18, 1_700_000_000_123_456_789, &[0xab; 32], PATH).unwrap();
    assert_eq!(line, format!("1 | 18 | 1700000000123456789 | {} | /images/base.raw\n", "ab".repeat(32)));
}

#[test]
fn paths_with_line_breaks_are_never_cached() {
    assert_eq!(cache_entry_line(1, 2, &hash(), "/a\nb"), None);
    assert_eq!(cache_entry_line(1, 2, &hash(), "/a\rb"), None);
}

#[test]
fn written_entry_reads_back_for_the_same_file() {
    let line = cache_entry_line(12, 99, &hash(), PATH).unwrap();
    assert_eq!(cache_entry_hash(&line, 12, 99, PATH), Some(hash()));
}

#[test]
fn size_change_misses_the_cache() {
    let line = cache_entry_line(12, 99, &hash(), PATH).unwrap();
    assert_eq!(cache_entry_hash(&line, u64::MAX, 99, PATH), None);
}

#[test]
fn mtime_change_misses_the_cache() {
    let line = cache_entry_line(12, 99, &hash(), PATH).unwrap();
    assert_eq!(cache_entry_hash(&line, 12, 0, PATH), None);
}

#[test]
fn path_change_misses_the_cache() {
    let line = cache_entry_line(12, 99, &hash(), PATH).unwrap();
    assert_eq!(cache_entry_hash(&line, 12, 99, "/images/other.raw"), None);
}

#[test]
fn reader_accepts_crlf_plus_signs_and_uppercase_hex() {
    let text = format!("1 | +12 | 0099 | {} | {PATH}\r\n\r\n", "AB".repeat(32));
    assert_eq!(cache_entry_hash(&text, 12, 99, PATH), Some([0xab; 32]));
}

#[test]
fn reader_rejects_malformed_entries() {
    let good_hex = "00".repeat(32);
    for text in [
        String::new(),
        format!("2 | 12 | 99 | {good_hex} | {PATH}"),
        format!("1 | 12 | 99 | {good_hex}"),
        format!("1 | -12 | 99 | {good_hex} | {PATH}"),
        format!("1 | + | 99 | {good_hex} | {PATH}"),
        format!("1 | 18446744073709551616 | 99 | {good_hex} | {PATH}"),
        format!("1 | 12 | 99 | {} | {PATH}", "0".repeat(63)),
        format!("1 | 12 | 99 | {}zz | {PATH}", "00".repeat(31)),
    ] {
        assert_eq!(cache_entry_hash(&text, 12, 99, PATH), None, "accepted {text:?}");
    }
}

#[test]
fn path_may_itself_contain_the_separator() {
    let path = "/odd | dir/base.raw";
    let line = cache_entry_line(5, 6, &hash(), path).unwrap();
    assert_eq!(cache_entry_hash(&line, 5, 6, path), Some(hash()));
}

#[test]
fn entry_name_is_the_hex_xxh3_of_the_path() {
    let key = xxhash_rust::xxh3::xxh3_128(PATH.as_bytes()).to_le_bytes();
    let expected = format!("{}.txt", hex::encode(key));
    assert_eq!(cache_entry_name(PATH), expected);
    assert_ne!(cache_entry_name(PATH), cache_entry_name("/images/other.raw"));
    assert_eq!(cache_entry_path("/cache", PATH), format!("/cache/{expected}"));
}
