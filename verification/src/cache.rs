//! The local-base hash cache. Hashing a multi-gigabyte base image on every run is slow, so the hash
//! of a local base is remembered in a one-line entry keyed by the file's absolute path:
//! `1 | <size> | <mtime_ns> | <hex hash> | <absolute path>`. An entry is reused only while the
//! file's size, modification time and path are unchanged.
use vstd::prelude::*;
use vstd::utf8::*;
use crate::fingerprint::{le_bytes, push_le};
use crate::text::{chars_of, decimal, digit_char, push_char, push_str, string_of, sub_vec, u128_text, u64_text};
use crate::paths::same_chars;
use crate::arg_builder::{join_path, path_join};

verus! {

/// The version field of a cache entry.
pub const CACHE_VERSION: &'static str = "1";
/// The separator between the fields of a cache entry.
pub const CACHE_FIELD_SEPARATOR: &'static str = " | ";
/// The extension of a cache entry file.
pub const CACHE_ENTRY_EXTENSION: &'static str = "txt";

/// The lowercase hexadecimal digit for `d < 16`.
pub open spec fn hex_char(d: nat) -> char {
    if d == 0 { '0' } else if d == 1 { '1' } else if d == 2 { '2' } else if d == 3 { '3' }
    else if d == 4 { '4' } else if d == 5 { '5' } else if d == 6 { '6' } else if d == 7 { '7' }
    else if d == 8 { '8' } else if d == 9 { '9' } else if d == 10 { 'a' } else if d == 11 { 'b' }
    else if d == 12 { 'c' } else if d == 13 { 'd' } else if d == 14 { 'e' } else { 'f' }
}

/// Lowercase hexadecimal text of a byte string, two digits per byte, high nibble first.
pub open spec fn hex_text(bytes: Seq<u8>) -> Seq<char>
    decreases bytes.len(),
{
    if bytes.len() == 0 {
        Seq::empty()
    } else {
        hex_text(bytes.drop_last()) + seq![hex_char(bytes.last() as nat / 16), hex_char(bytes.last() as nat % 16)]
    }
}

/// The value of one hexadecimal digit byte (either case), if it is one.
pub open spec fn hex_value(b: u8) -> Option<nat> {
    if 48 <= b <= 57 {
        Some((b - 48) as nat)
    } else if 97 <= b <= 102 {
        Some((b - 87) as nat)
    } else if 65 <= b <= 70 {
        Some((b - 55) as nat)
    } else {
        None
    }
}

/// `bytes` is exactly `2 * n` hexadecimal digits.
pub open spec fn hex_digits(bytes: Seq<u8>, n: nat) -> bool {
    &&& bytes.len() == 2 * n
    &&& forall|i: int| 0 <= i < bytes.len() ==> (#[trigger] hex_value(bytes[i])) is Some
}

/// The bytes that hexadecimal digits spell, two digits per byte, high nibble first.
pub open spec fn hex_bytes(bytes: Seq<u8>) -> Seq<u8> {
    Seq::new(
        bytes.len() / 2,
        |i: int| (hex_value(bytes[2 * i])->0 * 16 + hex_value(bytes[2 * i + 1])->0) as u8,
    )
}

/// `hex::encode`: lowercase hexadecimal text of `bytes`.
#[verifier::external_body]
pub(crate) fn hex_encode(bytes: &[u8]) -> (out: String)
    ensures
        out@ == hex_text(bytes@),
{
    hex::encode(bytes)
}

/// `hex::decode_to_slice` into 32 bytes: succeeds exactly when the UTF-8 bytes of `text` are 64
/// hexadecimal digits (either case), and then holds the bytes they spell.
#[verifier::external_body]
fn hex_decode_32(text: &str) -> (out: Option<[u8; 32]>)
    ensures
        out is Some <==> hex_digits(encode_utf8(text@), 32),
        out matches Some(h) ==> h@ == hex_bytes(encode_utf8(text@)),
{
    let mut hash = [0u8; 32];
    match hex::decode_to_slice(text, &mut hash) {
        Ok(()) => Some(hash),
        Err(_) => None,
    }
}

/// What XXH3-128 gives for a byte string (`xxhash_rust::xxh3::xxh3_128`).
pub uninterp spec fn xxh3_128_of(bytes: Seq<u8>) -> u128;

/// `xxhash_rust::xxh3::xxh3_128` over the UTF-8 bytes of `text`. The contract names the hash: it
/// is a function of the bytes alone.
#[verifier::external_body]
fn xxh3_128_text(text: &str) -> (h: u128)
    ensures
        h == xxh3_128_of(encode_utf8(text@)),
{
    xxhash_rust::xxh3::xxh3_128(text.as_bytes())
}

/// The file name of the cache entry for an absolute path: the hexadecimal little-endian XXH3-128
/// of the path's UTF-8 bytes, then `.txt`.
pub open spec fn entry_name(abs_path: Seq<char>) -> Seq<char> {
    hex_text(le_bytes(xxh3_128_of(encode_utf8(abs_path)) as nat, 16)) + "."@ + CACHE_ENTRY_EXTENSION@
}

/// The file name of the cache entry for `abs_path`.
pub fn cache_entry_name(abs_path: &str) -> (name: String)
    ensures
        name@ == entry_name(abs_path@),
{
    let key = xxh3_128_text(abs_path);
    let mut le: Vec<u8> = Vec::new();
    push_le(&mut le, key, 16);
    assert(le@ =~= le_bytes(key as nat, 16));
    let mut name = hex_encode(le.as_slice());
    push_char(&mut name, '.');
    push_str(&mut name, CACHE_ENTRY_EXTENSION);
    proof {
        reveal_strlit(".");
    }
    assert(name@ =~= entry_name(abs_path@));
    name
}

/// The path of the cache entry for `abs_path` under `cache_dir`.
pub fn cache_entry_path(cache_dir: &str, abs_path: &str) -> (path: String)
    ensures
        path@ == path_join(cache_dir@, entry_name(abs_path@)),
{
    let name = cache_entry_name(abs_path);
    join_path(cache_dir, name.as_str())
}

/// A line break character.
pub open spec fn is_line_break(c: char) -> bool {
    c == '\n' || c == '\r'
}

/// `s` holds a line break.
pub open spec fn has_line_break(s: Seq<char>) -> bool {
    exists|i: int| 0 <= i < s.len() && is_line_break(#[trigger] s[i])
}

/// The text of a cache entry for the given size, modification time, hash and path.
pub open spec fn entry_line(size: u64, mtime_ns: u128, hash: Seq<u8>, abs_path: Seq<char>) -> Seq<char> {
    CACHE_VERSION@ + CACHE_FIELD_SEPARATOR@ + decimal(size as nat) + CACHE_FIELD_SEPARATOR@
        + decimal(mtime_ns as nat) + CACHE_FIELD_SEPARATOR@ + hex_text(hash) + CACHE_FIELD_SEPARATOR@
        + abs_path + seq!['\n']
}

/// The cache entry to write for a hashed file, or `None` when the path holds a line break (such
/// a path is never cached, since the entry is one line).
pub fn cache_entry_line(size: u64, mtime_ns: u128, content_hash: &[u8; 32], abs_path: &str) -> (line: Option<String>)
    ensures
        line is None <==> has_line_break(abs_path@),
        line matches Some(l) ==> l@ == entry_line(size, mtime_ns, content_hash@, abs_path@),
{
    let chars = chars_of(abs_path);
    let mut i: usize = 0;
    while i < chars.len()
        invariant
            chars@ == abs_path@,
            i <= chars@.len(),
            forall|j: int| 0 <= j < i ==> !is_line_break(#[trigger] chars@[j]),
        decreases chars@.len() - i,
    {
        if chars[i] == '\n' || chars[i] == '\r' {
            assert(is_line_break(abs_path@[i as int]));
            return None;
        }
        i = i + 1;
    }
    let mut line = CACHE_VERSION.to_owned();
    push_str(&mut line, CACHE_FIELD_SEPARATOR);
    let size_text = u64_text(size);
    push_str(&mut line, size_text.as_str());
    push_str(&mut line, CACHE_FIELD_SEPARATOR);
    let mtime_text = u128_text(mtime_ns);
    push_str(&mut line, mtime_text.as_str());
    push_str(&mut line, CACHE_FIELD_SEPARATOR);
    let hash_text = hex_encode(content_hash.as_slice());
    push_str(&mut line, hash_text.as_str());
    push_str(&mut line, CACHE_FIELD_SEPARATOR);
    push_str(&mut line, abs_path);
    push_char(&mut line, '\n');
    assert(line@ =~= entry_line(size, mtime_ns, content_hash@, abs_path@));
    Some(line)
}

/// `s` without its trailing line breaks (`trim_end_matches(['\n', '\r'])`).
pub open spec fn trim_line_end(s: Seq<char>) -> Seq<char>
    decreases s.len(),
{
    if s.len() > 0 && is_line_break(s.last()) {
        trim_line_end(s.drop_last())
    } else {
        s
    }
}

/// The first position at or after `i` where `sep` occurs in `s`.
pub open spec fn find_from(s: Seq<char>, sep: Seq<char>, i: nat) -> Option<nat>
    decreases s.len() + 1 - i,
{
    if i + sep.len() > s.len() {
        None
    } else if s.subrange(i as int, (i + sep.len()) as int) == sep {
        Some(i)
    } else {
        find_from(s, sep, i + 1)
    }
}

/// `s` split at the first `n - 1` occurrences of `sep`, left to right (`str::splitn`): at most
/// `n` pieces, the last holding the rest of `s`.
pub open spec fn split_n(s: Seq<char>, sep: Seq<char>, n: nat) -> Seq<Seq<char>>
    decreases n,
{
    if n <= 1 {
        seq![s]
    } else {
        match find_from(s, sep, 0) {
            None => seq![s],
            Some(i) => seq![s.subrange(0, i as int)] + split_n(s.subrange((i + sep.len()) as int, s.len() as int), sep, (n - 1) as nat),
        }
    }
}

/// A decimal digit.
pub open spec fn is_digit(c: char) -> bool {
    '0' <= c && c <= '9'
}

/// Every character of `s` is a decimal digit.
pub open spec fn all_digits(s: Seq<char>) -> bool {
    forall|i: int| 0 <= i < s.len() ==> is_digit(#[trigger] s[i])
}

/// The value of a run of decimal digits.
pub open spec fn digits_value(s: Seq<char>) -> nat
    decreases s.len(),
{
    if s.len() == 0 {
        0
    } else {
        digits_value(s.drop_last()) * 10 + (s.last() as nat - '0' as nat) as nat
    }
}

/// The digits of an unsigned number: a leading `+` is dropped.
pub open spec fn unsigned_digits(s: Seq<char>) -> Seq<char> {
    if s.len() > 0 && s[0] == '+' {
        s.drop_first()
    } else {
        s
    }
}

/// What parsing `s` as an unsigned integer no larger than `max` gives (`u64::from_str`,
/// `u128::from_str`): an optional `+`, then one or more decimal digits whose value fits.
pub open spec fn parsed_unsigned(s: Seq<char>, max: nat) -> Option<nat> {
    let d = unsigned_digits(s);
    if d.len() > 0 && all_digits(d) && digits_value(d) <= max {
        Some(digits_value(d))
    } else {
        None
    }
}

/// The hash a cache entry holds for a file of the given size, modification time and path: the
/// entry's fields must be the version, that size, that time, 64 hexadecimal digits and that path.
pub open spec fn entry_hash(text: Seq<char>, size: u64, mtime_ns: u128, abs_path: Seq<char>) -> Option<Seq<u8>> {
    let f = split_n(trim_line_end(text), CACHE_FIELD_SEPARATOR@, 5);
    if f.len() == 5 && f[0] == CACHE_VERSION@ && parsed_unsigned(f[1], u64::MAX as nat) == Some(size as nat)
        && parsed_unsigned(f[2], u128::MAX as nat) == Some(mtime_ns as nat) && f[4] == abs_path
        && hex_digits(encode_utf8(f[3]), 32) {
        Some(hex_bytes(encode_utf8(f[3])))
    } else {
        None
    }
}

/// The length of `v` without its trailing line breaks.
pub(crate) fn trimmed_len(v: &Vec<char>) -> (end: usize)
    ensures
        end <= v@.len(),
        v@.take(end as int) == trim_line_end(v@),
{
    let mut end = v.len();
    assert(v@.take(end as int) =~= v@);
    while end > 0 && (v[end - 1] == '\n' || v[end - 1] == '\r')
        invariant
            end <= v@.len(),
            trim_line_end(v@.take(end as int)) == trim_line_end(v@),
        decreases end,
    {
        assert(v@.take(end as int).drop_last() =~= v@.take(end - 1));
        end = end - 1;
    }
    end
}

/// Whether `sep` occurs in `s` at position `i`.
fn occurs_at(s: &Vec<char>, sep: &Vec<char>, i: usize) -> (r: bool)
    requires
        i + sep@.len() <= s@.len(),
    ensures
        r == (s@.subrange(i as int, i + sep@.len()) == sep@),
{
    let mut j: usize = 0;
    let slen = s.len();
    while j < sep.len()
        invariant
            slen == s@.len(),
            i + sep@.len() <= s@.len(),
            j <= sep@.len(),
            s@.subrange(i as int, i + j) == sep@.take(j as int),
        decreases sep@.len() - j,
    {
        assert(i + j < s@.len());
        if s[i + j] != sep[j] {
            assert(s@.subrange(i as int, i + sep@.len())[j as int] != sep@[j as int]);
            return false;
        }
        j = j + 1;
        assert(s@.subrange(i as int, i + j) =~= sep@.take(j as int));
    }
    assert(sep@.take(j as int) =~= sep@);
    true
}

/// The first occurrence of `sep` in `s` at or after `from`.
fn find_sep(s: &Vec<char>, sep: &Vec<char>, from: usize) -> (r: Option<usize>)
    requires
        from <= s@.len(),
    ensures
        match r {
            Some(i) => find_from(s@, sep@, from as nat) == Some(i as nat) && i + sep@.len() <= s@.len(),
            None => find_from(s@, sep@, from as nat) is None,
        },
{
    let mut i = from;
    while i <= s.len() && sep.len() <= s.len() - i
        invariant
            from <= i,
            find_from(s@, sep@, from as nat) == find_from(s@, sep@, i as nat),
        decreases s@.len() + 1 - i,
    {
        proof {
            if sep@.len() == 0 {
                assert(s@.subrange(i as int, i as int) =~= sep@);
            }
        }
        if occurs_at(s, sep, i) {
            return Some(i);
        }
        i = i + 1;
    }
    None
}

/// The character views of a list of character vectors.
pub open spec fn char_views(v: Seq<Vec<char>>) -> Seq<Seq<char>> {
    v.map_values(|x: Vec<char>| x@)
}

/// `s` split at the first `n - 1` occurrences of `sep`.
fn split_fields(s: &Vec<char>, sep: &Vec<char>, n: usize) -> (out: Vec<Vec<char>>)
    ensures
        char_views(out@) == split_n(s@, sep@, n as nat),
    decreases n,
{
    let whole = sub_vec(s, 0, s.len());
    assert(s@.subrange(0, s@.len() as int) =~= s@);
    if n <= 1 {
        let out = vec![whole];
        assert(char_views(out@) =~= seq![s@]);
        return out;
    }
    match find_sep(s, sep, 0) {
        None => {
            let out = vec![whole];
            assert(char_views(out@) =~= seq![s@]);
            out
        },
        Some(i) => {
            let head = sub_vec(s, 0, i);
            let rest = sub_vec(s, i + sep.len(), s.len());
            let mut out = split_fields(&rest, sep, n - 1);
            let ghost tail = out@;
            out.insert(0, head);
            assert(char_views(out@) =~= seq![s@.subrange(0, i as int)] + char_views(tail));
            out
        },
    }
}

proof fn lemma_digits_prefix(s: Seq<char>, k: int)
    requires
        0 <= k <= s.len(),
        all_digits(s),
    ensures
        digits_value(s.take(k)) <= digits_value(s),
    decreases s.len(),
{
    if k < s.len() {
        assert(all_digits(s.drop_last()));
        lemma_digits_prefix(s.drop_last(), k);
        assert(s.drop_last().take(k) =~= s.take(k));
    } else {
        assert(s.take(k) =~= s);
    }
}

/// Parses `s` as an unsigned integer no larger than `max`.
fn parse_unsigned(s: &Vec<char>, max: u128) -> (r: Option<u128>)
    ensures
        match r {
            Some(v) => parsed_unsigned(s@, max as nat) == Some(v as nat),
            None => parsed_unsigned(s@, max as nat) is None,
        },
{
    let start: usize = if s.len() > 0 && s[0] == '+' { 1 } else { 0 };
    let d = sub_vec(s, start, s.len());
    assert(d@ =~= unsigned_digits(s@));
    if d.len() == 0 {
        return None;
    }
    let mut acc: u128 = 0;
    let mut i: usize = 0;
    while i < d.len()
        invariant
            d@ == unsigned_digits(s@),
            i <= d@.len(),
            acc as nat == digits_value(d@.take(i as int)),
            acc <= max,
            all_digits(d@.take(i as int)),
        decreases d@.len() - i,
    {
        let c = d[i];
        if c < '0' || c > '9' {
            assert(!is_digit(d@[i as int]));
            return None;
        }
        let dv = (c as u32 - '0' as u32) as u128;
        let ghost next = d@.take(i + 1);
        assert(next.drop_last() =~= d@.take(i as int));
        assert(digits_value(next) == acc * 10 + dv);
        assert(all_digits(next));
        let next_value = match acc.checked_mul(10) {
            Some(m) => m.checked_add(dv),
            None => None,
        };
        match next_value {
            Some(v) if v <= max => {
                acc = v;
            },
            _ => {
                proof {
                    if all_digits(d@) {
                        lemma_digits_prefix(d@, i + 1);
                    }
                }
                return None;
            },
        }
        i = i + 1;
    }
    assert(d@.take(i as int) =~= d@);
    Some(acc)
}

/// The content hash a cache entry records for a file of the given size, modification time and
/// absolute path, or `None` when the entry is malformed or describes another state of the file.
pub fn cache_entry_hash(text: &str, size: u64, mtime_ns: u128, abs_path: &str) -> (r: Option<[u8; 32]>)
    ensures
        match r {
            Some(h) => entry_hash(text@, size, mtime_ns, abs_path@) == Some(h@),
            None => entry_hash(text@, size, mtime_ns, abs_path@) is None,
        },
{
    let chars = chars_of(text);
    let end = trimmed_len(&chars);
    let line = sub_vec(&chars, 0, end);
    let sep = chars_of(CACHE_FIELD_SEPARATOR);
    let fields = split_fields(&line, &sep, 5);
    let ghost f = split_n(trim_line_end(text@), CACHE_FIELD_SEPARATOR@, 5);
    assert(char_views(fields@) == f);
    if fields.len() != 5 {
        return None;
    }
    assert(fields@[0]@ == f[0] && fields@[1]@ == f[1] && fields@[2]@ == f[2] && fields@[3]@ == f[3] && fields@[4]@ == f[4]);
    let version = chars_of(CACHE_VERSION);
    let stored_size = parse_unsigned(&fields[1], 18446744073709551615u128);
    let stored_mtime = parse_unsigned(&fields[2], 340282366920938463463374607431768211455u128);
    let path = chars_of(abs_path);
    let (stored_size, stored_mtime) = match (stored_size, stored_mtime) {
        (Some(a), Some(b)) => (a, b),
        _ => {
            return None;
        },
    };
    if !same_chars(&fields[0], &version) || stored_size != size as u128 || stored_mtime != mtime_ns
        || !same_chars(&fields[4], &path) {
        return None;
    }
    let hash_text = string_of(&fields[3]);
    hex_decode_32(hash_text.as_str())
}

/// No character of `s` is a space.
pub open spec fn spaceless(s: Seq<char>) -> bool {
    forall|i: int| 0 <= i < s.len() ==> #[trigger] s[i] != ' '
}

proof fn lemma_find_after(a: Seq<char>, sep: Seq<char>, rest: Seq<char>, k: nat)
    requires
        sep.len() > 0,
        sep[0] == ' ',
        spaceless(a),
        k <= a.len(),
    ensures
        find_from(a + sep + rest, sep, k) == Some(a.len()),
    decreases a.len() - k,
{
    let s = a + sep + rest;
    if k < a.len() {
        assert(s.subrange(k as int, (k + sep.len()) as int)[0] != sep[0]);
        lemma_find_after(a, sep, rest, k + 1);
    } else {
        assert(s.subrange(k as int, (k + sep.len()) as int) =~= sep);
    }
}

proof fn lemma_split_first(a: Seq<char>, sep: Seq<char>, rest: Seq<char>, n: nat)
    requires
        sep.len() > 0,
        sep[0] == ' ',
        spaceless(a),
        n > 1,
    ensures
        split_n(a + sep + rest, sep, n) == seq![a] + split_n(rest, sep, (n - 1) as nat),
{
    lemma_find_after(a, sep, rest, 0);
    let s = a + sep + rest;
    assert(s.subrange(0, a.len() as int) =~= a);
    assert(s.subrange((a.len() + sep.len()) as int, s.len() as int) =~= rest);
}

proof fn lemma_digit_char(d: nat)
    requires
        d < 10,
    ensures
        is_digit(digit_char(d)),
        digit_char(d) as nat - '0' as nat == d,
{
}

proof fn lemma_hex_char(d: nat)
    requires
        d < 16,
    ensures
        hex_char(d) != ' ',
        '\0' <= hex_char(d) <= '\u{7f}',
        hex_value(hex_char(d) as u8) == Some(d),
{
}

pub(crate) proof fn lemma_decimal_digits(n: nat)
    ensures
        all_digits(decimal(n)),
        decimal(n).len() > 0,
        decimal(n)[0] != '+',
        digits_value(decimal(n)) == n,
    decreases n,
{
    if n < 10 {
        lemma_digit_char(n);
        let d = decimal(n);
        assert(d.drop_last() =~= Seq::<char>::empty());
        assert(digits_value(d.drop_last()) == 0);
    } else {
        lemma_decimal_digits(n / 10);
        lemma_digit_char(n % 10);
        let d = decimal(n);
        assert(d.drop_last() =~= decimal(n / 10));
        assert forall|i: int| 0 <= i < d.len() implies is_digit(#[trigger] d[i]) by {
            if i < d.len() - 1 {
                assert(d[i] == decimal(n / 10)[i]);
            }
        }
    }
}

proof fn lemma_decimal_spaceless(n: nat)
    ensures
        spaceless(decimal(n)),
{
    lemma_decimal_digits(n);
    assert forall|i: int| 0 <= i < decimal(n).len() implies #[trigger] decimal(n)[i] != ' ' by {
        assert(is_digit(decimal(n)[i]));
    }
}

proof fn lemma_parse_decimal(n: nat, max: nat)
    requires
        n <= max,
    ensures
        parsed_unsigned(decimal(n), max) == Some(n),
{
    lemma_decimal_digits(n);
}

proof fn lemma_hex_text(b: Seq<u8>)
    ensures
        hex_text(b).len() == 2 * b.len(),
        forall|i: int| 0 <= i < b.len() ==> #[trigger] hex_text(b)[2 * i] == hex_char(b[i] as nat / 16)
            && hex_text(b)[2 * i + 1] == hex_char(b[i] as nat % 16),
    decreases b.len(),
{
    if b.len() > 0 {
        lemma_hex_text(b.drop_last());
        assert forall|i: int| 0 <= i < b.len() implies #[trigger] hex_text(b)[2 * i] == hex_char(b[i] as nat / 16)
            && hex_text(b)[2 * i + 1] == hex_char(b[i] as nat % 16) by {
            if i < b.len() - 1 {
                assert(hex_text(b.drop_last())[2 * i] == hex_char(b.drop_last()[i] as nat / 16));
            }
        }
    }
}

proof fn lemma_hex_chars(t: Seq<char>, b: Seq<u8>)
    requires
        t == hex_text(b),
    ensures
        spaceless(t),
        is_ascii_chars(t),
        forall|j: int| 0 <= j < t.len() ==> (#[trigger] hex_value(t[j] as u8)) is Some,
{
    lemma_hex_text(b);
    assert forall|j: int| 0 <= j < t.len() implies #[trigger] t[j] != ' ' && '\0' <= t[j] <= '\u{7f}'
        && hex_value(t[j] as u8) is Some by {
        let i = j / 2;
        assert(j == 2 * i || j == 2 * i + 1);
        assert(0 <= i < b.len());
        let hi = b[i] as nat / 16;
        let lo = b[i] as nat % 16;
        assert(hex_text(b)[2 * i] == hex_char(hi));
        lemma_hex_char(hi);
        lemma_hex_char(lo);
        if j == 2 * i {
            assert(t[j] == hex_char(hi));
        } else {
            assert(t[j] == hex_char(lo));
        }
    }
}

proof fn lemma_hex_round_trip(h: Seq<u8>)
    requires
        h.len() == 32,
    ensures
        hex_digits(encode_utf8(hex_text(h)), 32),
        hex_bytes(encode_utf8(hex_text(h))) == h,
{
    let t = hex_text(h);
    lemma_hex_text(h);
    lemma_hex_chars(t, h);
    is_ascii_chars_encode_utf8(t);
    let e = encode_utf8(t);
    assert forall|j: int| 0 <= j < e.len() implies (#[trigger] hex_value(e[j])) is Some by {
        assert(e[j] == t[j] as u8);
        assert(hex_value(t[j] as u8) is Some);
    }
    assert forall|i: int| 0 <= i < 32 implies #[trigger] hex_bytes(e)[i] == h[i] by {
        assert(e[2 * i] == t[2 * i] as u8);
        assert(e[2 * i + 1] == t[2 * i + 1] as u8);
        let hi = h[i] as nat / 16;
        let lo = h[i] as nat % 16;
        assert(t[2 * i] == hex_char(hi));
        lemma_hex_char(hi);
        lemma_hex_char(lo);
    }
    assert(hex_bytes(e) =~= h);
}

/// The fields of a written cache entry.
proof fn lemma_entry_fields(size: u64, mtime_ns: u128, hash: Seq<u8>, abs_path: Seq<char>)
    requires
        !has_line_break(abs_path),
    ensures
        split_n(trim_line_end(entry_line(size, mtime_ns, hash, abs_path)), CACHE_FIELD_SEPARATOR@, 5)
            == seq![CACHE_VERSION@, decimal(size as nat), decimal(mtime_ns as nat), hex_text(hash), abs_path],
{
    reveal_strlit("1");
    reveal_strlit(" | ");
    let sep = CACHE_FIELD_SEPARATOR@;
    let v = CACHE_VERSION@;
    let a = decimal(size as nat);
    let b = decimal(mtime_ns as nat);
    let c = hex_text(hash);
    let body = v + sep + a + sep + b + sep + c + sep + abs_path;
    let line = entry_line(size, mtime_ns, hash, abs_path);
    assert(line =~= body.push('\n'));
    assert(body.len() > 0);
    assert(!is_line_break(body.last())) by {
        if abs_path.len() > 0 {
            assert(body.last() == abs_path[abs_path.len() - 1]);
        } else {
            assert(body.last() == ' ');
        }
    }
    assert(line.drop_last() =~= body);
    assert(trim_line_end(body) == body);
    assert(trim_line_end(line) == body);
    lemma_decimal_spaceless(size as nat);
    lemma_decimal_spaceless(mtime_ns as nat);
    lemma_hex_chars(c, hash);
    assert(spaceless(v));
    let r3 = c + sep + abs_path;
    let r2 = b + sep + r3;
    let r1 = a + sep + r2;
    assert(body =~= v + sep + r1);
    assert(r1 =~= a + sep + r2);
    assert(r2 =~= b + sep + r3);
    lemma_split_first(v, sep, r1, 5);
    lemma_split_first(a, sep, r2, 4);
    lemma_split_first(b, sep, r3, 3);
    lemma_split_first(c, sep, abs_path, 2);
    assert(split_n(abs_path, sep, 1) == seq![abs_path]);
    assert(split_n(body, sep, 5) =~= seq![v, a, b, c, abs_path]);
}

/// Reading a cache entry gives back what writing it recorded: for an unchanged file (the same size,
/// modification time and path), the entry written for a hash yields that hash.
pub proof fn law_entry_round_trip(size: u64, mtime_ns: u128, hash: [u8; 32], abs_path: Seq<char>)
    requires
        !has_line_break(abs_path),
    ensures
        entry_hash(entry_line(size, mtime_ns, hash@, abs_path), size, mtime_ns, abs_path) == Some(hash@),
{
    lemma_entry_fields(size, mtime_ns, hash@, abs_path);
    lemma_parse_decimal(size as nat, u64::MAX as nat);
    lemma_parse_decimal(mtime_ns as nat, u128::MAX as nat);
    lemma_hex_round_trip(hash@);
}

/// An entry describes one state of one file: read for another size, modification time or path,
/// the entry written for a hash yields nothing, so the file is hashed again.
pub proof fn law_changed_file_misses(
    size: u64, mtime_ns: u128, hash: [u8; 32], abs_path: Seq<char>,
    now_size: u64, now_mtime_ns: u128, now_path: Seq<char>,
)
    requires
        !has_line_break(abs_path),
        now_size != size || now_mtime_ns != mtime_ns || now_path != abs_path,
    ensures
        entry_hash(entry_line(size, mtime_ns, hash@, abs_path), now_size, now_mtime_ns, now_path) is None,
{
    lemma_entry_fields(size, mtime_ns, hash@, abs_path);
    lemma_parse_decimal(size as nat, u64::MAX as nat);
    lemma_parse_decimal(mtime_ns as nat, u128::MAX as nat);
}

} // verus!
