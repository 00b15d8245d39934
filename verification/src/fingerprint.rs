//! The canonical per-cell fingerprint: a SHA-256 over every build-affecting input. Each input is
//! framed as a labelled, length-prefixed field, so distinct inputs never meet by concatenation, and
//! the hash of the framed message is deterministic given a deterministic render.
use vstd::prelude::*;
use vstd::utf8::*;
use vstd::seq_lib::lemma_concat_associative;
use sha2::{Digest, Sha256};
use crate::ports::ResolvedBase;
use crate::types::Operation;

verus! {

/// A cell fingerprint: the SHA-256 of its framed inputs.
#[derive(Debug, Clone, Copy, PartialEq, Eq, Hash)]
pub struct Fingerprint(pub [u8; 32]);

/// What SHA-256 gives for a byte string (`sha2::Sha256::digest`).
pub uninterp spec fn sha256_of(bytes: Seq<u8>) -> Seq<u8>;

/// `sha2::Sha256::digest` over `bytes`. The contract names the digest: it is a function of the
/// bytes alone.
#[verifier::external_body]
fn sha256_digest(bytes: &[u8]) -> (out: [u8; 32])
    ensures
        out@ == sha256_of(bytes@),
{
    Sha256::digest(bytes).into()
}

/// All inputs that determine a cell's output. `config` is the canonical byte form of the merged
/// Image Customizer config; dependency and RPM-source hashes come sorted.
pub struct FingerprintInputs<'a> {
    pub slug: &'a str,
    pub toolchain_digest: &'a str,
    pub base: &'a ResolvedBase,
    pub config: &'a [u8],
    pub operation: Operation,
    pub inject_files: bool,
    /// Sorted SHA-256 hashes of `extraDependencies` files.
    pub extra_dependency_hashes: &'a [[u8; 32]],
    /// Sorted SHA-256 hashes of `rpmSources` contents (excluding `repodata/`).
    pub rpm_source_hashes: &'a [[u8; 32]],
}

/// The `k` low-order bytes of `n`, least significant first.
pub open spec fn le_bytes(n: nat, k: nat) -> Seq<u8>
    decreases k,
{
    if k == 0 {
        Seq::empty()
    } else {
        seq![(n % 256) as u8] + le_bytes(n / 256, (k - 1) as nat)
    }
}

/// A length prefix: the eight little-endian bytes of `n` (`u64::to_le_bytes`).
pub open spec fn le64(n: nat) -> Seq<u8> {
    le_bytes(n, 8)
}

/// One framed field: the label's length, the label, the value's length, the value.
pub open spec fn framed(label: Seq<u8>, bytes: Seq<u8>) -> Seq<u8> {
    le64(label.len()) + label + le64(bytes.len()) + bytes
}

/// A field whose label is the UTF-8 text `label`.
pub open spec fn field(label: Seq<char>, bytes: Seq<u8>) -> Seq<u8> {
    framed(encode_utf8(label), bytes)
}

/// The tag an operation contributes.
pub open spec fn operation_text(op: Operation) -> Seq<char> {
    match op {
        Operation::Customize => "customize"@,
        Operation::Convert => "convert"@,
    }
}

/// The fields a resolved base contributes.
pub open spec fn base_fields(base: ResolvedBase) -> Seq<u8> {
    match base {
        ResolvedBase::LocalFile { sha256, size } =>
            field("base.local"@, sha256@) + field("base.size"@, le64(size as nat)),
        ResolvedBase::Oci { reference, platform, digest } =>
            field("base.oci.ref"@, encode_utf8(reference@)) + field("base.oci.platform"@, encode_utf8(platform@))
                + field("base.oci.digest"@, encode_utf8(digest@)),
    }
}

/// The byte views of a list of hashes.
pub open spec fn hash_views(hashes: Seq<[u8; 32]>) -> Seq<Seq<u8>> {
    hashes.map_values(|h: [u8; 32]| h@)
}

/// One field per hash, in order, each under `label`.
pub open spec fn hash_fields(label: Seq<char>, hashes: Seq<Seq<u8>>) -> Seq<u8>
    decreases hashes.len(),
{
    if hashes.len() == 0 {
        Seq::empty()
    } else {
        field(label, hashes[0]) + hash_fields(label, hashes.drop_first())
    }
}

proof fn lemma_hash_fields_push(label: Seq<char>, hashes: Seq<Seq<u8>>, h: Seq<u8>)
    ensures
        hash_fields(label, hashes.push(h)) == hash_fields(label, hashes) + field(label, h),
    decreases hashes.len(),
{
    if hashes.len() == 0 {
        assert(hashes.push(h).drop_first() =~= Seq::<Seq<u8>>::empty());
        assert(hash_fields(label, hashes.push(h).drop_first()) == Seq::<u8>::empty());
        assert(hash_fields(label, hashes.push(h)) =~= field(label, h));
    } else {
        lemma_hash_fields_push(label, hashes.drop_first(), h);
        assert(hashes.push(h).drop_first() =~= hashes.drop_first().push(h));
        assert(hash_fields(label, hashes.push(h)) =~= hash_fields(label, hashes) + field(label, h));
    }
}

/// The framed message a fingerprint hashes.
pub open spec fn fingerprint_message(
    slug: Seq<char>,
    toolchain: Seq<char>,
    base: ResolvedBase,
    config: Seq<u8>,
    op: Operation,
    inject: bool,
    deps: Seq<[u8; 32]>,
    rpms: Seq<[u8; 32]>,
) -> Seq<u8> {
    field("slug"@, encode_utf8(slug)) + field("toolchain"@, encode_utf8(toolchain)) + base_fields(base)
        + field("config"@, config) + field("operation"@, encode_utf8(operation_text(op)))
        + field("inject"@, seq![if inject { 1u8 } else { 0u8 }]) + hash_fields("dep"@, hash_views(deps))
        + hash_fields("rpm"@, hash_views(rpms))
}

impl<'a> FingerprintInputs<'a> {
    /// The framed message of these inputs.
    pub open spec fn message(&self) -> Seq<u8> {
        fingerprint_message(
            self.slug@,
            self.toolchain_digest@,
            *self.base,
            self.config@,
            self.operation,
            self.inject_files,
            self.extra_dependency_hashes@,
            self.rpm_source_hashes@,
        )
    }
}

/// `256^k`.
pub open spec fn pow256(k: nat) -> nat
    decreases k,
{
    if k == 0 {
        1
    } else {
        256 * pow256((k - 1) as nat)
    }
}

/// A length fits a length prefix.
pub open spec fn fits64(n: nat) -> bool {
    n < 0x1_0000_0000_0000_0000
}

proof fn lemma_pow256_8()
    ensures
        pow256(8) == 0x1_0000_0000_0000_0000,
{
    reveal_with_fuel(pow256, 9);
}

proof fn lemma_le_bytes_len(n: nat, k: nat)
    ensures
        le_bytes(n, k).len() == k,
    decreases k,
{
    if k > 0 {
        lemma_le_bytes_len(n / 256, (k - 1) as nat);
    }
}

proof fn lemma_le_bytes_injective(n: nat, m: nat, k: nat)
    requires
        n < pow256(k),
        m < pow256(k),
        le_bytes(n, k) == le_bytes(m, k),
    ensures
        n == m,
    decreases k,
{
    if k > 0 {
        let p = pow256((k - 1) as nat);
        let a = le_bytes(n, k);
        let b = le_bytes(m, k);
        assert(a[0] == b[0]);
        assert(a.drop_first() =~= le_bytes(n / 256, (k - 1) as nat));
        assert(b.drop_first() =~= le_bytes(m / 256, (k - 1) as nat));
        assert(n / 256 < p) by (nonlinear_arith)
            requires
                n < 256 * p,
        ;
        assert(m / 256 < p) by (nonlinear_arith)
            requires
                m < 256 * p,
        ;
        lemma_le_bytes_injective(n / 256, m / 256, (k - 1) as nat);
    }
}

proof fn lemma_le64_injective(n: nat, m: nat)
    requires
        fits64(n),
        fits64(m),
        le64(n) == le64(m),
    ensures
        n == m,
{
    lemma_pow256_8();
    lemma_le_bytes_injective(n, m, 8);
}

/// Two framed fields that begin equal byte strings are the same field, followed by the same rest.
proof fn lemma_framed_split(l1: Seq<u8>, b1: Seq<u8>, r1: Seq<u8>, l2: Seq<u8>, b2: Seq<u8>, r2: Seq<u8>)
    requires
        fits64(l1.len()),
        fits64(b1.len()),
        fits64(l2.len()),
        fits64(b2.len()),
        framed(l1, b1) + r1 == framed(l2, b2) + r2,
    ensures
        l1 == l2,
        b1 == b2,
        r1 == r2,
{
    let s = framed(l1, b1) + r1;
    lemma_le_bytes_len(l1.len(), 8);
    lemma_le_bytes_len(l2.len(), 8);
    lemma_le_bytes_len(b1.len(), 8);
    lemma_le_bytes_len(b2.len(), 8);
    assert(s.subrange(0, 8) =~= le64(l1.len()));
    assert((framed(l2, b2) + r2).subrange(0, 8) =~= le64(l2.len()));
    lemma_le64_injective(l1.len(), l2.len());
    let n = l1.len() as int;
    assert(s.subrange(8, 8 + n) =~= l1);
    assert((framed(l2, b2) + r2).subrange(8, 8 + n) =~= l2);
    assert(s.subrange(8 + n, 16 + n) =~= le64(b1.len()));
    assert((framed(l2, b2) + r2).subrange(8 + n, 16 + n) =~= le64(b2.len()));
    lemma_le64_injective(b1.len(), b2.len());
    let m = b1.len() as int;
    assert(s.subrange(16 + n, 16 + n + m) =~= b1);
    assert((framed(l2, b2) + r2).subrange(16 + n, 16 + n + m) =~= b2);
    assert(s.subrange(16 + n + m, s.len() as int) =~= r1);
    assert((framed(l2, b2) + r2).subrange(16 + n + m, s.len() as int) =~= r2);
}

proof fn lemma_encode_len(s: Seq<char>)
    ensures
        encode_utf8(s).len() <= 4 * s.len(),
    decreases s.len(),
{
    if s.len() > 0 {
        lemma_encode_len(s.drop_first());
    }
}

/// Two fields that begin equal byte strings have the same label text, the same value and the
/// same rest.
proof fn lemma_field_split(a: Seq<char>, x: Seq<u8>, r1: Seq<u8>, b: Seq<char>, y: Seq<u8>, r2: Seq<u8>)
    requires
        a.len() < 64,
        b.len() < 64,
        fits64(x.len()),
        fits64(y.len()),
        field(a, x) + r1 == field(b, y) + r2,
    ensures
        a == b,
        x == y,
        r1 == r2,
{
    lemma_encode_len(a);
    lemma_encode_len(b);
    lemma_framed_split(encode_utf8(a), x, r1, encode_utf8(b), y, r2);
    encode_utf8_decode_utf8(a);
    encode_utf8_decode_utf8(b);
}

proof fn lemma_field_nonempty(a: Seq<char>, x: Seq<u8>)
    ensures
        field(a, x).len() >= 16,
{
    lemma_le_bytes_len(encode_utf8(a).len(), 8);
    lemma_le_bytes_len(x.len(), 8);
}

/// Every hash fits a length prefix.
pub open spec fn hashes_fit(hs: Seq<Seq<u8>>) -> bool {
    forall|i: int| 0 <= i < hs.len() ==> fits64(#[trigger] hs[i].len())
}

proof fn lemma_hash_tails(d1: Seq<Seq<u8>>, p1: Seq<Seq<u8>>, d2: Seq<Seq<u8>>, p2: Seq<Seq<u8>>)
    requires
        hashes_fit(d1),
        hashes_fit(p1),
        hashes_fit(d2),
        hashes_fit(p2),
        hash_fields("dep"@, d1) + hash_fields("rpm"@, p1) == hash_fields("dep"@, d2) + hash_fields("rpm"@, p2),
    ensures
        d1 == d2,
        p1 == p2,
    decreases d1.len() + p1.len() + d2.len() + p2.len(),
{
    reveal_strlit("dep");
    reveal_strlit("rpm");
    let dep = "dep"@;
    let rpm = "rpm"@;
    assert(dep != rpm) by {
        assert(dep[0] != rpm[0]);
    }
    if d1.len() > 0 && d2.len() > 0 {
        let t1 = hash_fields(dep, d1.drop_first()) + hash_fields(rpm, p1);
        let t2 = hash_fields(dep, d2.drop_first()) + hash_fields(rpm, p2);
        assert(hash_fields(dep, d1) + hash_fields(rpm, p1) =~= field(dep, d1[0]) + t1);
        assert(hash_fields(dep, d2) + hash_fields(rpm, p2) =~= field(dep, d2[0]) + t2);
        assert(fits64(d1[0].len()));
        assert(fits64(d2[0].len()));
        lemma_field_split(dep, d1[0], t1, dep, d2[0], t2);
        lemma_hash_tails(d1.drop_first(), p1, d2.drop_first(), p2);
        assert(d1 =~= seq![d1[0]] + d1.drop_first());
        assert(d2 =~= seq![d2[0]] + d2.drop_first());
    } else if d1.len() > 0 || d2.len() > 0 {
        // One side starts with a `dep` field, the other with an `rpm` field or nothing.
        let (d, p, e, q) = if d1.len() > 0 { (d1, p1, d2, p2) } else { (d2, p2, d1, p1) };
        assert(e.len() == 0);
        assert(hash_fields(dep, e) == Seq::<u8>::empty());
        let t = hash_fields(dep, d.drop_first()) + hash_fields(rpm, p);
        assert(hash_fields(dep, d) + hash_fields(rpm, p) =~= field(dep, d[0]) + t);
        assert(hash_fields(dep, e) + hash_fields(rpm, q) =~= hash_fields(rpm, q));
        lemma_field_nonempty(dep, d[0]);
        if q.len() == 0 {
            assert(hash_fields(rpm, q) == Seq::<u8>::empty());
            assert(false);
        } else {
            let u = hash_fields(rpm, q.drop_first());
            assert(hash_fields(rpm, q) == field(rpm, q[0]) + u);
            assert(fits64(d[0].len()));
            assert(fits64(q[0].len()));
            lemma_field_split(dep, d[0], t, rpm, q[0], u);
            assert(false);
        }
    } else {
        assert(hash_fields(dep, d1) == Seq::<u8>::empty());
        assert(hash_fields(dep, d2) == Seq::<u8>::empty());
        assert(hash_fields(dep, d1) + hash_fields(rpm, p1) =~= hash_fields(rpm, p1));
        assert(hash_fields(dep, d2) + hash_fields(rpm, p2) =~= hash_fields(rpm, p2));
        if p1.len() > 0 && p2.len() > 0 {
            let t1 = hash_fields(rpm, p1.drop_first());
            let t2 = hash_fields(rpm, p2.drop_first());
            assert(hash_fields(rpm, p1) == field(rpm, p1[0]) + t1);
            assert(hash_fields(rpm, p2) == field(rpm, p2[0]) + t2);
            assert(fits64(p1[0].len()));
            assert(fits64(p2[0].len()));
            lemma_field_split(rpm, p1[0], t1, rpm, p2[0], t2);
            assert(hash_fields(dep, d1) + hash_fields(rpm, p1.drop_first()) =~= t1);
            assert(hash_fields(dep, d2) + hash_fields(rpm, p2.drop_first()) =~= t2);
            lemma_hash_tails(d1, p1.drop_first(), d2, p2.drop_first());
            assert(p1 =~= seq![p1[0]] + p1.drop_first());
            assert(p2 =~= seq![p2[0]] + p2.drop_first());
        } else if p1.len() > 0 || p2.len() > 0 {
            let p = if p1.len() > 0 { p1 } else { p2 };
            lemma_field_nonempty(rpm, p[0]);
            assert(hash_fields(rpm, p) == field(rpm, p[0]) + hash_fields(rpm, p.drop_first()));
            let q = if p1.len() > 0 { p2 } else { p1 };
            assert(hash_fields(rpm, q) == Seq::<u8>::empty());
            assert(false);
        }
    }
}

/// Two resolved bases pin the same image: the same local content hash and size, or the same
/// registry reference, platform and digest.
pub open spec fn same_base(a: ResolvedBase, b: ResolvedBase) -> bool {
    match (a, b) {
        (
            ResolvedBase::LocalFile { sha256: s1, size: z1 },
            ResolvedBase::LocalFile { sha256: s2, size: z2 },
        ) => s1@ == s2@ && z1 == z2,
        (
            ResolvedBase::Oci { reference: r1, platform: p1, digest: d1 },
            ResolvedBase::Oci { reference: r2, platform: p2, digest: d2 },
        ) => r1@ == r2@ && p1@ == p2@ && d1@ == d2@,
        _ => false,
    }
}

/// Every variable-length input is shorter than 2^64 bytes, as any value in memory is.
pub open spec fn message_fits(slug: Seq<char>, toolchain: Seq<char>, base: ResolvedBase, config: Seq<u8>) -> bool {
    &&& fits64(encode_utf8(slug).len())
    &&& fits64(encode_utf8(toolchain).len())
    &&& fits64(config.len())
    &&& match base {
        ResolvedBase::Oci { reference, platform, digest } => {
            &&& fits64(encode_utf8(reference@).len())
            &&& fits64(encode_utf8(platform@).len())
            &&& fits64(encode_utf8(digest@).len())
        },
        ResolvedBase::LocalFile { .. } => true,
    }
}

proof fn lemma_hash_views_fit(hs: Seq<[u8; 32]>)
    ensures
        hashes_fit(hash_views(hs)),
{
    assert forall|i: int| 0 <= i < hash_views(hs).len() implies fits64(#[trigger] hash_views(hs)[i].len()) by {
        assert(hash_views(hs)[i] == hs[i]@);
    }
}

proof fn lemma_base_split(b1: ResolvedBase, c1: Seq<u8>, b2: ResolvedBase, c2: Seq<u8>)
    requires
        message_fits(Seq::empty(), Seq::empty(), b1, Seq::empty()),
        message_fits(Seq::empty(), Seq::empty(), b2, Seq::empty()),
        base_fields(b1) + c1 == base_fields(b2) + c2,
    ensures
        same_base(b1, b2),
        c1 == c2,
{
    reveal_strlit("base.local");
    reveal_strlit("base.size");
    reveal_strlit("base.oci.ref");
    reveal_strlit("base.oci.platform");
    reveal_strlit("base.oci.digest");
    match (b1, b2) {
        (
            ResolvedBase::LocalFile { sha256: s1, size: z1 },
            ResolvedBase::LocalFile { sha256: s2, size: z2 },
        ) => {
            let t1 = field("base.size"@, le64(z1 as nat)) + c1;
            let t2 = field("base.size"@, le64(z2 as nat)) + c2;
            assert(base_fields(b1) + c1 =~= field("base.local"@, s1@) + t1);
            assert(base_fields(b2) + c2 =~= field("base.local"@, s2@) + t2);
            lemma_field_split("base.local"@, s1@, t1, "base.local"@, s2@, t2);
            lemma_le_bytes_len(z1 as nat, 8);
            lemma_le_bytes_len(z2 as nat, 8);
            lemma_field_split("base.size"@, le64(z1 as nat), c1, "base.size"@, le64(z2 as nat), c2);
            lemma_le64_injective(z1 as nat, z2 as nat);
        },
        (
            ResolvedBase::Oci { reference: r1, platform: p1, digest: d1 },
            ResolvedBase::Oci { reference: r2, platform: p2, digest: d2 },
        ) => {
            let u1 = field("base.oci.digest"@, encode_utf8(d1@)) + c1;
            let u2 = field("base.oci.digest"@, encode_utf8(d2@)) + c2;
            let t1 = field("base.oci.platform"@, encode_utf8(p1@)) + u1;
            let t2 = field("base.oci.platform"@, encode_utf8(p2@)) + u2;
            assert(base_fields(b1) + c1 =~= field("base.oci.ref"@, encode_utf8(r1@)) + t1);
            assert(base_fields(b2) + c2 =~= field("base.oci.ref"@, encode_utf8(r2@)) + t2);
            lemma_field_split("base.oci.ref"@, encode_utf8(r1@), t1, "base.oci.ref"@, encode_utf8(r2@), t2);
            lemma_field_split("base.oci.platform"@, encode_utf8(p1@), u1, "base.oci.platform"@, encode_utf8(p2@), u2);
            lemma_field_split("base.oci.digest"@, encode_utf8(d1@), c1, "base.oci.digest"@, encode_utf8(d2@), c2);
            encode_utf8_decode_utf8(r1@);
            encode_utf8_decode_utf8(r2@);
            encode_utf8_decode_utf8(p1@);
            encode_utf8_decode_utf8(p2@);
            encode_utf8_decode_utf8(d1@);
            encode_utf8_decode_utf8(d2@);
        },
        (ResolvedBase::LocalFile { sha256: s1, size: z1 }, ResolvedBase::Oci { reference: r2, platform: p2, digest: d2 }) => {
            let t1 = field("base.size"@, le64(z1 as nat)) + c1;
            let t2 = field("base.oci.platform"@, encode_utf8(p2@)) + (field("base.oci.digest"@, encode_utf8(d2@)) + c2);
            assert(base_fields(b1) + c1 =~= field("base.local"@, s1@) + t1);
            assert(base_fields(b2) + c2 =~= field("base.oci.ref"@, encode_utf8(r2@)) + t2);
            lemma_field_split("base.local"@, s1@, t1, "base.oci.ref"@, encode_utf8(r2@), t2);
            assert(false);
        },
        (ResolvedBase::Oci { reference: r1, platform: p1, digest: d1 }, ResolvedBase::LocalFile { sha256: s2, size: z2 }) => {
            let t2 = field("base.size"@, le64(z2 as nat)) + c2;
            let t1 = field("base.oci.platform"@, encode_utf8(p1@)) + (field("base.oci.digest"@, encode_utf8(d1@)) + c1);
            assert(base_fields(b2) + c2 =~= field("base.local"@, s2@) + t2);
            assert(base_fields(b1) + c1 =~= field("base.oci.ref"@, encode_utf8(r1@)) + t1);
            lemma_field_split("base.oci.ref"@, encode_utf8(r1@), t1, "base.local"@, s2@, t2);
            assert(false);
        },
    }
}

/// The message as its first field followed by the rest, and so on down to the hash tails.
proof fn lemma_message_shape(
    slug: Seq<char>, toolchain: Seq<char>, base: ResolvedBase, config: Seq<u8>, op: Operation,
    inject: bool, deps: Seq<[u8; 32]>, rpms: Seq<[u8; 32]>,
)
    ensures
        fingerprint_message(slug, toolchain, base, config, op, inject, deps, rpms)
            == field("slug"@, encode_utf8(slug)) + (field("toolchain"@, encode_utf8(toolchain))
                + (base_fields(base) + (field("config"@, config)
                + (field("operation"@, encode_utf8(operation_text(op)))
                + (field("inject"@, seq![if inject { 1u8 } else { 0u8 }])
                + (hash_fields("dep"@, hash_views(deps)) + hash_fields("rpm"@, hash_views(rpms)))))))),
{
    let a = field("slug"@, encode_utf8(slug));
    let b = field("toolchain"@, encode_utf8(toolchain));
    let c = base_fields(base);
    let d = field("config"@, config);
    let e = field("operation"@, encode_utf8(operation_text(op)));
    let f = field("inject"@, seq![if inject { 1u8 } else { 0u8 }]);
    let g = hash_fields("dep"@, hash_views(deps));
    let h = hash_fields("rpm"@, hash_views(rpms));
    lemma_concat_associative(a + b + c + d + e + f, g, h);
    lemma_concat_associative(a + b + c + d + e, f, g + h);
    lemma_concat_associative(a + b + c + d, e, f + (g + h));
    lemma_concat_associative(a + b + c, d, e + (f + (g + h)));
    lemma_concat_associative(a + b, c, d + (e + (f + (g + h))));
    lemma_concat_associative(a, b, c + (d + (e + (f + (g + h)))));
}

/// The framed message determines every input: two input sets with the same message have the same
/// slug, toolchain digest, base pin, config bytes, operation, file-injection flag and dependency
/// and RPM-source hashes. Since every field is labelled and length-prefixed, distinct inputs never
/// collide by concatenation.
pub proof fn law_message_determines_inputs(
    slug1: Seq<char>, toolchain1: Seq<char>, base1: ResolvedBase, config1: Seq<u8>, op1: Operation,
    inject1: bool, deps1: Seq<[u8; 32]>, rpms1: Seq<[u8; 32]>,
    slug2: Seq<char>, toolchain2: Seq<char>, base2: ResolvedBase, config2: Seq<u8>, op2: Operation,
    inject2: bool, deps2: Seq<[u8; 32]>, rpms2: Seq<[u8; 32]>,
)
    requires
        message_fits(slug1, toolchain1, base1, config1),
        message_fits(slug2, toolchain2, base2, config2),
        fingerprint_message(slug1, toolchain1, base1, config1, op1, inject1, deps1, rpms1)
            == fingerprint_message(slug2, toolchain2, base2, config2, op2, inject2, deps2, rpms2),
    ensures
        slug1 == slug2,
        toolchain1 == toolchain2,
        same_base(base1, base2),
        config1 == config2,
        op1 == op2,
        inject1 == inject2,
        hash_views(deps1) == hash_views(deps2),
        hash_views(rpms1) == hash_views(rpms2),
{
    reveal_strlit("slug");
    reveal_strlit("toolchain");
    reveal_strlit("config");
    reveal_strlit("operation");
    reveal_strlit("inject");
    reveal_strlit("customize");
    reveal_strlit("convert");
    let i1 = seq![if inject1 { 1u8 } else { 0u8 }];
    let i2 = seq![if inject2 { 1u8 } else { 0u8 }];
    let tail1 = hash_fields("dep"@, hash_views(deps1)) + hash_fields("rpm"@, hash_views(rpms1));
    let tail2 = hash_fields("dep"@, hash_views(deps2)) + hash_fields("rpm"@, hash_views(rpms2));
    let o1 = encode_utf8(operation_text(op1));
    let o2 = encode_utf8(operation_text(op2));
    let e1 = field("inject"@, i1) + tail1;
    let e2 = field("inject"@, i2) + tail2;
    let d1 = field("operation"@, o1) + e1;
    let d2 = field("operation"@, o2) + e2;
    let c1 = field("config"@, config1) + d1;
    let c2 = field("config"@, config2) + d2;
    let b1 = base_fields(base1) + c1;
    let b2 = base_fields(base2) + c2;
    let t1 = field("toolchain"@, encode_utf8(toolchain1)) + b1;
    let t2 = field("toolchain"@, encode_utf8(toolchain2)) + b2;
    lemma_message_shape(slug1, toolchain1, base1, config1, op1, inject1, deps1, rpms1);
    lemma_message_shape(slug2, toolchain2, base2, config2, op2, inject2, deps2, rpms2);
    lemma_field_split("slug"@, encode_utf8(slug1), t1, "slug"@, encode_utf8(slug2), t2);
    lemma_field_split("toolchain"@, encode_utf8(toolchain1), b1, "toolchain"@, encode_utf8(toolchain2), b2);
    encode_utf8_decode_utf8(slug1);
    encode_utf8_decode_utf8(slug2);
    encode_utf8_decode_utf8(toolchain1);
    encode_utf8_decode_utf8(toolchain2);
    lemma_base_split(base1, c1, base2, c2);
    lemma_field_split("config"@, config1, d1, "config"@, config2, d2);
    assert(o1.len() < 64 && o2.len() < 64) by {
        lemma_encode_len(operation_text(op1));
        lemma_encode_len(operation_text(op2));
    }
    lemma_field_split("operation"@, o1, e1, "operation"@, o2, e2);
    encode_utf8_decode_utf8(operation_text(op1));
    encode_utf8_decode_utf8(operation_text(op2));
    assert(op1 == op2) by {
        if op1 != op2 {
            assert(operation_text(op1).len() != operation_text(op2).len());
        }
    }
    lemma_field_split("inject"@, i1, tail1, "inject"@, i2, tail2);
    assert(i1[0] == i2[0]);
    lemma_hash_views_fit(deps1);
    lemma_hash_views_fit(deps2);
    lemma_hash_views_fit(rpms1);
    lemma_hash_views_fit(rpms2);
    lemma_hash_tails(hash_views(deps1), hash_views(rpms1), hash_views(deps2), hash_views(rpms2));
}

/// Appends the `k` low-order bytes of `n`, least significant first.
pub(crate) fn push_le(out: &mut Vec<u8>, n: u128, k: usize)
    requires
        k <= 16,
    ensures
        final(out)@ == old(out)@ + le_bytes(n as nat, k as nat),
    decreases k,
{
    if k > 0 {
        let ghost before = out@;
        out.push((n % 256) as u8);
        push_le(out, n / 256, k - 1);
        assert(le_bytes(n as nat, k as nat) =~= seq![(n % 256) as u8] + le_bytes((n / 256) as nat, (k - 1) as nat));
        assert(final(out)@ =~= before + le_bytes(n as nat, k as nat)) by {
            assert(before.push((n % 256) as u8) =~= before + seq![(n % 256) as u8]);
        }
    }
}

/// Appends the bytes of a slice.
fn push_bytes(out: &mut Vec<u8>, bytes: &[u8])
    ensures
        final(out)@ == old(out)@ + bytes@,
{
    let ghost start = out@;
    let mut i: usize = 0;
    while i < bytes.len()
        invariant
            i <= bytes@.len(),
            out@ == start + bytes@.take(i as int),
        decreases bytes@.len() - i,
    {
        out.push(bytes[i]);
        i = i + 1;
        assert(out@ =~= start + bytes@.take(i as int));
    }
    assert(bytes@.take(i as int) =~= bytes@);
}

/// Appends one framed field (`label` length, `label`, `bytes` length, `bytes`).
fn push_field(out: &mut Vec<u8>, label: &str, bytes: &[u8])
    ensures
        final(out)@ == old(out)@ + field(label@, bytes@),
{
    let ghost start = out@;
    let label_bytes = label.as_bytes();
    push_le(out, label_bytes.len() as u128, 8);
    push_bytes(out, label_bytes);
    push_le(out, bytes.len() as u128, 8);
    push_bytes(out, bytes);
    assert(out@ =~= start + field(label@, bytes@));
}

/// Appends one framed field holding the UTF-8 bytes of `text`.
fn push_text_field(out: &mut Vec<u8>, label: &str, text: &str)
    ensures
        final(out)@ == old(out)@ + field(label@, encode_utf8(text@)),
{
    push_field(out, label, text.as_bytes());
}

/// The tag an operation contributes.
fn operation_tag(operation: Operation) -> (tag: &'static str)
    ensures
        tag@ == operation_text(operation),
{
    match operation {
        Operation::Customize => "customize",
        Operation::Convert => "convert",
    }
}

/// Appends one field per hash, each under `label`.
fn push_hash_fields(out: &mut Vec<u8>, label: &str, hashes: &[[u8; 32]])
    ensures
        final(out)@ == old(out)@ + hash_fields(label@, hash_views(hashes@)),
{
    let ghost start = out@;
    let mut i: usize = 0;
    while i < hashes.len()
        invariant
            i <= hashes@.len(),
            out@ == start + hash_fields(label@, hash_views(hashes@.take(i as int))),
        decreases hashes@.len() - i,
    {
        let h: [u8; 32] = hashes[i];
        push_field(out, label, h.as_slice());
        proof {
            lemma_hash_fields_push(label@, hash_views(hashes@.take(i as int)), h@);
            assert(hash_views(hashes@.take(i as int + 1)) =~= hash_views(hashes@.take(i as int)).push(h@));
        }
        i = i + 1;
        assert(out@ =~= start + hash_fields(label@, hash_views(hashes@.take(i as int))));
    }
    assert(hashes@.take(i as int) =~= hashes@);
}

/// The framed message of `inputs`: every build-affecting input as a labelled, length-prefixed
/// field, in a fixed order.
pub fn fingerprint_message_bytes(inputs: &FingerprintInputs<'_>) -> (out: Vec<u8>)
    ensures
        out@ == inputs.message(),
{
    let mut out: Vec<u8> = Vec::new();
    push_text_field(&mut out, "slug", inputs.slug);
    push_text_field(&mut out, "toolchain", inputs.toolchain_digest);
    let ghost after_head = out@;
    match inputs.base {
        ResolvedBase::LocalFile { sha256, size } => {
            push_field(&mut out, "base.local", sha256.as_slice());
            let mut size_bytes: Vec<u8> = Vec::new();
            push_le(&mut size_bytes, *size as u128, 8);
            push_field(&mut out, "base.size", size_bytes.as_slice());
        },
        ResolvedBase::Oci { reference, platform, digest } => {
            push_text_field(&mut out, "base.oci.ref", reference.as_str());
            push_text_field(&mut out, "base.oci.platform", platform.as_str());
            push_text_field(&mut out, "base.oci.digest", digest.as_str());
        },
    }
    assert(out@ =~= after_head + base_fields(*inputs.base));
    push_field(&mut out, "config", inputs.config);
    push_text_field(&mut out, "operation", operation_tag(inputs.operation));
    let mut inject: Vec<u8> = Vec::new();
    inject.push(if inputs.inject_files { 1u8 } else { 0u8 });
    push_field(&mut out, "inject", inject.as_slice());
    push_hash_fields(&mut out, "dep", inputs.extra_dependency_hashes);
    push_hash_fields(&mut out, "rpm", inputs.rpm_source_hashes);
    assert(inject@ =~= seq![if inputs.inject_files { 1u8 } else { 0u8 }]);
    assert(out@ =~= inputs.message());
    out
}

/// The canonical fingerprint of `inputs`: the SHA-256 of their framed message.
pub fn fingerprint(inputs: &FingerprintInputs<'_>) -> (fp: Fingerprint)
    ensures
        fp.0@ == sha256_of(inputs.message()),
{
    let message = fingerprint_message_bytes(inputs);
    Fingerprint(sha256_digest(message.as_slice()))
}

} // verus!
