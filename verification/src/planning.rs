//! The decisions of a build run, between the filesystem and engine work the caller does: the plan
//! entry of each cell (its fingerprint, and whether its build stamp shows it up to date), which
//! planned cells a run builds, the execution context and container request of each, and the text
//! of the stamp written after a success.
use vstd::prelude::*;
use crate::arg_builder::{build_ic_args, host_root_bind, host_root_bind_text, ic_args_text, join_path, path_join, DEV_BIND};
use crate::cache::{hex_char, hex_encode, hex_text, is_line_break, trim_line_end, trimmed_len};
use crate::executor::{container_name, container_name_text};
use crate::fingerprint::{fingerprint, fingerprint_message, sha256_of, Fingerprint, FingerprintInputs};
use crate::orchestrator::{platform_of, BuildOptions, Cell};
use crate::ports::{ContainerConfig, ExecutionContext, ResolvedBase, RuntimeConfig};
use crate::reference::{base_image_ref, base_ref_text};
use crate::schema::{copy_opt_string, opt_text};
use crate::text::{chars_of, copy_string, push_str, str_eq, string_of_range, views};
use crate::types::{arch_text, Operation};

verus! {

/// One cell of a build plan.
#[derive(Debug)]
pub struct PlannedCell {
    pub cell: Cell,
    /// The fingerprint of every input that determines the cell's output.
    pub fingerprint: Fingerprint,
    /// Whether the artifact exists and its build stamp records this fingerprint.
    pub up_to_date: bool,
    /// The digest-pinned base reference, for a registry base.
    pub base_ref: Option<String>,
    /// The digest-pinned toolchain image reference.
    pub ic_image_ref: String,
}

/// The extension of a build stamp file.
pub const STAMP_EXTENSION: &'static str = "stamp";

/// The build stamp file of a cell: `<output_dir>/<slug>.stamp`.
pub open spec fn stamp_path_text(output_dir: Seq<char>, slug: Seq<char>) -> Seq<char> {
    path_join(output_dir, slug + "."@ + STAMP_EXTENSION@)
}

/// The path of a cell's build stamp.
pub fn stamp_path(output_dir: &str, slug: &str) -> (r: String)
    ensures
        r@ == stamp_path_text(output_dir@, slug@),
{
    let mut name = slug.to_owned();
    push_str(&mut name, ".");
    push_str(&mut name, STAMP_EXTENSION);
    join_path(output_dir, name.as_str())
}

/// What a build stamp holds: the fingerprint in lowercase hexadecimal, then a line break.
pub open spec fn stamp_text_of(fp: Seq<u8>) -> Seq<char> {
    hex_text(fp) + seq!['\n']
}

/// The text written to a cell's build stamp after a successful build.
pub fn stamp_text(fp: &Fingerprint) -> (r: String)
    ensures
        r@ == stamp_text_of(fp.0@),
{
    let mut s = hex_encode(fp.0.as_slice());
    push_str(&mut s, "\n");
    proof {
        reveal_strlit("\n");
    }
    s
}

/// Whether a stamp's text (absent when there is no stamp) records the fingerprint: trailing line
/// breaks aside, it is the fingerprint's lowercase hexadecimal.
pub open spec fn stamp_matches(stamp: Option<Seq<char>>, fp: Seq<u8>) -> bool {
    match stamp {
        Some(text) => trim_line_end(text) == hex_text(fp),
        None => false,
    }
}

/// A stamp written for a fingerprint reads back as recording it, and as recording no other: a
/// cell whose inputs are unchanged since its last build is up to date, and one whose inputs
/// changed is not.
pub proof fn law_stamp_round_trip(fp: Seq<u8>, other: Seq<u8>)
    requires
        fp.len() == 32,
        other.len() == 32,
    ensures
        stamp_matches(Some(stamp_text_of(fp)), fp),
        stamp_matches(Some(stamp_text_of(fp)), other) ==> other == fp,
{
    let h = hex_text(fp);
    let s = stamp_text_of(fp);
    assert(s.drop_last() =~= h);
    assert(is_line_break(s.last()));
    lemma_hex_len(fp);
    let last = fp.last() as nat % 16;
    assert(h.last() == hex_char(last));
    assert(!is_line_break(hex_char(last)));
    assert(trim_line_end(h) == h);
    assert(trim_line_end(s) == h);
    if stamp_matches(Some(s), other) {
        lemma_hex_injective(fp, other);
    }
}

proof fn lemma_hex_len(bytes: Seq<u8>)
    ensures
        hex_text(bytes).len() == 2 * bytes.len(),
    decreases bytes.len(),
{
    if bytes.len() > 0 {
        lemma_hex_len(bytes.drop_last());
    }
}

proof fn lemma_hex_char_injective(a: nat, b: nat)
    requires
        a < 16,
        b < 16,
        hex_char(a) == hex_char(b),
    ensures
        a == b,
{
}

proof fn lemma_hex_injective(a: Seq<u8>, b: Seq<u8>)
    requires
        a.len() == b.len(),
        hex_text(a) == hex_text(b),
    ensures
        a == b,
    decreases a.len(),
{
    if a.len() > 0 {
        let ha = hex_text(a.drop_last());
        let hb = hex_text(b.drop_last());
        lemma_hex_len(a.drop_last());
        lemma_hex_len(b.drop_last());
        let n = ha.len() as int;
        let ta = seq![hex_char(a.last() as nat / 16), hex_char(a.last() as nat % 16)];
        let tb = seq![hex_char(b.last() as nat / 16), hex_char(b.last() as nat % 16)];
        assert(hex_text(a) == ha + ta);
        assert(hex_text(b) == hb + tb);
        assert((ha + ta)[n] == ta[0]);
        assert((hb + tb)[n] == tb[0]);
        assert((ha + ta)[n + 1] == ta[1]);
        assert((hb + tb)[n + 1] == tb[1]);
        lemma_hex_char_injective(a.last() as nat / 16, b.last() as nat / 16);
        lemma_hex_char_injective(a.last() as nat % 16, b.last() as nat % 16);
        assert(a.last() == b.last());
        assert(hex_text(a).subrange(0, n) =~= ha);
        assert(hex_text(b).subrange(0, n) =~= hb);
        lemma_hex_injective(a.drop_last(), b.drop_last());
        assert(a =~= a.drop_last().push(a.last()));
        assert(b =~= b.drop_last().push(b.last()));
    }
}

/// Whether a stamp records `fp`.
pub fn stamp_records(stamp: Option<&str>, fp: &Fingerprint) -> (r: bool)
    ensures
        r == stamp_matches(opt_str(stamp), fp.0@),
{
    match stamp {
        Some(text) => {
            let v = chars_of(text);
            let end = trimmed_len(&v);
            let trimmed = string_of_range(&v, 0, end);
            let expected = hex_encode(fp.0.as_slice());
            str_eq(trimmed.as_str(), expected.as_str())
        },
        None => false,
    }
}

/// The characters of an optional string slice.
pub open spec fn opt_str(s: Option<&str>) -> Option<Seq<char>> {
    match s {
        Some(t) => Some(t@),
        None => None,
    }
}

/// The operation a cell runs: the image's, else `customize`.
pub open spec fn cell_operation(op: Option<Operation>) -> Operation {
    match op {
        Some(o) => o,
        None => Operation::Customize,
    }
}

/// Plans one cell: fingerprints its inputs (slug, toolchain digest, resolved base, canonical
/// config bytes, operation, file injection) and marks it up to date when its artifact exists and
/// its build stamp records that fingerprint.
pub fn plan_cell(
    cell: Cell,
    toolchain_digest: &str,
    ic_image_ref: String,
    base: &ResolvedBase,
    config: &[u8],
    inject_files: bool,
    stamp: Option<&str>,
    artifact_exists: bool,
) -> (r: PlannedCell)
    ensures
        r.cell == cell,
        r.fingerprint.0@ == sha256_of(fingerprint_message(cell.slug@, toolchain_digest@, *base, config@,
            cell_operation(cell.operation), inject_files, Seq::empty(), Seq::empty())),
        r.up_to_date == (artifact_exists && stamp_matches(opt_str(stamp), r.fingerprint.0@)),
        opt_text(r.base_ref) == base_ref_text(*base),
        r.ic_image_ref@ == ic_image_ref@,
{
    let operation = match cell.operation {
        Some(o) => o,
        None => Operation::Customize,
    };
    let no_hashes: Vec<[u8; 32]> = Vec::new();
    let print = fingerprint(&FingerprintInputs {
        slug: cell.slug.as_str(),
        toolchain_digest,
        base,
        config,
        operation,
        inject_files,
        extra_dependency_hashes: no_hashes.as_slice(),
        rpm_source_hashes: no_hashes.as_slice(),
    });
    let recorded = stamp_records(stamp, &print);
    PlannedCell {
        cell,
        fingerprint: print,
        up_to_date: artifact_exists && recorded,
        base_ref: base_image_ref(base),
        ic_image_ref,
    }
}

/// The positions of the plan entries a run builds, given each entry's `up_to_date` flag: every
/// stale entry, and every entry when forced, in plan order.
pub open spec fn build_indices(up_to_date: Seq<bool>, force: bool) -> Seq<int>
    decreases up_to_date.len(),
{
    if up_to_date.len() == 0 {
        Seq::empty()
    } else {
        let rest = build_indices(up_to_date.drop_last(), force);
        if !up_to_date.last() || force {
            rest.push(up_to_date.len() - 1)
        } else {
            rest
        }
    }
}

/// The `up_to_date` flags of a plan.
pub open spec fn freshness(plan: Seq<PlannedCell>) -> Seq<bool> {
    plan.map_values(|p: PlannedCell| p.up_to_date)
}

/// The plan entries a run builds: the stale ones, or all of them when `options.force` is set.
pub fn cells_to_build(plan: &Vec<PlannedCell>, options: &BuildOptions) -> (r: Vec<usize>)
    ensures
        r@.map_values(|i: usize| i as int) == build_indices(freshness(plan@), options.force),
{
    let mut r: Vec<usize> = Vec::new();
    let mut i: usize = 0;
    while i < plan.len()
        invariant
            i <= plan@.len(),
            r@.map_values(|k: usize| k as int) == build_indices(freshness(plan@.take(i as int)), options.force),
        decreases plan@.len() - i,
    {
        let ghost before = r@;
        assert(freshness(plan@.take(i + 1)).drop_last() =~= freshness(plan@.take(i as int)));
        assert(freshness(plan@.take(i + 1)).last() == plan@[i as int].up_to_date);
        if !plan[i].up_to_date || options.force {
            r.push(i);
            assert(r@.map_values(|k: usize| k as int) =~= before.map_values(|k: usize| k as int).push(i as int));
        }
        i = i + 1;
    }
    assert(plan@.take(i as int) =~= plan@);
    r
}

/// The execution context of a planned cell: its pinned toolchain and base, its platform, and the
/// run's clone index and dry-run flag.
pub fn execution_context(p: &PlannedCell, output_dir: &str, options: &BuildOptions, runtime: RuntimeConfig) -> (r: ExecutionContext)
    ensures
        r.output_dir@ == output_dir@,
        r.ic_image_ref@ == p.ic_image_ref@,
        opt_text(r.base_ref) == opt_text(p.base_ref),
        r.platform@ == "linux/"@ + arch_text(p.cell.arch),
        r.clone_index == options.clone_index,
        r.dry_run == options.dry_run,
        r.runtime == runtime,
{
    ExecutionContext {
        output_dir: output_dir.to_owned(),
        ic_image_ref: copy_string(&p.ic_image_ref),
        base_ref: copy_opt_string(&p.base_ref),
        platform: platform_of(p.cell.arch),
        clone_index: options.clone_index,
        dry_run: options.dry_run,
        runtime,
    }
}

/// The execution context of a dry run, which resolves no digests: the toolchain by tag, no base
/// pin, no clone.
pub fn dry_run_context(cell: &Cell, output_dir: &str, ic_image_ref: &str, runtime: RuntimeConfig) -> (r: ExecutionContext)
    ensures
        r.output_dir@ == output_dir@,
        r.ic_image_ref@ == ic_image_ref@,
        r.base_ref is None,
        r.platform@ == "linux/"@ + arch_text(cell.arch),
        r.clone_index is None,
        r.dry_run,
        r.runtime == runtime,
{
    ExecutionContext {
        output_dir: output_dir.to_owned(),
        ic_image_ref: ic_image_ref.to_owned(),
        base_ref: None,
        platform: platform_of(cell.arch),
        clone_index: None,
        dry_run: true,
        runtime,
    }
}

/// The container request that runs Image Customizer for a cell: the toolchain image on the cell's
/// platform, named per cell, clone and process `pid`, with the Image Customizer argument vector,
/// the host root and `/dev` bound in, privileged as the runtime says.
pub fn ic_container(cell: &Cell, context: &ExecutionContext, pid: u32) -> (r: ContainerConfig)
    ensures
        r.image_ref@ == context.ic_image_ref@,
        r.platform@ == context.platform@,
        r.name@ == container_name_text(cell.slug@, context.clone_index, pid),
        views(r.args@) == ic_args_text(cell.view(), *context),
        views(r.binds@) == seq![host_root_bind_text(context.runtime), DEV_BIND@],
        r.privileged == context.runtime.privileged,
{
    let mut binds: Vec<String> = Vec::new();
    binds.push(host_root_bind(&context.runtime));
    binds.push(DEV_BIND.to_owned());
    assert(views(binds@) =~= seq![host_root_bind_text(context.runtime), DEV_BIND@]);
    ContainerConfig {
        image_ref: copy_string(&context.ic_image_ref),
        platform: copy_string(&context.platform),
        name: container_name(cell, context, pid),
        args: build_ic_args(cell, context),
        binds,
        privileged: context.runtime.privileged,
    }
}

} // verus!
