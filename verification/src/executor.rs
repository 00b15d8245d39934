//! The decisions of running Image Customizer for one cell: the dry-run report, container and RPM
//! farm names, where each RPM source is passed from, which paths the janitor hands back, and how
//! an exit code and the produced artifact are judged. The container and filesystem work itself is
//! done by the caller.
use vstd::prelude::*;
use crate::arg_builder::{
    artifact_path, artifact_path_text, build_run_command, clone_suffix, join_path, log_file_text, path_join, working_copy_text,
    render_command, rendered_command, run_command_text,
};
use crate::error::ExecError;
use crate::orchestrator::{Cell, CellV};
use crate::paths::{is_absolute, render, render_segments, segments, split_segments};
use crate::ports::{ExecutionContext, ExecutionResult};
use crate::text::{chars_of, decimal, push_char, push_str, push_string, u64_text, views};
use crate::cache::lemma_decimal_digits;
use crate::types::OutputFormat;

verus! {

/// Runs Image Customizer in containers of a container runtime `R`.
pub struct IcExecutor<R> {
    runtime: R,
}

impl<R> IcExecutor<R> {
    pub closed spec fn runtime_of(&self) -> R {
        self.runtime
    }

    pub fn new(runtime: R) -> (r: Self)
        ensures
            r.runtime_of() == runtime,
    {
        IcExecutor { runtime }
    }

    /// The container runtime.
    pub fn runtime(&self) -> (r: &R)
        ensures
            *r == self.runtime_of(),
    {
        &self.runtime
    }
}

/// The report of a dry run: the artifact path, exit code 0, and the rendered container
/// invocation under a `# <slug>` heading.
pub fn dry_run_result(cell: &Cell, context: &ExecutionContext) -> (r: ExecutionResult)
    ensures
        r.artifact_path@ == artifact_path_text(cell.view(), *context),
        r.exit_code == 0,
        r.logs@ == "# "@ + cell.slug@ + seq!['\n'] + rendered_command(run_command_text(cell.view(), *context)),
{
    let command = render_command(&build_run_command(cell, context));
    let mut logs = "# ".to_owned();
    push_str(&mut logs, cell.slug.as_str());
    push_char(&mut logs, '\n');
    push_str(&mut logs, command.as_str());
    ExecutionResult { artifact_path: artifact_path(cell, context), exit_code: 0, logs }
}

/// `.tailor-farm-<slug>[_clone<i>]-<index>`.
pub open spec fn farm_name_text(slug: Seq<char>, clone_index: Option<u32>, index: usize) -> Seq<char> {
    ".tailor-farm-"@ + slug + clone_suffix(clone_index) + seq!['-'] + decimal(index as nat)
}

/// The name of the RPM farm built next to the `index`-th RPM source directory.
pub fn farm_name(slug: &str, clone_index: Option<u32>, index: usize) -> (r: String)
    ensures
        r@ == farm_name_text(slug@, clone_index, index),
{
    let mut s = ".tailor-farm-".to_owned();
    push_str(&mut s, slug);
    match clone_index {
        Some(c) => {
            push_str(&mut s, "_clone");
            let n = u64_text(c as u64);
            push_str(&mut s, n.as_str());
        },
        None => {},
    }
    push_char(&mut s, '-');
    let i = u64_text(index as u64);
    push_str(&mut s, i.as_str());
    assert(s@ =~= farm_name_text(slug@, clone_index, index));
    s
}

/// `tailor-ic-<slug>[_clone<i>]-<pid>`.
pub open spec fn container_name_text(slug: Seq<char>, clone_index: Option<u32>, pid: u32) -> Seq<char> {
    "tailor-ic-"@ + slug + clone_suffix(clone_index) + seq!['-'] + decimal(pid as nat)
}

/// The name of the Image Customizer container for a cell, unique per process `pid`.
pub fn container_name(cell: &Cell, context: &ExecutionContext, pid: u32) -> (r: String)
    ensures
        r@ == container_name_text(cell.slug@, context.clone_index, pid),
{
    let mut s = "tailor-ic-".to_owned();
    push_str(&mut s, cell.slug.as_str());
    match context.clone_index {
        Some(c) => {
            push_str(&mut s, "_clone");
            let n = u64_text(c as u64);
            push_str(&mut s, n.as_str());
        },
        None => {},
    }
    push_char(&mut s, '-');
    let n = u64_text(pid as u64);
    push_str(&mut s, n.as_str());
    assert(s@ =~= container_name_text(cell.slug@, context.clone_index, pid));
    s
}

/// An RPM source as passed to Image Customizer: the source itself (a `.repo` file), or a farm
/// built next to a source directory.
#[derive(Debug)]
pub struct RpmFarm {
    /// The path passed as `--rpm-source`.
    pub arg_path: String,
    /// For a farm, the source directory to build it from.
    pub build_from: Option<String>,
}

impl RpmFarm {
    /// The farm's `repodata/` directory, which Image Customizer writes.
    pub fn repodata_path(&self) -> (r: String)
        ensures
            r@ == path_join(self.arg_path@, "repodata"@),
    {
        join_path(self.arg_path.as_str(), "repodata")
    }
}

/// The parent directory of a path, if it has one (`/` and the empty path have none).
pub open spec fn parent_text(p: Seq<char>) -> Option<Seq<char>> {
    if segments(p).len() == 0 {
        None
    } else {
        Some(render(is_absolute(p), segments(p).drop_last()))
    }
}

/// The parent directory of a path.
pub fn parent_dir(path: &str) -> (r: Option<String>)
    ensures
        match parent_text(path@) {
            Some(t) => r matches Some(s) && s@ == t,
            None => r is None,
        },
{
    let cs = chars_of(path);
    let mut segs = split_segments(&cs);
    if segs.len() == 0 {
        return None;
    }
    let ghost sv = segs@.map_values(|v: Vec<char>| v@);
    segs.pop();
    assert(segs@.map_values(|v: Vec<char>| v@) =~= sv.drop_last());
    Some(render_segments(cs.len() > 0 && cs[0] == '/', &segs))
}

/// The RPM source at `source` (a directory when `is_dir`) as an Image Customizer argument.
pub open spec fn farm_of(source: Seq<char>, is_dir: bool, slug: Seq<char>, clone_index: Option<u32>, index: usize) -> Option<(Seq<char>, Option<Seq<char>>)> {
    if is_dir {
        match parent_text(source) {
            Some(parent) => Some((path_join(parent, farm_name_text(slug, clone_index, index)), Some(source))),
            None => None,
        }
    } else {
        Some((source, None))
    }
}

/// The message when a source directory has no parent to build its farm in.
pub open spec fn no_parent_text(source: Seq<char>) -> Seq<char> {
    "RPM source `"@ + source + "` has no parent directory"@
}

/// Plans how a cell's RPM sources are passed: each directory (per `source_is_dir`) through a farm
/// built next to it, each file as itself. A directory without a parent is an error.
pub fn prepare_rpm_farms(cell: &Cell, clone_index: Option<u32>, source_is_dir: &Vec<bool>) -> (r: Result<Vec<RpmFarm>, ExecError>)
    requires
        source_is_dir.len() == cell.rpm_sources.len(),
    ensures
        match r {
            Ok(farms) => farms.len() == cell.rpm_sources.len() && forall|i: int| 0 <= i < farms.len() ==>
                farm_of(cell.rpm_sources@[i]@, source_is_dir@[i], cell.slug@, clone_index, i as usize)
                    == Some((#[trigger] farms@[i].arg_path@, crate::schema::opt_text(farms@[i].build_from))),
            Err(e) => exists|i: int| 0 <= i < cell.rpm_sources.len()
                && (forall|j: int| 0 <= j < i ==> farm_of(cell.rpm_sources@[j]@, source_is_dir@[j], cell.slug@, clone_index, j as usize) is Some)
                && farm_of(#[trigger] cell.rpm_sources@[i]@, source_is_dir@[i], cell.slug@, clone_index, i as usize) is None
                && (e matches ExecError::Other(m) && m@ == no_parent_text(cell.rpm_sources@[i]@)),
        },
{
    let mut farms: Vec<RpmFarm> = Vec::new();
    let mut i: usize = 0;
    while i < cell.rpm_sources.len()
        invariant
            i <= cell.rpm_sources.len(),
            source_is_dir.len() == cell.rpm_sources.len(),
            farms.len() == i,
            forall|k: int| 0 <= k < i ==>
                farm_of(cell.rpm_sources@[k]@, source_is_dir@[k], cell.slug@, clone_index, k as usize)
                    == Some((#[trigger] farms@[k].arg_path@, crate::schema::opt_text(farms@[k].build_from))),
        decreases cell.rpm_sources.len() - i,
    {
        let source = &cell.rpm_sources[i];
        if source_is_dir[i] {
            match parent_dir(source.as_str()) {
                Some(parent) => {
                    let name = farm_name(cell.slug.as_str(), clone_index, i);
                    farms.push(RpmFarm { arg_path: join_path(parent.as_str(), name.as_str()), build_from: Some(source.clone()) });
                },
                None => {
                    let mut m = "RPM source `".to_owned();
                    push_str(&mut m, source.as_str());
                    push_str(&mut m, "` has no parent directory");
                    assert(farm_of(cell.rpm_sources@[i as int]@, source_is_dir@[i as int], cell.slug@, clone_index, i) is None);
                    assert forall|j: int| 0 <= j < i implies farm_of(cell.rpm_sources@[j]@, source_is_dir@[j], cell.slug@, clone_index, j as usize) is Some by {
                        assert(farm_of(cell.rpm_sources@[j]@, source_is_dir@[j], cell.slug@, clone_index, j as usize) == Some((farms@[j].arg_path@, crate::schema::opt_text(farms@[j].build_from))));
                    }
                    assert(m@ =~= no_parent_text(cell.rpm_sources@[i as int]@));
                    return Err(ExecError::Other(m));
                },
            }
        } else {
            farms.push(RpmFarm { arg_path: source.clone(), build_from: None });
        }
        i += 1;
    }
    Ok(farms)
}

/// The paths the janitor hands back after a successful run: the artifact, each farm's
/// `repodata/`, the image cache and the persisted log, when present.
pub open spec fn managed_paths_text(artifact: Seq<char>, farms: Seq<RpmFarm>, cache_dir: Option<Seq<char>>, log_file: Option<Seq<char>>) -> Seq<Seq<char>> {
    seq![artifact]
        + farms.map_values(|f: RpmFarm| path_join(f.arg_path@, "repodata"@))
        + match cache_dir { Some(c) => seq![c], None => Seq::empty() }
        + match log_file { Some(l) => seq![l], None => Seq::empty() }
}

/// The paths to hand back to the caller after a successful run.
pub fn managed_paths(artifact: &String, farms: &Vec<RpmFarm>, cache_dir: &Option<String>, log_file: &Option<String>) -> (r: Vec<String>)
    ensures
        views(r@) == managed_paths_text(artifact@, farms@, crate::schema::opt_text(*cache_dir), crate::schema::opt_text(*log_file)),
{
    let mut out: Vec<String> = Vec::new();
    push_string(&mut out, artifact.clone());
    let ghost head = views(out@);
    let ghost fv = farms@.map_values(|f: RpmFarm| path_join(f.arg_path@, "repodata"@));
    let mut i: usize = 0;
    assert(head + fv.subrange(0, 0) =~= head);
    while i < farms.len()
        invariant
            i <= farms.len(),
            fv == farms@.map_values(|f: RpmFarm| path_join(f.arg_path@, "repodata"@)),
            views(out@) == head + fv.subrange(0, i as int),
        decreases farms.len() - i,
    {
        push_string(&mut out, farms[i].repodata_path());
        assert(fv.subrange(0, i + 1) =~= fv.subrange(0, i as int).push(fv[i as int]));
        assert(views(out@) =~= head + fv.subrange(0, i + 1));
        i += 1;
    }
    assert(fv.subrange(0, farms@.len() as int) =~= fv);
    let ghost mid = views(out@);
    match cache_dir {
        Some(c) => push_string(&mut out, c.clone()),
        None => {},
    }
    let ghost mid2 = views(out@);
    match log_file {
        Some(l) => push_string(&mut out, l.clone()),
        None => {},
    }
    assert(views(out@) =~= managed_paths_text(artifact@, farms@, crate::schema::opt_text(*cache_dir), crate::schema::opt_text(*log_file)));
    out
}

/// What was found at an artifact path: nothing (with the reason), or whether it is a directory
/// and whether it is a file.
pub enum Found {
    Missing(String),
    Present { is_dir: bool, is_file: bool },
}

/// A run succeeds when Image Customizer exits 0.
pub fn run_outcome(exit_code: i64, logs: String) -> (r: Result<(), ExecError>)
    ensures
        exit_code == 0 ==> r is Ok,
        exit_code != 0 ==> (r matches Err(ExecError::IcFailed { code, logs: l }) && code == exit_code && l@ == logs@),
{
    if exit_code != 0 {
        return Err(ExecError::IcFailed { code: exit_code, logs });
    }
    Ok(())
}

/// The artifact must exist: a directory for `pxe-dir`, a file for every other format.
pub fn verify_artifact(path: &str, format: OutputFormat, found: Found) -> (r: Result<(), ExecError>)
    ensures
        match found {
            Found::Missing(detail) => r matches Err(ExecError::Io { context, detail: d })
                && context@ == "Image Customizer did not produce `"@ + path@ + "`"@ && d@ == detail@,
            Found::Present { is_dir, is_file } => if format == OutputFormat::PxeDir && !is_dir {
                r matches Err(ExecError::Other(m)) && m@ == "Image Customizer output `"@ + path@ + "` is not a directory"@
            } else if format != OutputFormat::PxeDir && !is_file {
                r matches Err(ExecError::Other(m)) && m@ == "Image Customizer output `"@ + path@ + "` is not a file"@
            } else {
                r is Ok
            },
        },
{
    match found {
        Found::Missing(detail) => {
            let mut context = "Image Customizer did not produce `".to_owned();
            push_str(&mut context, path);
            push_str(&mut context, "`");
            Err(ExecError::Io { context, detail })
        },
        Found::Present { is_dir, is_file } => {
            if format == OutputFormat::PxeDir && !is_dir {
                let mut m = "Image Customizer output `".to_owned();
                push_str(&mut m, path);
                push_str(&mut m, "` is not a directory");
                return Err(ExecError::Other(m));
            }
            if format != OutputFormat::PxeDir && !is_file {
                let mut m = "Image Customizer output `".to_owned();
                push_str(&mut m, path);
                push_str(&mut m, "` is not a file");
                return Err(ExecError::Other(m));
            }
            Ok(())
        },
    }
}

/// The same text in the middle of equal surroundings.
proof fn lemma_middle(a: Seq<char>, x: Seq<char>, y: Seq<char>, b: Seq<char>)
    requires
        a + x + b == a + y + b,
    ensures
        x == y,
{
    let s = a + x + b;
    assert(s.len() == a.len() + x.len() + b.len());
    assert((a + y + b).len() == a.len() + y.len() + b.len());
    assert(s.len() == (a + y + b).len());
    assert(x.len() == y.len());
    assert(s.subrange(a.len() as int, (a.len() + x.len()) as int) =~= x);
    assert((a + y + b).subrange(a.len() as int, (a.len() + y.len()) as int) =~= y);
}

proof fn lemma_join_injective(dir: Seq<char>, n1: Seq<char>, n2: Seq<char>)
    requires
        is_absolute(n1) == is_absolute(n2),
        path_join(dir, n1) == path_join(dir, n2),
    ensures
        n1 == n2,
{
    if !is_absolute(n1) && dir.len() > 0 {
        let pre = if dir.last() == '/' { dir } else { dir + seq!['/'] };
        assert(path_join(dir, n1) =~= pre + n1);
        assert(path_join(dir, n2) =~= pre + n2);
        lemma_middle(pre, n1, n2, Seq::empty());
        assert(pre + n1 + Seq::<char>::empty() =~= pre + n1);
        assert(pre + n2 + Seq::<char>::empty() =~= pre + n2);
    }
}

proof fn lemma_clone_suffix_injective(k1: Option<u32>, k2: Option<u32>)
    requires
        clone_suffix(k1) == clone_suffix(k2),
    ensures
        k1 == k2,
{
    reveal_strlit("_clone");
    match (k1, k2) {
        (Some(i), Some(j)) => {
            lemma_middle("_clone"@, decimal(i as nat), decimal(j as nat), Seq::empty());
            assert("_clone"@ + decimal(i as nat) + Seq::<char>::empty() =~= clone_suffix(k1));
            assert("_clone"@ + decimal(j as nat) + Seq::<char>::empty() =~= clone_suffix(k2));
            lemma_decimal_digits(i as nat);
            lemma_decimal_digits(j as nat);
        },
        (Some(i), None) => {
            assert(clone_suffix(k1).len() > 0);
        },
        (None, Some(j)) => {
            assert(clone_suffix(k2).len() > 0);
        },
        (None, None) => {},
    }
}

/// Clones never race: for one cell, two runs with different clone indices (or a clone and the
/// plain run) use different working copies, different persisted logs, different RPM farms and
/// different container names.
pub proof fn law_clones_never_share_paths(c: CellV, ctx1: ExecutionContext, ctx2: ExecutionContext, index: usize, pid: u32)
    requires
        ctx1.clone_index != ctx2.clone_index,
        ctx1.runtime.log_dir == ctx2.runtime.log_dir,
    ensures
        working_copy_text(c, ctx1.clone_index) != working_copy_text(c, ctx2.clone_index),
        log_file_text(c, ctx1) is Some ==> log_file_text(c, ctx1) != log_file_text(c, ctx2),
        farm_name_text(c.slug, ctx1.clone_index, index) != farm_name_text(c.slug, ctx2.clone_index, index),
        container_name_text(c.slug, ctx1.clone_index, pid) != container_name_text(c.slug, ctx2.clone_index, pid),
{
    reveal_strlit(".tailor-render.");
    reveal_strlit(".ic.yaml");
    reveal_strlit(".log");
    reveal_strlit(".tailor-farm-");
    reveal_strlit("tailor-ic-");
    let s1 = clone_suffix(ctx1.clone_index);
    let s2 = clone_suffix(ctx2.clone_index);
    if working_copy_text(c, ctx1.clone_index) == working_copy_text(c, ctx2.clone_index) {
        let n1 = ".tailor-render."@ + c.slug + s1 + ".ic.yaml"@;
        let n2 = ".tailor-render."@ + c.slug + s2 + ".ic.yaml"@;
        assert(n1[0] == '.' && n2[0] == '.');
        lemma_join_injective(c.image_dir, n1, n2);
        lemma_middle(".tailor-render."@ + c.slug, s1, s2, ".ic.yaml"@);
        lemma_clone_suffix_injective(ctx1.clone_index, ctx2.clone_index);
    }
    if log_file_text(c, ctx1) is Some && log_file_text(c, ctx1) == log_file_text(c, ctx2) {
        let dir = ctx1.runtime.log_dir->0@;
        let n1 = c.slug + s1 + ".log"@;
        let n2 = c.slug + s2 + ".log"@;
        assert(is_absolute(n1) == is_absolute(n2)) by {
            if c.slug.len() == 0 {
                assert(n1 =~= s1 + ".log"@);
                assert(n2 =~= s2 + ".log"@);
                reveal_strlit("_clone");
                if s1.len() > 0 {
                    assert(n1[0] == '_');
                } else {
                    assert(n1[0] == '.');
                }
                if s2.len() > 0 {
                    assert(n2[0] == '_');
                } else {
                    assert(n2[0] == '.');
                }
            } else {
                assert(n1[0] == c.slug[0] && n2[0] == c.slug[0]);
            }
        }
        lemma_join_injective(dir, n1, n2);
        lemma_middle(c.slug, s1, s2, ".log"@);
        lemma_clone_suffix_injective(ctx1.clone_index, ctx2.clone_index);
    }
    let tail = seq!['-'] + decimal(index as nat);
    if farm_name_text(c.slug, ctx1.clone_index, index) == farm_name_text(c.slug, ctx2.clone_index, index) {
        assert(farm_name_text(c.slug, ctx1.clone_index, index) =~= ".tailor-farm-"@ + c.slug + s1 + tail);
        assert(farm_name_text(c.slug, ctx2.clone_index, index) =~= ".tailor-farm-"@ + c.slug + s2 + tail);
        lemma_middle(".tailor-farm-"@ + c.slug, s1, s2, tail);
        lemma_clone_suffix_injective(ctx1.clone_index, ctx2.clone_index);
    }
    let ptail = seq!['-'] + decimal(pid as nat);
    if container_name_text(c.slug, ctx1.clone_index, pid) == container_name_text(c.slug, ctx2.clone_index, pid) {
        assert(container_name_text(c.slug, ctx1.clone_index, pid) =~= "tailor-ic-"@ + c.slug + s1 + ptail);
        assert(container_name_text(c.slug, ctx2.clone_index, pid) =~= "tailor-ic-"@ + c.slug + s2 + ptail);
        lemma_middle("tailor-ic-"@ + c.slug, s1, s2, ptail);
        lemma_clone_suffix_injective(ctx1.clone_index, ctx2.clone_index);
    }
}

} // verus!
