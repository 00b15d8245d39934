//! The Image Customizer argument vector for one cell, the container invocation that runs it, and a
//! copy-pasteable rendering of that invocation.
use vstd::prelude::*;
use crate::orchestrator::{artifact_name, artifact_name_text, Cell, CellV};
use crate::paths::{absolutize, absolutized, container_path, is_absolute, to_container_path};
use crate::ports::{ExecutionContext, RuntimeConfig};
use crate::schema::{opt_text, BaseV};
use crate::text::{chars_of, decimal, join_strings, join_with, push_char, push_str, u64_text, views};
use crate::types::{format_text, Operation};

verus! {

/// The Image Customizer build directory inside the container.
pub const BUILD_DIR: &'static str = "/tmp";
/// The device bind every Image Customizer container gets.
pub const DEV_BIND: &'static str = "/dev:/dev";
/// Image Customizer's log level when none is configured.
pub const DEFAULT_IC_LOG_LEVEL: &'static str = "debug";

/// `name` joined under `dir` (a path join: an absolute `name` stands alone).
pub open spec fn path_join(dir: Seq<char>, name: Seq<char>) -> Seq<char> {
    if is_absolute(name) {
        name
    } else if dir.len() == 0 {
        name
    } else if dir.last() == '/' {
        dir + name
    } else {
        dir + seq!['/'] + name
    }
}

/// Joins `name` under `dir`.
pub fn join_path(dir: &str, name: &str) -> (r: String)
    ensures
        r@ == path_join(dir@, name@),
{
    let n = chars_of(name);
    if n.len() > 0 && n[0] == '/' {
        return name.to_owned();
    }
    let d = chars_of(dir);
    if d.len() == 0 {
        return name.to_owned();
    }
    let mut out = dir.to_owned();
    if d[d.len() - 1] != '/' {
        push_char(&mut out, '/');
    }
    push_str(&mut out, name);
    assert(out@ =~= path_join(dir@, name@));
    out
}

/// `_clone<i>` for a clone, nothing otherwise.
pub open spec fn clone_suffix(clone_index: Option<u32>) -> Seq<char> {
    match clone_index {
        Some(i) => "_clone"@ + decimal(i as nat),
        None => Seq::empty(),
    }
}

fn clone_suffix_string(clone_index: Option<u32>) -> (r: String)
    ensures
        r@ == clone_suffix(clone_index),
{
    match clone_index {
        Some(i) => {
            let mut s = "_clone".to_owned();
            let n = u64_text(i as u64);
            push_str(&mut s, n.as_str());
            s
        },
        None => String::new(),
    }
}

/// The host path of a cell's rendered working copy of its Image Customizer config:
/// `<image dir>/.tailor-render.<slug>[_clone<i>].ic.yaml`.
pub open spec fn working_copy_text(c: CellV, clone_index: Option<u32>) -> Seq<char> {
    path_join(c.image_dir, ".tailor-render."@ + c.slug + clone_suffix(clone_index) + ".ic.yaml"@)
}

/// The host path of a cell's working copy.
pub fn working_copy_path(cell: &Cell, clone_index: Option<u32>) -> (r: String)
    ensures
        r@ == working_copy_text(cell.view(), clone_index),
{
    let mut name = ".tailor-render.".to_owned();
    push_str(&mut name, cell.slug.as_str());
    let suffix = clone_suffix_string(clone_index);
    push_str(&mut name, suffix.as_str());
    push_str(&mut name, ".ic.yaml");
    join_path(cell.image_dir.as_str(), name.as_str())
}

/// The host path of a cell's artifact.
pub open spec fn artifact_path_text(c: CellV, ctx: ExecutionContext) -> Seq<char> {
    path_join(ctx.output_dir@, artifact_name_text(c.slug, c.output.0))
}

/// The host path of a cell's artifact under the output directory.
pub fn artifact_path(cell: &Cell, context: &ExecutionContext) -> (r: String)
    ensures
        r@ == artifact_path_text(cell.view(), *context),
{
    let name = artifact_name(cell.slug.as_str(), cell.output.format);
    join_path(context.output_dir.as_str(), name.as_str())
}

/// The host path of a cell's persisted log when a log directory is set:
/// `<log dir>/<slug>[_clone<i>].log`.
pub open spec fn log_file_text(c: CellV, ctx: ExecutionContext) -> Option<Seq<char>> {
    match ctx.runtime.log_dir {
        Some(dir) => Some(path_join(dir@, c.slug + clone_suffix(ctx.clone_index) + ".log"@)),
        None => None,
    }
}

/// The host path of a cell's persisted Image Customizer log, when persistence is enabled.
pub fn log_file_path(cell: &Cell, context: &ExecutionContext) -> (r: Option<String>)
    ensures
        opt_text(r) == log_file_text(cell.view(), *context),
{
    match &context.runtime.log_dir {
        Some(dir) => {
            let mut name = cell.slug.clone();
            let suffix = clone_suffix_string(context.clone_index);
            push_str(&mut name, suffix.as_str());
            push_str(&mut name, ".log");
            Some(join_path(dir.as_str(), name.as_str()))
        },
        None => None,
    }
}

pub open spec fn subcommand_text(operation: Operation) -> Seq<char> {
    match operation {
        Operation::Customize => "customize"@,
        Operation::Convert => "convert"@,
    }
}

/// The Image Customizer subcommand for an operation.
pub fn subcommand(operation: Operation) -> (r: &'static str)
    ensures
        r@ == subcommand_text(operation),
{
    match operation {
        Operation::Customize => "customize",
        Operation::Convert => "convert",
    }
}

/// A flag followed by its value.
pub fn flag_value(flag: &str, value: String) -> (r: Vec<String>)
    ensures
        views(r@) == seq![flag@, value@],
{
    let mut v: Vec<String> = Vec::new();
    v.push(flag.to_owned());
    v.push(value);
    assert(views(v@) =~= seq![flag@, value@]);
    v
}

/// The Azure Linux registry path of a version and variant.
pub open spec fn azure_linux_text(version: Seq<char>, variant: Seq<char>) -> Seq<char> {
    "mcr.microsoft.com/azurelinux/"@ + version + "/image/"@ + variant
}

/// The base-image arguments: `--image-file <container path>` for a local file; for a registry
/// base, `--image <pinned ref>` when customizing (the unpinned `oci:` reference without a pin) and
/// `--image-file <reference>` when converting.
pub open spec fn base_args_text(base: BaseV, base_ref: Option<Seq<char>>, image_dir: Seq<char>, host_root: Seq<char>, op: Operation) -> Seq<Seq<char>> {
    match base {
        BaseV::Path(p) => seq!["--image-file"@, container_path(absolutized(p, image_dir), host_root)],
        BaseV::Oci(uri, _) => match op {
            Operation::Customize => seq!["--image"@, match base_ref { Some(r) => r, None => "oci:"@ + uri }],
            Operation::Convert => seq!["--image-file"@, uri],
        },
        BaseV::AzureLinux(version, variant) => match op {
            Operation::Customize => seq!["--image"@, match base_ref {
                Some(r) => r,
                None => "oci:"@ + azure_linux_text(version, variant),
            }],
            Operation::Convert => seq!["--image-file"@, azure_linux_text(version, variant)],
        },
        BaseV::Ref(reference) => seq!["--image-file"@, reference],
    }
}

/// The Azure Linux registry reference of a version and variant.
pub fn azure_linux_ref(version: &String, variant: &String) -> (r: String)
    ensures
        r@ == azure_linux_text(version@, variant@),
{
    let mut s = "mcr.microsoft.com/azurelinux/".to_owned();
    push_str(&mut s, version.as_str());
    push_str(&mut s, "/image/");
    push_str(&mut s, variant.as_str());
    s
}

/// The base-image arguments of a cell.
pub fn base_args(base: &crate::schema::BaseSource, base_ref: &Option<String>, image_dir: &str, runtime: &RuntimeConfig, operation: Operation) -> (r: Vec<String>)
    ensures
        views(r@) == base_args_text(base.view(), opt_text(*base_ref), image_dir@, runtime.host_root@, operation),
{
    match base {
        crate::schema::BaseSource::Path { path } => {
            let abs = absolutize(path.as_str(), image_dir);
            flag_value("--image-file", to_container_path(abs.as_str(), runtime.host_root.as_str()))
        },
        crate::schema::BaseSource::Oci { oci } => match operation {
            Operation::Customize => {
                let value = match base_ref {
                    Some(r) => r.clone(),
                    None => {
                        let mut s = "oci:".to_owned();
                        push_str(&mut s, oci.uri.as_str());
                        s
                    },
                };
                flag_value("--image", value)
            },
            Operation::Convert => flag_value("--image-file", oci.uri.clone()),
        },
        crate::schema::BaseSource::AzureLinux { azure_linux } => match operation {
            Operation::Customize => {
                let value = match base_ref {
                    Some(r) => r.clone(),
                    None => {
                        let mut s = "oci:".to_owned();
                        let path = azure_linux_ref(&azure_linux.version, &azure_linux.variant);
                        push_str(&mut s, path.as_str());
                        s
                    },
                };
                flag_value("--image", value)
            },
            Operation::Convert => flag_value("--image-file", azure_linux_ref(&azure_linux.version, &azure_linux.variant)),
        },
        crate::schema::BaseSource::Ref { reference } => flag_value("--image-file", reference.clone()),
    }
}

/// `--rpm-source <container path>` for each source, resolved against the image directory.
pub open spec fn rpm_args_text(sources: Seq<Seq<char>>, image_dir: Seq<char>, host_root: Seq<char>) -> Seq<Seq<char>>
    decreases sources.len(),
{
    if sources.len() == 0 {
        Seq::empty()
    } else {
        rpm_args_text(sources.drop_last(), image_dir, host_root)
            + seq!["--rpm-source"@, container_path(absolutized(sources.last(), image_dir), host_root)]
    }
}

/// The operation a cell runs (customize unless declared).
pub open spec fn operation_of(c: CellV) -> Operation {
    match c.operation {
        Some(op) => op,
        None => Operation::Customize,
    }
}

/// The leading arguments: subcommand, config file (customize only), logging and build dir.
pub open spec fn head_args_text(c: CellV, ctx: ExecutionContext) -> Seq<Seq<char>> {
    let op = operation_of(c);
    let host_root = ctx.runtime.host_root@;
    let config = if op == Operation::Customize {
        seq!["--config-file"@, container_path(working_copy_text(c, ctx.clone_index), host_root)]
    } else {
        Seq::empty()
    };
    let level = match ctx.runtime.log_level {
        Some(l) => l@,
        None => DEFAULT_IC_LOG_LEVEL@,
    };
    let logging = seq!["--log-format"@, "json"@, "--log-color"@, "never"@, "--log-level"@, level];
    let log_file = match log_file_text(c, ctx) {
        Some(f) => seq!["--log-file"@, container_path(f, host_root)],
        None => Seq::empty(),
    };
    seq![subcommand_text(op)] + config + logging + log_file + seq!["--build-dir"@, BUILD_DIR@]
}

/// The trailing arguments: output format and file, compression level, RPM sources (customize
/// only) and image cache.
pub open spec fn tail_args_text(c: CellV, ctx: ExecutionContext) -> Seq<Seq<char>> {
    let op = operation_of(c);
    let host_root = ctx.runtime.host_root@;
    let output = seq![
        "--output-image-format"@,
        format_text(c.output.0),
        "--output-image-file"@,
        container_path(artifact_path_text(c, ctx), host_root),
    ];
    let cosi = match c.output.1 {
        Some(level) => seq!["--cosi-compression-level"@, decimal(level as nat)],
        None => Seq::empty(),
    };
    let rpms = if op == Operation::Customize {
        rpm_args_text(c.rpm_sources, c.image_dir, host_root)
    } else {
        Seq::empty()
    };
    let cache = match ctx.runtime.image_cache_dir {
        Some(d) => seq!["--image-cache-dir"@, container_path(d@, host_root)],
        None => Seq::empty(),
    };
    output + cosi + rpms + cache
}

/// The Image Customizer argument vector for a cell.
pub open spec fn ic_args_text(c: CellV, ctx: ExecutionContext) -> Seq<Seq<char>> {
    head_args_text(c, ctx) + base_args_text(c.base, opt_text(ctx.base_ref), c.image_dir, ctx.runtime.host_root@, operation_of(c))
        + tail_args_text(c, ctx)
}

fn push_all(args: &mut Vec<String>, more: Vec<String>)
    ensures
        views(final(args)@) == views(old(args)@) + views(more@),
{
    let mut more = more;
    let ghost a = args@;
    let ghost b = more@;
    args.append(&mut more);
    assert(views(args@) =~= views(a) + views(b));
}

fn ic_head_args(cell: &Cell, context: &ExecutionContext) -> (r: Vec<String>)
    ensures
        views(r@) == head_args_text(cell.view(), *context),
{
    let operation = match cell.operation {
        Some(op) => op,
        None => Operation::Customize,
    };
    let host_root = context.runtime.host_root.as_str();
    let mut args: Vec<String> = Vec::new();
    args.push(subcommand(operation).to_owned());
    if operation == Operation::Customize {
        let wc = working_copy_path(cell, context.clone_index);
        push_all(&mut args, flag_value("--config-file", to_container_path(wc.as_str(), host_root)));
    }
    push_all(&mut args, flag_value("--log-format", "json".to_owned()));
    push_all(&mut args, flag_value("--log-color", "never".to_owned()));
    let level = match &context.runtime.log_level {
        Some(l) => l.clone(),
        None => DEFAULT_IC_LOG_LEVEL.to_owned(),
    };
    push_all(&mut args, flag_value("--log-level", level));
    match log_file_path(cell, context) {
        Some(f) => push_all(&mut args, flag_value("--log-file", to_container_path(f.as_str(), host_root))),
        None => {},
    }
    push_all(&mut args, flag_value("--build-dir", BUILD_DIR.to_owned()));
    assert(views(args@) =~= head_args_text(cell.view(), *context));
    args
}

fn rpm_args(sources: &Vec<String>, image_dir: &str, host_root: &str) -> (r: Vec<String>)
    ensures
        views(r@) == rpm_args_text(views(sources@), image_dir@, host_root@),
{
    let ghost sv = views(sources@);
    let mut args: Vec<String> = Vec::new();
    let mut i: usize = 0;
    assert(sv.subrange(0, 0) =~= Seq::<Seq<char>>::empty());
    assert(views(args@) =~= Seq::<Seq<char>>::empty());
    while i < sources.len()
        invariant
            i <= sources.len(),
            sv == views(sources@),
            views(args@) == rpm_args_text(sv.subrange(0, i as int), image_dir@, host_root@),
        decreases sources.len() - i,
    {
        assert(sv.subrange(0, i + 1).drop_last() =~= sv.subrange(0, i as int));
        let abs = absolutize(sources[i].as_str(), image_dir);
        push_all(&mut args, flag_value("--rpm-source", to_container_path(abs.as_str(), host_root)));
        i += 1;
    }
    assert(sv.subrange(0, sources@.len() as int) =~= sv);
    args
}

fn ic_tail_args(cell: &Cell, context: &ExecutionContext) -> (r: Vec<String>)
    ensures
        views(r@) == tail_args_text(cell.view(), *context),
{
    let operation = match cell.operation {
        Some(op) => op,
        None => Operation::Customize,
    };
    let host_root = context.runtime.host_root.as_str();
    let mut args: Vec<String> = Vec::new();
    push_all(&mut args, flag_value("--output-image-format", cell.output.format.as_str().to_owned()));
    let ap = artifact_path(cell, context);
    push_all(&mut args, flag_value("--output-image-file", to_container_path(ap.as_str(), host_root)));
    match cell.output.cosi_compression_level {
        Some(level) => push_all(&mut args, flag_value("--cosi-compression-level", u64_text(level as u64))),
        None => {},
    }
    if operation == Operation::Customize {
        push_all(&mut args, rpm_args(&cell.rpm_sources, cell.image_dir.as_str(), host_root));
    }
    match &context.runtime.image_cache_dir {
        Some(d) => push_all(&mut args, flag_value("--image-cache-dir", to_container_path(d.as_str(), host_root))),
        None => {},
    }
    assert(views(args@) =~= tail_args_text(cell.view(), *context));
    args
}

/// The Image Customizer argument vector for a cell.
pub fn build_ic_args(cell: &Cell, context: &ExecutionContext) -> (r: Vec<String>)
    ensures
        views(r@) == ic_args_text(cell.view(), *context),
{
    let operation = match cell.operation {
        Some(op) => op,
        None => Operation::Customize,
    };
    let mut args = ic_head_args(cell, context);
    push_all(&mut args, base_args(&cell.base, &context.base_ref, cell.image_dir.as_str(), &context.runtime, operation));
    push_all(&mut args, ic_tail_args(cell, context));
    args
}

/// The host-root bind (`/:<host root>`) that maps the host filesystem into the container.
pub open spec fn host_root_bind_text(runtime: RuntimeConfig) -> Seq<char> {
    seq!['/', ':'] + runtime.host_root@
}

/// The host-root bind of a runtime configuration.
pub fn host_root_bind(runtime: &RuntimeConfig) -> (r: String)
    ensures
        r@ == host_root_bind_text(*runtime),
{
    let mut s = "/:".to_owned();
    push_str(&mut s, runtime.host_root.as_str());
    proof {
        reveal_strlit("/:");
    }
    assert(s@ =~= host_root_bind_text(*runtime));
    s
}

/// The full container invocation for a cell: `docker run --rm [--privileged] --platform <p>
/// -v /:<host root> -v /dev:/dev <image> <Image Customizer arguments…>`.
pub open spec fn run_command_text(c: CellV, ctx: ExecutionContext) -> Seq<Seq<char>> {
    let prelude = if ctx.runtime.privileged {
        seq!["docker"@, "run"@, "--rm"@, "--privileged"@]
    } else {
        seq!["docker"@, "run"@, "--rm"@]
    };
    prelude + seq!["--platform"@, ctx.platform@, "-v"@, host_root_bind_text(ctx.runtime), "-v"@, DEV_BIND@, ctx.ic_image_ref@]
        + ic_args_text(c, ctx)
}

/// The container invocation tailor runs for a cell (what a dry run prints).
pub fn build_run_command(cell: &Cell, context: &ExecutionContext) -> (r: Vec<String>)
    ensures
        views(r@) == run_command_text(cell.view(), *context),
{
    let mut argv: Vec<String> = Vec::new();
    argv.push("docker".to_owned());
    argv.push("run".to_owned());
    argv.push("--rm".to_owned());
    if context.runtime.privileged {
        argv.push("--privileged".to_owned());
    }
    argv.push("--platform".to_owned());
    argv.push(context.platform.clone());
    argv.push("-v".to_owned());
    argv.push(host_root_bind(&context.runtime));
    argv.push("-v".to_owned());
    argv.push(DEV_BIND.to_owned());
    argv.push(context.ic_image_ref.clone());
    let ghost prefix = views(argv@);
    push_all(&mut argv, build_ic_args(cell, context));
    assert(views(argv@) =~= run_command_text(cell.view(), *context));
    argv
}

/// Whether a token is a flag (starts with `-`).
pub open spec fn is_flag(t: Seq<char>) -> bool {
    t.len() > 0 && t[0] == '-'
}

/// Tokens grouped one unit per line: a flag followed by a non-flag value shares a line with it;
/// other tokens stand alone.
pub open spec fn grouped(tokens: Seq<Seq<char>>) -> Seq<Seq<char>>
    decreases tokens.len(),
{
    if tokens.len() == 0 {
        Seq::empty()
    } else if is_flag(tokens[0]) && tokens.len() > 1 && !is_flag(tokens[1]) {
        seq![tokens[0] + seq![' '] + tokens[1]] + grouped(tokens.subrange(2, tokens.len() as int))
    } else {
        seq![tokens[0]] + grouped(tokens.drop_first())
    }
}

fn starts_with_dash(t: &String) -> (r: bool)
    ensures
        r == is_flag(t@),
{
    let cs = chars_of(t.as_str());
    cs.len() > 0 && cs[0] == '-'
}

/// Groups tokens so a flag and its value share a line, while bare tokens stand alone.
pub fn group_tokens(tokens: &Vec<String>, from: usize) -> (r: Vec<String>)
    requires
        from <= tokens.len(),
    ensures
        views(r@) == grouped(views(tokens@).subrange(from as int, tokens@.len() as int)),
{
    let ghost tv = views(tokens@);
    let mut lines: Vec<String> = Vec::new();
    let mut index = from;
    assert(views(lines@) + grouped(tv.subrange(index as int, tv.len() as int)) =~= grouped(tv.subrange(from as int, tv.len() as int)));
    while index < tokens.len()
        invariant
            from <= index <= tokens.len(),
            tv == views(tokens@),
            views(lines@) + grouped(tv.subrange(index as int, tv.len() as int)) == grouped(tv.subrange(from as int, tv.len() as int)),
        decreases tokens.len() - index,
    {
        let ghost rest = tv.subrange(index as int, tv.len() as int);
        let token = &tokens[index];
        let next_is_value = index + 1 < tokens.len() && !starts_with_dash(&tokens[index + 1]);
        let ghost before = views(lines@);
        if starts_with_dash(token) && next_is_value {
            let mut line = token.clone();
            push_char(&mut line, ' ');
            push_str(&mut line, tokens[index + 1].as_str());
            lines.push(line);
            assert(rest.subrange(2, rest.len() as int) =~= tv.subrange(index + 2, tv.len() as int));
            assert(views(lines@) =~= before.push(line@));
            assert(line@ =~= rest[0] + seq![' '] + rest[1]);
            assert(views(lines@) + grouped(tv.subrange(index + 2, tv.len() as int)) =~= before + grouped(rest));
            index += 2;
        } else {
            lines.push(token.clone());
            assert(rest.drop_first() =~= tv.subrange(index + 1, tv.len() as int));
            assert(views(lines@) =~= before.push(rest[0]));
            assert(views(lines@) + grouped(tv.subrange(index + 1, tv.len() as int)) =~= before + grouped(rest));
            index += 1;
        }
    }
    assert(tv.subrange(index as int, tv.len() as int) =~= Seq::<Seq<char>>::empty());
    assert(views(lines@) =~= grouped(tv.subrange(from as int, tv.len() as int)));
    lines
}

/// The line continuation between rendered units.
pub open spec fn continuation() -> Seq<char> {
    seq![' ', '\\', '\n', ' ', ' ']
}

/// Each unit preceded by a line continuation.
pub open spec fn continued(units: Seq<Seq<char>>) -> Seq<char>
    decreases units.len(),
{
    if units.len() == 0 {
        Seq::empty()
    } else {
        continued(units.drop_last()) + continuation() + units.last()
    }
}

/// An argument vector as a multiline shell command: the first two tokens on the first line, then
/// each flag/value pair or bare token on its own continued line.
pub open spec fn rendered_command(argv: Seq<Seq<char>>) -> Seq<char> {
    if argv.len() < 2 {
        join_with(argv, seq![' '])
    } else {
        argv[0] + seq![' '] + argv[1] + continued(grouped(argv.subrange(2, argv.len() as int)))
    }
}

/// Renders an argument vector as a copy-pasteable multiline shell command.
pub fn render_command(argv: &Vec<String>) -> (r: String)
    ensures
        r@ == rendered_command(views(argv@)),
{
    if argv.len() < 2 {
        let r = join_strings(argv, " ");
        proof {
            reveal_strlit(" ");
        }
        assert(" "@ =~= seq![' ']);
        return r;
    }
    let mut out = argv[0].clone();
    push_char(&mut out, ' ');
    push_str(&mut out, argv[1].as_str());
    let units = group_tokens(argv, 2);
    let ghost head = out@;
    let mut i: usize = 0;
    assert(views(units@).subrange(0, 0) =~= Seq::<Seq<char>>::empty());
    while i < units.len()
        invariant
            i <= units.len(),
            out@ == head + continued(views(units@).subrange(0, i as int)),
        decreases units.len() - i,
    {
        assert(views(units@).subrange(0, i + 1).drop_last() =~= views(units@).subrange(0, i as int));
        push_char(&mut out, ' ');
        push_char(&mut out, '\\');
        push_char(&mut out, '\n');
        push_char(&mut out, ' ');
        push_char(&mut out, ' ');
        push_str(&mut out, units[i].as_str());
        assert(out@ =~= head + continued(views(units@).subrange(0, i + 1)));
        i += 1;
    }
    assert(views(units@).subrange(0, units@.len() as int) =~= views(units@));
    out
}

proof fn lemma_join_front(parts: Seq<Seq<char>>, sep: Seq<char>)
    requires
        parts.len() >= 2,
    ensures
        join_with(parts, sep) == parts[0] + sep + join_with(parts.drop_first(), sep),
    decreases parts.len(),
{
    if parts.len() == 2 {
        assert(parts.drop_first().len() == 1);
        assert(join_with(parts.drop_first(), sep) == parts[1]);
        assert(parts.drop_last().len() == 1);
        assert(join_with(parts.drop_last(), sep) == parts[0]);
    } else {
        lemma_join_front(parts.drop_last(), sep);
        assert(parts.drop_last().drop_first() =~= parts.drop_first().drop_last());
        assert(parts.drop_first().last() == parts.last());
        assert(parts.drop_last()[0] == parts[0]);
        let a = parts[0];
        let b = join_with(parts.drop_first().drop_last(), sep);
        let c = parts.last();
        assert(join_with(parts, sep) == join_with(parts.drop_last(), sep) + sep + c);
        assert(join_with(parts.drop_first(), sep) == b + sep + c);
        assert(a + sep + b + sep + c =~= a + sep + (b + sep + c));
    }
}

proof fn lemma_grouped_len(tokens: Seq<Seq<char>>)
    ensures
        grouped(tokens).len() > 0 <==> tokens.len() > 0,
{
}

/// Grouping flags with their values puts every token on some line, in order: joining the lines
/// with spaces gives exactly the tokens joined with spaces.
pub proof fn law_grouping_keeps_every_token(tokens: Seq<Seq<char>>)
    ensures
        join_with(grouped(tokens), seq![' ']) == join_with(tokens, seq![' ']),
    decreases tokens.len(),
{
    let sp = seq![' '];
    if tokens.len() == 0 {
    } else if is_flag(tokens[0]) && tokens.len() > 1 && !is_flag(tokens[1]) {
        let rest = tokens.subrange(2, tokens.len() as int);
        let head = tokens[0] + sp + tokens[1];
        law_grouping_keeps_every_token(rest);
        if rest.len() == 0 {
            assert(grouped(rest) == Seq::<Seq<char>>::empty());
            assert(grouped(tokens) =~= seq![head]);
            assert(tokens.len() == 2);
            assert(tokens.drop_last() =~= seq![tokens[0]]);
            assert(join_with(tokens.drop_last(), sp) == tokens[0]);
            assert(join_with(tokens, sp) == tokens[0] + sp + tokens[1]);
            assert(join_with(grouped(tokens), sp) == head);
        } else {
            lemma_grouped_len(rest);
            let g = seq![head] + grouped(rest);
            lemma_join_front(g, sp);
            assert(g.drop_first() =~= grouped(rest));
            lemma_join_front(tokens, sp);
            lemma_join_front(tokens.drop_first(), sp);
            assert(tokens.drop_first().drop_first() =~= rest);
            assert(head + sp + join_with(rest, sp) =~= tokens[0] + sp + (tokens[1] + sp + join_with(rest, sp)));
            assert(grouped(tokens) == g);
        }
    } else {
        let rest = tokens.drop_first();
        law_grouping_keeps_every_token(rest);
        if rest.len() == 0 {
            assert(grouped(rest) == Seq::<Seq<char>>::empty());
            assert(grouped(tokens) =~= seq![tokens[0]]);
            assert(join_with(grouped(tokens), sp) == tokens[0]);
        } else {
            lemma_grouped_len(rest);
            let g = seq![tokens[0]] + grouped(rest);
            lemma_join_front(g, sp);
            assert(g.drop_first() =~= grouped(rest));
            lemma_join_front(tokens, sp);
            assert(grouped(tokens) == g);
        }
    }
}

/// One `--rpm-source <container path>` pair per RPM source, in order: the arguments are twice as
/// many as the sources, and the `k`-th pair is the flag followed by the container path of the
/// `k`-th source resolved against the image directory.
pub proof fn law_one_rpm_pair_per_source(sources: Seq<Seq<char>>, image_dir: Seq<char>, host_root: Seq<char>)
    ensures
        rpm_args_text(sources, image_dir, host_root).len() == 2 * sources.len(),
        forall|k: int| 0 <= k < sources.len() ==> #[trigger] rpm_pair_at(rpm_args_text(sources, image_dir, host_root), k,
            container_path(absolutized(sources[k], image_dir), host_root)),
    decreases sources.len(),
{
    if sources.len() > 0 {
        let front = sources.drop_last();
        law_one_rpm_pair_per_source(front, image_dir, host_root);
        let prev = rpm_args_text(front, image_dir, host_root);
        let all = rpm_args_text(sources, image_dir, host_root);
        let pair = seq!["--rpm-source"@, container_path(absolutized(sources.last(), image_dir), host_root)];
        assert(all == prev + pair);
        assert forall|k: int| 0 <= k < sources.len() implies #[trigger] rpm_pair_at(all, k,
            container_path(absolutized(sources[k], image_dir), host_root)) by {
            if k < front.len() {
                assert(front[k] == sources[k]);
                assert(rpm_pair_at(prev, k, container_path(absolutized(front[k], image_dir), host_root)));
            } else {
                assert(2 * k == prev.len());
            }
        }
    }
}

/// Positions `2k` and `2k + 1` of `args` are `--rpm-source` and `path`.
pub open spec fn rpm_pair_at(args: Seq<Seq<char>>, k: int, path: Seq<char>) -> bool {
    &&& 0 <= 2 * k + 1 < args.len()
    &&& args[2 * k] == "--rpm-source"@
    &&& args[2 * k + 1] == path
}

} // verus!
