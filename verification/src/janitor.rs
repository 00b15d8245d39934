//! The ownership janitor: a short-lived unprivileged container that hands root-owned outputs back
//! to the caller (`chown`) or removes them (`rm`), so cleaning never needs `sudo`.
use vstd::prelude::*;
use crate::error::ExecError;
use crate::ports::{ContainerConfig, ContainerResult, RuntimeConfig};
use crate::text::{decimal, i64_text, push_char, push_str, push_string, signed_decimal, u64_text, views};

verus! {

/// The platform the janitor runs on.
pub const JANITOR_PLATFORM: &'static str = "linux/amd64";

/// The bind that maps a host path to the same path in the container: `<path>:<path>`.
pub open spec fn identity_bind_text(path: Seq<char>) -> Seq<char> {
    path + seq![':'] + path
}

/// The identity bind of a path.
pub fn identity_bind(path: &str) -> (r: String)
    ensures
        r@ == identity_bind_text(path@),
{
    let mut s = path.to_owned();
    push_char(&mut s, ':');
    push_str(&mut s, path);
    s
}

/// A path as a command argument.
pub fn path_arg(path: &str) -> (r: String)
    ensures
        r@ == path@,
{
    path.to_owned()
}

fn append_paths(args: &mut Vec<String>, paths: &Vec<String>)
    ensures
        views(final(args)@) == views(old(args)@) + views(paths@),
{
    let ghost start = views(args@);
    let mut i: usize = 0;
    assert(start + views(paths@).subrange(0, 0) =~= start);
    while i < paths.len()
        invariant
            i <= paths.len(),
            views(args@) == start + views(paths@).subrange(0, i as int),
        decreases paths.len() - i,
    {
        push_string(args, path_arg(paths[i].as_str()));
        assert(views(paths@).subrange(0, i + 1) =~= views(paths@).subrange(0, i as int).push(paths@[i as int]@));
        assert(views(args@) =~= start + views(paths@).subrange(0, i + 1));
        i += 1;
    }
    assert(views(paths@).subrange(0, paths@.len() as int) =~= views(paths@));
}

/// `chown -h -R <uid>:<gid> -- <paths…>`.
pub open spec fn chown_args_text(uid: u32, gid: u32, paths: Seq<Seq<char>>) -> Seq<Seq<char>> {
    seq!["/bin/chown"@, "-h"@, "-R"@, decimal(uid as nat) + seq![':'] + decimal(gid as nat), "--"@] + paths
}

/// The janitor command that gives `paths` back to `uid:gid`.
pub fn chown_args(uid: u32, gid: u32, paths: &Vec<String>) -> (r: Vec<String>)
    ensures
        views(r@) == chown_args_text(uid, gid, views(paths@)),
{
    let mut args: Vec<String> = Vec::new();
    push_string(&mut args, "/bin/chown".to_owned());
    push_string(&mut args, "-h".to_owned());
    push_string(&mut args, "-R".to_owned());
    let mut owner = u64_text(uid as u64);
    push_char(&mut owner, ':');
    let g = u64_text(gid as u64);
    push_str(&mut owner, g.as_str());
    assert(owner@ =~= decimal(uid as nat) + seq![':'] + decimal(gid as nat));
    push_string(&mut args, owner);
    push_string(&mut args, "--".to_owned());
    let ghost head = views(args@);
    assert(head =~= seq!["/bin/chown"@, "-h"@, "-R"@, decimal(uid as nat) + seq![':'] + decimal(gid as nat), "--"@]);
    append_paths(&mut args, paths);
    args
}

/// `rm -rf -- <paths…>`.
pub open spec fn remove_args_text(paths: Seq<Seq<char>>) -> Seq<Seq<char>> {
    seq!["/bin/rm"@, "-rf"@, "--"@] + paths
}

/// The janitor command that removes `paths`.
pub fn remove_args(paths: &Vec<String>) -> (r: Vec<String>)
    ensures
        views(r@) == remove_args_text(views(paths@)),
{
    let mut args: Vec<String> = Vec::new();
    push_string(&mut args, "/bin/rm".to_owned());
    push_string(&mut args, "-rf".to_owned());
    push_string(&mut args, "--".to_owned());
    assert(views(args@) =~= seq!["/bin/rm"@, "-rf"@, "--"@]);
    append_paths(&mut args, paths);
    args
}

/// The error when no janitor image is configured.
pub const NO_JANITOR: &'static str = "no janitor image configured: set `runtime.janitorImage` in tailor.yaml to normalize ownership of Image Customizer's root-owned outputs";

/// The janitor container for a command over `paths`: the configured janitor image, unprivileged,
/// on `linux/amd64`, named `tailor-janitor-<pid>`, with an identity bind per path. Without a
/// janitor image there is nothing to run.
pub fn janitor_container(config: &RuntimeConfig, args: Vec<String>, paths: &Vec<String>, pid: u32) -> (r: Result<ContainerConfig, ExecError>)
    ensures
        config.janitor_image@.len() == 0 ==> (r matches Err(ExecError::Runtime(m)) && m@ == NO_JANITOR@),
        config.janitor_image@.len() > 0 ==> (r matches Ok(c) && c.image_ref@ == config.janitor_image@
            && c.platform@ == JANITOR_PLATFORM@ && c.name@ == "tailor-janitor-"@ + decimal(pid as nat)
            && views(c.args@) == views(args@)
            && views(c.binds@) == views(paths@).map_values(|p: Seq<char>| identity_bind_text(p))
            && !c.privileged),
{
    if config.janitor_image.as_str().is_empty() {
        return Err(ExecError::Runtime(NO_JANITOR.to_owned()));
    }
    let mut binds: Vec<String> = Vec::new();
    let mut i: usize = 0;
    while i < paths.len()
        invariant
            i <= paths.len(),
            views(binds@) == views(paths@).subrange(0, i as int).map_values(|p: Seq<char>| identity_bind_text(p)),
        decreases paths.len() - i,
    {
        push_string(&mut binds, identity_bind(paths[i].as_str()));
        assert(views(paths@).subrange(0, i + 1) =~= views(paths@).subrange(0, i as int).push(paths@[i as int]@));
        assert(views(binds@) =~= views(paths@).subrange(0, i + 1).map_values(|p: Seq<char>| identity_bind_text(p)));
        i += 1;
    }
    assert(views(paths@).subrange(0, paths@.len() as int) =~= views(paths@));
    let mut name = "tailor-janitor-".to_owned();
    let n = u64_text(pid as u64);
    push_str(&mut name, n.as_str());
    Ok(ContainerConfig {
        image_ref: config.janitor_image.clone(),
        platform: JANITOR_PLATFORM.to_owned(),
        name,
        args,
        binds,
        privileged: false,
    })
}

/// A janitor run succeeds when it exits 0; otherwise its exit code and logs are the error.
pub fn janitor_outcome(result: &ContainerResult) -> (r: Result<(), ExecError>)
    ensures
        result.exit_code == 0 ==> r is Ok,
        result.exit_code != 0 ==> (r matches Err(ExecError::Runtime(m))
            && m@ == "janitor exited with code "@ + signed_decimal(result.exit_code as int) + ": "@ + result.logs@),
{
    if result.exit_code == 0 {
        return Ok(());
    }
    let mut m = "janitor exited with code ".to_owned();
    let code = i64_text(result.exit_code);
    push_str(&mut m, code.as_str());
    push_str(&mut m, ": ");
    push_str(&mut m, result.logs.as_str());
    Err(ExecError::Runtime(m))
}

} // verus!
