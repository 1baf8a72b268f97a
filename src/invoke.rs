use vstd::prelude::*;

use crate::config::{views, Config};
use crate::error::CliError;
use crate::manifest::{tool_path, Manifest};

verus! {

/// The argument vector that launches the tool archive at `path`: the runtime, the
/// classpath flag and path, then the launcher arguments, then the tool's own
/// arguments, each group in its given order.
pub open spec fn composed_argv(
    path: Seq<char>,
    launcher: Seq<Seq<char>>,
    tool: Seq<Seq<char>>,
) -> Seq<Seq<char>> {
    seq!["java"@, "-cp"@, path] + launcher + tool
}

/// The words of `s` joined by single spaces.
pub open spec fn joined(s: Seq<Seq<char>>) -> Seq<char>
    decreases s.len(),
{
    if s.len() == 0 {
        Seq::empty()
    } else if s.len() == 1 {
        s[0]
    } else {
        joined(s.drop_last()) + " "@ + s.last()
    }
}

/// How the external process ended: its exit code, where it returned one, and the
/// signal that terminated it, where the platform reports one.
#[derive(Clone, Copy, Debug, PartialEq, Eq, Structural)]
pub struct ToolExit {
    pub code: Option<i32>,
    pub signal: Option<i32>,
}

impl ToolExit {
    pub fn exit_code(&self) -> (r: Option<i32>)
        ensures
            r == self.code,
    {
        self.code
    }

    /// Always `None` on platforms without termination signals.
    pub fn terminating_signal(&self) -> (r: Option<i32>)
        ensures
            r == self.signal,
    {
        self.signal
    }
}

/// Appends clones of all of `src` to `dst`.
fn push_all(dst: &mut Vec<String>, src: &Vec<String>)
    ensures
        views(final(dst)@) == views(old(dst)@) + views(src@),
{
    let ghost start = views(dst@);
    let mut i: usize = 0;
    while i < src.len()
        invariant
            i <= src@.len(),
            views(dst@) == start + views(src@.subrange(0, i as int)),
        decreases src@.len() - i,
    {
        let ghost d0 = dst@;
        let item = src[i].clone();
        dst.push(item);
        assert(dst@ == d0.push(src@[i as int]));
        assert(views(d0.push(src@[i as int])) =~= views(d0).push(src@[i as int]@));
        assert(views(src@.subrange(0, i + 1)) =~= views(src@.subrange(0, i as int)).push(src@[i as int]@));
        assert(views(dst@) =~= start + views(src@.subrange(0, i + 1)));
        i = i + 1;
    }
    assert(src@.subrange(0, i as int) =~= src@);
}

/// Composes the argument vector that launches the tool archive at `tool_path`.
pub fn compose_argv(
    tool_path: &String,
    launcher_args: &Vec<String>,
    tool_args: &Vec<String>,
) -> (r: Vec<String>)
    ensures
        views(r@) == composed_argv(tool_path@, views(launcher_args@), views(tool_args@)),
{
    let mut v: Vec<String> = Vec::new();
    v.push(String::from_str("java"));
    v.push(String::from_str("-cp"));
    v.push(tool_path.clone());
    assert(views(v@) =~= seq!["java"@, "-cp"@, tool_path@]);
    push_all(&mut v, launcher_args);
    push_all(&mut v, tool_args);
    assert(views(v@) =~= composed_argv(tool_path@, views(launcher_args@), views(tool_args@)));
    v
}

/// Resolves the current tool archive and composes the argument vector that runs it
/// with the configured launcher arguments and `tool_args`. Fails with
/// `NoToolInstalled`, before anything could be launched, when no version is current.
pub fn plan_exec(manifest: &Manifest, config: &Config, tool_args: &Vec<String>) -> (r: Result<
    Vec<String>,
    CliError,
>)
    ensures
        match manifest@.current {
            Some(v) => r matches Ok(argv) && views(argv@) == composed_argv(
                tool_path(manifest.install_root@, v),
                config@,
                views(tool_args@),
            ),
            None => r == Err::<Vec<String>, CliError>(CliError::NoToolInstalled),
        },
{
    let path = manifest.current_tool_path()?;
    Ok(compose_argv(&path, &config.launcher_args, tool_args))
}

/// The command line that is shown before the tool is launched.
pub fn command_line(argv: &Vec<String>) -> (r: String)
    ensures
        r@ == joined(views(argv@)),
{
    let mut line = String::new();
    let mut i: usize = 0;
    while i < argv.len()
        invariant
            i <= argv@.len(),
            line@ == joined(views(argv@.subrange(0, i as int))),
        decreases argv@.len() - i,
    {
        let ghost prev = views(argv@.subrange(0, i as int));
        let ghost next = views(argv@.subrange(0, i + 1));
        assert(next.drop_last() =~= prev);
        if i > 0 {
            line.append(" ");
        } else {
            assert(line@ + argv@[0]@ =~= argv@[0]@);
        }
        line.append(argv[i].as_str());
        i = i + 1;
    }
    assert(argv@.subrange(0, i as int) =~= argv@);
    line
}

/// Maps how the tool ended to the outcome of the invocation: success exactly when
/// it exited with code zero, otherwise `ExternalToolFailed` with its raw code and signal.
pub fn exit_outcome(status: ToolExit) -> (r: Result<(), CliError>)
    ensures
        r is Ok <==> (status.code == Some(0i32) && status.signal is None),
        r is Err ==> r == Err::<(), CliError>(
            CliError::ExternalToolFailed { code: status.code, signal: status.signal },
        ),
{
    match (status.code, status.signal) {
        (Some(0i32), None) => Ok(()),
        _ => Err(CliError::ExternalToolFailed { code: status.code, signal: status.signal }),
    }
}

/// The tool arguments that translate the PlusCal algorithm in `spec_file`.
pub fn translate_args(spec_file: &String) -> (r: Vec<String>)
    ensures
        views(r@) == seq!["pcal.trans"@, spec_file@],
{
    let mut v: Vec<String> = Vec::new();
    v.push(String::from_str("pcal.trans"));
    v.push(spec_file.clone());
    assert(views(v@) =~= seq!["pcal.trans"@, spec_file@]);
    v
}

} // verus!
