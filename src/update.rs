use vstd::prelude::*;

use crate::error::CliError;
use crate::manifest::{
    download_path, download_path_for, is_valid_version, tool_path, tool_path_for, valid_version,
    Manifest, ManifestModel,
};
use crate::text::slice_owned;
use crate::version::{is_newer, lemma_not_newer_than_itself, newer_than};

verus! {

/// An update is due when the remote's latest version is newer than the current
/// one; with nothing installed one always is.
pub open spec fn needs_update(current: Option<Seq<char>>, remote: Seq<char>) -> bool {
    match current {
        Some(c) => is_newer(remote, c),
        None => true,
    }
}

/// What the updater does once it knows the remote's latest version.
pub enum UpdatePlan {
    /// The latest version is not newer than the current one: nothing is written.
    UpToDate,
    /// Download `version` to `temp_path`, then rename it to `final_path`.
    Fetch { version: String, temp_path: String, final_path: String },
}

/// Reads the latest version identifier from the remote's answer: the identifier,
/// optionally followed by one line break.
pub fn read_remote_version(body: &str) -> (r: Result<String, CliError>)
    ensures
        match r {
            Ok(v) => valid_version(v@) && (body@ == v@ || body@ == v@ + "\n"@),
            Err(e) => e == CliError::UpdateCheckFailed && forall|v: Seq<char>|
                valid_version(v) ==> body@ != v && body@ != v + "\n"@,
        },
{
    proof {
        reveal_strlit("\n");
    }
    let n = body.unicode_len();
    let end = if n > 0 && body.get_char(n - 1) == '\n' {
        n - 1
    } else {
        n
    };
    let v = slice_owned(body, 0, end);
    if is_valid_version(v.as_str()) {
        if end < n {
            assert(body@ =~= v@ + "\n"@);
        } else {
            assert(body@ =~= v@);
        }
        Ok(v)
    } else {
        assert forall|u: Seq<char>| valid_version(u) implies body@ != u && body@ != u + "\n"@ by {
            if body@ == u {
                if end < n {
                    assert(crate::manifest::is_version_char(u[n - 1]));
                } else {
                    assert(v@ =~= u);
                }
            }
            if body@ == u + "\n"@ {
                assert(v@ =~= u);
            }
        }
        Err(CliError::UpdateCheckFailed)
    }
}

/// Decides, from the manifest and the remote's latest version, whether to fetch.
pub fn plan_update(manifest: &Manifest, remote_version: &String) -> (r: Result<UpdatePlan, CliError>)
    ensures
        !valid_version(remote_version@) ==> r == Err::<UpdatePlan, CliError>(
            CliError::UpdateCheckFailed,
        ),
        valid_version(remote_version@) ==> (r matches Ok(plan) && (plan is UpToDate
            <==> !needs_update(manifest@.current, remote_version@))),
        r matches Ok(UpdatePlan::Fetch { version, temp_path, final_path }) ==> version@
            == remote_version@ && temp_path@ == download_path(manifest.install_root@, version@)
            && final_path@ == tool_path(manifest.install_root@, version@),
{
    if !is_valid_version(remote_version.as_str()) {
        return Err(CliError::UpdateCheckFailed);
    }
    let due = match &manifest.current_version {
        Some(c) => newer_than(remote_version.as_str(), c.as_str()),
        None => true,
    };
    if !due {
        Ok(UpdatePlan::UpToDate)
    } else {
        let root = manifest.install_root.as_str();
        let v = remote_version.as_str();
        Ok(
            UpdatePlan::Fetch {
                version: remote_version.clone(),
                temp_path: download_path_for(root, v),
                final_path: tool_path_for(root, v),
            },
        )
    }
}

/// Whether a download is complete: the source announced its length and exactly
/// that many bytes arrived. A short or unannounced download is a failed check.
pub fn check_download(received: u64, expected: Option<u64>) -> (r: Result<(), CliError>)
    ensures
        r is Ok <==> expected == Some(received),
        r is Err ==> r == Err::<(), CliError>(CliError::UpdateCheckFailed),
{
    match expected {
        Some(n) => if n == received {
            Ok(())
        } else {
            Err(CliError::UpdateCheckFailed)
        },
        None => Err(CliError::UpdateCheckFailed),
    }
}

/// Records a downloaded `version` in the manifest once its download is complete;
/// after a short download the manifest stays exactly as it was.
pub fn apply_download(
    manifest: &mut Manifest,
    version: String,
    received: u64,
    expected: Option<u64>,
) -> (r: Result<(), CliError>)
    requires
        old(manifest).wf(),
        valid_version(version@),
    ensures
        r is Ok <==> expected == Some(received),
        r is Ok ==> final(manifest)@ == old(manifest)@.record(version@),
        r is Err ==> r == Err::<(), CliError>(CliError::UpdateCheckFailed) && final(manifest)@
            == old(manifest)@,
        final(manifest).install_root == old(manifest).install_root,
        final(manifest).wf(),
{
    check_download(received, expected)?;
    manifest.record_new_version(version);
    Ok(())
}

/// Once an update to `v` has completed, a second run against the same latest version
/// finds `v` current and plans no writes; recording `v` again would change nothing.
pub proof fn lemma_second_update_is_noop(m: ManifestModel, v: Seq<char>)
    requires
        m.wf(),
        valid_version(v),
    ensures
        !needs_update(m.record(v).current, v),
        m.record(v).record(v) == m.record(v),
{
    lemma_not_newer_than_itself(v);
}

/// The file a download is written to is never the archive path of any version, so
/// a truncated download, which is never recorded, cannot become the current tool.
pub proof fn lemma_download_never_current(root: Seq<char>, v: Seq<char>, w: Seq<char>)
    ensures
        download_path(root, v) != tool_path(root, w),
{
    reveal_strlit(".part");
    reveal_strlit(".jar");
    let d = download_path(root, v);
    let p = tool_path(root, w);
    assert(d[d.len() - 1] == 't');
    assert(p[p.len() - 1] == 'r');
}

} // verus!
