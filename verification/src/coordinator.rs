//! The sync coordinator's decisions: which channel stages run, when a
//! batch's result may be committed to the history ledger, and when the
//! retention stage may run at all.
//!
//! The stages run strictly in order — installer artifacts, then the stable,
//! beta and nightly channels, then retention — and every decision here is a
//! pure function of configuration and recorded failures.

use vstd::prelude::*;
use crate::errors::SyncError;
use crate::history::ChannelHistoryFile;
use crate::history::add_to_channel_history;
use crate::history::hist_wf;
use crate::history::spec_add;

verus! {

/// Mirror-wide settings the sync consults.
pub struct MirrorSection {
    pub retries: usize,
}

/// The toolchain-mirroring settings.
pub struct RustupSection {
    pub source: String,
    pub download_threads: usize,
    pub target_platform: Option<String>,
    pub target_extension: Option<String>,
    pub keep_latest_stables: Option<usize>,
    pub keep_latest_betas: Option<usize>,
    pub keep_latest_nightlies: Option<usize>,
}

/// A channel stage runs unless its keep-count is configured as exactly zero.
pub open spec fn spec_channel_runs(keep: Option<usize>) -> bool {
    match keep {
        Some(k) => k != 0,
        None => true,
    }
}

pub fn channel_should_sync(keep: &Option<usize>) -> (r: bool)
    ensures
        r == spec_channel_runs(*keep),
{
    match keep {
        Some(k) => *k != 0,
        None => true,
    }
}

/// Which channel stages a run will attempt.
#[derive(Clone, Copy, Debug, PartialEq, Eq, Structural)]
pub struct SyncPlan {
    pub sync_stable: bool,
    pub sync_beta: bool,
    pub sync_nightly: bool,
}

pub fn sync_stage_plan(rustup: &RustupSection) -> (r: SyncPlan)
    ensures
        r.sync_stable == spec_channel_runs(rustup.keep_latest_stables),
        r.sync_beta == spec_channel_runs(rustup.keep_latest_betas),
        r.sync_nightly == spec_channel_runs(rustup.keep_latest_nightlies),
{
    SyncPlan {
        sync_stable: channel_should_sync(&rustup.keep_latest_stables),
        sync_beta: channel_should_sync(&rustup.keep_latest_betas),
        sync_nightly: channel_should_sync(&rustup.keep_latest_nightlies),
    }
}

/// Why the retention stage runs or is skipped.
#[derive(Clone, Copy, Debug, PartialEq, Eq, Structural)]
pub enum RetentionDecision {
    /// Every channel has a configured keep-count and no stage failed.
    Run,
    /// At least one channel's keep-count is unset; deleting under an
    /// unknown retention intent is refused wholesale.
    SkipUnconfigured,
    /// A channel stage recorded failures; nothing is deleted after a
    /// partial sync.
    SkipDueToFailures,
}

/// Retention runs only when all three keep-counts are configured and no
/// run-level failure flag was set.
pub open spec fn spec_retention_decision(
    keep_stables: Option<usize>,
    keep_betas: Option<usize>,
    keep_nightlies: Option<usize>,
    failures: bool,
) -> RetentionDecision {
    if keep_stables is None || keep_betas is None || keep_nightlies is None {
        RetentionDecision::SkipUnconfigured
    } else if failures {
        RetentionDecision::SkipDueToFailures
    } else {
        RetentionDecision::Run
    }
}

pub fn retention_decision(rustup: &RustupSection, failures: bool) -> (r: RetentionDecision)
    ensures
        r == spec_retention_decision(
            rustup.keep_latest_stables,
            rustup.keep_latest_betas,
            rustup.keep_latest_nightlies,
            failures,
        ),
{
    if rustup.keep_latest_stables.is_none() || rustup.keep_latest_betas.is_none()
        || rustup.keep_latest_nightlies.is_none() {
        RetentionDecision::SkipUnconfigured
    } else if failures {
        RetentionDecision::SkipDueToFailures
    } else {
        RetentionDecision::Run
    }
}

/// Zero failures is the sole gate for committing a batch to the ledger.
pub open spec fn spec_commit_gate(failed_count: nat) -> bool {
    failed_count == 0
}

/// What happens after a channel's download batch: with zero failures the
/// ledger gains the batch under its release date; with any failure the
/// batch is refused and the ledger value to persist is withheld entirely.
pub fn channel_post_batch(
    history: &ChannelHistoryFile,
    date: &str,
    files: &Vec<(String, String)>,
    failed_count: usize,
) -> (r: Result<ChannelHistoryFile, SyncError>)
    requires
        hist_wf(history@),
    ensures
        failed_count == 0 ==> (r matches Ok(h) && h@ == spec_add(
            history@,
            date@,
            crate::manifest::pairs_view(files@).map_values(|p: (Seq<char>, Seq<char>)| p.0),
        ) && hist_wf(h@)),
        failed_count != 0 ==> (r matches Err(e) && e == SyncError::FailedDownloads(failed_count)),
{
    if failed_count == 0 {
        Ok(add_to_channel_history(history, date, files))
    } else {
        Err(SyncError::FailedDownloads(failed_count))
    }
}

/// Partial failure gates the run: a batch with any failed artifact is never
/// committed to the ledger, and the retention stage is skipped for the
/// whole run.
pub proof fn lemma_partial_failure_gating(
    failed_count: nat,
    keep_stables: Option<usize>,
    keep_betas: Option<usize>,
    keep_nightlies: Option<usize>,
)
    requires
        failed_count > 0,
    ensures
        !spec_commit_gate(failed_count),
        spec_retention_decision(keep_stables, keep_betas, keep_nightlies, true)
            != RetentionDecision::Run,
{
}

/// The standalone installer's relative path and source URL for one
/// platform.
pub fn rustup_init_paths(source: &str, platform: &str, is_exe: bool) -> (r: (String, String))
    ensures
        is_exe ==> r.0@ == "rustup/dist/"@ + platform@ + "/rustup-init.exe"@,
        !is_exe ==> r.0@ == "rustup/dist/"@ + platform@ + "/rustup-init"@,
        r.1@ == source@ + "/"@ + r.0@,
{
    let mut rel = String::new();
    rel.append("rustup/dist/");
    rel.append(platform);
    if is_exe {
        rel.append("/rustup-init.exe");
        proof {
            assert(rel@ =~= "rustup/dist/"@ + platform@ + "/rustup-init.exe"@);
        }
    } else {
        rel.append("/rustup-init");
        proof {
            assert(rel@ =~= "rustup/dist/"@ + platform@ + "/rustup-init"@);
        }
    }
    let mut url = source.to_owned();
    url.append("/");
    url.append(rel.as_str());
    proof {
        assert(url@ =~= source@ + "/"@ + rel@);
    }
    (rel, url)
}

/// A channel's manifest document: its relative path and source URL.
pub fn channel_paths(source: &str, channel: &str) -> (r: (String, String))
    ensures
        r.0@ == "dist/channel-rust-"@ + channel@ + ".toml"@,
        r.1@ == source@ + "/"@ + r.0@,
{
    let mut rel = String::new();
    rel.append("dist/channel-rust-");
    rel.append(channel);
    rel.append(".toml");
    proof {
        assert(rel@ =~= "dist/channel-rust-"@ + channel@ + ".toml"@);
    }
    let mut url = source.to_owned();
    url.append("/");
    url.append(rel.as_str());
    proof {
        assert(url@ =~= source@ + "/"@ + rel@);
    }
    (rel, url)
}

/// A channel's installer release descriptor: its relative path and source
/// URL.
pub fn release_paths(source: &str, channel: &str) -> (r: (String, String))
    ensures
        r.0@ == "rustup/release-"@ + channel@ + ".toml"@,
        r.1@ == source@ + "/"@ + r.0@,
{
    let mut rel = String::new();
    rel.append("rustup/release-");
    rel.append(channel);
    rel.append(".toml");
    proof {
        assert(rel@ =~= "rustup/release-"@ + channel@ + ".toml"@);
    }
    let mut url = source.to_owned();
    url.append("/");
    url.append(rel.as_str());
    proof {
        assert(url@ =~= source@ + "/"@ + rel@);
    }
    (rel, url)
}

/// The source URL of one artifact, from its relative path.
pub fn target_url(source: &str, rel: &str) -> (r: String)
    ensures
        r@ == source@ + "/"@ + rel@,
{
    let mut url = source.to_owned();
    url.append("/");
    url.append(rel);
    proof {
        assert(url@ =~= source@ + "/"@ + rel@);
    }
    url
}

/// The name of a channel's persisted history file.
pub fn history_file_name(channel: &str) -> (r: String)
    ensures
        r@ == "mirror-"@ + channel@ + "-history.toml"@,
{
    let mut name = String::new();
    name.append("mirror-");
    name.append(channel);
    name.append("-history.toml");
    proof {
        assert(name@ =~= "mirror-"@ + channel@ + "-history.toml"@);
    }
    name
}

} // verus!
