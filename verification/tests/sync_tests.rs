use panamax::batch::{batch_outcome, batch_result, reporter_counts, worker_messages,
    ProgressBarMessage};
use panamax::coordinator::{
    channel_paths, channel_post_batch, channel_should_sync, history_file_name, release_paths,
    retention_decision, rustup_init_paths, sync_stage_plan, target_url, RetentionDecision,
    RustupSection,
};
use panamax::errors::SyncError;
use panamax::fetch::{
    append_to_path, classify_attempt, hash_matches, hex_of, publish_plan, run_fetch_attempts,
    verify_body, AttemptOutcome, FileOp,
};
use panamax::history::ChannelHistoryFile;
use panamax::manifest::rustup_download_list;
use panamax::platforms::{get_platforms, get_platforms_exe};

fn rustup_section(ks: Option<usize>, kb: Option<usize>, kn: Option<usize>) -> RustupSection {
    RustupSection {
        source: "https://example.com/rust".to_string(),
        download_threads: 4,
        target_platform: None,
        target_extension: None,
        keep_latest_stables: ks,
        keep_latest_betas: kb,
        keep_latest_nightlies: kn,
    }
}

#[test]
fn platform_tables_have_the_documented_sizes() {
    assert_eq!(get_platforms(None).len(), 24);
    assert_eq!(get_platforms_exe(None).len(), 4);
    assert_eq!(get_platforms(None)[0], "aarch64-linux-android");
}

#[test]
fn platform_selection_filters_the_table() {
    let one = get_platforms(Some("x86_64-unknown-linux-gnu"));
    assert_eq!(one, vec!["x86_64-unknown-linux-gnu".to_string()]);
    assert!(get_platforms(Some("not-a-platform")).is_empty());
    assert!(get_platforms(Some("i686-pc-windows-msvc")).is_empty());
    let exe = get_platforms_exe(Some("i686-pc-windows-msvc"));
    assert_eq!(exe, vec!["i686-pc-windows-msvc".to_string()]);
}

#[test]
fn always_failing_fetch_uses_exactly_its_retry_budget() {
    let outcomes = vec![AttemptOutcome::HashMismatch; 5];
    let (attempts, ok) = run_fetch_attempts(&outcomes, 3);
    assert_eq!(attempts, 3);
    assert!(!ok);
}

#[test]
fn fetch_stops_at_first_success() {
    let outcomes = vec![
        AttemptOutcome::TransportError,
        AttemptOutcome::Success,
        AttemptOutcome::Success,
    ];
    let (attempts, ok) = run_fetch_attempts(&outcomes, 3);
    assert_eq!(attempts, 2);
    assert!(ok);
}

#[test]
fn failed_verification_never_promotes_the_temporary() {
    let plan = publish_plan(false, true);
    assert_eq!(plan, vec![FileOp::WriteTemp, FileOp::DiscardTemp]);
    assert!(!plan.contains(&FileOp::PromoteTemp));
    assert!(!plan.contains(&FileOp::WriteDirect));
}

#[test]
fn passed_verification_promotes_the_temporary() {
    let plan = publish_plan(true, true);
    assert_eq!(plan, vec![FileOp::WriteTemp, FileOp::PromoteTemp]);
}

#[test]
fn direct_write_skips_the_temporary() {
    assert_eq!(publish_plan(true, false), vec![FileOp::WriteDirect]);
    assert!(publish_plan(false, false).is_empty());
}

#[test]
fn sha256_verification_matches_known_digests() {
    assert!(hash_matches(
        b"",
        "e3b0c44298fc1c149afbf4c8996fb92427ae41e4649b934ca495991b7852b855"
    ));
    assert!(hash_matches(
        b"abc",
        "ba7816bf8f01cfea414140de5dae2223b00361a396177a9cb410ff61f20015ad"
    ));
    assert!(!hash_matches(b"abc", "deadbeef"));
}

#[test]
fn hex_encodes_bytes_in_lowercase_pairs() {
    assert_eq!(hex_of(&vec![0u8, 15, 255, 160]), "000fffa0");
}

#[test]
fn missing_expected_hash_disables_verification() {
    assert!(verify_body(b"anything", None));
    assert!(!verify_body(b"anything", Some("00")));
}

#[test]
fn attempts_are_classified_in_order() {
    assert_eq!(classify_attempt(false, false, false), AttemptOutcome::TransportError);
    assert_eq!(classify_attempt(true, false, true), AttemptOutcome::BadStatus);
    assert_eq!(classify_attempt(true, true, false), AttemptOutcome::HashMismatch);
    assert_eq!(classify_attempt(true, true, true), AttemptOutcome::Success);
}

#[test]
fn part_path_is_the_destination_plus_suffix() {
    assert_eq!(append_to_path("dist/a.tar.gz", ".part"), "dist/a.tar.gz.part");
}

#[test]
fn batch_outcome_counts_failures() {
    let o = batch_outcome(&vec![true, false, true, false, false]);
    assert_eq!(o.attempted_count, 5);
    assert_eq!(o.failed_count, 3);
    assert!(batch_result(&o).is_err());
    assert_eq!(batch_result(&o).unwrap_err(), SyncError::FailedDownloads(3));
    let ok = batch_outcome(&vec![true, true]);
    assert_eq!(ok.failed_count, 0);
    assert!(batch_result(&ok).is_ok());
}

#[test]
fn workers_report_a_diagnostic_only_on_failure() {
    let ms = worker_messages(true, "unused".to_string());
    assert_eq!(ms.len(), 1);
    assert!(matches!(ms[0], ProgressBarMessage::Increment));
    let ms = worker_messages(false, "boom".to_string());
    assert_eq!(ms.len(), 2);
    assert!(matches!(&ms[0], ProgressBarMessage::Println(t) if t == "boom"));
    assert!(matches!(ms[1], ProgressBarMessage::Increment));
}

#[test]
fn reporter_stops_strictly_at_done() {
    let ms = vec![
        ProgressBarMessage::Increment,
        ProgressBarMessage::Println("x".to_string()),
        ProgressBarMessage::Increment,
        ProgressBarMessage::Done,
        ProgressBarMessage::Increment,
    ];
    assert_eq!(reporter_counts(&ms), (2, 1));
}

#[test]
fn zero_keep_count_skips_a_channel() {
    assert!(!channel_should_sync(&Some(0)));
    assert!(channel_should_sync(&Some(2)));
    assert!(channel_should_sync(&None));
    let plan = sync_stage_plan(&rustup_section(Some(0), Some(1), None));
    assert!(!plan.sync_stable);
    assert!(plan.sync_beta);
    assert!(plan.sync_nightly);
}

#[test]
fn retention_runs_only_fully_configured_and_clean() {
    let all = rustup_section(Some(2), Some(1), Some(3));
    assert_eq!(retention_decision(&all, false), RetentionDecision::Run);
    assert_eq!(retention_decision(&all, true), RetentionDecision::SkipDueToFailures);
    let partial = rustup_section(Some(2), None, Some(3));
    assert_eq!(retention_decision(&partial, false), RetentionDecision::SkipUnconfigured);
    assert_eq!(retention_decision(&partial, true), RetentionDecision::SkipUnconfigured);
}

#[test]
fn failed_batch_withholds_the_ledger() {
    let h = ChannelHistoryFile { versions: vec![] };
    let files = vec![("dist/a".to_string(), "h1".to_string())];
    let r = channel_post_batch(&h, "2023-06-01", &files, 2);
    assert_eq!(r.unwrap_err(), SyncError::FailedDownloads(2));
    assert!(h.versions.is_empty());
}

#[test]
fn clean_batch_commits_the_ledger() {
    let h = ChannelHistoryFile { versions: vec![] };
    let files = vec![
        ("dist/a".to_string(), "h1".to_string()),
        ("dist/b".to_string(), "h2".to_string()),
    ];
    let h1 = channel_post_batch(&h, "2023-06-01", &files, 0).unwrap();
    assert_eq!(h1.versions.len(), 1);
    assert_eq!(h1.versions[0].date, "2023-06-01");
    assert_eq!(h1.versions[0].files, vec!["dist/a".to_string(), "dist/b".to_string()]);
}

#[test]
fn resyncing_an_unchanged_manifest_changes_nothing() {
    let mut text = String::new();
    text.push_str("manifest-version = \"2\"\n");
    text.push_str("date = \"2023-06-01\"\n");
    text.push_str("[pkg.rust.target.x86_64-unknown-linux-gnu]\n");
    text.push_str("available = true\n");
    text.push_str("url = \"https://example.com/rust/dist/rust.tar.gz\"\n");
    text.push_str("hash = \"h1\"\n");
    text.push_str("xz_url = \"https://example.com/rust/dist/rust.tar.xz\"\n");
    text.push_str("xz_hash = \"h2\"\n");
    text.push_str("[pkg.cargo.target.x86_64-unknown-linux-gnu]\n");
    text.push_str("available = true\n");
    text.push_str("url = \"https://example.com/rust/dist/cargo.tar.gz\"\n");
    text.push_str("hash = \"h3\"\n");
    text.push_str("xz_url = \"https://example.com/rust/dist/rust.tar.xz\"\n");
    text.push_str("xz_hash = \"h2\"\n");

    let source = "https://example.com/rust";
    let (date, files) = rustup_download_list(&text, source).unwrap();
    assert_eq!(files.len(), 3);

    let empty = ChannelHistoryFile { versions: vec![] };
    let outcome = batch_outcome(&vec![true; files.len()]);
    assert_eq!(outcome.failed_count, 0);
    let h1 = channel_post_batch(&empty, &date, &files, outcome.failed_count).unwrap();

    let (date2, files2) = rustup_download_list(&text, source).unwrap();
    assert_eq!(date2, date);
    assert_eq!(files2, files);
    let outcome2 = batch_outcome(&vec![true; files2.len()]);
    assert_eq!(outcome2.failed_count, 0);
    let h2 = channel_post_batch(&h1, &date2, &files2, outcome2.failed_count).unwrap();

    assert_eq!(h2.versions.len(), 1);
    assert_eq!(h2.versions[0].date, h1.versions[0].date);
    assert_eq!(h2.versions[0].files, h1.versions[0].files);
    assert_eq!(h2.versions[0].files.len(), 3);
}

#[test]
fn stage_paths_follow_the_mirror_layout() {
    let (rel, url) = rustup_init_paths("https://example.com/rust", "x86_64-apple-darwin", false);
    assert_eq!(rel, "rustup/dist/x86_64-apple-darwin/rustup-init");
    assert_eq!(url, "https://example.com/rust/rustup/dist/x86_64-apple-darwin/rustup-init");
    let (rel, _) = rustup_init_paths("s", "i686-pc-windows-msvc", true);
    assert_eq!(rel, "rustup/dist/i686-pc-windows-msvc/rustup-init.exe");
    let (rel, url) = channel_paths("https://example.com/rust", "stable");
    assert_eq!(rel, "dist/channel-rust-stable.toml");
    assert_eq!(url, "https://example.com/rust/dist/channel-rust-stable.toml");
    let (rel, _) = release_paths("s", "stable");
    assert_eq!(rel, "rustup/release-stable.toml");
    assert_eq!(target_url("s", "dist/a"), "s/dist/a");
    assert_eq!(history_file_name("nightly"), "mirror-nightly-history.toml");
}

#[test]
fn errors_describe_themselves() {
    assert_eq!(SyncError::Parse.describe(), "manifest parse failure");
    assert_eq!(SyncError::FailedDownloads(2).describe(), "failed downloads");
}
