use panamax::history::{
    add_to_channel_history, history_to_toml, latest_dates_from_channel_history, parse_history,
    ChannelHistoryFile, HistoryEntry,
};
use panamax::errors::SyncError;
use panamax::retention::{collect_kept_paths, files_to_delete};

fn entry(date: &str, files: &[&str]) -> HistoryEntry {
    HistoryEntry {
        date: date.to_string(),
        files: files.iter().map(|f| f.to_string()).collect(),
    }
}

fn three_date_history() -> ChannelHistoryFile {
    ChannelHistoryFile {
        versions: vec![
            entry("2023-01-01", &["dist/a", "dist/b"]),
            entry("2023-06-01", &["dist/c"]),
            entry("2022-12-01", &["dist/d"]),
        ],
    }
}

#[test]
fn latest_dates_sorts_descending_and_truncates() {
    let h = three_date_history();
    let latest = latest_dates_from_channel_history(&h, 2);
    assert_eq!(latest, vec!["2023-06-01".to_string(), "2023-01-01".to_string()]);
}

#[test]
fn latest_dates_returns_all_when_fewer_than_asked() {
    let h = three_date_history();
    let latest = latest_dates_from_channel_history(&h, 10);
    assert_eq!(
        latest,
        vec![
            "2023-06-01".to_string(),
            "2023-01-01".to_string(),
            "2022-12-01".to_string()
        ]
    );
}

#[test]
fn latest_dates_of_empty_history_is_empty() {
    let h = ChannelHistoryFile { versions: vec![] };
    assert!(latest_dates_from_channel_history(&h, 3).is_empty());
}

#[test]
fn record_appends_new_date() {
    let h = ChannelHistoryFile { versions: vec![entry("2023-01-01", &["dist/a"])] };
    let files = vec![("dist/x".to_string(), "h1".to_string())];
    let h2 = add_to_channel_history(&h, "2023-02-02", &files);
    assert_eq!(h2.versions.len(), 2);
    assert_eq!(h2.versions[1].date, "2023-02-02");
    assert_eq!(h2.versions[1].files, vec!["dist/x".to_string()]);
}

#[test]
fn record_replaces_existing_date() {
    let h = three_date_history();
    let files = vec![("dist/new".to_string(), "h1".to_string())];
    let h2 = add_to_channel_history(&h, "2023-01-01", &files);
    assert_eq!(h2.versions.len(), 3);
    assert_eq!(h2.versions[0].date, "2023-01-01");
    assert_eq!(h2.versions[0].files, vec!["dist/new".to_string()]);
    assert_eq!(h2.versions[1].date, "2023-06-01");
}

#[test]
fn recording_twice_changes_nothing_more() {
    let h = ChannelHistoryFile { versions: vec![] };
    let files = vec![
        ("dist/a".to_string(), "h1".to_string()),
        ("dist/b".to_string(), "h2".to_string()),
        ("dist/c".to_string(), "h3".to_string()),
    ];
    let h1 = add_to_channel_history(&h, "2023-06-01", &files);
    let h2 = add_to_channel_history(&h1, "2023-06-01", &files);
    assert_eq!(h1.versions.len(), 1);
    assert_eq!(h2.versions.len(), 1);
    assert_eq!(h2.versions[0].date, h1.versions[0].date);
    assert_eq!(h2.versions[0].files, h1.versions[0].files);
}

#[test]
fn serializes_to_versions_table() {
    let h = ChannelHistoryFile {
        versions: vec![entry("2023-01-01", &["dist/a", "dist/b"]), entry("2023-06-01", &[])],
    };
    let text = history_to_toml(&h);
    assert_eq!(
        text,
        "[versions]\n\"2023-01-01\" = [\"dist/a\", \"dist/b\"]\n\"2023-06-01\" = []\n"
    );
}

#[test]
fn parses_what_it_writes() {
    let h = three_date_history();
    let text = history_to_toml(&h);
    let h2 = parse_history(&text).unwrap();
    assert_eq!(h2.versions.len(), h.versions.len());
    for (a, b) in h.versions.iter().zip(h2.versions.iter()) {
        assert_eq!(a.date, b.date);
        assert_eq!(a.files, b.files);
    }
}

#[test]
fn parses_empty_document_as_empty_history() {
    let h = parse_history("").unwrap();
    assert!(h.versions.is_empty());
}

#[test]
fn duplicate_date_in_document_is_a_parse_failure() {
    let text = "[versions]\n\"2023-01-01\" = [\"a\"]\n\"2023-01-01\" = [\"b\"]\n";
    assert_eq!(parse_history(text).unwrap_err(), SyncError::Parse);
}

#[test]
fn entries_outside_versions_table_are_ignored() {
    let text = "[other]\n\"2023-01-01\" = [\"a\"]\n[versions]\n\"2023-02-02\" = [\"b\"]\n";
    let h = parse_history(text).unwrap();
    assert_eq!(h.versions.len(), 1);
    assert_eq!(h.versions[0].date, "2023-02-02");
}

#[test]
fn keep_set_is_union_of_latest_two_dates() {
    let h = three_date_history();
    let latest = latest_dates_from_channel_history(&h, 2);
    let mut keep: Vec<String> = Vec::new();
    collect_kept_paths(&h, &latest, &mut keep);
    let mut sorted = keep.clone();
    sorted.sort();
    assert_eq!(
        sorted,
        vec!["dist/a".to_string(), "dist/b".to_string(), "dist/c".to_string()]
    );
}

#[test]
fn sweep_deletes_exactly_the_unkept_scanned_files() {
    let h = three_date_history();
    let latest = latest_dates_from_channel_history(&h, 2);
    let mut keep: Vec<String> = Vec::new();
    collect_kept_paths(&h, &latest, &mut keep);
    let scanned = vec![
        "dist/a".to_string(),
        "dist/b".to_string(),
        "dist/c".to_string(),
        "dist/d".to_string(),
        "dist/stray".to_string(),
    ];
    let doomed = files_to_delete(&scanned, &keep);
    assert_eq!(doomed, vec!["dist/d".to_string(), "dist/stray".to_string()]);
}

#[test]
fn unconfigured_channel_contributes_no_kept_paths() {
    let h = three_date_history();
    let no_dates: Vec<String> = Vec::new();
    let mut keep: Vec<String> = Vec::new();
    collect_kept_paths(&h, &no_dates, &mut keep);
    assert!(keep.is_empty());
}
