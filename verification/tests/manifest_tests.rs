use panamax::errors::SyncError;
use panamax::manifest::{
    filter_files_by_extension, filter_files_by_platform, parse_channel, rustup_download_list,
};

const SOURCE: &str = "https://example.com/rust";

fn manifest_one_target() -> String {
    let mut s = String::new();
    s.push_str("manifest-version = \"2\"\n");
    s.push_str("date = \"2023-06-01\"\n");
    s.push_str("# a comment line\n");
    s.push_str("\n");
    s.push_str("[pkg.rust]\n");
    s.push_str("version = \"1.70.0\"\n");
    s.push_str("[pkg.rust.target.x86_64-unknown-linux-gnu]\n");
    s.push_str("available = true\n");
    s.push_str("url = \"https://example.com/rust/dist/rust-x86_64.tar.gz\"\n");
    s.push_str("hash = \"h1\"\n");
    s.push_str("xz_url = \"https://example.com/rust/dist/rust-x86_64.tar.xz\"\n");
    s.push_str("xz_hash = \"h2\"\n");
    s
}

#[test]
fn resolves_two_artifacts_per_available_target() {
    let (date, files) = rustup_download_list(&manifest_one_target(), SOURCE).unwrap();
    assert_eq!(date, "2023-06-01");
    assert_eq!(files.len(), 2);
    assert_eq!(files[0].0, "dist/rust-x86_64.tar.gz");
    assert_eq!(files[0].1, "h1");
    assert_eq!(files[1].0, "dist/rust-x86_64.tar.xz");
    assert_eq!(files[1].1, "h2");
}

#[test]
fn unavailable_target_contributes_nothing() {
    let mut s = String::new();
    s.push_str("manifest-version = \"2\"\n");
    s.push_str("date = \"2023-06-01\"\n");
    s.push_str("[pkg.rust.target.mips-unknown-linux-gnu]\n");
    s.push_str("available = false\n");
    s.push_str("url = \"https://example.com/rust/dist/rust-mips.tar.gz\"\n");
    s.push_str("hash = \"h1\"\n");
    s.push_str("xz_url = \"https://example.com/rust/dist/rust-mips.tar.xz\"\n");
    s.push_str("xz_hash = \"h2\"\n");
    let (_, files) = rustup_download_list(&s, SOURCE).unwrap();
    assert_eq!(files.len(), 0);
}

#[test]
fn target_without_urls_contributes_nothing() {
    let mut s = String::new();
    s.push_str("manifest_version = \"2\"\n");
    s.push_str("date = \"2023-06-01\"\n");
    s.push_str("[pkg.rust.target.aarch64-unknown-linux-gnu]\n");
    s.push_str("available = true\n");
    let (_, files) = rustup_download_list(&s, SOURCE).unwrap();
    assert_eq!(files.len(), 0);
}

#[test]
fn missing_date_is_a_parse_failure() {
    let s = "manifest-version = \"2\"\n[pkg.rust]\nversion = \"1\"\n";
    assert_eq!(rustup_download_list(s, SOURCE).unwrap_err(), SyncError::Parse);
}

#[test]
fn missing_available_is_a_parse_failure() {
    let mut s = String::new();
    s.push_str("manifest-version = \"2\"\n");
    s.push_str("date = \"2023-06-01\"\n");
    s.push_str("[pkg.rust.target.x86_64-unknown-linux-gnu]\n");
    s.push_str("url = \"https://example.com/rust/a\"\n");
    assert_eq!(rustup_download_list(&s, SOURCE).unwrap_err(), SyncError::Parse);
}

#[test]
fn malformed_line_is_a_parse_failure() {
    let s = "manifest-version = \"2\"\ndate = \"2023-06-01\"\nthis is not toml\n";
    assert_eq!(rustup_download_list(s, SOURCE).unwrap_err(), SyncError::Parse);
}

#[test]
fn ignores_array_tables_and_unknown_keys() {
    let mut s = manifest_one_target();
    s.push_str("[[pkg.rust.target.x86_64-unknown-linux-gnu.components]]\n");
    s.push_str("pkg = \"rustc\"\n");
    s.push_str("target = \"x86_64-unknown-linux-gnu\"\n");
    s.push_str("[profiles]\n");
    s.push_str("complete = [\"rustc\", \"cargo\", \"docs\"]\n");
    let (date, files) = rustup_download_list(&s, SOURCE).unwrap();
    assert_eq!(date, "2023-06-01");
    assert_eq!(files.len(), 2);
}

#[test]
fn quoted_keys_in_headers_are_accepted() {
    let mut s = String::new();
    s.push_str("manifest-version = \"2\"\n");
    s.push_str("date = \"2023-06-01\"\n");
    s.push_str("[pkg.\"rust-std\".target.\"x86_64-unknown-linux-gnu\"]\n");
    s.push_str("available = true\n");
    s.push_str("url = \"https://example.com/rust/dist/rust-std.tar.gz\"\n");
    s.push_str("hash = \"h1\"\n");
    s.push_str("xz_url = \"https://example.com/rust/dist/rust-std.tar.xz\"\n");
    s.push_str("xz_hash = \"h2\"\n");
    let (_, files) = rustup_download_list(&s, SOURCE).unwrap();
    assert_eq!(files.len(), 2);
}

#[test]
fn duplicate_paths_are_deduplicated_keeping_first() {
    let mut s = manifest_one_target();
    s.push_str("[pkg.rust-docs.target.x86_64-unknown-linux-gnu]\n");
    s.push_str("available = true\n");
    s.push_str("url = \"https://example.com/rust/dist/rust-x86_64.tar.gz\"\n");
    s.push_str("hash = \"h1b\"\n");
    s.push_str("xz_url = \"https://example.com/rust/dist/docs.tar.xz\"\n");
    s.push_str("xz_hash = \"h3\"\n");
    let (_, files) = rustup_download_list(&s, SOURCE).unwrap();
    assert_eq!(files.len(), 3);
    assert_eq!(files[0].0, "dist/rust-x86_64.tar.gz");
    assert_eq!(files[0].1, "h1");
    assert_eq!(files[2].0, "dist/docs.tar.xz");
}

#[test]
fn url_outside_source_keeps_full_path_without_leading_slashes() {
    let mut s = String::new();
    s.push_str("manifest-version = \"2\"\n");
    s.push_str("date = \"2023-06-01\"\n");
    s.push_str("[pkg.rust.target.x86_64-unknown-linux-gnu]\n");
    s.push_str("available = true\n");
    s.push_str("url = \"https://other.example.org/dist/rust.tar.gz\"\n");
    s.push_str("hash = \"h1\"\n");
    s.push_str("xz_url = \"https://example.com/rust///dist/rust.tar.xz\"\n");
    s.push_str("xz_hash = \"h2\"\n");
    let (_, files) = rustup_download_list(&s, SOURCE).unwrap();
    assert_eq!(files[0].0, "https://other.example.org/dist/rust.tar.gz");
    assert_eq!(files[1].0, "dist/rust.tar.xz");
}

#[test]
fn parse_channel_reads_version_and_date() {
    let ch = parse_channel(&manifest_one_target()).unwrap();
    assert_eq!(ch.manifest_version, "2");
    assert_eq!(ch.date, "2023-06-01");
    assert_eq!(ch.pkg.len(), 1);
    assert_eq!(ch.pkg[0].name, "rust");
    assert_eq!(ch.pkg[0].targets.len(), 1);
    assert!(ch.pkg[0].targets[0].available);
    assert!(ch.pkg[0].targets[0].target_urls.is_some());
}

#[test]
fn platform_filter_keeps_matching_paths_in_order() {
    let files = vec![
        ("dist/rust-x86_64-unknown-linux-gnu.tar.gz".to_string(), "h1".to_string()),
        ("dist/rust-aarch64-unknown-linux-gnu.tar.gz".to_string(), "h2".to_string()),
        ("dist/rust-x86_64-unknown-linux-gnu.tar.xz".to_string(), "h3".to_string()),
    ];
    let out = filter_files_by_platform(&files, "x86_64");
    assert_eq!(out.len(), 2);
    assert_eq!(out[0].1, "h1");
    assert_eq!(out[1].1, "h3");
}

#[test]
fn extension_filter_keeps_matching_paths() {
    let files = vec![
        ("a.tar.gz".to_string(), "h1".to_string()),
        ("b.tar.xz".to_string(), "h2".to_string()),
    ];
    let out = filter_files_by_extension(&files, ".tar.xz");
    assert_eq!(out.len(), 1);
    assert_eq!(out[0].0, "b.tar.xz");
}
