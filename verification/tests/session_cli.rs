use archive_extractor::cli::{extract_destination, short_format_name, summarize, ListingSummary};
use archive_extractor::entry::ArchiveEntry;
use archive_extractor::format::ArchiveFormat;
use archive_extractor::session::{
    default_destination, extraction_outcome, extraction_password, is_password_error, load_status,
    mentions_password, rar_encrypted_after, zip_encrypted, zip_probe_count, ExtractionOutcome,
    LoadStatus, PasswordChoice, RarEntryProbe, ZipEntryProbe,
};
use archive_extractor::theme::{Palette, Theme};
use std::path::{Path, PathBuf};

fn entry(name: &str, is_dir: bool, size: u64) -> ArchiveEntry {
    ArchiveEntry {
        name: name.to_string(),
        is_dir,
        size,
        compressed_size: 0,
        path: name.to_string(),
    }
}

/// The destination the command line picks, computed with std's paths.
fn std_extract_destination(archive: &str) -> PathBuf {
    let archive = Path::new(archive);
    match archive.file_stem() {
        Some(stem) => archive.parent().unwrap_or_else(|| Path::new(".")).join(stem),
        None => PathBuf::from("./output"),
    }
}

#[test]
fn extract_destination_next_to_the_archive() {
    for a in ["/home/me/photos.zip", "photos.zip", "dir/x.tar.gz", "/", "", "a/..", "./b.7z"] {
        assert_eq!(
            PathBuf::from(extract_destination(a, None)),
            std_extract_destination(a),
            "archive {:?}",
            a
        );
    }
    assert_eq!(extract_destination("/home/me/photos.zip", None), "/home/me/photos");
    assert_eq!(extract_destination("x.zip", Some("/tmp/out")), "/tmp/out");
    assert_eq!(extract_destination("/", None), "./output");
}

#[test]
fn short_names() {
    assert_eq!(short_format_name(ArchiveFormat::Zip), "ZIP");
    assert_eq!(short_format_name(ArchiveFormat::SevenZip), "7Z");
    assert_eq!(short_format_name(ArchiveFormat::Brotli), "BROTLI");
    assert_eq!(short_format_name(ArchiveFormat::Unknown), "Unknown");
}

#[test]
fn listing_summary_counts_files_and_directories() {
    let es = vec![entry("d/", true, 7), entry("d/a", false, 10), entry("b", false, 5)];
    assert_eq!(summarize(&es), Some(ListingSummary { files: 2, dirs: 1, total_size: 15 }));
    assert_eq!(summarize(&Vec::new()), Some(ListingSummary { files: 0, dirs: 0, total_size: 0 }));
    let huge = vec![entry("a", false, u64::MAX), entry("b", false, 1)];
    assert_eq!(summarize(&huge), None);
}

#[test]
fn default_destinations() {
    assert_eq!(
        default_destination("/home/me/a.zip", Some(ArchiveFormat::Zip)).as_deref(),
        Some("/home/me/a")
    );
    assert_eq!(
        default_destination("/home/me/a.txt.gz", Some(ArchiveFormat::Gzip)).as_deref(),
        Some("/home/me")
    );
    assert_eq!(default_destination("/home/me/a.bin", None).as_deref(), Some("/home/me/a"));
    assert_eq!(default_destination("/", Some(ArchiveFormat::Zip)), None);
}

#[test]
fn password_choice() {
    assert!(matches!(extraction_password(false, "secret"), PasswordChoice::NotNeeded));
    assert!(matches!(extraction_password(true, ""), PasswordChoice::Missing));
    match extraction_password(true, "secret") {
        PasswordChoice::Use(p) => assert_eq!(p, "secret"),
        other => panic!("unexpected {:?}", other),
    }
}

#[test]
fn password_errors_are_recognised() {
    assert!(is_password_error("Invalid Password"));
    assert!(is_password_error("could not DECRYPT entry"));
    assert!(is_password_error("BadPassword"));
    assert!(!is_password_error("unexpected end of file"));
    assert!(!is_password_error("pass word"));
}

#[test]
fn lowercased_messages_mentioning_a_password() {
    assert!(mentions_password("invalid password"));
    assert!(mentions_password("failed to decrypt"));
    assert!(mentions_password("passwordrequired"));
    // The check is on text already lowercased.
    assert!(!mentions_password("PASSWORD"));
    assert!(!mentions_password("crc mismatch"));
}

#[test]
fn extraction_outcomes() {
    assert_eq!(extraction_outcome(None), ExtractionOutcome::Done);
    assert_eq!(extraction_outcome(Some("wrong password")), ExtractionOutcome::PasswordRetry);
    assert_eq!(extraction_outcome(Some("disk full")), ExtractionOutcome::Failed);
}

#[test]
fn load_statuses() {
    assert_eq!(load_status(0, false), LoadStatus::Empty);
    assert_eq!(load_status(0, true), LoadStatus::Locked);
    assert_eq!(load_status(3, true), LoadStatus::LockedWithEntries);
    assert_eq!(load_status(3, false), LoadStatus::Ready);
}

#[test]
fn themes() {
    assert_eq!(Theme::Dark.palette(), Palette::Dark);
    assert_eq!(Theme::Light.palette(), Palette::Light);
    assert_eq!(Theme::System.palette(), Palette::Dark);
    assert_eq!(Theme::from_dark_flag(true), Theme::Dark);
    assert_eq!(Theme::from_dark_flag(false), Theme::Light);
}

#[test]
fn zip_encryption_from_the_first_entries() {
    assert_eq!(zip_probe_count(3), 3);
    assert_eq!(zip_probe_count(10_000), 10);
    assert!(!zip_encrypted(&vec![]));
    let (ok, bad, locked) =
        (ZipEntryProbe::Readable, ZipEntryProbe::Unreadable, ZipEntryProbe::PasswordRequired);
    assert!(!zip_encrypted(&vec![ok, bad]));
    assert!(zip_encrypted(&vec![ok, bad, locked]));
}

#[test]
fn rar_encryption_from_the_listed_entries() {
    assert!(!rar_encrypted_after(false, RarEntryProbe::Plain));
    assert!(rar_encrypted_after(false, RarEntryProbe::Encrypted));
    assert!(rar_encrypted_after(false, RarEntryProbe::Unreadable));
    assert!(rar_encrypted_after(true, RarEntryProbe::Plain));
}
