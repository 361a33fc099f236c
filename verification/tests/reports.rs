use archive_extractor::cli::ListingSummary;
use archive_extractor::entry::ArchiveEntry;
use archive_extractor::format::ArchiveFormat;
use archive_extractor::formats::format_size;
use archive_extractor::report::{
    extract_done_line, extract_start_lines, info_lines, list_line, list_lines,
};

fn entry(path: &str, is_dir: bool, size: u64) -> ArchiveEntry {
    ArchiveEntry {
        name: path.to_string(),
        is_dir,
        size,
        compressed_size: 0,
        path: path.to_string(),
    }
}

fn entries() -> Vec<ArchiveEntry> {
    vec![entry("docs/", true, 0), entry("docs/readme.md", false, 1536), entry("a.bin", false, 12)]
}

fn summary() -> ListingSummary {
    ListingSummary { files: 2, dirs: 1, total_size: 1548 }
}

#[test]
fn list_lines_match_the_printed_columns() {
    for e in entries() {
        let type_str = if e.is_dir { "DIR" } else { "FILE" };
        let expected = format!("{:<10} {:<10} {}", type_str, format_size(e.size), e.path);
        assert_eq!(list_line(&e, true), expected);
        assert_eq!(list_line(&e, false), e.path);
    }
    // A field longer than its column is not cut.
    let big = entry("x", false, u64::MAX);
    assert_eq!(list_line(&big, true), "FILE       16777216.0 TB x");
}

#[test]
fn verbose_listing() {
    let lines = list_lines("/tmp/a.zip", &entries(), summary(), true);
    let rule = "-".repeat(60);
    let expected = vec![
        "Archive: /tmp/a.zip".to_string(),
        "Total entries: 3".to_string(),
        String::new(),
        format!("{:<10} {:<10} Name", "Type", "Size"),
        rule.clone(),
        "DIR        0 B        docs/".to_string(),
        "FILE       1.5 KB     docs/readme.md".to_string(),
        "FILE       12 B       a.bin".to_string(),
        rule,
        "Total: 2 files, 1.5 KB".to_string(),
    ];
    assert_eq!(lines, expected);
}

#[test]
fn plain_listing() {
    let lines = list_lines("/tmp/a.zip", &entries(), summary(), false);
    assert_eq!(lines, vec!["docs/", "docs/readme.md", "a.bin"]);
    assert!(list_lines("x.tar", &Vec::new(), summary(), false).is_empty());
}

#[test]
fn info_report() {
    let lines = info_lines("a.zip", ArchiveFormat::Zip, &entries(), summary(), true, false);
    assert_eq!(
        lines,
        vec![
            "Archive: a.zip",
            "Format: ZIP",
            "Entries: 3 (2 files, 1 directories)",
            "Total size: 1.5 KB",
            "Encrypted: Yes",
        ]
    );
    // Only ZIP archives are reported as encrypted.
    let tar = info_lines("a.tar", ArchiveFormat::Tar, &entries(), summary(), true, false);
    assert_eq!(tar[4], "Encrypted: No");

    let verbose = info_lines("a.zip", ArchiveFormat::Zip, &entries(), summary(), false, true);
    assert_eq!(verbose.len(), 10);
    assert_eq!(verbose[4], "Encrypted: No");
    assert_eq!(verbose[5], "");
    assert_eq!(verbose[6], "Contents:");
    assert_eq!(verbose[7], "  [D] docs/ (0 B)");
    assert_eq!(verbose[8], "  [ ] docs/readme.md (1.5 KB)");
    assert_eq!(verbose[9], "  [ ] a.bin (12 B)");

    let empty = info_lines("e.zip", ArchiveFormat::Zip, &Vec::new(), summary(), false, true);
    assert_eq!(empty.len(), 5);
}

#[test]
fn extract_report() {
    assert_eq!(
        extract_start_lines("/d/a.7z", ArchiveFormat::SevenZip, "/d/a"),
        vec!["Extracting: /d/a.7z (7Z)", "Destination: /d/a"]
    );
    assert_eq!(extract_done_line(42, "/d/a", true), "Extracted 42 files to /d/a");
    assert_eq!(extract_done_line(0, "/d/a", false), "Extracted 0 files");
}
