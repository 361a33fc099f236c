use archive_extractor::entry::ArchiveEntry;
use archive_extractor::extraction::{
    check_cancelled, output_name, select_zip_entries, single_file_suffixes, single_file_target,
    zip_chunk_size, zip_runs_in_parallel, EntryAction, Extraction, ExtractionContext,
    ExtractionError,
};
use archive_extractor::format::ArchiveFormat;

fn ctx(path: &str, dest: &str, files: Option<&[&str]>) -> ExtractionContext {
    ExtractionContext {
        path: path.to_string(),
        dest: dest.to_string(),
        password: None,
        files: files.map(|fs| fs.iter().map(|s| s.to_string()).collect()),
    }
}

fn written(a: Result<EntryAction, ExtractionError>) -> String {
    match a {
        Ok(EntryAction::WriteFile(p)) => p,
        other => panic!("expected a file to write, got {:?}", other),
    }
}

fn created(a: Result<EntryAction, ExtractionError>) -> String {
    match a {
        Ok(EntryAction::CreateDir(p)) => p,
        other => panic!("expected a directory to create, got {:?}", other),
    }
}

fn skipped(a: Result<EntryAction, ExtractionError>) -> bool {
    matches!(a, Ok(EntryAction::Skip))
}

#[test]
fn cancellation_is_an_error() {
    assert_eq!(check_cancelled(true), Err(ExtractionError::Cancelled));
    assert_eq!(check_cancelled(false), Ok(()));
}

#[test]
fn zip_entries_are_all_counted() {
    let mut x = Extraction::new(&ctx("a.zip", "/out", None), ArchiveFormat::Zip);
    assert_eq!(created(x.next_entry("docs/", Some("docs/"), false)), "/out/docs");
    assert_eq!(written(x.next_entry("docs/a.txt", Some("docs/a.txt"), false)), "/out/docs/a.txt");
    assert_eq!(x.extracted(), 2);
    assert_eq!(x.finish(), Ok(2));
}

#[test]
fn zip_entry_without_enclosed_path_is_refused() {
    let mut x = Extraction::new(&ctx("a.zip", "/out", None), ArchiveFormat::Zip);
    assert_eq!(
        x.next_entry("../escape.txt", None, false).unwrap_err(),
        ExtractionError::EntryEscapesArchive
    );
    assert_eq!(x.extracted(), 0);
}

#[test]
fn traversal_is_refused_in_every_format() {
    for f in [ArchiveFormat::Zip, ArchiveFormat::Tar, ArchiveFormat::SevenZip, ArchiveFormat::Rar] {
        let mut x = Extraction::new(&ctx("a", "/out", None), f);
        assert_eq!(
            x.next_entry("a/../../evil", Some("a/../../evil"), false).unwrap_err(),
            ExtractionError::DirectoryTraversal
        );
        assert_eq!(x.extracted(), 0);
    }
}

#[test]
fn backslash_traversal_is_refused() {
    for f in [ArchiveFormat::Tar, ArchiveFormat::SevenZip, ArchiveFormat::Rar] {
        let mut x = Extraction::new(&ctx("a", "/out", None), f);
        assert_eq!(
            x.next_entry("..\\evil", None, false).unwrap_err(),
            ExtractionError::DirectoryTraversal
        );
    }
}

#[test]
fn absolute_entry_names_land_under_destination() {
    let mut x = Extraction::new(&ctx("a.tar", "/out", None), ArchiveFormat::Tar);
    assert_eq!(written(x.next_entry("/etc/passwd", None, false)), "/out/etc/passwd");
}

#[test]
fn tar_counts_only_wanted_entries() {
    let mut x = Extraction::new(&ctx("a.tar", "out", Some(&["keep.txt"])), ArchiveFormat::Tar);
    assert!(skipped(x.next_entry("other.txt", None, false)));
    assert_eq!(written(x.next_entry("keep.txt", None, false)), "out/keep.txt");
    assert_eq!(x.finish(), Ok(1));

    let mut none = Extraction::new(&ctx("a.tar", "out", Some(&["missing"])), ArchiveFormat::Tar);
    assert!(skipped(none.next_entry("other.txt", None, false)));
    assert_eq!(none.finish(), Err(ExtractionError::NoMatchingFiles));

    let all = Extraction::new(&ctx("a.tar", "out", None), ArchiveFormat::Tar);
    assert_eq!(all.finish(), Ok(0));
}

#[test]
fn sevenzip_counts_only_extracted_entries() {
    let mut x = Extraction::new(&ctx("a.7z", "out", Some(&["b", "c"])), ArchiveFormat::SevenZip);
    assert!(skipped(x.next_entry("a", None, false)));
    assert_eq!(x.extracted(), 0);
    assert_eq!(created(x.next_entry("b", None, true)), "out/b");
    assert_eq!(written(x.next_entry("c", None, false)), "out/c");
    assert_eq!(x.extracted(), 2);
    assert_eq!(x.finish(), Ok(2));

    let mut none = Extraction::new(&ctx("a.7z", "out", Some(&["z"])), ArchiveFormat::SevenZip);
    assert!(skipped(none.next_entry("a", None, false)));
    assert_eq!(none.finish(), Ok(0));
}

#[test]
fn rar_directories_are_not_counted() {
    let mut x = Extraction::new(&ctx("a.rar", "out", None), ArchiveFormat::Rar);
    assert_eq!(created(x.next_entry("dir", None, true)), "out/dir");
    assert_eq!(written(x.next_entry("dir/f", None, false)), "out/dir/f");
    assert_eq!(x.finish(), Ok(1));
}

#[test]
fn zip_selection_follows_the_list() {
    let names = vec![Some("a".to_string()), None, Some("b".to_string()), Some("a".to_string())];
    assert_eq!(select_zip_entries(&ctx("z", "o", None), 3, &names).unwrap(), vec![0, 1, 2]);
    assert_eq!(select_zip_entries(&ctx("z", "o", Some(&["a"])), 4, &names).unwrap(), vec![0, 3]);
    assert_eq!(
        select_zip_entries(&ctx("z", "o", Some(&["c"])), 4, &names),
        Err(ExtractionError::NoMatchingFiles)
    );
}

#[test]
fn zip_work_is_shared_in_bounded_chunks() {
    assert_eq!(zip_chunk_size(100, 8), 64);
    assert_eq!(zip_chunk_size(8000, 8), 1000);
    assert_eq!(zip_chunk_size(1_000_000, 4), 2048);
    assert!(!zip_runs_in_parallel(63));
    assert!(zip_runs_in_parallel(64));
}

#[test]
fn single_file_output_names() {
    let gz = single_file_suffixes(ArchiveFormat::Gzip);
    assert_eq!(gz, vec![".gz", ".gzip"]);
    assert_eq!(output_name("test.tar.gz", &gz).unwrap(), "test.tar");
    assert_eq!(output_name("notes.gzip", &gz).unwrap(), "notes");
    assert_eq!(output_name(".gz", &gz).unwrap(), "output");
    assert_eq!(output_name("plain.txt", &gz), Err(ExtractionError::MissingExtension));
    let zst = single_file_suffixes(ArchiveFormat::Zstd);
    assert_eq!(output_name("data.zst", &zst).unwrap(), "data");
    assert!(single_file_suffixes(ArchiveFormat::Zip).is_empty());
}

#[test]
fn single_file_targets_are_in_the_destination() {
    let c = ctx("/home/me/test.tar.gz", "/home/me", None);
    assert_eq!(single_file_target(&c, ArchiveFormat::Gzip).unwrap(), "/home/me/test.tar");
    let c = ctx("dl/log.xz", "out", None);
    assert_eq!(single_file_target(&c, ArchiveFormat::Xz).unwrap(), "out/log");
    let c = ctx("dl/log.gz", "out", None);
    assert_eq!(single_file_target(&c, ArchiveFormat::Xz), Err(ExtractionError::MissingExtension));
}

#[test]
fn listed_entries() {
    let e = ArchiveEntry::single_file("/tmp/data.json.br", 42);
    assert_eq!(e.name, "data.json.br");
    assert!(!e.is_dir);
    assert_eq!((e.size, e.compressed_size), (0, 42));
    assert_eq!(e.path, "/tmp/data.json.br");

    let d = ArchiveEntry::zip_entry("sub/", 0, 0, Some("sub"));
    assert!(d.is_dir);
    assert_eq!(d.path, "sub");
    let f = ArchiveEntry::zip_entry("../x", 5, 3, None);
    assert!(!f.is_dir);
    assert_eq!(f.path, "../x");
    assert_eq!((f.size, f.compressed_size), (5, 3));
}

#[test]
fn wanted_entries_are_matched_exactly() {
    let c = ctx("a", "o", Some(&["dir/a.txt"]));
    assert!(c.should_extract("dir/a.txt"));
    assert!(!c.should_extract("dir/a.tx"));
    assert!(!c.should_extract("a.txt"));
    assert!(ctx("a", "o", None).should_extract("anything"));
}
