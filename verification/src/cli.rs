//! The command line: its commands, where `extract` writes to, and what
//! `list` and `info` report.

use vstd::prelude::*;
use crate::entry::ArchiveEntry;
use crate::format::ArchiveFormat;
use crate::paths::{file_stem, join, parent, spec_file_stem, spec_join, spec_parent};
use crate::text::owned;

verus! {

/// A parsed command line.
pub struct Cli {
    pub command: Commands,
    /// Print more detail.
    pub verbose: bool,
    /// The password for encrypted archives.
    pub password: Option<String>,
}

/// The commands.
pub enum Commands {
    /// Extract the archive, to `output` or next to the archive.
    Extract { archive: String, output: Option<String> },
    /// List the entries of the archive.
    List { archive: String },
    /// Show the format, counts, size and encryption of the archive.
    Info { archive: String },
}

/// Where `extract` writes the archive at `archive`: the given output
/// directory, else a directory named after the archive beside it (in "."
/// when the path has no parent), else "./output".
pub open spec fn spec_extract_destination(archive: Seq<char>, output: Option<Seq<char>>) -> Seq<
    char,
> {
    match output {
        Some(o) => o,
        None => match spec_file_stem(archive) {
            Some(stem) => spec_join(
                match spec_parent(archive) {
                    Some(p) => p,
                    None => "."@,
                },
                stem,
            ),
            None => "./output"@,
        },
    }
}

/// Where `extract` writes the archive at `archive`.
pub fn extract_destination(archive: &str, output: Option<&str>) -> (r: String)
    ensures
        r@ == spec_extract_destination(
            archive@,
            match output {
                Some(o) => Some(o@),
                None => None,
            },
        ),
{
    match output {
        Some(o) => owned(o),
        None => match file_stem(archive) {
            Some(stem) => {
                let dir = match parent(archive) {
                    Some(p) => p,
                    None => owned("."),
                };
                join(dir.as_str(), stem.as_str())
            },
            None => owned("./output"),
        },
    }
}

/// The short format name the command line prints.
pub open spec fn spec_short_format_name(f: ArchiveFormat) -> Seq<char> {
    match f {
        ArchiveFormat::Zip => "ZIP"@,
        ArchiveFormat::Tar => "TAR"@,
        ArchiveFormat::Gzip => "GZIP"@,
        ArchiveFormat::Bzip2 => "BZIP2"@,
        ArchiveFormat::Xz => "XZ"@,
        ArchiveFormat::Rar => "RAR"@,
        ArchiveFormat::SevenZip => "7Z"@,
        ArchiveFormat::Zstd => "ZSTD"@,
        ArchiveFormat::Brotli => "BROTLI"@,
        ArchiveFormat::Lz4 => "LZ4"@,
        ArchiveFormat::Unknown => "Unknown"@,
    }
}

/// The short format name the command line prints.
pub fn short_format_name(format: ArchiveFormat) -> (r: &'static str)
    ensures
        r@ == spec_short_format_name(format),
{
    match format {
        ArchiveFormat::Zip => "ZIP",
        ArchiveFormat::Tar => "TAR",
        ArchiveFormat::Gzip => "GZIP",
        ArchiveFormat::Bzip2 => "BZIP2",
        ArchiveFormat::Xz => "XZ",
        ArchiveFormat::Rar => "RAR",
        ArchiveFormat::SevenZip => "7Z",
        ArchiveFormat::Zstd => "ZSTD",
        ArchiveFormat::Brotli => "BROTLI",
        ArchiveFormat::Lz4 => "LZ4",
        ArchiveFormat::Unknown => "Unknown",
    }
}

/// What `list` and `info` report of an archive's entries.
#[derive(Clone, Copy, Debug, PartialEq, Eq)]
pub struct ListingSummary {
    /// Entries that are files.
    pub files: usize,
    /// Entries that are directories.
    pub dirs: usize,
    /// The total size of the files.
    pub total_size: u64,
}

/// The number of file entries (`dirs` false) or directory entries (`dirs` true).
pub open spec fn count_kind(es: Seq<ArchiveEntry>, dirs: bool) -> nat
    decreases es.len(),
{
    if es.len() == 0 {
        0
    } else {
        count_kind(es.drop_last(), dirs) + (if es.last().is_dir == dirs {
            1nat
        } else {
            0nat
        })
    }
}

/// The total size of the file entries.
pub open spec fn files_size(es: Seq<ArchiveEntry>) -> nat
    decreases es.len(),
{
    if es.len() == 0 {
        0
    } else {
        files_size(es.drop_last()) + (if es.last().is_dir {
            0nat
        } else {
            es.last().size as nat
        })
    }
}

proof fn lemma_counts_bounded(es: Seq<ArchiveEntry>)
    ensures
        count_kind(es, true) <= es.len(),
        count_kind(es, false) <= es.len(),
    decreases es.len(),
{
    if es.len() > 0 {
        lemma_counts_bounded(es.drop_last());
    }
}

/// Every entry is either a file or a directory: the two counts add up to
/// the number of entries.
pub proof fn lemma_files_and_dirs_partition(es: Seq<ArchiveEntry>)
    ensures
        count_kind(es, false) + count_kind(es, true) == es.len(),
    decreases es.len(),
{
    if es.len() > 0 {
        lemma_files_and_dirs_partition(es.drop_last());
    }
}

proof fn lemma_files_size_grows(es: Seq<ArchiveEntry>, k: int)
    requires
        0 <= k <= es.len(),
    ensures
        files_size(es.take(k)) <= files_size(es),
    decreases es.len() - k,
{
    if k < es.len() {
        lemma_files_size_grows(es, k + 1);
        assert(es.take(k + 1).drop_last() =~= es.take(k));
    } else {
        assert(es.take(k) =~= es);
    }
}

/// Count the files and directories among `entries` and add up the sizes of
/// the files; `None` when that total does not fit in 64 bits.
pub fn summarize(entries: &Vec<ArchiveEntry>) -> (r: Option<ListingSummary>)
    ensures
        files_size(entries@) <= u64::MAX ==> (r matches Some(s) && s.files == count_kind(
            entries@,
            false,
        ) && s.dirs == count_kind(entries@, true) && s.total_size == files_size(entries@)),
        files_size(entries@) > u64::MAX ==> r is None,
        r matches Some(s) ==> s.files + s.dirs == entries@.len(),
{
    proof {
        lemma_files_and_dirs_partition(entries@);
    }
    let ghost es = entries@;
    let mut files: usize = 0;
    let mut dirs: usize = 0;
    let mut total: u64 = 0;
    let mut i: usize = 0;
    while i < entries.len()
        invariant
            es == entries@,
            i <= es.len(),
            files == count_kind(es.take(i as int), false),
            dirs == count_kind(es.take(i as int), true),
            total == files_size(es.take(i as int)),
        decreases es.len() - i,
    {
        let ghost t = es.take(i as int);
        assert(es.take(i + 1).drop_last() =~= t);
        proof {
            lemma_counts_bounded(t);
        }
        if entries[i].is_dir {
            dirs = dirs + 1;
        } else {
            files = files + 1;
            match total.checked_add(entries[i].size) {
                Some(v) => {
                    total = v;
                },
                None => {
                    proof {
                        lemma_files_size_grows(es, i + 1);
                    }
                    return None;
                },
            }
        }
        i = i + 1;
    }
    assert(es.take(es.len() as int) =~= es);
    Some(ListingSummary { files, dirs, total_size: total })
}

/// The listing counts directories and files by their kind: the number of
/// directories is the number of entries that are directories, the number of
/// files the number that are not.
pub proof fn lemma_counts_by_kind(es: Seq<ArchiveEntry>)
    ensures
        count_kind(es, true) == es.filter(|e: ArchiveEntry| e.is_dir).len(),
        count_kind(es, false) == es.filter(|e: ArchiveEntry| !e.is_dir).len(),
    decreases es.len(),
{
    reveal(Seq::filter);
    if es.len() > 0 {
        lemma_counts_by_kind(es.drop_last());
    }
}

} // verus!
