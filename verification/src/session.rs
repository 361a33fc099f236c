//! The decisions the extractor window makes around loading and extracting
//! an archive: where to extract by default, which password to use, and how
//! to read the outcome of a background job.

use vstd::prelude::*;
use crate::format::{spec_is_single_file, ArchiveFormat};
use crate::paths::{file_stem, join, parent, spec_file_stem, spec_join, spec_parent};
use crate::text::{chars_of, contains_chars, has_substring, lowercase, owned, to_lowercase};

verus! {

/// The destination proposed for an archive at `path` of the detected
/// `format`: the archive's directory, plus a folder named after the archive
/// unless it is a single compressed file; nothing when the path has no parent.
pub open spec fn spec_default_destination(path: Seq<char>, format: Option<ArchiveFormat>) -> Option<
    Seq<char>,
> {
    match spec_parent(path) {
        None => None,
        Some(dir) => {
            let with_folder = match format {
                Some(f) => !spec_is_single_file(f),
                None => true,
            };
            if with_folder {
                match spec_file_stem(path) {
                    Some(stem) => Some(spec_join(dir, stem)),
                    None => Some(dir),
                }
            } else {
                Some(dir)
            }
        },
    }
}

/// The destination proposed for an archive at `path` of the detected `format`.
pub fn default_destination(path: &str, format: Option<ArchiveFormat>) -> (r: Option<String>)
    ensures
        match spec_default_destination(path@, format) {
            Some(d) => r matches Some(s) && s@ == d,
            None => r is None,
        },
{
    let dir = match parent(path) {
        Some(d) => d,
        None => {
            return None;
        },
    };
    let with_folder = match format {
        Some(f) => !f.is_single_file(),
        None => true,
    };
    if with_folder {
        match file_stem(path) {
            Some(stem) => Some(join(dir.as_str(), stem.as_str())),
            None => Some(dir),
        }
    } else {
        Some(dir)
    }
}

/// The password an extraction is started with.
#[derive(Debug)]
pub enum PasswordChoice {
    /// The archive is not encrypted: extract without a password.
    NotNeeded,
    /// Extract with this password.
    Use(String),
    /// The archive is encrypted and no password was typed: ask for one.
    Missing,
}

/// Which password to start an extraction with: the typed one when the
/// archive is encrypted and one was typed, none when it is not encrypted.
pub fn extraction_password(is_encrypted: bool, password: &str) -> (r: PasswordChoice)
    ensures
        !is_encrypted ==> r is NotNeeded,
        is_encrypted && password@.len() > 0 ==> (r matches PasswordChoice::Use(p) && p@ == password@),
        is_encrypted && password@.len() == 0 ==> r is Missing,
{
    if is_encrypted && !password.is_empty() {
        PasswordChoice::Use(owned(password))
    } else if is_encrypted {
        PasswordChoice::Missing
    } else {
        PasswordChoice::NotNeeded
    }
}

/// An error message that points at a missing or wrong password: its
/// lowercase form mentions "password" or "decrypt".
pub open spec fn spec_is_password_error(message: Seq<char>) -> bool {
    has_substring(lowercase(message), "password"@) || has_substring(lowercase(message), "decrypt"@)
}

/// Whether the lowercased error message `lower` mentions "password" or
/// "decrypt".
pub fn mentions_password(lower: &str) -> (r: bool)
    ensures
        r == (has_substring(lower@, "password"@) || has_substring(lower@, "decrypt"@)),
{
    let l = chars_of(lower);
    let password = chars_of("password");
    let decrypt = chars_of("decrypt");
    contains_chars(&l, &password) || contains_chars(&l, &decrypt)
}

/// Whether an error message reports a missing or wrong password (the window
/// then asks for a password again instead of failing).
pub fn is_password_error(message: &str) -> (r: bool)
    ensures
        r == spec_is_password_error(message@),
{
    let lower = to_lowercase(message);
    mentions_password(lower.as_str())
}

/// How an extraction ended, as the window reports it.
#[derive(Clone, Copy, Debug, PartialEq, Eq, Structural)]
pub enum ExtractionOutcome {
    /// Every entry was extracted.
    Done,
    /// The password was missing or wrong: the user may type another.
    PasswordRetry,
    /// Any other failure.
    Failed,
}

/// How an extraction that ended with the error `error` (if any) is reported.
pub fn extraction_outcome(error: Option<&str>) -> (r: ExtractionOutcome)
    ensures
        error is None ==> r == ExtractionOutcome::Done,
        error matches Some(e) && spec_is_password_error(e@) ==> r == ExtractionOutcome::PasswordRetry,
        error matches Some(e) && !spec_is_password_error(e@) ==> r == ExtractionOutcome::Failed,
{
    match error {
        None => ExtractionOutcome::Done,
        Some(e) => if is_password_error(e) {
            ExtractionOutcome::PasswordRetry
        } else {
            ExtractionOutcome::Failed
        },
    }
}

/// What the window says once an archive has been listed.
#[derive(Clone, Copy, Debug, PartialEq, Eq, Structural)]
pub enum LoadStatus {
    /// The archive lists no entries and is not encrypted.
    Empty,
    /// The archive is encrypted and its entries could not be listed.
    Locked,
    /// The archive is encrypted; its entries are listed.
    LockedWithEntries,
    /// The entries are listed.
    Ready,
}

/// The status after listing `entry_count` entries of an archive that is
/// (or is not) encrypted.
pub fn load_status(entry_count: usize, is_encrypted: bool) -> (r: LoadStatus)
    ensures
        entry_count == 0 && !is_encrypted ==> r == LoadStatus::Empty,
        entry_count == 0 && is_encrypted ==> r == LoadStatus::Locked,
        entry_count > 0 && is_encrypted ==> r == LoadStatus::LockedWithEntries,
        entry_count > 0 && !is_encrypted ==> r == LoadStatus::Ready,
{
    if entry_count == 0 && !is_encrypted {
        LoadStatus::Empty
    } else if is_encrypted {
        if entry_count == 0 {
            LoadStatus::Locked
        } else {
            LoadStatus::LockedWithEntries
        }
    } else {
        LoadStatus::Ready
    }
}

/// How reading one entry of a ZIP archive without a password went.
#[derive(Clone, Copy, Debug, PartialEq, Eq, Structural)]
pub enum ZipEntryProbe {
    /// The entry could be read.
    Readable,
    /// The archive library refused it for want of a password.
    PasswordRequired,
    /// It failed for another reason.
    Unreadable,
}

/// The number of entries read to tell whether a ZIP archive of `total`
/// entries is encrypted: the first ten at most, to keep large archives quick.
pub open spec fn spec_zip_probe_count(total: nat) -> nat {
    if total < 10 {
        total
    } else {
        10
    }
}

/// The number of entries read to tell whether a ZIP archive is encrypted.
pub fn zip_probe_count(total: usize) -> (r: usize)
    ensures
        r == spec_zip_probe_count(total as nat),
{
    if total < 10 {
        total
    } else {
        10
    }
}

/// A ZIP archive counts as encrypted when one of the entries read asked for
/// a password.
pub open spec fn spec_zip_encrypted(probes: Seq<ZipEntryProbe>) -> bool {
    exists|i: int| 0 <= i < probes.len() && probes[i] == ZipEntryProbe::PasswordRequired
}

/// Whether a ZIP archive counts as encrypted, from how reading its first
/// entries went.
pub fn zip_encrypted(probes: &Vec<ZipEntryProbe>) -> (r: bool)
    ensures
        r == spec_zip_encrypted(probes@),
{
    let mut i: usize = 0;
    while i < probes.len()
        invariant
            i <= probes.len(),
            forall|k: int| 0 <= k < i ==> probes@[k] != ZipEntryProbe::PasswordRequired,
        decreases probes.len() - i,
    {
        if probes[i] == ZipEntryProbe::PasswordRequired {
            return true;
        }
        i = i + 1;
    }
    false
}

/// What listing one entry of a RAR archive showed.
#[derive(Clone, Copy, Debug, PartialEq, Eq, Structural)]
pub enum RarEntryProbe {
    /// The entry is listed and not encrypted.
    Plain,
    /// The entry is listed as encrypted.
    Encrypted,
    /// The entry could not be listed.
    Unreadable,
}

/// A RAR archive counts as encrypted when one of its entries is encrypted or
/// cannot be listed (the headers themselves may be encrypted).
pub open spec fn spec_rar_encrypted(probes: Seq<RarEntryProbe>) -> bool {
    exists|i: int| 0 <= i < probes.len() && probes[i] != RarEntryProbe::Plain
}

/// Whether a RAR archive counts as encrypted once the entry `probe` is
/// listed after entries that gave `so_far`.
pub fn rar_encrypted_after(so_far: bool, probe: RarEntryProbe) -> (r: bool)
    ensures
        r == (so_far || probe != RarEntryProbe::Plain),
{
    so_far || probe != RarEntryProbe::Plain
}

/// Listing entry after entry with `rar_encrypted_after` gives the answer
/// for all the entries listed, and once an archive counts as encrypted the
/// entries after cannot change that (so listing may stop there).
pub proof fn lemma_rar_encrypted_step(probes: Seq<RarEntryProbe>, probe: RarEntryProbe)
    ensures
        spec_rar_encrypted(probes.push(probe)) == (spec_rar_encrypted(probes) || probe
            != RarEntryProbe::Plain),
        spec_rar_encrypted(probes) ==> spec_rar_encrypted(probes.push(probe)),
        !spec_rar_encrypted(Seq::<RarEntryProbe>::empty()),
{
    let q = probes.push(probe);
    if spec_rar_encrypted(probes) {
        let i = choose|i: int| 0 <= i < probes.len() && probes[i] != RarEntryProbe::Plain;
        assert(q[i] == probes[i]);
    }
    if probe != RarEntryProbe::Plain {
        assert(q[probes.len() as int] == probe);
    }
    if spec_rar_encrypted(q) {
        let i = choose|i: int| 0 <= i < q.len() && q[i] != RarEntryProbe::Plain;
        if i < probes.len() {
            assert(q[i] == probes[i]);
        }
    }
}

/// The proposed destination of an archive with a parent directory and a
/// stem: for an archive of many files (ZIP, TAR, RAR, 7z), or of a format not
/// recognised, a folder named after the archive in that directory; for a
/// single compressed file (GZIP, BZIP2, XZ, Zstandard, Brotli, LZ4) the
/// directory itself. Without a parent nothing is proposed.
pub proof fn lemma_default_destination_folder(path: Seq<char>, format: Option<ArchiveFormat>)
    ensures
        spec_parent(path) is None ==> spec_default_destination(path, format) is None,
        spec_parent(path) is Some && spec_file_stem(path) is Some ==> {
            &&& (format is None || format == Some(ArchiveFormat::Zip) || format == Some(
                ArchiveFormat::Tar,
            ) || format == Some(ArchiveFormat::Rar) || format == Some(ArchiveFormat::SevenZip)
                || format == Some(ArchiveFormat::Unknown)) ==> spec_default_destination(path, format)
                == Some(spec_join(spec_parent(path)->0, spec_file_stem(path)->0))
            &&& (format == Some(ArchiveFormat::Gzip) || format == Some(ArchiveFormat::Bzip2)
                || format == Some(ArchiveFormat::Xz) || format == Some(ArchiveFormat::Zstd)
                || format == Some(ArchiveFormat::Brotli) || format == Some(ArchiveFormat::Lz4))
                ==> spec_default_destination(path, format) == Some(spec_parent(path)->0)
        },
{
}

} // verus!
