//! The decisions of an extraction: which entries are extracted, where each
//! one is written, what is counted, and when an extraction fails.
//!
//! The program around the library reads the archive, asks these functions
//! what to do with each entry, does it, and reports what they count.

use vstd::prelude::*;
use crate::entry::ArchiveEntry;
use crate::format::ArchiveFormat;
use crate::paths::{
    dot, dot_dot, file_name, has_backslash_parent, join, lemma_file_name_of_plain,
    lemma_sanitize_keeps_every_name,
    lemma_sanitized_path_inside_dest, no_separator, normal_names, sanitize_target_path,
    spec_components, spec_file_name, spec_join, spec_sanitize, Part,
};
use crate::text::{chars_eq, chars_of, owned, str_eq, string_from_chars, sub_chars};

verus! {

/// What an extraction reads: the archive, the destination directory, the
/// password if one was given, and, if only some entries are wanted, their
/// names (matched exactly against the names the archive records).
pub struct ExtractionContext {
    pub path: String,
    pub dest: String,
    pub password: Option<String>,
    pub files: Option<Vec<String>>,
}

/// The texts of a list of names.
pub open spec fn names_view(v: Seq<String>) -> Seq<Seq<char>> {
    v.map_values(|s: String| s@)
}

/// The texts of an optional list of names.
pub open spec fn files_view(files: Option<Vec<String>>) -> Option<Seq<Seq<char>>> {
    match files {
        Some(fs) => Some(names_view(fs@)),
        None => None,
    }
}

/// Whether an entry named `name` is wanted: all are when no list is given,
/// else exactly those on the list.
pub open spec fn spec_selected(files: Option<Seq<Seq<char>>>, name: Seq<char>) -> bool {
    match files {
        None => true,
        Some(fs) => fs.contains(name),
    }
}

/// Whether `name` is one of `names`.
fn names_contain(names: &Vec<String>, name: &str) -> (r: bool)
    ensures
        r == names_view(names@).contains(name@),
{
    let mut i: usize = 0;
    while i < names.len()
        invariant
            i <= names.len(),
            forall|k: int| 0 <= k < i ==> (#[trigger] names@[k])@ != name@,
        decreases names.len() - i,
    {
        if str_eq(names[i].as_str(), name) {
            assert(names_view(names@)[i as int] == name@);
            return true;
        }
        i = i + 1;
    }
    assert forall|k: int| 0 <= k < names_view(names@).len() implies names_view(names@)[k] != name@ by {
        assert(names_view(names@)[k] == names@[k]@);
    }
    false
}

/// A copy of a list of names.
fn copy_names(names: &Vec<String>) -> (r: Vec<String>)
    ensures
        names_view(r@) == names_view(names@),
{
    let mut out: Vec<String> = Vec::new();
    let mut i: usize = 0;
    while i < names.len()
        invariant
            i <= names.len(),
            names_view(out@) == names_view(names@).take(i as int),
        decreases names.len() - i,
    {
        let n = names[i].clone();
        assert(n@ == names@[i as int]@);
        let ghost before = out@;
        out.push(n);
        assert(out@ == before.push(n));
        assert(names_view(out@) =~= names_view(before).push(n@));
        assert(names_view(out@) =~= names_view(names@).take(i + 1));
        i = i + 1;
    }
    assert(names_view(names@).take(names.len() as int) =~= names_view(names@));
    out
}

impl ExtractionContext {
    /// Whether the entry named `name` is to be extracted.
    pub fn should_extract(&self, name: &str) -> (r: bool)
        ensures
            r == spec_selected(files_view(self.files), name@),
    {
        match &self.files {
            None => true,
            Some(files) => names_contain(files, name),
        }
    }
}

/// Why an extraction stops.
#[derive(Clone, Copy, Debug, PartialEq, Eq, Structural)]
pub enum ExtractionError {
    /// The user cancelled the extraction.
    Cancelled,
    /// A list of wanted entries was given and none of them is in the archive.
    NoMatchingFiles,
    /// An entry path holds a `..` component.
    DirectoryTraversal,
    /// The archive library found no safe path inside the archive for an entry.
    EntryEscapesArchive,
    /// A single compressed file does not carry its format's extension.
    MissingExtension,
}

/// Stop when the user has cancelled: the check made before each entry (and
/// before a single compressed file is opened).
pub fn check_cancelled(cancelled: bool) -> (r: Result<(), ExtractionError>)
    ensures
        cancelled ==> r == Err::<(), ExtractionError>(ExtractionError::Cancelled),
        !cancelled ==> r is Ok,
{
    if cancelled {
        Err(ExtractionError::Cancelled)
    } else {
        Ok(())
    }
}

/// What to do with one entry.
#[derive(Debug)]
pub enum EntryAction {
    /// Leave the entry alone.
    Skip,
    /// Make sure the directory exists.
    CreateDir(String),
    /// Make sure the parent directory exists, then write the entry there.
    WriteFile(String),
}

/// What to do with one entry, as a mathematical value.
pub enum ActionView {
    Skip,
    CreateDir(Seq<char>),
    WriteFile(Seq<char>),
}

impl View for EntryAction {
    type V = ActionView;

    open spec fn view(&self) -> ActionView {
        match self {
            EntryAction::Skip => ActionView::Skip,
            EntryAction::CreateDir(p) => ActionView::CreateDir(p@),
            EntryAction::WriteFile(p) => ActionView::WriteFile(p@),
        }
    }
}

/// `s` ends with a separator.
pub open spec fn ends_with_slash(s: Seq<char>) -> bool {
    s.len() > 0 && s.last() == '/'
}

/// What a multi-file extraction does with an entry named `name` whose path
/// inside the archive is `path` (for ZIP, the path the archive library
/// accepts as enclosed, `None` when it finds none): the action and whether the
/// entry counts among the entries extracted.
/// Each format applies its own rules:
/// - ZIP (entries chosen beforehand): every entry counts; a name ending in
///   '/' is a directory;
/// - TAR: unwanted entries are skipped uncounted, the rest written and counted;
/// - 7z: unwanted entries are skipped uncounted, the rest created or
///   written and counted;
/// - RAR (the remaining case): unwanted entries are skipped uncounted,
///   directories created uncounted, files written and counted.
pub open spec fn spec_entry_step(
    format: ArchiveFormat,
    dest: Seq<char>,
    files: Option<Seq<Seq<char>>>,
    name: Seq<char>,
    path: Option<Seq<char>>,
    is_dir: bool,
) -> Result<(ActionView, bool), ExtractionError> {
    match format {
        ArchiveFormat::Zip => match path {
            None => Err(ExtractionError::EntryEscapesArchive),
            Some(p) => match spec_sanitize(dest, p) {
                None => Err(ExtractionError::DirectoryTraversal),
                Some(out) => if ends_with_slash(name) {
                    Ok((ActionView::CreateDir(out), true))
                } else {
                    Ok((ActionView::WriteFile(out), true))
                },
            },
        },
        ArchiveFormat::Tar => if !spec_selected(files, name) {
            Ok((ActionView::Skip, false))
        } else {
            match spec_sanitize(dest, name) {
                None => Err(ExtractionError::DirectoryTraversal),
                Some(out) => Ok((ActionView::WriteFile(out), true)),
            }
        },
        ArchiveFormat::SevenZip => if !spec_selected(files, name) {
            Ok((ActionView::Skip, false))
        } else {
            match spec_sanitize(dest, name) {
                None => Err(ExtractionError::DirectoryTraversal),
                Some(out) => if is_dir {
                    Ok((ActionView::CreateDir(out), true))
                } else {
                    Ok((ActionView::WriteFile(out), true))
                },
            }
        },
        _ => if !spec_selected(files, name) {
            Ok((ActionView::Skip, false))
        } else {
            match spec_sanitize(dest, name) {
                None => Err(ExtractionError::DirectoryTraversal),
                Some(out) => if is_dir {
                    Ok((ActionView::CreateDir(out), false))
                } else {
                    Ok((ActionView::WriteFile(out), true))
                },
            }
        },
    }
}

/// Formats whose archives hold many entries, each planned on its own.
pub open spec fn is_multi_entry(format: ArchiveFormat) -> bool {
    format == ArchiveFormat::Zip || format == ArchiveFormat::Tar || format == ArchiveFormat::SevenZip
        || format == ArchiveFormat::Rar
}

/// The running state of the extraction of a multi-file archive.
pub struct Extraction {
    format: ArchiveFormat,
    dest: String,
    files: Option<Vec<String>>,
    extracted: usize,
}

impl Extraction {
    pub closed spec fn spec_format(&self) -> ArchiveFormat {
        self.format
    }

    pub closed spec fn spec_dest(&self) -> Seq<char> {
        self.dest@
    }

    pub closed spec fn spec_files(&self) -> Option<Seq<Seq<char>>> {
        files_view(self.files)
    }

    pub closed spec fn spec_extracted(&self) -> nat {
        self.extracted as nat
    }

    /// Start extracting an archive of the (multi-file) `format` as `ctx` says.
    pub fn new(ctx: &ExtractionContext, format: ArchiveFormat) -> (r: Extraction)
        requires
            is_multi_entry(format),
        ensures
            r.spec_format() == format,
            r.spec_dest() == ctx.dest@,
            r.spec_files() == files_view(ctx.files),
            r.spec_extracted() == 0,
    {
        let files = match &ctx.files {
            Some(fs) => Some(copy_names(fs)),
            None => None,
        };
        Extraction { format, dest: ctx.dest.clone(), files, extracted: 0 }
    }

    /// The number of entries counted so far.
    pub fn extracted(&self) -> (r: usize)
        ensures
            r == self.spec_extracted(),
    {
        self.extracted
    }

    /// Decide what to do with the next entry (see `spec_entry_step`), and
    /// count it when it counts.
    pub fn next_entry(
        &mut self,
        name: &str,
        path: Option<&str>,
        is_dir: bool,
    ) -> (r: Result<EntryAction, ExtractionError>)
        requires
            old(self).spec_extracted() < usize::MAX,
        ensures
            final(self).spec_format() == old(self).spec_format(),
            final(self).spec_dest() == old(self).spec_dest(),
            final(self).spec_files() == old(self).spec_files(),
            match spec_entry_step(
                old(self).spec_format(),
                old(self).spec_dest(),
                old(self).spec_files(),
                name@,
                match path {
                    Some(p) => Some(p@),
                    None => None,
                },
                is_dir,
            ) {
                Ok((action, counted)) => r matches Ok(a) && a@ == action
                    && final(self).spec_extracted() == old(self).spec_extracted() + (if counted {
                    1nat
                } else {
                    0nat
                }),
                Err(e) => r == Err::<EntryAction, ExtractionError>(e) && final(self).spec_extracted()
                    == old(self).spec_extracted(),
            },
    {
        let (action, counted): (EntryAction, bool) = match self.format {
            ArchiveFormat::Zip => {
                let p = match path {
                    None => {
                        return Err(ExtractionError::EntryEscapesArchive);
                    },
                    Some(p) => p,
                };
                let out = match sanitize_target_path(self.dest.as_str(), p) {
                    Ok(out) => out,
                    Err(_) => {
                        return Err(ExtractionError::DirectoryTraversal);
                    },
                };
                let cs = chars_of(name);
                if cs.len() > 0 && cs[cs.len() - 1] == '/' {
                    (EntryAction::CreateDir(out), true)
                } else {
                    (EntryAction::WriteFile(out), true)
                }
            },
            ArchiveFormat::Tar => {
                if !self.wants(name) {
                    (EntryAction::Skip, false)
                } else {
                    match sanitize_target_path(self.dest.as_str(), name) {
                        Ok(out) => (EntryAction::WriteFile(out), true),
                        Err(_) => {
                            return Err(ExtractionError::DirectoryTraversal);
                        },
                    }
                }
            },
            ArchiveFormat::SevenZip => {
                if !self.wants(name) {
                    (EntryAction::Skip, false)
                } else {
                    match sanitize_target_path(self.dest.as_str(), name) {
                        Ok(out) => if is_dir {
                            (EntryAction::CreateDir(out), true)
                        } else {
                            (EntryAction::WriteFile(out), true)
                        },
                        Err(_) => {
                            return Err(ExtractionError::DirectoryTraversal);
                        },
                    }
                }
            },
            _ => {
                if !self.wants(name) {
                    (EntryAction::Skip, false)
                } else {
                    match sanitize_target_path(self.dest.as_str(), name) {
                        Ok(out) => if is_dir {
                            (EntryAction::CreateDir(out), false)
                        } else {
                            (EntryAction::WriteFile(out), true)
                        },
                        Err(_) => {
                            return Err(ExtractionError::DirectoryTraversal);
                        },
                    }
                }
            },
        };
        if counted {
            self.extracted = self.extracted + 1;
        }
        Ok(action)
    }

    fn wants(&self, name: &str) -> (r: bool)
        ensures
            r == spec_selected(self.spec_files(), name@),
    {
        match &self.files {
            None => true,
            Some(files) => names_contain(files, name),
        }
    }

    /// The result once every entry has been handled: the number counted,
    /// except that a TAR extraction that was given a list of wanted entries
    /// and counted none fails.
    pub fn finish(&self) -> (r: Result<usize, ExtractionError>)
        ensures
            (self.spec_format() == ArchiveFormat::Tar && self.spec_files() is Some
                && self.spec_extracted() == 0) ==> r == Err::<usize, ExtractionError>(
                ExtractionError::NoMatchingFiles,
            ),
            !(self.spec_format() == ArchiveFormat::Tar && self.spec_files() is Some
                && self.spec_extracted() == 0) ==> r == Ok::<usize, ExtractionError>(
                self.spec_extracted() as usize,
            ),
    {
        if self.format == ArchiveFormat::Tar && self.files.is_some() && self.extracted == 0 {
            Err(ExtractionError::NoMatchingFiles)
        } else {
            Ok(self.extracted)
        }
    }
}

/// The texts of the names a ZIP archive lists (`None` where an entry could
/// not be read).
pub open spec fn entry_names_view(v: Seq<Option<String>>) -> Seq<Option<Seq<char>>> {
    v.map_values(|o: Option<String>| match o {
        Some(s) => Some(s@),
        None => None,
    })
}

/// The positions among the first `n` names whose name is on the list `fs`.
pub open spec fn chosen_entries(fs: Seq<Seq<char>>, names: Seq<Option<Seq<char>>>, n: nat) -> Seq<
    usize,
>
    decreases n,
{
    if n == 0 {
        Seq::<usize>::empty()
    } else {
        let prev = chosen_entries(fs, names, (n - 1) as nat);
        match names[n - 1] {
            Some(x) => if fs.contains(x) {
                prev.push((n - 1) as usize)
            } else {
                prev
            },
            None => prev,
        }
    }
}

/// The entries of a ZIP archive of `total` entries to extract, in archive
/// order: all of them when no list is given, else those whose name is on the
/// list; an empty choice from a list is an error.
pub open spec fn spec_zip_selection(
    files: Option<Seq<Seq<char>>>,
    total: nat,
    names: Seq<Option<Seq<char>>>,
) -> Result<Seq<usize>, ExtractionError> {
    match files {
        None => Ok(Seq::new(total, |i: int| i as usize)),
        Some(fs) => if chosen_entries(fs, names, names.len()).len() == 0 {
            Err(ExtractionError::NoMatchingFiles)
        } else {
            Ok(chosen_entries(fs, names, names.len()))
        },
    }
}

/// Choose the entries of a ZIP archive of `total` entries to extract;
/// `names[i]` is the name of entry `i` (`None` when it could not be read),
/// consulted only when `ctx` lists wanted entries.
pub fn select_zip_entries(ctx: &ExtractionContext, total: usize, names: &Vec<Option<String>>) -> (r:
    Result<Vec<usize>, ExtractionError>)
    ensures
        match spec_zip_selection(files_view(ctx.files), total as nat, entry_names_view(names@)) {
            Ok(sel) => r matches Ok(v) && v@ == sel,
            Err(e) => r == Err::<Vec<usize>, ExtractionError>(e),
        },
{
    match &ctx.files {
        None => {
            let mut out: Vec<usize> = Vec::new();
            let mut i: usize = 0;
            while i < total
                invariant
                    i <= total,
                    out@ == Seq::new(i as nat, |k: int| k as usize),
                decreases total - i,
            {
                out.push(i);
                assert(out@ =~= Seq::new((i + 1) as nat, |k: int| k as usize));
                i = i + 1;
            }
            Ok(out)
        },
        Some(fs) => {
            let ghost nv = entry_names_view(names@);
            let ghost fv = names_view(fs@);
            let mut out: Vec<usize> = Vec::new();
            let mut i: usize = 0;
            while i < names.len()
                invariant
                    i <= names.len(),
                    nv == entry_names_view(names@),
                    fv == names_view(fs@),
                    out@ == chosen_entries(fv, nv, i as nat),
                decreases names.len() - i,
            {
                match &names[i] {
                    Some(n) => {
                        assert(nv[i as int] == Some(n@));
                        if names_contain(fs, n.as_str()) {
                            out.push(i);
                        }
                    },
                    None => {
                        assert(nv[i as int] is None);
                    },
                }
                i = i + 1;
            }
            if out.len() == 0 {
                Err(ExtractionError::NoMatchingFiles)
            } else {
                Ok(out)
            }
        },
    }
}

/// Smallest and largest number of ZIP entries handed to one worker.
pub open spec fn spec_zip_chunk_size(total_files: nat, cpus: nat) -> nat {
    let per_cpu = total_files / cpus;
    if per_cpu < 64 {
        64
    } else if per_cpu > 2048 {
        2048
    } else {
        per_cpu
    }
}

/// How many ZIP entries each worker takes: about one share per CPU, at least
/// 64 and at most 2048.
pub fn zip_chunk_size(total_files: usize, cpus: usize) -> (r: usize)
    requires
        cpus > 0,
    ensures
        r == spec_zip_chunk_size(total_files as nat, cpus as nat),
        64 <= r <= 2048,
{
    let per_cpu = total_files / cpus;
    if per_cpu < 64 {
        64
    } else if per_cpu > 2048 {
        2048
    } else {
        per_cpu
    }
}

/// Whether the ZIP entries to extract are shared out among workers (from 64
/// entries on) rather than extracted in turn.
pub fn zip_runs_in_parallel(count: usize) -> (r: bool)
    ensures
        r == (count >= 64),
{
    count >= 64
}

/// The suffixes a compressed single file is expected to carry, in the order
/// they are tried.
pub open spec fn spec_single_file_suffixes(format: ArchiveFormat) -> Seq<Seq<char>> {
    match format {
        ArchiveFormat::Gzip => seq![".gz"@, ".gzip"@],
        ArchiveFormat::Bzip2 => seq![".bz2"@],
        ArchiveFormat::Xz => seq![".xz"@],
        ArchiveFormat::Zstd => seq![".zstd"@, ".zst"@],
        ArchiveFormat::Brotli => seq![".br"@],
        ArchiveFormat::Lz4 => seq![".lz4"@],
        _ => Seq::<Seq<char>>::empty(),
    }
}

pub open spec fn has_suffix(s: Seq<char>, suf: Seq<char>) -> bool {
    suf.len() <= s.len() && s.subrange(s.len() - suf.len(), s.len() as int) == suf
}

/// `name` without the first of `sufs` that it ends with; `name` itself when
/// it ends with none.
pub open spec fn strip_first_suffix(name: Seq<char>, sufs: Seq<Seq<char>>) -> Seq<char>
    decreases sufs.len(),
{
    if sufs.len() == 0 {
        name
    } else if has_suffix(name, sufs[0]) {
        name.subrange(0, name.len() - sufs[0].len())
    } else {
        strip_first_suffix(name, sufs.skip(1))
    }
}

/// The name of the file a compressed single file `name` decompresses to: the
/// name without its format's suffix, "output" when nothing is left; an error
/// when the name carries none of the suffixes.
pub open spec fn spec_output_name(name: Seq<char>, sufs: Seq<Seq<char>>) -> Result<
    Seq<char>,
    ExtractionError,
> {
    let stripped = strip_first_suffix(name, sufs);
    if stripped == name {
        Err(ExtractionError::MissingExtension)
    } else if stripped.len() == 0 {
        Ok("output"@)
    } else {
        Ok(stripped)
    }
}

/// Where a compressed single file at `path` is decompressed to, under `dest`.
pub open spec fn spec_single_file_target(
    dest: Seq<char>,
    path: Seq<char>,
    format: ArchiveFormat,
) -> Result<Seq<char>, ExtractionError> {
    let name = match spec_file_name(path) {
        Some(n) => n,
        None => Seq::<char>::empty(),
    };
    match spec_output_name(name, spec_single_file_suffixes(format)) {
        Ok(o) => Ok(spec_join(dest, o)),
        Err(e) => Err(e),
    }
}

/// The suffixes a compressed single file of `format` is expected to carry.
pub fn single_file_suffixes(format: ArchiveFormat) -> (r: Vec<&'static str>)
    ensures
        r@.map_values(|s: &'static str| s@) == spec_single_file_suffixes(format),
{
    let r: Vec<&'static str> = match format {
        ArchiveFormat::Gzip => vec![".gz", ".gzip"],
        ArchiveFormat::Bzip2 => vec![".bz2"],
        ArchiveFormat::Xz => vec![".xz"],
        ArchiveFormat::Zstd => vec![".zstd", ".zst"],
        ArchiveFormat::Brotli => vec![".br"],
        ArchiveFormat::Lz4 => vec![".lz4"],
        _ => Vec::new(),
    };
    assert(r@.map_values(|s: &'static str| s@) =~= spec_single_file_suffixes(format));
    r
}

/// Whether `s` ends with `suf`.
fn ends_with(s: &Vec<char>, suf: &Vec<char>) -> (r: bool)
    ensures
        r == has_suffix(s@, suf@),
{
    if suf.len() > s.len() {
        return false;
    }
    let off = s.len() - suf.len();
    let mut i: usize = 0;
    while i < suf.len()
        invariant
            off + suf.len() == s.len(),
            i <= suf.len(),
            forall|k: int| 0 <= k < i ==> s@[off + k] == suf@[k],
        decreases suf.len() - i,
    {
        if s[off + i] != suf[i] {
            assert(s@.subrange(off as int, s.len() as int)[i as int] != suf@[i as int]);
            return false;
        }
        i = i + 1;
    }
    assert(s@.subrange(off as int, s.len() as int) =~= suf@);
    true
}

/// The name of the file that the compressed single file `name` decompresses
/// to, given the suffixes its format carries.
pub fn output_name(name: &str, suffixes: &Vec<&'static str>) -> (r: Result<String, ExtractionError>)
    ensures
        match spec_output_name(name@, suffixes@.map_values(|s: &'static str| s@)) {
            Ok(o) => r matches Ok(v) && v@ == o,
            Err(e) => r == Err::<String, ExtractionError>(e),
        },
{
    let cs = chars_of(name);
    let ghost sufs = suffixes@.map_values(|s: &'static str| s@);
    let mut stripped: Vec<char> = cs.clone();
    let mut i: usize = 0;
    let mut found = false;
    assert(sufs.skip(0) =~= sufs);
    while i < suffixes.len()
        invariant_except_break
            i <= suffixes.len(),
            cs@ == name@,
            sufs == suffixes@.map_values(|s: &'static str| s@),
            !found,
            strip_first_suffix(name@, sufs) == strip_first_suffix(name@, sufs.skip(i as int)),
        ensures
            found ==> stripped@ == strip_first_suffix(name@, sufs),
            !found ==> strip_first_suffix(name@, sufs) == name@,
        decreases suffixes.len() - i,
    {
        let suf = chars_of(suffixes[i]);
        assert(sufs.skip(i as int)[0] == suf@);
        assert(sufs.skip(i as int).len() > 0);
        if ends_with(&cs, &suf) {
            stripped = sub_chars(&cs, 0, cs.len() - suf.len());
            found = true;
            break;
        }
        assert(sufs.skip(i as int).skip(1) =~= sufs.skip(i + 1));
        i = i + 1;
    }
    if !found {
        return Err(ExtractionError::MissingExtension);
    }
    if chars_eq(&stripped, &cs) {
        return Err(ExtractionError::MissingExtension);
    }
    if stripped.len() == 0 {
        return Ok(owned("output"));
    }
    Ok(string_from_chars(stripped.as_slice()))
}

/// Where the compressed single file of `ctx` (of the single-file `format`)
/// is decompressed to.
pub fn single_file_target(ctx: &ExtractionContext, format: ArchiveFormat) -> (r: Result<
    String,
    ExtractionError,
>)
    ensures
        match spec_single_file_target(ctx.dest@, ctx.path@, format) {
            Ok(o) => r matches Ok(v) && v@ == o,
            Err(e) => r == Err::<String, ExtractionError>(e),
        },
{
    let name = match file_name(ctx.path.as_str()) {
        Some(n) => n,
        None => owned(""),
    };
    proof {
        reveal_strlit("");
        assert(""@ =~= Seq::<char>::empty());
    }
    let sufs = single_file_suffixes(format);
    match output_name(name.as_str(), &sufs) {
        Ok(o) => Ok(join(ctx.dest.as_str(), o.as_str())),
        Err(e) => Err(e),
    }
}

impl ArchiveEntry {
    /// The single entry listed for a compressed single file at `path` whose
    /// size on disk is `compressed_size`: named after the file, size unknown (0).
    pub fn single_file(path: &str, compressed_size: u64) -> (r: ArchiveEntry)
        ensures
            r.name@ == (match spec_file_name(path@) {
                Some(n) => n,
                None => Seq::<char>::empty(),
            }),
            !r.is_dir,
            r.size == 0,
            r.compressed_size == compressed_size,
            r.path@ == path@,
    {
        let name = match file_name(path) {
            Some(n) => n,
            None => owned(""),
        };
        proof {
            reveal_strlit("");
            assert(""@ =~= Seq::<char>::empty());
        }
        ArchiveEntry { name, is_dir: false, size: 0, compressed_size, path: owned(path) }
    }

    /// The entry listed for a ZIP entry named `name`: a directory when the
    /// name ends in '/'; its path is the one the archive library accepts as
    /// enclosed (`enclosed`), else the raw name.
    pub fn zip_entry(name: &str, size: u64, compressed_size: u64, enclosed: Option<&str>) -> (r:
        ArchiveEntry)
        ensures
            r.name@ == name@,
            r.is_dir == ends_with_slash(name@),
            r.size == size,
            r.compressed_size == compressed_size,
            r.path@ == (match enclosed {
                Some(p) => p@,
                None => name@,
            }),
    {
        let cs = chars_of(name);
        let is_dir = cs.len() > 0 && cs[cs.len() - 1] == '/';
        let path = match enclosed {
            Some(p) => owned(p),
            None => owned(name),
        };
        ArchiveEntry { name: owned(name), is_dir, size, compressed_size, path }
    }
}

/// The path an action writes to, if any.
pub open spec fn action_target(a: ActionView) -> Option<Seq<char>> {
    match a {
        ActionView::Skip => None,
        ActionView::CreateDir(p) => Some(p),
        ActionView::WriteFile(p) => Some(p),
    }
}

/// No entry of any archive is written outside the destination: every
/// directory created and every file written lies at the destination's
/// components followed by normal components only (no `..`, no root), none
/// of which climbs where '\' separates too.
pub proof fn lemma_entry_target_inside_dest(
    format: ArchiveFormat,
    dest: Seq<char>,
    files: Option<Seq<Seq<char>>>,
    name: Seq<char>,
    path: Option<Seq<char>>,
    is_dir: bool,
)
    requires
        spec_entry_step(format, dest, files, name, path, is_dir) matches Ok((a, c)) && action_target(a) is Some,
    ensures
        ({
            let target = action_target(spec_entry_step(format, dest, files, name, path, is_dir)->Ok_0.0)->0;
            let extra = spec_components(target).skip(spec_components(dest).len() as int);
            &&& spec_components(dest).len() <= spec_components(target).len()
            &&& spec_components(target).take(spec_components(dest).len() as int) == spec_components(dest)
            &&& forall|k: int|
                0 <= k < extra.len() ==> ((#[trigger] extra[k]) matches Part::Normal(n)
                    && !has_backslash_parent(n))
        }),
{
    let entry = match format {
        ArchiveFormat::Zip => path->0,
        _ => name,
    };
    lemma_sanitized_path_inside_dest(dest, entry);
    let cd = spec_components(dest);
    let named = normal_names(spec_components(entry)).map_values(|n: Seq<char>| Part::Normal(n));
    let target = spec_sanitize(dest, entry)->0;
    assert(spec_components(target) == cd + named);
    assert((cd + named).take(cd.len() as int) =~= cd);
    assert((cd + named).skip(cd.len() as int) =~= named);
    let ns = normal_names(spec_components(entry));
    assert forall|k: int| 0 <= k < named.len() implies ((#[trigger] named[k]) matches Part::Normal(n)
        && !has_backslash_parent(n)) by {
        assert(named[k] == Part::Normal(ns[k]));
    }
}

/// No name of an entry is lost or added on the way to where it is
/// written: what follows the destination's components in the path of a
/// created directory or written file is exactly the normal components of
/// the entry's path (for ZIP, the enclosed path), in order.
pub proof fn lemma_entry_target_keeps_names(
    format: ArchiveFormat,
    dest: Seq<char>,
    files: Option<Seq<Seq<char>>>,
    name: Seq<char>,
    path: Option<Seq<char>>,
    is_dir: bool,
)
    requires
        spec_entry_step(format, dest, files, name, path, is_dir) matches Ok((a, c)) && action_target(a) is Some,
    ensures
        spec_components(
            action_target(spec_entry_step(format, dest, files, name, path, is_dir)->Ok_0.0)->0,
        ) == spec_components(dest) + spec_components(
            match format {
                ArchiveFormat::Zip => path->0,
                _ => name,
            },
        ).filter(|p: Part| p is Normal),
{
    let entry = match format {
        ArchiveFormat::Zip => path->0,
        _ => name,
    };
    lemma_sanitize_keeps_every_name(dest, entry);
    assert(action_target(spec_entry_step(format, dest, files, name, path, is_dir)->Ok_0.0)->0
        == spec_sanitize(dest, entry)->0);
}

/// The count is of entries extracted: an entry that is counted is written
/// or created (never skipped), and every file written is counted. For TAR,
/// 7z and RAR, an entry is counted exactly when it is not skipped, except
/// that RAR does not count directories.
pub proof fn lemma_count_is_extracted(
    format: ArchiveFormat,
    dest: Seq<char>,
    files: Option<Seq<Seq<char>>>,
    name: Seq<char>,
    path: Option<Seq<char>>,
    is_dir: bool,
)
    requires
        spec_entry_step(format, dest, files, name, path, is_dir) is Ok,
    ensures
        ({
            let (a, counted) = spec_entry_step(format, dest, files, name, path, is_dir)->Ok_0;
            &&& counted ==> !(a is Skip)
            &&& a is WriteFile ==> counted
            &&& (format == ArchiveFormat::Tar || format == ArchiveFormat::SevenZip) ==> (counted
                <==> !(a is Skip))
            &&& format == ArchiveFormat::Rar ==> (counted <==> a is WriteFile)
        }),
{
}

/// Every ZIP entry chosen from a list is on the list, and the choice keeps
/// archive order without repeats.
pub proof fn lemma_zip_choice_sound(fs: Seq<Seq<char>>, names: Seq<Option<Seq<char>>>, n: nat)
    requires
        n <= names.len() <= usize::MAX,
    ensures
        forall|k: int|
            0 <= k < chosen_entries(fs, names, n).len() ==> {
                let i = #[trigger] chosen_entries(fs, names, n)[k];
                &&& i < n
                &&& names[i as int] matches Some(x) && fs.contains(x)
            },
        forall|a: int, b: int|
            0 <= a < b < chosen_entries(fs, names, n).len() ==> #[trigger] chosen_entries(fs, names, n)[a]
                < #[trigger] chosen_entries(fs, names, n)[b],
    decreases n,
{
    if n > 0 {
        let m = (n - 1) as nat;
        lemma_zip_choice_sound(fs, names, m);
        let prev = chosen_entries(fs, names, m);
        let r = chosen_entries(fs, names, n);
        assert forall|k: int| 0 <= k < r.len() implies ({
            let i = #[trigger] r[k];
            &&& i < n
            &&& names[i as int] matches Some(x) && fs.contains(x)
        }) by {
            if k < prev.len() {
                assert(r[k] == prev[k]);
            } else {
                assert(r[k] == m as usize);
            }
        }
        assert forall|a: int, b: int| 0 <= a < b < r.len() implies #[trigger] r[a] < #[trigger] r[b] by {
            if b < prev.len() {
                assert(r[a] == prev[a] && r[b] == prev[b]);
            } else {
                assert(r[b] == m as usize);
                assert(r[a] == prev[a]);
            }
        }
    }
}

/// A decompressed single file is named after the compressed one without the
/// suffix that was removed (or "output" when only the suffix was there).
pub proof fn lemma_output_name_suffix(name: Seq<char>, sufs: Seq<Seq<char>>)
    requires
        spec_output_name(name, sufs) is Ok,
    ensures
        exists|k: int|
            0 <= k < sufs.len() && #[trigger] has_suffix(name, sufs[k]) && (name == sufs[k] ==> spec_output_name(name, sufs)->Ok_0 == "output"@)
                && (name != sufs[k] ==> spec_output_name(name, sufs)->Ok_0 + sufs[k] == name),
    decreases sufs.len(),
{
    lemma_strip_first(name, sufs);
}

proof fn lemma_strip_first(name: Seq<char>, sufs: Seq<Seq<char>>)
    requires
        strip_first_suffix(name, sufs) != name,
    ensures
        exists|k: int|
            0 <= k < sufs.len() && #[trigger] has_suffix(name, sufs[k]) && strip_first_suffix(name, sufs)
                + sufs[k] == name,
    decreases sufs.len(),
{
    if has_suffix(name, sufs[0]) {
        let s = sufs[0];
        assert(name.subrange(0, name.len() - s.len()) + s =~= name);
    } else {
        lemma_strip_first(name, sufs.skip(1));
        let k = choose|k: int|
            0 <= k < sufs.skip(1).len() && #[trigger] has_suffix(name, sufs.skip(1)[k])
                && strip_first_suffix(name, sufs.skip(1)) + sufs.skip(1)[k] == name;
        assert(sufs.skip(1)[k] == sufs[k + 1]);
    }
}

proof fn lemma_suffix_of_joined(stem: Seq<char>, suf: Seq<char>)
    ensures
        has_suffix(stem + suf, suf),
        (stem + suf).subrange(0, (stem + suf).len() - suf.len()) == stem,
{
    let n = stem + suf;
    assert(n.subrange(n.len() - suf.len(), n.len() as int) =~= suf);
    assert(n.subrange(0, n.len() - suf.len()) =~= stem);
}

proof fn lemma_not_suffix_by_last(s: Seq<char>, suf: Seq<char>)
    requires
        s.len() > 0,
        suf.len() > 0,
        s.last() != suf.last(),
    ensures
        !has_suffix(s, suf),
{
    if has_suffix(s, suf) {
        assert(s.subrange(s.len() - suf.len(), s.len() as int)[suf.len() - 1] == s.last());
    }
}

/// Each single-file format strips its standard suffixes: a file named
/// `stem` followed by ".gz" or ".gzip" (GZIP), ".bz2" (BZIP2), ".xz" (XZ),
/// ".zst" or ".zstd" (Zstandard), ".br" (Brotli) or ".lz4" (LZ4)
/// decompresses to a file named `stem`, which lies in the destination when
/// the compressed file is named without a directory.
pub proof fn lemma_single_file_suffixes_stripped(
    dest: Seq<char>,
    stem: Seq<char>,
    format: ArchiveFormat,
    suf: Seq<char>,
)
    requires
        stem.len() > 0,
        (format == ArchiveFormat::Gzip && (suf == ".gz"@ || suf == ".gzip"@)) || (format
            == ArchiveFormat::Bzip2 && suf == ".bz2"@) || (format == ArchiveFormat::Xz && suf
            == ".xz"@) || (format == ArchiveFormat::Zstd && (suf == ".zst"@ || suf == ".zstd"@))
            || (format == ArchiveFormat::Brotli && suf == ".br"@) || (format == ArchiveFormat::Lz4
            && suf == ".lz4"@),
    ensures
        spec_output_name(stem + suf, spec_single_file_suffixes(format)) == Ok::<
            Seq<char>,
            ExtractionError,
        >(stem),
        no_separator(stem) ==> spec_single_file_target(dest, stem + suf, format) == Ok::<
            Seq<char>,
            ExtractionError,
        >(spec_join(dest, stem)),
{
    reveal_strlit(".gz");
    reveal_strlit(".gzip");
    reveal_strlit(".bz2");
    reveal_strlit(".xz");
    reveal_strlit(".zst");
    reveal_strlit(".zstd");
    reveal_strlit(".br");
    reveal_strlit(".lz4");
    let n = stem + suf;
    let sufs = spec_single_file_suffixes(format);
    lemma_suffix_of_joined(stem, suf);
    assert(n.last() == suf.last());
    if format == ArchiveFormat::Gzip && suf == ".gzip"@ {
        lemma_not_suffix_by_last(n, ".gz"@);
        assert(sufs.skip(1) =~= seq![".gzip"@]);
        assert(strip_first_suffix(n, sufs.skip(1)) == stem);
    } else if format == ArchiveFormat::Zstd && suf == ".zst"@ {
        lemma_not_suffix_by_last(n, ".zstd"@);
        assert(sufs.skip(1) =~= seq![".zst"@]);
        assert(strip_first_suffix(n, sufs.skip(1)) == stem);
    }
    assert(strip_first_suffix(n, sufs) == stem);
    assert(stem != n) by {
        assert(n.len() > stem.len());
    }
    if no_separator(stem) {
        assert(no_separator(n)) by {
            assert forall|j: int| 0 <= j < n.len() implies n[j] != '/' by {
                if j < stem.len() {
                    assert(n[j] == stem[j]);
                } else {
                    assert(n[j] == suf[j - stem.len()]);
                }
            }
        }
        assert(n != dot() && n != dot_dot()) by {
            assert(n.len() >= 3);
        }
        lemma_file_name_of_plain(n);
    }
}

/// Choosing ZIP entries from a list misses none: every entry among the
/// first `n` whose name is on the list is chosen, and every chosen entry is
/// one of those.
pub proof fn lemma_zip_choice_complete(fs: Seq<Seq<char>>, names: Seq<Option<Seq<char>>>, n: nat)
    requires
        n <= names.len() <= usize::MAX,
    ensures
        forall|i: int|
            0 <= i < n ==> (chosen_entries(fs, names, n).contains(i as usize) <==> (
            #[trigger] names[i] matches Some(x) && fs.contains(x))),
    decreases n,
{
    if n > 0 {
        let m = (n - 1) as nat;
        lemma_zip_choice_complete(fs, names, m);
        lemma_zip_choice_sound(fs, names, m);
        let prev = chosen_entries(fs, names, m);
        let r = chosen_entries(fs, names, n);
        assert forall|i: int| 0 <= i < n implies (r.contains(i as usize) <==> (
        #[trigger] names[i] matches Some(x) && fs.contains(x))) by {
            if i < m {
                if prev.contains(i as usize) {
                    let k = choose|k: int| 0 <= k < prev.len() && prev[k] == i as usize;
                    assert(r[k] == prev[k]);
                }
                if r.contains(i as usize) {
                    let k = choose|k: int| 0 <= k < r.len() && r[k] == i as usize;
                    if k < prev.len() {
                        assert(r[k] == prev[k]);
                    } else {
                        assert(r[k] == m as usize);
                    }
                }
            } else {
                if names[i] matches Some(x) && fs.contains(x) {
                    assert(r[r.len() - 1] == m as usize);
                }
                if r.contains(i as usize) {
                    let k = choose|k: int| 0 <= k < r.len() && r[k] == i as usize;
                    if k < prev.len() {
                        assert(r[k] == prev[k]);
                        assert(prev[k] < m);
                    }
                }
            }
        }
    }
}

/// With a list of wanted names an entry is wanted exactly when its name is
/// one of them, character for character; without a list every entry is.
pub proof fn lemma_selected_exactly(files: Option<Seq<Seq<char>>>, name: Seq<char>)
    ensures
        files is None ==> spec_selected(files, name),
        files matches Some(fs) ==> (spec_selected(files, name) <==> exists|i: int|
            0 <= i < fs.len() && #[trigger] fs[i] == name),
{
}

} // verus!
