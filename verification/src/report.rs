//! The lines the command line prints for `extract`, `list` and `info`.

use vstd::prelude::*;
use crate::cli::{short_format_name, spec_short_format_name, ListingSummary};
use crate::entry::ArchiveEntry;
use crate::format::ArchiveFormat;
use crate::formats::{format_size, spec_format_size};
use crate::text::{chars_of, decimal, push_decimal, push_str, string_from_chars};

verus! {

/// `s` followed by spaces up to `width` characters (unchanged when it is
/// at least that long), as a left-aligned field of that width.
pub open spec fn padded(s: Seq<char>, width: nat) -> Seq<char> {
    if s.len() >= width {
        s
    } else {
        s + Seq::new((width - s.len()) as nat, |i: int| ' ')
    }
}

/// The rule drawn above and below the verbose listing.
pub open spec fn rule_line() -> Seq<char> {
    Seq::new(60, |i: int| '-')
}

/// The texts of printed lines.
pub open spec fn lines_view(v: Seq<String>) -> Seq<Seq<char>> {
    v.map_values(|s: String| s@)
}

/// Append `s` to `out` as a left-aligned field of `width` characters.
fn push_padded(out: &mut Vec<char>, s: &str, width: usize)
    ensures
        final(out)@ == old(out)@ + padded(s@, width as nat),
{
    let ghost start = out@;
    let n = chars_of(s).len();
    push_str(out, s);
    if n < width {
        let mut i: usize = n;
        while i < width
            invariant
                n == s@.len(),
                n <= i <= width,
                out@ == start + s@ + Seq::new((i - n) as nat, |k: int| ' '),
            decreases width - i,
        {
            out.push(' ');
            assert(out@ =~= start + s@ + Seq::new((i + 1 - n) as nat, |k: int| ' '));
            i = i + 1;
        }
        assert(out@ =~= start + padded(s@, width as nat));
    } else {
        assert(out@ =~= start + padded(s@, width as nat));
    }
}

/// The rule line.
fn rule() -> (r: String)
    ensures
        r@ == rule_line(),
{
    let mut out: Vec<char> = Vec::new();
    let mut i: usize = 0;
    while i < 60
        invariant
            i <= 60,
            out@ == Seq::new(i as nat, |k: int| '-'),
        decreases 60 - i,
    {
        out.push('-');
        assert(out@ =~= Seq::new((i + 1) as nat, |k: int| '-'));
        i = i + 1;
    }
    assert(out@ =~= rule_line());
    string_from_chars(out.as_slice())
}

/// `prefix` followed by `text`.
fn labelled(prefix: &str, text: &str) -> (r: String)
    ensures
        r@ == prefix@ + text@,
{
    let mut out: Vec<char> = Vec::new();
    push_str(&mut out, prefix);
    push_str(&mut out, text);
    assert(out@ =~= prefix@ + text@);
    string_from_chars(out.as_slice())
}

/// The line `list` prints for an entry: in verbose mode its type and size
/// in columns of ten characters, then its path; otherwise its path alone.
pub open spec fn spec_list_line(e: ArchiveEntry, verbose: bool) -> Seq<char> {
    if verbose {
        padded(
            if e.is_dir {
                "DIR"@
            } else {
                "FILE"@
            },
            10,
        ) + " "@ + padded(spec_format_size(e.size), 10) + " "@ + e.path@
    } else {
        e.path@
    }
}

/// The lines of a verbose listing before the entries.
pub open spec fn spec_list_header(archive: Seq<char>, count: nat) -> Seq<Seq<char>> {
    seq![
        "Archive: "@ + archive,
        "Total entries: "@ + decimal(count),
        Seq::<char>::empty(),
        padded("Type"@, 10) + " "@ + padded("Size"@, 10) + " Name"@,
        rule_line(),
    ]
}

/// The lines of a verbose listing after the entries.
pub open spec fn spec_list_footer(s: ListingSummary) -> Seq<Seq<char>> {
    seq![
        rule_line(),
        "Total: "@ + decimal(s.files as nat) + " files, "@ + spec_format_size(s.total_size),
    ]
}

/// Everything `list` prints for the archive at `archive` with `entries`
/// (summarized by `summary`): in verbose mode a header and a footer around
/// the entry lines.
pub open spec fn spec_list_lines(
    archive: Seq<char>,
    entries: Seq<ArchiveEntry>,
    summary: ListingSummary,
    verbose: bool,
) -> Seq<Seq<char>> {
    let body = entries.map_values(|e: ArchiveEntry| spec_list_line(e, verbose));
    if verbose {
        spec_list_header(archive, entries.len()) + body + spec_list_footer(summary)
    } else {
        body
    }
}

/// The line `list` prints for `entry`.
pub fn list_line(entry: &ArchiveEntry, verbose: bool) -> (r: String)
    ensures
        r@ == spec_list_line(*entry, verbose),
{
    if verbose {
        let mut out: Vec<char> = Vec::new();
        push_padded(
            &mut out,
            if entry.is_dir {
                "DIR"
            } else {
                "FILE"
            },
            10,
        );
        push_str(&mut out, " ");
        let size = format_size(entry.size);
        push_padded(&mut out, size.as_str(), 10);
        push_str(&mut out, " ");
        push_str(&mut out, entry.path.as_str());
        assert(out@ =~= spec_list_line(*entry, verbose));
        string_from_chars(out.as_slice())
    } else {
        entry.path.clone()
    }
}

/// Append the lines `more` to `lines`.
fn push_lines(lines: &mut Vec<String>, more: Vec<String>)
    ensures
        lines_view(final(lines)@) == lines_view(old(lines)@) + lines_view(more@),
{
    let mut more = more;
    let ghost m = more@;
    lines.append(&mut more);
    assert(lines_view(lines@) =~= lines_view(old(lines)@) + lines_view(m));
}

/// The lines of a verbose listing before the entries.
fn list_header(archive: &str, count: usize) -> (r: Vec<String>)
    ensures
        lines_view(r@) == spec_list_header(archive@, count as nat),
{
    let mut total: Vec<char> = Vec::new();
    push_str(&mut total, "Total entries: ");
    push_decimal(&mut total, count as u128);
    let mut columns: Vec<char> = Vec::new();
    push_padded(&mut columns, "Type", 10);
    push_str(&mut columns, " ");
    push_padded(&mut columns, "Size", 10);
    push_str(&mut columns, " Name");
    let empty: Vec<char> = Vec::new();
    let r = vec![
        labelled("Archive: ", archive),
        string_from_chars(total.as_slice()),
        string_from_chars(empty.as_slice()),
        string_from_chars(columns.as_slice()),
        rule(),
    ];
    assert(lines_view(r@) =~= spec_list_header(archive@, count as nat));
    r
}

/// The lines of a verbose listing after the entries.
fn list_footer(summary: ListingSummary) -> (r: Vec<String>)
    ensures
        lines_view(r@) == spec_list_footer(summary),
{
    let mut total: Vec<char> = Vec::new();
    push_str(&mut total, "Total: ");
    push_decimal(&mut total, summary.files as u128);
    push_str(&mut total, " files, ");
    let size = format_size(summary.total_size);
    push_str(&mut total, size.as_str());
    let r = vec![rule(), string_from_chars(total.as_slice())];
    assert(lines_view(r@) =~= spec_list_footer(summary));
    r
}

/// Everything `list` prints for the archive at `archive`.
pub fn list_lines(
    archive: &str,
    entries: &Vec<ArchiveEntry>,
    summary: ListingSummary,
    verbose: bool,
) -> (r: Vec<String>)
    ensures
        lines_view(r@) == spec_list_lines(archive@, entries@, summary, verbose),
{
    let mut lines: Vec<String> = Vec::new();
    if verbose {
        push_lines(&mut lines, list_header(archive, entries.len()));
    }
    let ghost before = lines_view(lines@);
    let mut i: usize = 0;
    while i < entries.len()
        invariant
            i <= entries.len(),
            lines_view(lines@) == before + entries@.take(i as int).map_values(
                |e: ArchiveEntry| spec_list_line(e, verbose),
            ),
        decreases entries.len() - i,
    {
        let l = list_line(&entries[i], verbose);
        let ghost prev = lines@;
        lines.push(l);
        assert(lines_view(lines@) =~= lines_view(prev).push(l@));
        assert(entries@.take(i + 1).map_values(|e: ArchiveEntry| spec_list_line(e, verbose))
            =~= entries@.take(i as int).map_values(|e: ArchiveEntry| spec_list_line(e, verbose)).push(
            spec_list_line(entries@[i as int], verbose),
        ));
        assert(lines_view(lines@) =~= before + entries@.take(i + 1).map_values(
            |e: ArchiveEntry| spec_list_line(e, verbose),
        ));
        i = i + 1;
    }
    assert(entries@.take(entries.len() as int) =~= entries@);
    if verbose {
        push_lines(&mut lines, list_footer(summary));
    }
    lines
}

/// The lines `info` prints about an archive at `archive` of the detected
/// `format` with `count` entries summarized by `summary`; encryption is
/// reported for ZIP archives only, `encrypted` being whether one asks for a
/// password.
pub open spec fn spec_info_summary(
    archive: Seq<char>,
    format: ArchiveFormat,
    count: nat,
    s: ListingSummary,
    encrypted: bool,
) -> Seq<Seq<char>> {
    seq![
        "Archive: "@ + archive,
        "Format: "@ + spec_short_format_name(format),
        "Entries: "@ + decimal(count) + " ("@ + decimal(s.files as nat) + " files, "@ + decimal(
            s.dirs as nat,
        ) + " directories)"@,
        "Total size: "@ + spec_format_size(s.total_size),
        "Encrypted: "@ + if format == ArchiveFormat::Zip && encrypted {
            "Yes"@
        } else {
            "No"@
        },
    ]
}

/// The line `info` prints for an entry in verbose mode: a "D" mark for a
/// directory, its path and its size.
pub open spec fn spec_info_entry_line(e: ArchiveEntry) -> Seq<char> {
    "  ["@ + (if e.is_dir {
        "D"@
    } else {
        " "@
    }) + "] "@ + e.path@ + " ("@ + spec_format_size(e.size) + ")"@
}

/// Everything `info` prints: the summary, and in verbose mode, when there
/// are entries, a blank line, a heading and a line per entry.
pub open spec fn spec_info_lines(
    archive: Seq<char>,
    format: ArchiveFormat,
    entries: Seq<ArchiveEntry>,
    s: ListingSummary,
    encrypted: bool,
    verbose: bool,
) -> Seq<Seq<char>> {
    let head = spec_info_summary(archive, format, entries.len(), s, encrypted);
    if verbose && entries.len() > 0 {
        head + seq![Seq::<char>::empty(), "Contents:"@] + entries.map_values(
            |e: ArchiveEntry| spec_info_entry_line(e),
        )
    } else {
        head
    }
}

/// The line `info` prints for `entry` in verbose mode.
fn info_entry_line(entry: &ArchiveEntry) -> (r: String)
    ensures
        r@ == spec_info_entry_line(*entry),
{
    let mut out: Vec<char> = Vec::new();
    push_str(&mut out, "  [");
    push_str(
        &mut out,
        if entry.is_dir {
            "D"
        } else {
            " "
        },
    );
    push_str(&mut out, "] ");
    push_str(&mut out, entry.path.as_str());
    push_str(&mut out, " (");
    let size = format_size(entry.size);
    push_str(&mut out, size.as_str());
    push_str(&mut out, ")");
    assert(out@ =~= spec_info_entry_line(*entry));
    string_from_chars(out.as_slice())
}

/// The summary lines of `info`.
fn info_summary(
    archive: &str,
    format: ArchiveFormat,
    count: usize,
    summary: ListingSummary,
    encrypted: bool,
) -> (r: Vec<String>)
    ensures
        lines_view(r@) == spec_info_summary(archive@, format, count as nat, summary, encrypted),
{
    let mut entries: Vec<char> = Vec::new();
    push_str(&mut entries, "Entries: ");
    push_decimal(&mut entries, count as u128);
    push_str(&mut entries, " (");
    push_decimal(&mut entries, summary.files as u128);
    push_str(&mut entries, " files, ");
    push_decimal(&mut entries, summary.dirs as u128);
    push_str(&mut entries, " directories)");
    let size = format_size(summary.total_size);
    let r = vec![
        labelled("Archive: ", archive),
        labelled("Format: ", short_format_name(format)),
        string_from_chars(entries.as_slice()),
        labelled("Total size: ", size.as_str()),
        labelled(
            "Encrypted: ",
            if format == ArchiveFormat::Zip && encrypted {
                "Yes"
            } else {
                "No"
            },
        ),
    ];
    assert(lines_view(r@) =~= spec_info_summary(archive@, format, count as nat, summary, encrypted));
    r
}

/// Everything `info` prints about the archive at `archive`.
pub fn info_lines(
    archive: &str,
    format: ArchiveFormat,
    entries: &Vec<ArchiveEntry>,
    summary: ListingSummary,
    encrypted: bool,
    verbose: bool,
) -> (r: Vec<String>)
    ensures
        lines_view(r@) == spec_info_lines(archive@, format, entries@, summary, encrypted, verbose),
{
    let mut lines = info_summary(archive, format, entries.len(), summary, encrypted);
    if verbose && entries.len() > 0 {
        let empty: Vec<char> = Vec::new();
        push_lines(&mut lines, vec![string_from_chars(empty.as_slice()), labelled("Contents:", "")]);
        proof {
            reveal_strlit("");
            reveal_strlit("Contents:");
        }
        let ghost before = lines_view(lines@);
        assert(before =~= spec_info_summary(archive@, format, entries.len() as nat, summary, encrypted)
            + seq![Seq::<char>::empty(), "Contents:"@]);
        let mut i: usize = 0;
        while i < entries.len()
            invariant
                i <= entries.len(),
                lines_view(lines@) == before + entries@.take(i as int).map_values(
                    |e: ArchiveEntry| spec_info_entry_line(e),
                ),
            decreases entries.len() - i,
        {
            let l = info_entry_line(&entries[i]);
            let ghost prev = lines@;
            lines.push(l);
            assert(lines_view(lines@) =~= lines_view(prev).push(l@));
            assert(entries@.take(i + 1).map_values(|e: ArchiveEntry| spec_info_entry_line(e))
                =~= entries@.take(i as int).map_values(|e: ArchiveEntry| spec_info_entry_line(e)).push(
                spec_info_entry_line(entries@[i as int]),
            ));
            i = i + 1;
        }
        assert(entries@.take(entries.len() as int) =~= entries@);
    }
    lines
}

/// The lines `extract` prints in verbose mode before it starts.
pub open spec fn spec_extract_start(archive: Seq<char>, format: ArchiveFormat, dest: Seq<char>) -> Seq<
    Seq<char>,
> {
    seq![
        "Extracting: "@ + archive + " ("@ + spec_short_format_name(format) + ")"@,
        "Destination: "@ + dest,
    ]
}

/// The lines `extract` prints in verbose mode before it starts.
pub fn extract_start_lines(archive: &str, format: ArchiveFormat, dest: &str) -> (r: Vec<String>)
    ensures
        lines_view(r@) == spec_extract_start(archive@, format, dest@),
{
    let mut first: Vec<char> = Vec::new();
    push_str(&mut first, "Extracting: ");
    push_str(&mut first, archive);
    push_str(&mut first, " (");
    push_str(&mut first, short_format_name(format));
    push_str(&mut first, ")");
    let r = vec![string_from_chars(first.as_slice()), labelled("Destination: ", dest)];
    assert(lines_view(r@) =~= spec_extract_start(archive@, format, dest@));
    r
}

/// The line `extract` prints once `count` entries were extracted to `dest`.
pub open spec fn spec_extract_done(count: nat, dest: Seq<char>, verbose: bool) -> Seq<char> {
    if verbose {
        "Extracted "@ + decimal(count) + " files to "@ + dest
    } else {
        "Extracted "@ + decimal(count) + " files"@
    }
}

/// The line `extract` prints once `count` entries were extracted to `dest`.
pub fn extract_done_line(count: usize, dest: &str, verbose: bool) -> (r: String)
    ensures
        r@ == spec_extract_done(count as nat, dest@, verbose),
{
    let mut out: Vec<char> = Vec::new();
    push_str(&mut out, "Extracted ");
    push_decimal(&mut out, count as u128);
    if verbose {
        push_str(&mut out, " files to ");
        push_str(&mut out, dest);
    } else {
        push_str(&mut out, " files");
    }
    assert(out@ =~= spec_extract_done(count as nat, dest@, verbose));
    string_from_chars(out.as_slice())
}

} // verus!
