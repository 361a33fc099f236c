//! Human-readable names, icons and sizes for archives and their entries.

use vstd::prelude::*;
use vstd::arithmetic::div_mod::{lemma_div_denominator, lemma_fundamental_div_mod};
use crate::entry::ArchiveEntry;
use crate::format::{ArchiveFormat, spec_detect, spec_format_of_extension, spec_from_extension};
use crate::paths::{extension, lemma_extension_of_name, no_separator, spec_extension};
use crate::text::{
    decimal, digit, digit_char, lowercase, push_decimal, push_str, str_eq, string_from_chars,
    to_lowercase,
};

verus! {

pub open spec fn kib() -> nat {
    1024
}

pub open spec fn mib() -> nat {
    1024 * 1024
}

pub open spec fn gib() -> nat {
    1024 * 1024 * 1024
}

pub open spec fn tib() -> nat {
    1024 * 1024 * 1024 * 1024
}

/// Largest integer below which every integer is a double (2^53).
pub open spec fn exact_double_limit() -> nat {
    0x20_0000_0000_0000
}

/// `n / d` rounded to the nearest integer, ties to the even one.
pub open spec fn round_half_even(n: nat, d: nat) -> nat
    recommends
        d > 0,
{
    let q = n / d;
    let r = n % d;
    if 2 * r > d {
        q + 1
    } else if 2 * r < d {
        q
    } else if q % 2 == 1 {
        q + 1
    } else {
        q
    }
}

/// The spacing of doubles around `s`: 1 below 2^53, doubling with each
/// binade above.
pub open spec fn double_spacing(s: nat) -> nat
    decreases s,
{
    if s < exact_double_limit() {
        1
    } else {
        2 * double_spacing(s / 2)
    }
}

/// The double nearest to the integer `s` (ties to an even significand), the
/// value of `s as f64`.
pub open spec fn as_double(s: nat) -> nat {
    round_half_even(s, double_spacing(s)) * double_spacing(s)
}

/// `size / unit`, as a double, written with one decimal, rounded to nearest
/// with ties to even as std's `{:.1}` does: the integer and tenths parts.
pub open spec fn one_decimal(size: nat, unit: nat) -> Seq<char> {
    let t = round_half_even(as_double(size) * 10, unit);
    decimal(t / 10) + seq!['.'] + seq![digit_char(t % 10)]
}

/// A byte count for display: whole bytes below 1 KiB, else the count in the
/// largest of KB, MB, GB, TB (powers of 1024) that is at most it, with one
/// decimal.
pub open spec fn spec_format_size(size: u64) -> Seq<char> {
    if size < kib() {
        decimal(size as nat) + " B"@
    } else if size < mib() {
        one_decimal(size as nat, kib()) + " KB"@
    } else if size < gib() {
        one_decimal(size as nat, mib()) + " MB"@
    } else if size < tib() {
        one_decimal(size as nat, gib()) + " GB"@
    } else {
        one_decimal(size as nat, tib()) + " TB"@
    }
}

fn round_half_even_exec(n: u128, d: u128) -> (r: u128)
    requires
        d > 0,
        n / d < u128::MAX,
    ensures
        r == round_half_even(n as nat, d as nat),
{
    let q = n / d;
    let r = n % d;
    if r > d - r {
        q + 1
    } else if r < d - r {
        q
    } else if q % 2 == 1 {
        q + 1
    } else {
        q
    }
}

/// `size as f64`, as the integer it equals.
fn double_of(size: u64) -> (r: u128)
    ensures
        r == as_double(size as nat),
        r <= 0x2_0000_0000_0000_0000,
{
    let limit: u64 = 0x20_0000_0000_0000;
    let mut t: u64 = size;
    let mut d: u64 = 1;
    assert(size as nat / 1 == size as nat);
    while t >= limit
        invariant
            limit == 0x20_0000_0000_0000,
            1 <= d <= 0x10000,
            t == size as nat / d as nat,
            double_spacing(size as nat) == d * double_spacing(t as nat),
            d * t <= size,
        decreases t,
    {
        proof {
            lemma_div_denominator(size as int, d as int, 2);
            assert(d * 2 <= 0x10000) by (nonlinear_arith)
                requires
                    d * t <= size,
                    t >= 0x20_0000_0000_0000,
                    size <= 0xFFFF_FFFF_FFFF_FFFF,
            ;
            let st = double_spacing((t / 2) as nat);
            assert(double_spacing(t as nat) == 2 * st);
            assert(d * (2 * st) == (d * 2) * st) by (nonlinear_arith);
            assert((d * 2) * (t / 2) <= d * t) by (nonlinear_arith)
                requires
                    d >= 1,
            ;
        }
        t = t / 2;
        d = d * 2;
    }
    assert(double_spacing(t as nat) == 1);
    assert(double_spacing(size as nat) == d) by (nonlinear_arith)
        requires
            double_spacing(size as nat) == d * double_spacing(t as nat),
            double_spacing(t as nat) == 1,
    ;
    let dd = d as u128;
    let s = size as u128;
    proof {
        lemma_fundamental_div_mod(size as int, d as int);
    }
    let q = round_half_even_exec(s, dd);
    assert(q <= t + 1);
    assert(q * dd <= 0x2_0000_0000_0000_0000) by (nonlinear_arith)
        requires
            q <= t + 1,
            dd * t <= size,
            size <= 0xFFFF_FFFF_FFFF_FFFF,
            dd <= 0x10000,
    ;
    q * dd
}

/// Append `size / unit` with one decimal to `out`.
fn push_one_decimal(out: &mut Vec<char>, size: u64, unit: u128)
    requires
        unit == kib() || unit == mib() || unit == gib() || unit == tib(),
    ensures
        final(out)@ == old(out)@ + one_decimal(size as nat, unit as nat),
{
    let m = double_of(size);
    let t = round_half_even_exec(m * 10, unit);
    push_decimal(out, t / 10);
    out.push('.');
    let d = digit(t % 10);
    out.push(d);
    assert(out@ =~= old(out)@ + one_decimal(size as nat, unit as nat));
}

/// A byte count for display: "512 B", "1.5 KB", "1024.0 MB", "2.0 TB".
pub fn format_size(size: u64) -> (r: String)
    ensures
        r@ == spec_format_size(size),
{
    let mut out: Vec<char> = Vec::new();
    if size < 1024 {
        push_decimal(&mut out, size as u128);
        push_str(&mut out, " B");
    } else if size < 1024 * 1024 {
        push_one_decimal(&mut out, size, 1024);
        push_str(&mut out, " KB");
    } else if size < 1024 * 1024 * 1024 {
        push_one_decimal(&mut out, size, 1024 * 1024);
        push_str(&mut out, " MB");
    } else if size < 1024 * 1024 * 1024 * 1024 {
        push_one_decimal(&mut out, size, 1024 * 1024 * 1024);
        push_str(&mut out, " GB");
    } else {
        push_one_decimal(&mut out, size, 1024 * 1024 * 1024 * 1024);
        push_str(&mut out, " TB");
    }
    string_from_chars(out.as_slice())
}

/// The display name of each format.
pub open spec fn spec_format_name(f: ArchiveFormat) -> Seq<char> {
    match f {
        ArchiveFormat::Zip => "ZIP Archive"@,
        ArchiveFormat::Tar => "TAR Archive"@,
        ArchiveFormat::Gzip => "GZIP Compressed"@,
        ArchiveFormat::Bzip2 => "BZIP2 Compressed"@,
        ArchiveFormat::Xz => "XZ Compressed"@,
        ArchiveFormat::Rar => "RAR Archive"@,
        ArchiveFormat::SevenZip => "7-Zip Archive"@,
        ArchiveFormat::Zstd => "Zstandard Compressed"@,
        ArchiveFormat::Brotli => "Brotli Compressed"@,
        ArchiveFormat::Lz4 => "LZ4 Compressed"@,
        ArchiveFormat::Unknown => "Unknown Format"@,
    }
}

/// A human-readable name for the format.
pub fn format_name(format: ArchiveFormat) -> (r: &'static str)
    ensures
        r@ == spec_format_name(format),
{
    match format {
        ArchiveFormat::Zip => "ZIP Archive",
        ArchiveFormat::Tar => "TAR Archive",
        ArchiveFormat::Gzip => "GZIP Compressed",
        ArchiveFormat::Bzip2 => "BZIP2 Compressed",
        ArchiveFormat::Xz => "XZ Compressed",
        ArchiveFormat::Rar => "RAR Archive",
        ArchiveFormat::SevenZip => "7-Zip Archive",
        ArchiveFormat::Zstd => "Zstandard Compressed",
        ArchiveFormat::Brotli => "Brotli Compressed",
        ArchiveFormat::Lz4 => "LZ4 Compressed",
        ArchiveFormat::Unknown => "Unknown Format",
    }
}

/// The icon of each format: a package for multi-file archives, a clamp for
/// single-file compression, a question mark for the unknown.
pub open spec fn spec_format_icon(f: ArchiveFormat) -> Seq<char> {
    match f {
        ArchiveFormat::Zip | ArchiveFormat::Rar | ArchiveFormat::SevenZip => "📦"@,
        ArchiveFormat::Tar => "📋"@,
        ArchiveFormat::Gzip | ArchiveFormat::Bzip2 | ArchiveFormat::Xz | ArchiveFormat::Zstd
        | ArchiveFormat::Brotli | ArchiveFormat::Lz4 => "🗜️"@,
        ArchiveFormat::Unknown => "❓"@,
    }
}

/// An icon for the format.
pub fn format_icon(format: ArchiveFormat) -> (r: &'static str)
    ensures
        r@ == spec_format_icon(format),
{
    match format {
        ArchiveFormat::Zip | ArchiveFormat::Rar | ArchiveFormat::SevenZip => "📦",
        ArchiveFormat::Tar => "📋",
        ArchiveFormat::Gzip | ArchiveFormat::Bzip2 | ArchiveFormat::Xz | ArchiveFormat::Zstd
        | ArchiveFormat::Brotli | ArchiveFormat::Lz4 => "🗜️",
        ArchiveFormat::Unknown => "❓",
    }
}

/// The icon for a file by its (lowercased) extension.
pub open spec fn spec_extension_icon(e: Seq<char>) -> Seq<char> {
    if e == "txt"@ || e == "md"@ || e == "rst"@ || e == "readme"@ {
        "📄"@
    } else if e == "pdf"@ {
        "📕"@
    } else if e == "doc"@ || e == "docx"@ {
        "📘"@
    } else if e == "xls"@ || e == "xlsx"@ || e == "csv"@ || e == "ppt"@ || e == "pptx"@ {
        "📊"@
    } else if e == "jpg"@ || e == "jpeg"@ || e == "png"@ || e == "gif"@ || e == "bmp"@ || e
        == "svg"@ || e == "webp"@ {
        "🖼️"@
    } else if e == "mp3"@ || e == "wav"@ || e == "flac"@ || e == "aac"@ || e == "ogg"@ {
        "🎵"@
    } else if e == "mp4"@ || e == "avi"@ || e == "mkv"@ || e == "mov"@ || e == "webm"@ {
        "🎬"@
    } else if e == "zip"@ || e == "rar"@ || e == "7z"@ || e == "tar"@ || e == "gz"@ || e == "bz2"@
        || e == "xz"@ {
        "📦"@
    } else if e == "exe"@ || e == "msi"@ || e == "app"@ || e == "dmg"@ {
        "⚙️"@
    } else if e == "sh"@ || e == "bash"@ || e == "zsh"@ || e == "fish"@ {
        "🔧"@
    } else if e == "py"@ {
        "🐍"@
    } else if e == "js"@ || e == "ts"@ || e == "jsx"@ || e == "tsx"@ {
        "📜"@
    } else if e == "rs"@ || e == "go"@ || e == "c"@ || e == "cpp"@ || e == "h"@ || e == "hpp"@ {
        "⚙️"@
    } else if e == "html"@ || e == "css"@ || e == "scss"@ {
        "🌐"@
    } else if e == "json"@ || e == "xml"@ || e == "yaml"@ || e == "yml"@ || e == "toml"@ {
        "⚙️"@
    } else {
        "📄"@
    }
}

/// The icon of an entry: a folder for directories, otherwise the icon for
/// the lowercase form of its path's extension (the empty one when it has none).
pub open spec fn spec_file_icon(is_dir: bool, path: Seq<char>) -> Seq<char> {
    if is_dir {
        "📁"@
    } else {
        match spec_extension(path) {
            Some(e) => spec_extension_icon(lowercase(e)),
            None => spec_extension_icon(lowercase(Seq::<char>::empty())),
        }
    }
}

/// The icon for a file whose extension, lowercased, is `e`.
pub fn extension_icon(e: &str) -> (r: &'static str)
    ensures
        r@ == spec_extension_icon(e@),
{
    if str_eq(e, "txt") || str_eq(e, "md") || str_eq(e, "rst") || str_eq(e, "readme") {
        "📄"
    } else if str_eq(e, "pdf") {
        "📕"
    } else if str_eq(e, "doc") || str_eq(e, "docx") {
        "📘"
    } else if str_eq(e, "xls") || str_eq(e, "xlsx") || str_eq(e, "csv") || str_eq(e, "ppt")
        || str_eq(e, "pptx") {
        "📊"
    } else if str_eq(e, "jpg") || str_eq(e, "jpeg") || str_eq(e, "png") || str_eq(e, "gif")
        || str_eq(e, "bmp") || str_eq(e, "svg") || str_eq(e, "webp") {
        "🖼️"
    } else if str_eq(e, "mp3") || str_eq(e, "wav") || str_eq(e, "flac") || str_eq(e, "aac")
        || str_eq(e, "ogg") {
        "🎵"
    } else if str_eq(e, "mp4") || str_eq(e, "avi") || str_eq(e, "mkv") || str_eq(e, "mov")
        || str_eq(e, "webm") {
        "🎬"
    } else if str_eq(e, "zip") || str_eq(e, "rar") || str_eq(e, "7z") || str_eq(e, "tar")
        || str_eq(e, "gz") || str_eq(e, "bz2") || str_eq(e, "xz") {
        "📦"
    } else if str_eq(e, "exe") || str_eq(e, "msi") || str_eq(e, "app") || str_eq(e, "dmg") {
        "⚙️"
    } else if str_eq(e, "sh") || str_eq(e, "bash") || str_eq(e, "zsh") || str_eq(e, "fish") {
        "🔧"
    } else if str_eq(e, "py") {
        "🐍"
    } else if str_eq(e, "js") || str_eq(e, "ts") || str_eq(e, "jsx") || str_eq(e, "tsx") {
        "📜"
    } else if str_eq(e, "rs") || str_eq(e, "go") || str_eq(e, "c") || str_eq(e, "cpp")
        || str_eq(e, "h") || str_eq(e, "hpp") {
        "⚙️"
    } else if str_eq(e, "html") || str_eq(e, "css") || str_eq(e, "scss") {
        "🌐"
    } else if str_eq(e, "json") || str_eq(e, "xml") || str_eq(e, "yaml") || str_eq(e, "yml")
        || str_eq(e, "toml") {
        "⚙️"
    } else {
        "📄"
    }
}

/// An icon for an archive entry, by whether it is a directory and by its
/// extension.
pub fn file_icon(entry: &ArchiveEntry) -> (r: &'static str)
    ensures
        r@ == spec_file_icon(entry.is_dir, entry.path@),
{
    if entry.is_dir {
        return "📁";
    }
    let lower = match extension(entry.path.as_str()) {
        Some(e) => to_lowercase(e.as_str()),
        None => {
            let l = to_lowercase("");
            proof {
                reveal_strlit("");
                assert(""@ =~= Seq::<char>::empty());
            }
            l
        },
    };
    extension_icon(lower.as_str())
}

/// Whether the file at `path`, whose first 512-byte block is `header`
/// (`None` when it could not be read in full), is an archive this program
/// can open.
pub fn is_supported_archive(path: &str, header: Option<&[u8]>) -> (r: bool)
    ensures
        r == spec_detect(
            path@,
            match header {
                Some(h) => Some(h@),
                None => None,
            },
        ) is Some,
{
    ArchiveFormat::detect(path, header).is_some()
}

/// The extensions offered when choosing an archive to open.
pub open spec fn spec_supported_extensions() -> Seq<Seq<char>> {
    seq![
        "zip"@, "tar"@, "gz"@, "gzip"@, "bz2"@, "bzip2"@, "xz"@, "lzma"@, "rar"@, "7z"@, "zst"@,
        "br"@, "lz4"@,
    ]
}

/// The extensions offered when choosing an archive to open.
pub fn supported_extensions() -> (r: Vec<&'static str>)
    ensures
        r@.map_values(|s: &'static str| s@) == spec_supported_extensions(),
{
    let r = vec![
        "zip", "tar", "gz", "gzip", "bz2", "bzip2", "xz", "lzma", "rar", "7z", "zst", "br", "lz4",
    ];
    assert(r@.map_values(|s: &'static str| s@) =~= spec_supported_extensions());
    r
}

/// The format each extension offered when choosing an archive names.
pub open spec fn supported_extension_format(i: int) -> ArchiveFormat {
    if i == 0 {
        ArchiveFormat::Zip
    } else if i == 1 {
        ArchiveFormat::Tar
    } else if i <= 3 {
        ArchiveFormat::Gzip
    } else if i <= 5 {
        ArchiveFormat::Bzip2
    } else if i <= 7 {
        ArchiveFormat::Xz
    } else if i == 8 {
        ArchiveFormat::Rar
    } else if i == 9 {
        ArchiveFormat::SevenZip
    } else if i == 10 {
        ArchiveFormat::Zstd
    } else if i == 11 {
        ArchiveFormat::Brotli
    } else {
        ArchiveFormat::Lz4
    }
}

// Each offered extension, one lemma apiece: it is plain and names its
// format, told apart from the extensions compared before it.
proof fn lemma_extension_0()
    ensures
        plain_extension("zip"@),
        spec_format_of_extension("zip"@) == ArchiveFormat::Zip,
{
    reveal_strlit("zip");
}

proof fn lemma_extension_1()
    ensures
        plain_extension("tar"@),
        spec_format_of_extension("tar"@) == ArchiveFormat::Tar,
{
    reveal_strlit("tar");
    reveal_strlit("zip");
    assert("tar"@[0] != "zip"@[0]);
}

proof fn lemma_extension_2()
    ensures
        plain_extension("gz"@),
        spec_format_of_extension("gz"@) == ArchiveFormat::Gzip,
{
    reveal_strlit("gz");
    reveal_strlit("zip");
    reveal_strlit("tar");
    assert("gz"@.len() != "zip"@.len());
    assert("gz"@.len() != "tar"@.len());
}

proof fn lemma_extension_3()
    ensures
        plain_extension("gzip"@),
        spec_format_of_extension("gzip"@) == ArchiveFormat::Gzip,
{
    reveal_strlit("gzip");
    reveal_strlit("zip");
    reveal_strlit("tar");
    assert("gzip"@.len() != "zip"@.len());
    assert("gzip"@.len() != "tar"@.len());
}

proof fn lemma_extension_4()
    ensures
        plain_extension("bz2"@),
        spec_format_of_extension("bz2"@) == ArchiveFormat::Bzip2,
{
    reveal_strlit("bz2");
    reveal_strlit("zip");
    reveal_strlit("tar");
    reveal_strlit("gz");
    reveal_strlit("gzip");
    assert("bz2"@[0] != "zip"@[0]);
    assert("bz2"@[0] != "tar"@[0]);
    assert("bz2"@.len() != "gz"@.len());
    assert("bz2"@.len() != "gzip"@.len());
}

proof fn lemma_extension_5()
    ensures
        plain_extension("bzip2"@),
        spec_format_of_extension("bzip2"@) == ArchiveFormat::Bzip2,
{
    reveal_strlit("bzip2");
    reveal_strlit("zip");
    reveal_strlit("tar");
    reveal_strlit("gz");
    reveal_strlit("gzip");
    assert("bzip2"@.len() != "zip"@.len());
    assert("bzip2"@.len() != "tar"@.len());
    assert("bzip2"@.len() != "gz"@.len());
    assert("bzip2"@.len() != "gzip"@.len());
}

proof fn lemma_extension_6()
    ensures
        plain_extension("xz"@),
        spec_format_of_extension("xz"@) == ArchiveFormat::Xz,
{
    reveal_strlit("xz");
    reveal_strlit("zip");
    reveal_strlit("tar");
    reveal_strlit("gz");
    reveal_strlit("gzip");
    reveal_strlit("bz2");
    reveal_strlit("bzip2");
    assert("xz"@.len() != "zip"@.len());
    assert("xz"@.len() != "tar"@.len());
    assert("xz"@[0] != "gz"@[0]);
    assert("xz"@.len() != "gzip"@.len());
    assert("xz"@.len() != "bz2"@.len());
    assert("xz"@.len() != "bzip2"@.len());
}

proof fn lemma_extension_7()
    ensures
        plain_extension("lzma"@),
        spec_format_of_extension("lzma"@) == ArchiveFormat::Xz,
{
    reveal_strlit("lzma");
    reveal_strlit("zip");
    reveal_strlit("tar");
    reveal_strlit("gz");
    reveal_strlit("gzip");
    reveal_strlit("bz2");
    reveal_strlit("bzip2");
    assert("lzma"@.len() != "zip"@.len());
    assert("lzma"@.len() != "tar"@.len());
    assert("lzma"@.len() != "gz"@.len());
    assert("lzma"@[0] != "gzip"@[0]);
    assert("lzma"@.len() != "bz2"@.len());
    assert("lzma"@.len() != "bzip2"@.len());
}

proof fn lemma_extension_8()
    ensures
        plain_extension("rar"@),
        spec_format_of_extension("rar"@) == ArchiveFormat::Rar,
{
    reveal_strlit("rar");
    reveal_strlit("zip");
    reveal_strlit("tar");
    reveal_strlit("gz");
    reveal_strlit("gzip");
    reveal_strlit("bz2");
    reveal_strlit("bzip2");
    reveal_strlit("xz");
    reveal_strlit("lzma");
    assert("rar"@[0] != "zip"@[0]);
    assert("rar"@[0] != "tar"@[0]);
    assert("rar"@.len() != "gz"@.len());
    assert("rar"@.len() != "gzip"@.len());
    assert("rar"@[0] != "bz2"@[0]);
    assert("rar"@.len() != "bzip2"@.len());
    assert("rar"@.len() != "xz"@.len());
    assert("rar"@.len() != "lzma"@.len());
}

proof fn lemma_extension_9()
    ensures
        plain_extension("7z"@),
        spec_format_of_extension("7z"@) == ArchiveFormat::SevenZip,
{
    reveal_strlit("7z");
    reveal_strlit("zip");
    reveal_strlit("tar");
    reveal_strlit("gz");
    reveal_strlit("gzip");
    reveal_strlit("bz2");
    reveal_strlit("bzip2");
    reveal_strlit("xz");
    reveal_strlit("lzma");
    reveal_strlit("rar");
    assert("7z"@.len() != "zip"@.len());
    assert("7z"@.len() != "tar"@.len());
    assert("7z"@[0] != "gz"@[0]);
    assert("7z"@.len() != "gzip"@.len());
    assert("7z"@.len() != "bz2"@.len());
    assert("7z"@.len() != "bzip2"@.len());
    assert("7z"@[0] != "xz"@[0]);
    assert("7z"@.len() != "lzma"@.len());
    assert("7z"@.len() != "rar"@.len());
}

proof fn lemma_extension_10()
    ensures
        plain_extension("zst"@),
        spec_format_of_extension("zst"@) == ArchiveFormat::Zstd,
{
    reveal_strlit("zst");
    reveal_strlit("zip");
    reveal_strlit("tar");
    reveal_strlit("gz");
    reveal_strlit("gzip");
    reveal_strlit("bz2");
    reveal_strlit("bzip2");
    reveal_strlit("xz");
    reveal_strlit("lzma");
    reveal_strlit("rar");
    reveal_strlit("7z");
    reveal_strlit("7zip");
    assert("zst"@[1] != "zip"@[1]);
    assert("zst"@[0] != "tar"@[0]);
    assert("zst"@.len() != "gz"@.len());
    assert("zst"@.len() != "gzip"@.len());
    assert("zst"@[0] != "bz2"@[0]);
    assert("zst"@.len() != "bzip2"@.len());
    assert("zst"@.len() != "xz"@.len());
    assert("zst"@.len() != "lzma"@.len());
    assert("zst"@[0] != "rar"@[0]);
    assert("zst"@.len() != "7z"@.len());
    assert("zst"@.len() != "7zip"@.len());
}

proof fn lemma_extension_11()
    ensures
        plain_extension("br"@),
        spec_format_of_extension("br"@) == ArchiveFormat::Brotli,
{
    reveal_strlit("br");
    reveal_strlit("zip");
    reveal_strlit("tar");
    reveal_strlit("gz");
    reveal_strlit("gzip");
    reveal_strlit("bz2");
    reveal_strlit("bzip2");
    reveal_strlit("xz");
    reveal_strlit("lzma");
    reveal_strlit("rar");
    reveal_strlit("7z");
    reveal_strlit("7zip");
    reveal_strlit("zst");
    reveal_strlit("zstd");
    assert("br"@.len() != "zip"@.len());
    assert("br"@.len() != "tar"@.len());
    assert("br"@[0] != "gz"@[0]);
    assert("br"@.len() != "gzip"@.len());
    assert("br"@.len() != "bz2"@.len());
    assert("br"@.len() != "bzip2"@.len());
    assert("br"@[0] != "xz"@[0]);
    assert("br"@.len() != "lzma"@.len());
    assert("br"@.len() != "rar"@.len());
    assert("br"@[0] != "7z"@[0]);
    assert("br"@.len() != "7zip"@.len());
    assert("br"@.len() != "zst"@.len());
    assert("br"@.len() != "zstd"@.len());
}

proof fn lemma_extension_12()
    ensures
        plain_extension("lz4"@),
        spec_format_of_extension("lz4"@) == ArchiveFormat::Lz4,
{
    reveal_strlit("lz4");
    reveal_strlit("zip");
    reveal_strlit("tar");
    reveal_strlit("gz");
    reveal_strlit("gzip");
    reveal_strlit("bz2");
    reveal_strlit("bzip2");
    reveal_strlit("xz");
    reveal_strlit("lzma");
    reveal_strlit("rar");
    reveal_strlit("7z");
    reveal_strlit("7zip");
    reveal_strlit("zst");
    reveal_strlit("zstd");
    reveal_strlit("br");
    reveal_strlit("brotli");
    assert("lz4"@[0] != "zip"@[0]);
    assert("lz4"@[0] != "tar"@[0]);
    assert("lz4"@.len() != "gz"@.len());
    assert("lz4"@.len() != "gzip"@.len());
    assert("lz4"@[0] != "bz2"@[0]);
    assert("lz4"@.len() != "bzip2"@.len());
    assert("lz4"@.len() != "xz"@.len());
    assert("lz4"@.len() != "lzma"@.len());
    assert("lz4"@[0] != "rar"@[0]);
    assert("lz4"@.len() != "7z"@.len());
    assert("lz4"@.len() != "7zip"@.len());
    assert("lz4"@[0] != "zst"@[0]);
    assert("lz4"@.len() != "zstd"@.len());
    assert("lz4"@.len() != "br"@.len());
    assert("lz4"@.len() != "brotli"@.len());
}

/// An extension that can follow the last dot of a file name: not empty,
/// with neither dots nor separators.
pub open spec fn plain_extension(e: Seq<char>) -> bool {
    &&& e.len() > 0
    &&& no_separator(e)
    &&& forall|j: int| 0 <= j < e.len() ==> e[j] != '.'
}

/// The extension offered at position `i` is a plain one (not empty, with
/// neither dots nor separators) and names the format listed for it.
proof fn lemma_offered_extension(i: int)
    requires
        0 <= i < spec_supported_extensions().len(),
    ensures
        plain_extension(spec_supported_extensions()[i]),
        spec_format_of_extension(spec_supported_extensions()[i]) == supported_extension_format(i),
{
    let exts = spec_supported_extensions();
    let e = exts[i];
    if i == 0 {
        assert(e == "zip"@);
        lemma_extension_0();
    } else if i == 1 {
        assert(e == "tar"@);
        lemma_extension_1();
    } else if i == 2 {
        assert(e == "gz"@);
        lemma_extension_2();
    } else if i == 3 {
        assert(e == "gzip"@);
        lemma_extension_3();
    } else if i == 4 {
        assert(e == "bz2"@);
        lemma_extension_4();
    } else if i == 5 {
        assert(e == "bzip2"@);
        lemma_extension_5();
    } else if i == 6 {
        assert(e == "xz"@);
        lemma_extension_6();
    } else if i == 7 {
        assert(e == "lzma"@);
        lemma_extension_7();
    } else if i == 8 {
        assert(e == "rar"@);
        lemma_extension_8();
    } else if i == 9 {
        assert(e == "7z"@);
        lemma_extension_9();
    } else if i == 10 {
        assert(e == "zst"@);
        lemma_extension_10();
    } else if i == 11 {
        assert(e == "br"@);
        lemma_extension_11();
    } else {
        assert(e == "lz4"@);
        lemma_extension_12();
    }
}

/// Some extension offered when choosing an archive names the format `f`.
pub open spec fn is_offered(f: ArchiveFormat) -> bool {
    exists|i: int|
        0 <= i < spec_supported_extensions().len() && #[trigger] supported_extension_format(i) == f
}

/// Every extension offered when choosing an archive names a known format,
/// and every known format is offered.
pub proof fn lemma_supported_extensions_known()
    ensures
        forall|i: int|
            0 <= i < spec_supported_extensions().len() ==> spec_format_of_extension(
                #[trigger] spec_supported_extensions()[i],
            ) == supported_extension_format(i) && supported_extension_format(i)
                != ArchiveFormat::Unknown,
        forall|f: ArchiveFormat| f != ArchiveFormat::Unknown ==> #[trigger] is_offered(f),
{
    let exts = spec_supported_extensions();
    assert forall|i: int| 0 <= i < exts.len() implies spec_format_of_extension(#[trigger] exts[i])
        == supported_extension_format(i) && supported_extension_format(i)
        != ArchiveFormat::Unknown by {
        lemma_offered_extension(i);
    }
    assert forall|f: ArchiveFormat| f != ArchiveFormat::Unknown implies #[trigger] is_offered(f) by {
        match f {
            ArchiveFormat::Zip => assert(supported_extension_format(0) == f),
            ArchiveFormat::Tar => assert(supported_extension_format(1) == f),
            ArchiveFormat::Gzip => assert(supported_extension_format(2) == f),
            ArchiveFormat::Bzip2 => assert(supported_extension_format(4) == f),
            ArchiveFormat::Xz => assert(supported_extension_format(6) == f),
            ArchiveFormat::Rar => assert(supported_extension_format(8) == f),
            ArchiveFormat::SevenZip => assert(supported_extension_format(9) == f),
            ArchiveFormat::Zstd => assert(supported_extension_format(10) == f),
            ArchiveFormat::Brotli => assert(supported_extension_format(11) == f),
            ArchiveFormat::Lz4 => assert(supported_extension_format(12) == f),
            ArchiveFormat::Unknown => {},
        }
    }
}

/// Every extension offered when choosing an archive is recognised on a file
/// named with it: `stem`, a dot and the extension give the extension's format.
pub proof fn lemma_offered_extensions_recognised(stem: Seq<char>)
    requires
        stem.len() > 0,
        no_separator(stem),
    ensures
        forall|i: int|
            0 <= i < spec_supported_extensions().len() ==> spec_from_extension(
                stem + seq!['.'] + #[trigger] spec_supported_extensions()[i],
            ) == supported_extension_format(i) && supported_extension_format(i)
                != ArchiveFormat::Unknown,
{
    lemma_supported_extensions_known();
    let exts = spec_supported_extensions();
    assert forall|i: int| 0 <= i < exts.len() implies spec_from_extension(
        stem + seq!['.'] + #[trigger] exts[i],
    ) == supported_extension_format(i) by {
        lemma_offered_extension(i);
        lemma_extension_of_name(stem, exts[i]);
    }
}

proof fn lemma_long_extension_seven_zip()
    ensures
        plain_extension("7zip"@),
        spec_format_of_extension("7zip"@) == ArchiveFormat::SevenZip,
{
    reveal_strlit("7zip");
    reveal_strlit("zip");
    reveal_strlit("tar");
    reveal_strlit("gz");
    reveal_strlit("gzip");
    reveal_strlit("bz2");
    reveal_strlit("bzip2");
    reveal_strlit("xz");
    reveal_strlit("lzma");
    reveal_strlit("rar");
    assert("7zip"@.len() != "zip"@.len());
    assert("7zip"@.len() != "tar"@.len());
    assert("7zip"@.len() != "gz"@.len());
    assert("7zip"@[0] != "gzip"@[0]);
    assert("7zip"@.len() != "bz2"@.len());
    assert("7zip"@.len() != "bzip2"@.len());
    assert("7zip"@.len() != "xz"@.len());
    assert("7zip"@[0] != "lzma"@[0]);
    assert("7zip"@.len() != "rar"@.len());
}

proof fn lemma_long_extension_zstd()
    ensures
        plain_extension("zstd"@),
        spec_format_of_extension("zstd"@) == ArchiveFormat::Zstd,
{
    reveal_strlit("zstd");
    reveal_strlit("zip");
    reveal_strlit("tar");
    reveal_strlit("gz");
    reveal_strlit("gzip");
    reveal_strlit("bz2");
    reveal_strlit("bzip2");
    reveal_strlit("xz");
    reveal_strlit("lzma");
    reveal_strlit("rar");
    reveal_strlit("7z");
    reveal_strlit("7zip");
    assert("zstd"@.len() != "zip"@.len());
    assert("zstd"@.len() != "tar"@.len());
    assert("zstd"@.len() != "gz"@.len());
    assert("zstd"@[0] != "gzip"@[0]);
    assert("zstd"@.len() != "bz2"@.len());
    assert("zstd"@.len() != "bzip2"@.len());
    assert("zstd"@.len() != "xz"@.len());
    assert("zstd"@[0] != "lzma"@[0]);
    assert("zstd"@.len() != "rar"@.len());
    assert("zstd"@.len() != "7z"@.len());
    assert("zstd"@[0] != "7zip"@[0]);
}

proof fn lemma_long_extension_brotli()
    ensures
        plain_extension("brotli"@),
        spec_format_of_extension("brotli"@) == ArchiveFormat::Brotli,
{
    reveal_strlit("brotli");
    reveal_strlit("zip");
    reveal_strlit("tar");
    reveal_strlit("gz");
    reveal_strlit("gzip");
    reveal_strlit("bz2");
    reveal_strlit("bzip2");
    reveal_strlit("xz");
    reveal_strlit("lzma");
    reveal_strlit("rar");
    reveal_strlit("7z");
    reveal_strlit("7zip");
    reveal_strlit("zst");
    reveal_strlit("zstd");
    assert("brotli"@.len() != "zip"@.len());
    assert("brotli"@.len() != "tar"@.len());
    assert("brotli"@.len() != "gz"@.len());
    assert("brotli"@.len() != "gzip"@.len());
    assert("brotli"@.len() != "bz2"@.len());
    assert("brotli"@.len() != "bzip2"@.len());
    assert("brotli"@.len() != "xz"@.len());
    assert("brotli"@.len() != "lzma"@.len());
    assert("brotli"@.len() != "rar"@.len());
    assert("brotli"@.len() != "7z"@.len());
    assert("brotli"@.len() != "7zip"@.len());
    assert("brotli"@.len() != "zst"@.len());
    assert("brotli"@.len() != "zstd"@.len());
}

/// The extension after the last dot of a file's name decides its format:
/// zip (ZIP), tar (TAR), gz or gzip (GZIP), bz2 or bzip2 (BZIP2), xz or lzma
/// (XZ), rar (RAR), 7z or 7zip (7z), zst or zstd (Zstandard), br or brotli
/// (Brotli), lz4 (LZ4).
pub proof fn lemma_extensions_name_formats(stem: Seq<char>)
    requires
        stem.len() > 0,
        no_separator(stem),
    ensures
        spec_from_extension(stem + seq!['.'] + "zip"@) == ArchiveFormat::Zip,
        spec_from_extension(stem + seq!['.'] + "tar"@) == ArchiveFormat::Tar,
        spec_from_extension(stem + seq!['.'] + "gz"@) == ArchiveFormat::Gzip,
        spec_from_extension(stem + seq!['.'] + "gzip"@) == ArchiveFormat::Gzip,
        spec_from_extension(stem + seq!['.'] + "bz2"@) == ArchiveFormat::Bzip2,
        spec_from_extension(stem + seq!['.'] + "bzip2"@) == ArchiveFormat::Bzip2,
        spec_from_extension(stem + seq!['.'] + "xz"@) == ArchiveFormat::Xz,
        spec_from_extension(stem + seq!['.'] + "lzma"@) == ArchiveFormat::Xz,
        spec_from_extension(stem + seq!['.'] + "rar"@) == ArchiveFormat::Rar,
        spec_from_extension(stem + seq!['.'] + "7z"@) == ArchiveFormat::SevenZip,
        spec_from_extension(stem + seq!['.'] + "7zip"@) == ArchiveFormat::SevenZip,
        spec_from_extension(stem + seq!['.'] + "zst"@) == ArchiveFormat::Zstd,
        spec_from_extension(stem + seq!['.'] + "zstd"@) == ArchiveFormat::Zstd,
        spec_from_extension(stem + seq!['.'] + "br"@) == ArchiveFormat::Brotli,
        spec_from_extension(stem + seq!['.'] + "brotli"@) == ArchiveFormat::Brotli,
        spec_from_extension(stem + seq!['.'] + "lz4"@) == ArchiveFormat::Lz4,
{
    lemma_offered_extension(0);
    assert(spec_supported_extensions()[0] == "zip"@);
    lemma_extension_of_name(stem, "zip"@);
    lemma_offered_extension(1);
    assert(spec_supported_extensions()[1] == "tar"@);
    lemma_extension_of_name(stem, "tar"@);
    lemma_offered_extension(2);
    assert(spec_supported_extensions()[2] == "gz"@);
    lemma_extension_of_name(stem, "gz"@);
    lemma_offered_extension(3);
    assert(spec_supported_extensions()[3] == "gzip"@);
    lemma_extension_of_name(stem, "gzip"@);
    lemma_offered_extension(4);
    assert(spec_supported_extensions()[4] == "bz2"@);
    lemma_extension_of_name(stem, "bz2"@);
    lemma_offered_extension(5);
    assert(spec_supported_extensions()[5] == "bzip2"@);
    lemma_extension_of_name(stem, "bzip2"@);
    lemma_offered_extension(6);
    assert(spec_supported_extensions()[6] == "xz"@);
    lemma_extension_of_name(stem, "xz"@);
    lemma_offered_extension(7);
    assert(spec_supported_extensions()[7] == "lzma"@);
    lemma_extension_of_name(stem, "lzma"@);
    lemma_offered_extension(8);
    assert(spec_supported_extensions()[8] == "rar"@);
    lemma_extension_of_name(stem, "rar"@);
    lemma_offered_extension(9);
    assert(spec_supported_extensions()[9] == "7z"@);
    lemma_extension_of_name(stem, "7z"@);
    lemma_long_extension_seven_zip();
    lemma_extension_of_name(stem, "7zip"@);
    lemma_offered_extension(10);
    assert(spec_supported_extensions()[10] == "zst"@);
    lemma_extension_of_name(stem, "zst"@);
    lemma_long_extension_zstd();
    lemma_extension_of_name(stem, "zstd"@);
    lemma_offered_extension(11);
    assert(spec_supported_extensions()[11] == "br"@);
    lemma_extension_of_name(stem, "br"@);
    lemma_long_extension_brotli();
    lemma_extension_of_name(stem, "brotli"@);
    lemma_offered_extension(12);
    assert(spec_supported_extensions()[12] == "lz4"@);
    lemma_extension_of_name(stem, "lz4"@);
}

/// `t` tenths written with one decimal, followed by `name`.
pub open spec fn tenths_text(t: nat, name: Seq<char>) -> Seq<char> {
    decimal(t / 10) + seq!['.', digit_char(t % 10)] + name
}

/// `t` tenths are `n / d` tenths rounded to the nearest: `t * d` is within
/// half of `d` from `n`.
pub open spec fn nearest_tenths(t: nat, n: nat, d: nat) -> bool {
    2 * t * d <= 2 * n + d && 2 * n <= 2 * t * d + d
}

proof fn lemma_round_is_nearest(n: nat, d: nat)
    requires
        d > 0,
    ensures
        nearest_tenths(round_half_even(n, d), n, d),
{
    lemma_fundamental_div_mod(n as int, d as int);
    let q = n / d;
    let r = n % d;
    assert(n == d * q + r);
    assert(d * q == q * d) by (nonlinear_arith);
    assert((q + 1) * d == q * d + d) by (nonlinear_arith);
    assert(2 * q * d == 2 * (q * d)) by (nonlinear_arith);
    assert(2 * (q + 1) * d == 2 * ((q + 1) * d)) by (nonlinear_arith);
}

proof fn lemma_small_sizes_are_doubles(s: nat)
    requires
        s < exact_double_limit(),
    ensures
        as_double(s) == s,
{
    assert(double_spacing(s) == 1);
    lemma_fundamental_div_mod(s as int, 1);
}

/// How a byte count is shown: below 1024 as the whole number and " B"; from
/// there on in the largest of KB, MB, GB, TB (powers of 1024) not above it,
/// as a number with one decimal which, below 2^53 bytes, is the size in that
/// unit rounded to the nearest tenth.
pub proof fn lemma_format_size_units(size: u64)
    ensures
        size < 1024 ==> spec_format_size(size) == decimal(size as nat) + " B"@,
        1024 <= size ==> exists|t: nat, name: Seq<char>|
            spec_format_size(size) == #[trigger] tenths_text(t, name) && {
                let small = size < exact_double_limit();
                ||| name == " KB"@ && size < 0x10_0000 && (small ==> nearest_tenths(
                    t,
                    10 * size as nat,
                    1024,
                ))
                ||| name == " MB"@ && 0x10_0000 <= size < 0x4000_0000 && (small ==> nearest_tenths(
                    t,
                    10 * size as nat,
                    0x10_0000,
                ))
                ||| name == " GB"@ && 0x4000_0000 <= size < 0x100_0000_0000 && (small
                    ==> nearest_tenths(t, 10 * size as nat, 0x4000_0000))
                ||| name == " TB"@ && 0x100_0000_0000 <= size && (small ==> nearest_tenths(
                    t,
                    10 * size as nat,
                    0x100_0000_0000,
                ))
            },
{
    if size >= 1024 {
        let unit: nat = if size < 0x10_0000 {
            1024
        } else if size < 0x4000_0000 {
            0x10_0000
        } else if size < 0x100_0000_0000 {
            0x4000_0000
        } else {
            0x100_0000_0000
        };
        let name = if size < 0x10_0000 {
            " KB"@
        } else if size < 0x4000_0000 {
            " MB"@
        } else if size < 0x100_0000_0000 {
            " GB"@
        } else {
            " TB"@
        };
        let t = round_half_even(as_double(size as nat) * 10, unit);
        assert(one_decimal(size as nat, unit) == decimal(t / 10) + seq!['.', digit_char(t % 10)]) by {
            assert(seq!['.'] + seq![digit_char(t % 10)] =~= seq!['.', digit_char(t % 10)]);
            assert(decimal(t / 10) + seq!['.'] + seq![digit_char(t % 10)] =~= decimal(t / 10) + (
            seq!['.'] + seq![digit_char(t % 10)]));
        }
        assert(spec_format_size(size) == tenths_text(t, name));
        if size < exact_double_limit() {
            lemma_small_sizes_are_doubles(size as nat);
            lemma_round_is_nearest(10 * size as nat, unit);
        }
    }
}

} // verus!
