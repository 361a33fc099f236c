//! Archive formats: recognising them by file signature and by extension.

use vstd::prelude::*;
use crate::paths::{extension, spec_extension};
use crate::text::str_eq;

verus! {

/// The archive and compression formats the extractor knows.
#[derive(Clone, Copy, Debug, PartialEq, Eq, Structural)]
pub enum ArchiveFormat {
    Zip,
    Tar,
    Gzip,
    Bzip2,
    Xz,
    Rar,
    SevenZip,
    Zstd,
    Brotli,
    Lz4,
    Unknown,
}

/// Formats that compress a single file (as opposed to archives of many files).
pub open spec fn spec_is_single_file(f: ArchiveFormat) -> bool {
    match f {
        ArchiveFormat::Gzip | ArchiveFormat::Bzip2 | ArchiveFormat::Xz | ArchiveFormat::Zstd
        | ArchiveFormat::Brotli | ArchiveFormat::Lz4 => true,
        _ => false,
    }
}

/// `data` holds the bytes `sig` starting at `offset`.
pub open spec fn has_signature_at(data: Seq<u8>, offset: int, sig: Seq<u8>) -> bool {
    &&& offset + sig.len() <= data.len()
    &&& data.subrange(offset, offset + sig.len()) == sig
}

pub open spec fn zip_sig() -> Seq<u8> {
    seq![0x50u8, 0x4B, 0x03, 0x04]
}

pub open spec fn rar15_sig() -> Seq<u8> {
    seq![0x52u8, 0x61, 0x72, 0x21, 0x1A, 0x07, 0x00]
}

pub open spec fn rar50_sig() -> Seq<u8> {
    seq![0x52u8, 0x61, 0x72, 0x21, 0x1A, 0x07, 0x01, 0x00]
}

pub open spec fn gzip_sig() -> Seq<u8> {
    seq![0x1Fu8, 0x8B]
}

pub open spec fn bzip2_sig() -> Seq<u8> {
    seq![0x42u8, 0x5A, 0x68]
}

pub open spec fn xz_sig() -> Seq<u8> {
    seq![0xFDu8, 0x37, 0x7A, 0x58, 0x5A, 0x00]
}

pub open spec fn ustar_sig() -> Seq<u8> {
    seq![0x75u8, 0x73, 0x74, 0x61, 0x72]
}

pub open spec fn sevenzip_sig() -> Seq<u8> {
    seq![0x37u8, 0x7A, 0xBC, 0xAF, 0x27, 0x1C]
}

pub open spec fn zstd_sig() -> Seq<u8> {
    seq![0x28u8, 0xB5, 0x2F, 0xFD]
}

pub open spec fn lz4_frame_sig() -> Seq<u8> {
    seq![0x04u8, 0x22, 0x4D, 0x18]
}

pub open spec fn lz4_legacy_sig() -> Seq<u8> {
    seq![0x02u8, 0x21, 0x4C, 0x18]
}

/// The format whose signature `data` carries, checking the signatures in a
/// fixed order (the first match wins); `None` when no signature matches.
pub open spec fn spec_from_magic(data: Seq<u8>) -> Option<ArchiveFormat> {
    if has_signature_at(data, 0, zip_sig()) {
        Some(ArchiveFormat::Zip)
    } else if has_signature_at(data, 0, rar15_sig()) || has_signature_at(data, 0, rar50_sig()) {
        Some(ArchiveFormat::Rar)
    } else if has_signature_at(data, 0, gzip_sig()) {
        Some(ArchiveFormat::Gzip)
    } else if has_signature_at(data, 0, bzip2_sig()) {
        Some(ArchiveFormat::Bzip2)
    } else if has_signature_at(data, 0, xz_sig()) {
        Some(ArchiveFormat::Xz)
    } else if has_signature_at(data, 257, ustar_sig()) {
        Some(ArchiveFormat::Tar)
    } else if has_signature_at(data, 0, sevenzip_sig()) {
        Some(ArchiveFormat::SevenZip)
    } else if has_signature_at(data, 0, zstd_sig()) {
        Some(ArchiveFormat::Zstd)
    } else if has_signature_at(data, 0, lz4_frame_sig()) || has_signature_at(
        data,
        0,
        lz4_legacy_sig(),
    ) {
        Some(ArchiveFormat::Lz4)
    } else {
        None
    }
}

proof fn lemma_signature_kept(d: Seq<u8>, e: Seq<u8>, offset: int, sig: Seq<u8>)
    requires
        0 <= offset,
    ensures
        offset + sig.len() <= d.len() ==> (has_signature_at(d + e, offset, sig) == has_signature_at(
            d,
            offset,
            sig,
        )),
        sig.len() > 0 && d.len() > 0 && d[0] != sig[0] ==> !has_signature_at(d + e, 0, sig),
        sig.len() > 0 && has_signature_at(d, 0, sig) ==> d[0] == sig[0],
{
    let x = d + e;
    if offset + sig.len() <= d.len() {
        assert(x.subrange(offset, offset + sig.len()) =~= d.subrange(offset, offset + sig.len()));
    }
    if sig.len() > 0 && d.len() > 0 && has_signature_at(x, 0, sig) {
        assert(x.subrange(0, sig.len() as int)[0] == sig[0]);
        assert(x[0] == d[0]);
    }
    if sig.len() > 0 && has_signature_at(d, 0, sig) {
        assert(d.subrange(0, sig.len() as int)[0] == sig[0]);
    }
}

proof fn lemma_signatures_kept(d: Seq<u8>, e: Seq<u8>)
    ensures
        ({
            let x = d + e;
            let sigs = seq![
                zip_sig(), rar15_sig(), rar50_sig(), gzip_sig(), bzip2_sig(), xz_sig(),
                sevenzip_sig(), zstd_sig(), lz4_frame_sig(), lz4_legacy_sig(),
            ];
            &&& forall|k: int|
                0 <= k < sigs.len() ==> (#[trigger] sigs[k]).len() <= d.len() ==> (
                has_signature_at(x, 0, sigs[k]) == has_signature_at(d, 0, sigs[k]))
            &&& forall|k: int|
                0 <= k < sigs.len() ==> d.len() > 0 && d[0] != (#[trigger] sigs[k])[0]
                    ==> !has_signature_at(x, 0, sigs[k])
            &&& forall|k: int|
                0 <= k < sigs.len() ==> has_signature_at(d, 0, #[trigger] sigs[k]) ==> d[0]
                    == sigs[k][0]
            &&& 257 + ustar_sig().len() <= d.len() ==> (has_signature_at(x, 257, ustar_sig())
                == has_signature_at(d, 257, ustar_sig()))
        }),
{
    let sigs = seq![
        zip_sig(), rar15_sig(), rar50_sig(), gzip_sig(), bzip2_sig(), xz_sig(), sevenzip_sig(),
        zstd_sig(), lz4_frame_sig(), lz4_legacy_sig(),
    ];
    assert forall|k: int| 0 <= k < sigs.len() implies {
        &&& (#[trigger] sigs[k]).len() <= d.len() ==> (has_signature_at(d + e, 0, sigs[k])
            == has_signature_at(d, 0, sigs[k]))
        &&& d.len() > 0 && d[0] != sigs[k][0] ==> !has_signature_at(d + e, 0, sigs[k])
        &&& has_signature_at(d, 0, sigs[k]) ==> d[0] == sigs[k][0]
    } by {
        lemma_signature_kept(d, e, 0, sigs[k]);
    }
    lemma_signature_kept(d, e, 257, ustar_sig());
}

/// Bytes appended after a recognised header do not change what it is
/// recognised as (the signatures are tests on a prefix). The one exception
/// is a header shorter than the TAR marker's end (262 bytes) recognised as a
/// format checked after TAR (7z, Zstandard, LZ4): the appended bytes may
/// carry the marker.
pub proof fn lemma_magic_kept_by_appending(d: Seq<u8>, e: Seq<u8>)
    requires
        spec_from_magic(d) is Some,
        d.len() >= 262 || !(spec_from_magic(d) == Some(ArchiveFormat::SevenZip) || spec_from_magic(
            d,
        ) == Some(ArchiveFormat::Zstd) || spec_from_magic(d) == Some(ArchiveFormat::Lz4)),
    ensures
        spec_from_magic(d + e) == spec_from_magic(d),
{
    lemma_signatures_kept(d, e);
    let sigs = seq![
        zip_sig(), rar15_sig(), rar50_sig(), gzip_sig(), bzip2_sig(), xz_sig(), sevenzip_sig(),
        zstd_sig(), lz4_frame_sig(), lz4_legacy_sig(),
    ];
    assert(sigs[0] == zip_sig());
    assert(sigs[1] == rar15_sig());
    assert(sigs[2] == rar50_sig());
    assert(sigs[3] == gzip_sig());
    assert(sigs[4] == bzip2_sig());
    assert(sigs[5] == xz_sig());
    assert(sigs[6] == sevenzip_sig());
    assert(sigs[7] == zstd_sig());
    assert(sigs[8] == lz4_frame_sig());
    assert(sigs[9] == lz4_legacy_sig());
}

/// The format named by a file extension (case-sensitive).
pub open spec fn spec_format_of_extension(ext: Seq<char>) -> ArchiveFormat {
    if ext == "zip"@ {
        ArchiveFormat::Zip
    } else if ext == "tar"@ {
        ArchiveFormat::Tar
    } else if ext == "gz"@ || ext == "gzip"@ {
        ArchiveFormat::Gzip
    } else if ext == "bz2"@ || ext == "bzip2"@ {
        ArchiveFormat::Bzip2
    } else if ext == "xz"@ || ext == "lzma"@ {
        ArchiveFormat::Xz
    } else if ext == "rar"@ {
        ArchiveFormat::Rar
    } else if ext == "7z"@ || ext == "7zip"@ {
        ArchiveFormat::SevenZip
    } else if ext == "zst"@ || ext == "zstd"@ {
        ArchiveFormat::Zstd
    } else if ext == "br"@ || ext == "brotli"@ {
        ArchiveFormat::Brotli
    } else if ext == "lz4"@ {
        ArchiveFormat::Lz4
    } else {
        ArchiveFormat::Unknown
    }
}

/// The format named by the extension of `path`; a path without an extension
/// is treated as having the empty one.
pub open spec fn spec_from_extension(path: Seq<char>) -> ArchiveFormat {
    match spec_extension(path) {
        Some(e) => spec_format_of_extension(e),
        None => spec_format_of_extension(Seq::<char>::empty()),
    }
}

/// Detection: the signature in the file's first block when that block could
/// be read and carries one, else the extension when it names a format.
pub open spec fn spec_detect(path: Seq<char>, header: Option<Seq<u8>>) -> Option<ArchiveFormat> {
    let magic = match header {
        Some(h) => spec_from_magic(h),
        None => None,
    };
    if magic is Some {
        magic
    } else if spec_from_extension(path) != ArchiveFormat::Unknown {
        Some(spec_from_extension(path))
    } else {
        None
    }
}

/// The format named by the extension `ext`.
fn format_of_extension(ext: &str) -> (r: ArchiveFormat)
    ensures
        r == spec_format_of_extension(ext@),
{
    if str_eq(ext, "zip") {
        ArchiveFormat::Zip
    } else if str_eq(ext, "tar") {
        ArchiveFormat::Tar
    } else if str_eq(ext, "gz") || str_eq(ext, "gzip") {
        ArchiveFormat::Gzip
    } else if str_eq(ext, "bz2") || str_eq(ext, "bzip2") {
        ArchiveFormat::Bzip2
    } else if str_eq(ext, "xz") || str_eq(ext, "lzma") {
        ArchiveFormat::Xz
    } else if str_eq(ext, "rar") {
        ArchiveFormat::Rar
    } else if str_eq(ext, "7z") || str_eq(ext, "7zip") {
        ArchiveFormat::SevenZip
    } else if str_eq(ext, "zst") || str_eq(ext, "zstd") {
        ArchiveFormat::Zstd
    } else if str_eq(ext, "br") || str_eq(ext, "brotli") {
        ArchiveFormat::Brotli
    } else if str_eq(ext, "lz4") {
        ArchiveFormat::Lz4
    } else {
        ArchiveFormat::Unknown
    }
}

/// Whether `data` holds the bytes of `sig` at `offset`.
fn signature_at(data: &[u8], offset: usize, sig: &[u8]) -> (r: bool)
    ensures
        r == has_signature_at(data@, offset as int, sig@),
{
    if offset > data.len() || sig.len() > data.len() - offset {
        return false;
    }
    let mut i: usize = 0;
    while i < sig.len()
        invariant
            offset + sig.len() <= data.len(),
            i <= sig.len(),
            forall|k: int| 0 <= k < i ==> data@[offset + k] == sig@[k],
        decreases sig.len() - i,
    {
        if data[offset + i] != sig[i] {
            assert(data@.subrange(offset as int, offset + sig.len())[i as int] != sig@[i as int]);
            return false;
        }
        i = i + 1;
    }
    assert(data@.subrange(offset as int, offset + sig.len()) =~= sig@);
    true
}

impl ArchiveFormat {
    /// Single-file compression formats, as opposed to multi-file archives.
    pub fn is_single_file(self) -> (r: bool)
        ensures
            r == spec_is_single_file(self),
    {
        match self {
            ArchiveFormat::Gzip | ArchiveFormat::Bzip2 | ArchiveFormat::Xz | ArchiveFormat::Zstd
            | ArchiveFormat::Brotli | ArchiveFormat::Lz4 => true,
            _ => false,
        }
    }

    /// Recognise a format by the signature at the start of a file
    /// (or, for TAR, the `ustar` marker at offset 257).
    pub fn from_magic_bytes(data: &[u8]) -> (r: Option<ArchiveFormat>)
        ensures
            r == spec_from_magic(data@),
    {
        let zip: [u8; 4] = [0x50, 0x4B, 0x03, 0x04];
        let rar15: [u8; 7] = [0x52, 0x61, 0x72, 0x21, 0x1A, 0x07, 0x00];
        let rar50: [u8; 8] = [0x52, 0x61, 0x72, 0x21, 0x1A, 0x07, 0x01, 0x00];
        let gzip: [u8; 2] = [0x1F, 0x8B];
        let bzip2: [u8; 3] = [0x42, 0x5A, 0x68];
        let xz: [u8; 6] = [0xFD, 0x37, 0x7A, 0x58, 0x5A, 0x00];
        let ustar: [u8; 5] = [0x75, 0x73, 0x74, 0x61, 0x72];
        let sevenzip: [u8; 6] = [0x37, 0x7A, 0xBC, 0xAF, 0x27, 0x1C];
        let zstd: [u8; 4] = [0x28, 0xB5, 0x2F, 0xFD];
        let lz4_frame: [u8; 4] = [0x04, 0x22, 0x4D, 0x18];
        let lz4_legacy: [u8; 4] = [0x02, 0x21, 0x4C, 0x18];
        proof {
            assert(zip@ =~= zip_sig());
            assert(rar15@ =~= rar15_sig());
            assert(rar50@ =~= rar50_sig());
            assert(gzip@ =~= gzip_sig());
            assert(bzip2@ =~= bzip2_sig());
            assert(xz@ =~= xz_sig());
            assert(ustar@ =~= ustar_sig());
            assert(sevenzip@ =~= sevenzip_sig());
            assert(zstd@ =~= zstd_sig());
            assert(lz4_frame@ =~= lz4_frame_sig());
            assert(lz4_legacy@ =~= lz4_legacy_sig());
        }
        if signature_at(data, 0, &zip) {
            Some(ArchiveFormat::Zip)
        } else if signature_at(data, 0, &rar15) || signature_at(data, 0, &rar50) {
            Some(ArchiveFormat::Rar)
        } else if signature_at(data, 0, &gzip) {
            Some(ArchiveFormat::Gzip)
        } else if signature_at(data, 0, &bzip2) {
            Some(ArchiveFormat::Bzip2)
        } else if signature_at(data, 0, &xz) {
            Some(ArchiveFormat::Xz)
        } else if signature_at(data, 257, &ustar) {
            Some(ArchiveFormat::Tar)
        } else if signature_at(data, 0, &sevenzip) {
            Some(ArchiveFormat::SevenZip)
        } else if signature_at(data, 0, &zstd) {
            Some(ArchiveFormat::Zstd)
        } else if signature_at(data, 0, &lz4_frame) || signature_at(data, 0, &lz4_legacy) {
            Some(ArchiveFormat::Lz4)
        } else {
            None
        }
    }

    /// Recognise a format by the extension of `path` (case-sensitive);
    /// `Unknown` when the extension names none.
    pub fn from_extension(path: &str) -> (r: ArchiveFormat)
        ensures
            r == spec_from_extension(path@),
    {
        match extension(path) {
            Some(e) => format_of_extension(e.as_str()),
            None => {
                let r = format_of_extension("");
                proof {
                    reveal_strlit("");
                    assert(""@ =~= Seq::<char>::empty());
                }
                r
            },
        }
    }

    /// Detect the format of the file at `path` whose first 512-byte block is
    /// `header` (`None` when that block could not be read in full): the
    /// signature in the block wins; otherwise the extension decides.
    pub fn detect(path: &str, header: Option<&[u8]>) -> (r: Option<ArchiveFormat>)
        ensures
            r == spec_detect(
                path@,
                match header {
                    Some(h) => Some(h@),
                    None => None,
                },
            ),
    {
        if let Some(h) = header {
            if let Some(f) = Self::from_magic_bytes(h) {
                return Some(f);
            }
        }
        let f = Self::from_extension(path);
        if f != ArchiveFormat::Unknown {
            Some(f)
        } else {
            None
        }
    }
}

/// Each format is recognised by its signature: ZIP by 50 4B 03 04, RAR by
/// 52 61 72 21 1A 07 00 or 52 61 72 21 1A 07 01 00, GZIP by 1F 8B, BZIP2 by
/// 42 5A 68, XZ by FD 37 7A 58 5A 00 at the start; TAR by "ustar" at offset
/// 257 when none of those starts the data; 7z by 37 7A BC AF 27 1C, Zstandard
/// by 28 B5 2F FD, LZ4 by 04 22 4D 18 or 02 21 4C 18 at the start when there
/// is no TAR marker.
pub proof fn lemma_signatures_recognised(d: Seq<u8>)
    ensures
        d.len() >= 4 && d[0] == 0x50 && d[1] == 0x4B && d[2] == 0x03 && d[3] == 0x04
            ==> spec_from_magic(d) == Some(ArchiveFormat::Zip),
        d.len() >= 7 && d[0] == 0x52 && d[1] == 0x61 && d[2] == 0x72 && d[3] == 0x21 && d[4]
            == 0x1A && d[5] == 0x07 && (d[6] == 0x00 || (d.len() >= 8 && d[6] == 0x01 && d[7]
            == 0x00)) ==> spec_from_magic(d) == Some(ArchiveFormat::Rar),
        d.len() >= 2 && d[0] == 0x1F && d[1] == 0x8B ==> spec_from_magic(d) == Some(
            ArchiveFormat::Gzip,
        ),
        d.len() >= 3 && d[0] == 0x42 && d[1] == 0x5A && d[2] == 0x68 ==> spec_from_magic(d)
            == Some(ArchiveFormat::Bzip2),
        d.len() >= 6 && d[0] == 0xFD && d[1] == 0x37 && d[2] == 0x7A && d[3] == 0x58 && d[4]
            == 0x5A && d[5] == 0x00 ==> spec_from_magic(d) == Some(ArchiveFormat::Xz),
        tar_marker(d) && d[0] != 0x50 && d[0] != 0x52 && d[0] != 0x1F && d[0] != 0x42 && d[0]
            != 0xFD ==> spec_from_magic(d) == Some(ArchiveFormat::Tar),
        !tar_marker(d) && d.len() >= 6 && d[0] == 0x37 && d[1] == 0x7A && d[2] == 0xBC && d[3]
            == 0xAF && d[4] == 0x27 && d[5] == 0x1C ==> spec_from_magic(d) == Some(
            ArchiveFormat::SevenZip,
        ),
        !tar_marker(d) && d.len() >= 4 && d[0] == 0x28 && d[1] == 0xB5 && d[2] == 0x2F && d[3]
            == 0xFD ==> spec_from_magic(d) == Some(ArchiveFormat::Zstd),
        !tar_marker(d) && d.len() >= 4 && ((d[0] == 0x04 && d[1] == 0x22 && d[2] == 0x4D && d[3]
            == 0x18) || (d[0] == 0x02 && d[1] == 0x21 && d[2] == 0x4C && d[3] == 0x18))
            ==> spec_from_magic(d) == Some(ArchiveFormat::Lz4),
{
    let e = Seq::<u8>::empty();
    assert(d + e =~= d);
    lemma_signatures_kept(d, e);
    let sigs = seq![
        zip_sig(), rar15_sig(), rar50_sig(), gzip_sig(), bzip2_sig(), xz_sig(), sevenzip_sig(),
        zstd_sig(), lz4_frame_sig(), lz4_legacy_sig(),
    ];
    assert(sigs[0] == zip_sig());
    assert(sigs[1] == rar15_sig());
    assert(sigs[2] == rar50_sig());
    assert(sigs[3] == gzip_sig());
    assert(sigs[4] == bzip2_sig());
    assert(sigs[5] == xz_sig());
    assert(sigs[6] == sevenzip_sig());
    assert(sigs[7] == zstd_sig());
    assert(sigs[8] == lz4_frame_sig());
    assert(sigs[9] == lz4_legacy_sig());
    if d.len() >= 4 {
        if d.subrange(0, 4) =~= zip_sig() {
        }
        if d.subrange(0, 4) =~= zstd_sig() {
        }
        if d.subrange(0, 4) =~= lz4_frame_sig() {
        }
        if d.subrange(0, 4) =~= lz4_legacy_sig() {
        }
    }
    if d.len() >= 7 {
        if d.subrange(0, 7) =~= rar15_sig() {
        }
    }
    if d.len() >= 8 {
        if d.subrange(0, 8) =~= rar50_sig() {
        }
    }
    if d.len() >= 2 {
        if d.subrange(0, 2) =~= gzip_sig() {
        }
    }
    if d.len() >= 3 {
        if d.subrange(0, 3) =~= bzip2_sig() {
        }
    }
    if d.len() >= 6 {
        if d.subrange(0, 6) =~= xz_sig() {
        }
        if d.subrange(0, 6) =~= sevenzip_sig() {
        }
    }
    if d.len() >= 262 {
        if d.subrange(257, 262) =~= ustar_sig() {
        }
    }
}

/// The TAR marker: "ustar" at offset 257.
pub open spec fn tar_marker(d: Seq<u8>) -> bool {
    &&& d.len() >= 262
    &&& d[257] == 0x75 && d[258] == 0x73 && d[259] == 0x74 && d[260] == 0x61 && d[261] == 0x72
}

} // verus!
