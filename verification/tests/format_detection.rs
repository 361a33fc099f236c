use archive_extractor::format::ArchiveFormat;
use archive_extractor::format::ArchiveFormat::{Brotli, Bzip2, Gzip, Lz4, Rar, SevenZip, Tar, Unknown, Xz, Zip, Zstd};

#[test]
fn test_archive_format_from_extension() {
    assert_eq!(ArchiveFormat::from_extension("test.zip"), ArchiveFormat::Zip);
    assert_eq!(ArchiveFormat::from_extension("test.tar"), ArchiveFormat::Tar);
    assert_eq!(ArchiveFormat::from_extension("test.gz"), ArchiveFormat::Gzip);
    assert_eq!(ArchiveFormat::from_extension("test.gzip"), ArchiveFormat::Gzip);
    assert_eq!(ArchiveFormat::from_extension("test.bz2"), ArchiveFormat::Bzip2);
    assert_eq!(ArchiveFormat::from_extension("test.xz"), ArchiveFormat::Xz);
    assert_eq!(ArchiveFormat::from_extension("test.rar"), ArchiveFormat::Rar);
    assert_eq!(ArchiveFormat::from_extension("test.unknown"), ArchiveFormat::Unknown);
}

#[test]
fn test_archive_format_from_magic_bytes_zip() {
    // ZIP magic bytes: 50 4B 03 04
    let data = vec![0x50, 0x4B, 0x03, 0x04, 0x00, 0x00];
    assert_eq!(ArchiveFormat::from_magic_bytes(&data), Some(ArchiveFormat::Zip));
}

#[test]
fn test_archive_format_from_magic_bytes_gzip() {
    // GZIP magic bytes: 1F 8B
    let data = vec![0x1F, 0x8B, 0x08, 0x00];
    assert_eq!(ArchiveFormat::from_magic_bytes(&data), Some(ArchiveFormat::Gzip));
}

#[test]
fn test_archive_format_from_magic_bytes_bzip2() {
    // BZIP2 magic bytes: 42 5A 68
    let data = vec![0x42, 0x5A, 0x68, 0x39];
    assert_eq!(ArchiveFormat::from_magic_bytes(&data), Some(ArchiveFormat::Bzip2));
}

#[test]
fn test_archive_format_from_magic_bytes_xz() {
    // XZ magic bytes: FD 37 7A 58 5A 00
    let data = vec![0xFD, 0x37, 0x7A, 0x58, 0x5A, 0x00];
    assert_eq!(ArchiveFormat::from_magic_bytes(&data), Some(ArchiveFormat::Xz));
}

#[test]
fn test_archive_format_from_magic_bytes_rar_v15() {
    // RAR v1.5 magic bytes: 52 61 72 21 1A 07 00
    let data = vec![0x52, 0x61, 0x72, 0x21, 0x1A, 0x07, 0x00];
    assert_eq!(ArchiveFormat::from_magic_bytes(&data), Some(ArchiveFormat::Rar));
}

#[test]
fn test_archive_format_from_magic_bytes_rar_v20() {
    // RAR v2.0 magic bytes: 52 61 72 21 1A 07 01 00
    let data = vec![0x52, 0x61, 0x72, 0x21, 0x1A, 0x07, 0x01, 0x00];
    assert_eq!(ArchiveFormat::from_magic_bytes(&data), Some(ArchiveFormat::Rar));
}

#[test]
fn test_archive_format_from_magic_bytes_empty() {
    let data: Vec<u8> = vec![];
    assert_eq!(ArchiveFormat::from_magic_bytes(&data), None);
}

#[test]
fn test_archive_format_from_magic_bytes_unknown() {
    let data = vec![0x00, 0x01, 0x02, 0x03];
    assert_eq!(ArchiveFormat::from_magic_bytes(&data), None);
}

#[test]
fn magic_bytes_other_signatures() {
    let mut tar = vec![0u8; 512];
    tar[257..262].copy_from_slice(b"ustar");
    assert_eq!(ArchiveFormat::from_magic_bytes(&tar), Some(ArchiveFormat::Tar));
    // the ustar marker needs the whole 262-byte prefix
    assert_eq!(ArchiveFormat::from_magic_bytes(&tar[..261]), None);
    let sevenz = [0x37, 0x7A, 0xBC, 0xAF, 0x27, 0x1C, 0, 4];
    assert_eq!(ArchiveFormat::from_magic_bytes(&sevenz), Some(ArchiveFormat::SevenZip));
    assert_eq!(ArchiveFormat::from_magic_bytes(&[0x28, 0xB5, 0x2F, 0xFD]), Some(ArchiveFormat::Zstd));
    assert_eq!(ArchiveFormat::from_magic_bytes(&[0x04, 0x22, 0x4D, 0x18]), Some(ArchiveFormat::Lz4));
    assert_eq!(ArchiveFormat::from_magic_bytes(&[0x02, 0x21, 0x4C, 0x18]), Some(ArchiveFormat::Lz4));
    // a truncated signature is no signature
    assert_eq!(ArchiveFormat::from_magic_bytes(&[0x50, 0x4B, 0x03]), None);
    assert_eq!(ArchiveFormat::from_magic_bytes(&[0x52, 0x61, 0x72, 0x21, 0x1A, 0x07]), None);
}

#[test]
fn magic_signature_checked_before_tar_marker() {
    // a gzip stream whose bytes at 257 happen to read "ustar" is still gzip
    let mut data = vec![0u8; 512];
    data[0] = 0x1F;
    data[1] = 0x8B;
    data[257..262].copy_from_slice(b"ustar");
    assert_eq!(ArchiveFormat::from_magic_bytes(&data), Some(ArchiveFormat::Gzip));
    // but the tar marker is checked before the 7z signature
    let mut data = vec![0u8; 512];
    data[..6].copy_from_slice(&[0x37, 0x7A, 0xBC, 0xAF, 0x27, 0x1C]);
    data[257..262].copy_from_slice(b"ustar");
    assert_eq!(ArchiveFormat::from_magic_bytes(&data), Some(ArchiveFormat::Tar));
}

#[test]
fn extensions_of_every_format() {
    for (p, f) in [
        ("a.7z", ArchiveFormat::SevenZip),
        ("a.7zip", ArchiveFormat::SevenZip),
        ("a.zst", ArchiveFormat::Zstd),
        ("a.zstd", ArchiveFormat::Zstd),
        ("a.br", ArchiveFormat::Brotli),
        ("a.brotli", ArchiveFormat::Brotli),
        ("a.lz4", ArchiveFormat::Lz4),
        ("a.lzma", ArchiveFormat::Xz),
        ("a.bzip2", ArchiveFormat::Bzip2),
        ("dir/archive.tar.gz", ArchiveFormat::Gzip),
        ("ZIP.ZIP", ArchiveFormat::Unknown),
        ("noext", ArchiveFormat::Unknown),
        (".zip", ArchiveFormat::Unknown),
        ("a.zip/", ArchiveFormat::Zip),
        ("", ArchiveFormat::Unknown),
    ] {
        assert_eq!(ArchiveFormat::from_extension(p), f, "{}", p);
    }
}

#[test]
fn detect_prefers_signature_then_extension() {
    let gz = [0x1Fu8, 0x8B, 0x08, 0x00];
    assert_eq!(ArchiveFormat::detect("file.zip", Some(&gz)), Some(ArchiveFormat::Gzip));
    assert_eq!(ArchiveFormat::detect("file.zip", Some(&[0u8; 8])), Some(ArchiveFormat::Zip));
    assert_eq!(ArchiveFormat::detect("file.zip", None), Some(ArchiveFormat::Zip));
    assert_eq!(ArchiveFormat::detect("file.txt", None), None);
    assert_eq!(ArchiveFormat::detect("file.txt", Some(&gz)), Some(ArchiveFormat::Gzip));
}

#[test]
fn single_file_formats() {
    for f in [Gzip, Bzip2, Xz, Zstd, Brotli, Lz4] {
        assert!(f.is_single_file());
    }
    for f in [Zip, Tar, Rar, SevenZip, Unknown] {
        assert!(!f.is_single_file());
    }
}

#[test]
fn appended_bytes_keep_the_detection() {
    let headers: Vec<Vec<u8>> = vec![
        vec![0x50, 0x4B, 0x03, 0x04],
        vec![0x52, 0x61, 0x72, 0x21, 0x1A, 0x07, 0x00],
        vec![0x1F, 0x8B],
        vec![0x42, 0x5A, 0x68],
        vec![0xFD, 0x37, 0x7A, 0x58, 0x5A, 0x00],
    ];
    let mut marker = vec![0u8; 257];
    marker.extend_from_slice(b"ustar");
    for h in headers {
        let f = ArchiveFormat::from_magic_bytes(&h);
        assert!(f.is_some());
        let mut longer = h.clone();
        longer.extend_from_slice(&marker);
        assert_eq!(ArchiveFormat::from_magic_bytes(&longer), f);
    }
    // A short 7z header followed by the TAR marker reads as TAR.
    let mut sevenzip = vec![0x37, 0x7A, 0xBC, 0xAF, 0x27, 0x1C];
    assert_eq!(ArchiveFormat::from_magic_bytes(&sevenzip), Some(SevenZip));
    sevenzip.resize(257, 0);
    sevenzip.extend_from_slice(b"ustar");
    assert_eq!(ArchiveFormat::from_magic_bytes(&sevenzip), Some(Tar));
}
