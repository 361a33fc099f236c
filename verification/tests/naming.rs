use archive_extractor::entry::ArchiveEntry;
use archive_extractor::format::ArchiveFormat;
use archive_extractor::formats::{
    extension_icon, file_icon, format_icon, format_name, format_size, is_supported_archive,
    supported_extensions,
};

fn entry(name: &str, is_dir: bool) -> ArchiveEntry {
    ArchiveEntry {
        name: name.to_string(),
        is_dir,
        size: 0,
        compressed_size: 0,
        path: name.to_string(),
    }
}

#[test]
fn test_format_name() {
    assert_eq!(format_name(ArchiveFormat::Zip), "ZIP Archive");
    assert_eq!(format_name(ArchiveFormat::Tar), "TAR Archive");
    assert_eq!(format_name(ArchiveFormat::Gzip), "GZIP Compressed");
    assert_eq!(format_name(ArchiveFormat::Bzip2), "BZIP2 Compressed");
    assert_eq!(format_name(ArchiveFormat::Xz), "XZ Compressed");
    assert_eq!(format_name(ArchiveFormat::Rar), "RAR Archive");
    assert_eq!(format_name(ArchiveFormat::Unknown), "Unknown Format");
}

#[test]
fn test_format_icon() {
    assert_eq!(format_icon(ArchiveFormat::Zip), "📦");
    assert_eq!(format_icon(ArchiveFormat::Rar), "📦");
    assert_eq!(format_icon(ArchiveFormat::Tar), "📋");
    assert_eq!(format_icon(ArchiveFormat::Unknown), "❓");
}

#[test]
fn test_file_icon_directories() {
    let dir_entry = ArchiveEntry {
        name: "folder".to_string(),
        is_dir: true,
        size: 0,
        compressed_size: 0,
        path: "folder".to_string(),
    };
    assert_eq!(file_icon(&dir_entry), "📁");
}

#[test]
fn test_file_icon_extensions() {
    assert_eq!(file_icon(&entry("file.txt", false)), "📄");
    assert_eq!(file_icon(&entry("document.pdf", false)), "📕");
    assert_eq!(file_icon(&entry("photo.jpg", false)), "🖼️");
    assert_eq!(file_icon(&entry("song.mp3", false)), "🎵");
    assert_eq!(file_icon(&entry("video.mp4", false)), "🎬");
    assert_eq!(file_icon(&entry("code.rs", false)), "⚙️");
}

#[test]
fn file_icon_lowercases_extension() {
    assert_eq!(file_icon(&entry("PHOTO.JPG", false)), "🖼️");
    assert_eq!(file_icon(&entry("Script.Py", false)), "🐍");
    assert_eq!(file_icon(&entry("noext", false)), "📄");
    assert_eq!(file_icon(&entry("dir/archive.tar.GZ", false)), "📦");
    assert_eq!(file_icon(&entry("site/index.html", false)), "🌐");
    // the Kelvin sign lowercases to an ASCII 'k'
    assert_eq!(file_icon(&entry("x.\u{212A}", false)), "📄");
}

#[test]
fn icons_by_lowercase_extension() {
    assert_eq!(extension_icon("json"), "⚙️");
    assert_eq!(extension_icon("csv"), "📊");
    assert_eq!(extension_icon("readme"), "📄");
    assert_eq!(extension_icon("tsx"), "📜");
    assert_eq!(extension_icon("sh"), "🔧");
    assert_eq!(extension_icon("PDF"), "📄");
    assert_eq!(extension_icon(""), "📄");
}

#[test]
fn test_format_size_bytes() {
    assert_eq!(format_size(0), "0 B");
    assert_eq!(format_size(1), "1 B");
    assert_eq!(format_size(1023), "1023 B");
}

#[test]
fn test_format_size_kilobytes() {
    assert_eq!(format_size(1024), "1.0 KB");
    assert_eq!(format_size(1536), "1.5 KB");
    assert_eq!(format_size(1048575), "1024.0 KB");
}

#[test]
fn test_format_size_megabytes() {
    assert_eq!(format_size(1048576), "1.0 MB");
    assert_eq!(format_size(1572864), "1.5 MB");
    assert_eq!(format_size(1073741823), "1024.0 MB");
}

#[test]
fn test_format_size_gigabytes() {
    assert_eq!(format_size(1073741824), "1.0 GB");
    assert_eq!(format_size(1610612736), "1.5 GB");
    assert_eq!(format_size(1099511627775), "1024.0 GB");
}

#[test]
fn test_format_size_terabytes() {
    assert_eq!(format_size(1099511627776), "1.0 TB");
    assert_eq!(format_size(1649267441664), "1.5 TB");
}

fn float_format(s: u64) -> String {
    const KB: u64 = 1024;
    const MB: u64 = 1024 * KB;
    const GB: u64 = 1024 * MB;
    const TB: u64 = 1024 * GB;
    match s {
        s if s < KB => format!("{} B", s),
        s if s < MB => format!("{:.1} KB", s as f64 / KB as f64),
        s if s < GB => format!("{:.1} MB", s as f64 / MB as f64),
        s if s < TB => format!("{:.1} GB", s as f64 / GB as f64),
        s => format!("{:.1} TB", s as f64 / TB as f64),
    }
}

#[test]
fn format_size_agrees_with_float_formatting() {
    // ties (x.x5 exactly), values near unit boundaries, and values above 2^53
    let mut cases: Vec<u64> = vec![
        1280, 1280 + 512, 3 * 1024 + 256, 3 * 1024 + 768, 1024 * 1024 * 5 / 4, 1024 * 1024 - 51,
        1024 * 1024 - 52, 1024 * 1024 - 1, u64::MAX, u64::MAX - 1, 1 << 53, (1 << 53) + 1,
        (1 << 54) + 2, (1 << 54) + 6, (1 << 60) + 12345, 9_007_199_254_740_993,
        18_014_398_509_481_987, 0xFFFF_FFFF_FFFF_F800, 0xFFFF_FFFF_FFFF_FC00,
        0xFFFF_FFFF_FFFF_FBFF,
    ];
    let mut x: u64 = 0x9E37_79B9_7F4A_7C15;
    for i in 0..20000u64 {
        x ^= x << 13;
        x ^= x >> 7;
        x ^= x << 17;
        cases.push(x >> (i % 64));
        cases.push(i * 1024 / 20);
        cases.push(i * 1024 * 1024 / 20 + 7);
    }
    for s in cases {
        assert_eq!(format_size(s), float_format(s), "size {}", s);
    }
}

#[test]
fn test_supported_extensions() {
    let extensions = supported_extensions();
    assert!(extensions.contains(&"zip"));
    assert!(extensions.contains(&"tar"));
    assert!(extensions.contains(&"gz"));
    assert!(extensions.contains(&"rar"));
}

#[test]
fn every_supported_format_is_offered() {
    let extensions = supported_extensions();
    assert_eq!(
        extensions,
        vec!["zip", "tar", "gz", "gzip", "bz2", "bzip2", "xz", "lzma", "rar", "7z", "zst", "br", "lz4"]
    );
    let mut named: Vec<ArchiveFormat> = Vec::new();
    for e in &extensions {
        let f = ArchiveFormat::from_extension(&format!("archive.{}", e));
        if !named.contains(&f) {
            named.push(f);
        }
    }
    assert_eq!(named.len(), 10);
    assert!(!named.contains(&ArchiveFormat::Unknown));
}

#[test]
fn every_supported_extension_names_a_format() {
    for e in supported_extensions() {
        let p = format!("archive.{}", e);
        assert_ne!(ArchiveFormat::from_extension(&p), ArchiveFormat::Unknown, "{}", e);
    }
}

#[test]
fn supported_archive_by_header_or_name() {
    assert!(is_supported_archive("a.rar", None));
    assert!(!is_supported_archive("a.txt", None));
    assert!(is_supported_archive("a.txt", Some(&[0x50, 0x4B, 0x03, 0x04])));
    assert!(!is_supported_archive("a.txt", Some(&[0u8; 512])));
}
