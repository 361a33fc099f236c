use archive_extractor::paths::{
    components, extension, file_name, file_stem, join, parent, sanitize_target_path,
    PathComponent,
};
use std::path::{Component, Path};

const SAMPLES: &[&str] = &[
    "", "/", "//", ".", "..", "./", "../", "a", "a/", "a//", "/a", "//a", "a/b", "a//b/",
    "./a", ".//a", "a/./b", "a/.", "a/..", "../a", "/./a", "/../a", "a.zip", "dir/a.tar.gz",
    ".hidden", "dir/.hidden", "a.", "a..b", "..a", "a/b/.", "./.", "x/./y/../z", "/x/y/",
    "name.with.many.dots.txt", " spaced / name .txt", "./a/b/./c/",
];

fn std_parts(p: &str) -> Vec<String> {
    Path::new(p)
        .components()
        .map(|c| match c {
            Component::RootDir => "/".to_string(),
            Component::CurDir => ".".to_string(),
            Component::ParentDir => "..".to_string(),
            Component::Normal(n) => format!("N:{}", n.to_str().unwrap()),
            Component::Prefix(_) => "prefix".to_string(),
        })
        .collect()
}

fn our_parts(p: &str) -> Vec<String> {
    components(p)
        .into_iter()
        .map(|c| match c {
            PathComponent::RootDir => "/".to_string(),
            PathComponent::CurDir => ".".to_string(),
            PathComponent::ParentDir => "..".to_string(),
            PathComponent::Normal(n) => format!("N:{}", n),
        })
        .collect()
}


#[test]
fn components_match_std_paths() {
    for p in SAMPLES {
        assert_eq!(our_parts(p), std_parts(p), "components of {:?}", p);
    }
}

#[test]
fn names_match_std_paths() {
    for p in SAMPLES {
        let sp = Path::new(p);
        assert_eq!(file_name(p), sp.file_name().map(|x| x.to_str().unwrap().to_string()), "file_name of {:?}", p);
        assert_eq!(extension(p), sp.extension().map(|x| x.to_str().unwrap().to_string()), "extension of {:?}", p);
        assert_eq!(file_stem(p), sp.file_stem().map(|x| x.to_str().unwrap().to_string()), "file_stem of {:?}", p);
        match (parent(p), sp.parent()) {
            (Some(a), Some(b)) => assert_eq!(Path::new(&a), b, "parent of {:?}", p),
            (None, None) => {}
            (a, b) => panic!("parent of {:?}: {:?} vs {:?}", p, a, b),
        }
    }
}

#[test]
fn join_matches_std_paths() {
    for b in SAMPLES {
        for r in SAMPLES {
            let ours = join(b, r);
            let theirs = Path::new(b).join(r);
            assert_eq!(ours, theirs.to_str().unwrap(), "{:?} join {:?}", b, r);
        }
    }
}

#[test]
fn test_sanitize_target_path() {
    let dest = Path::new("/target/dir");
    let d = "/target/dir";

    // Safe relative paths
    assert_eq!(Path::new(&sanitize_target_path(d, "file.txt").unwrap()), dest.join("file.txt"));
    assert_eq!(
        Path::new(&sanitize_target_path(d, "sub/dir/file.txt").unwrap()),
        dest.join("sub/dir/file.txt")
    );

    // Path containing CurDir components
    assert_eq!(Path::new(&sanitize_target_path(d, "./file.txt").unwrap()), dest.join("file.txt"));

    // Absolute paths should be converted to relative to dest
    assert_eq!(Path::new(&sanitize_target_path(d, "/file.txt").unwrap()), dest.join("file.txt"));

    // Directory traversal using ParentDir components should fail
    assert!(sanitize_target_path(d, "../file.txt").is_err());
    assert!(sanitize_target_path(d, "sub/../../file.txt").is_err());
}

#[test]
fn test_sanitize_target_path_rejects_traversal() {
    let dest = "/safe/dir";
    assert!(sanitize_target_path(dest, "../evil").is_err());
    assert!(sanitize_target_path(dest, "a/../../evil").is_err());
    assert!(sanitize_target_path(dest, "/absolute/path").is_ok());
}

#[test]
fn sanitized_paths_stay_under_destination() {
    for d in ["/target/dir", "out", "", ".", "out/", "/"] {
        for e in SAMPLES {
            match sanitize_target_path(d, e) {
                Ok(p) => {
                    assert!(Path::new(&p).starts_with(d), "{:?} under {:?}", p, d);
                    assert!(!Path::new(e).components().any(|c| c == Component::ParentDir));
                }
                Err(_) => assert!(Path::new(e).components().any(|c| c == Component::ParentDir)),
            }
        }
    }
    assert_eq!(sanitize_target_path("out", "a/./b//c/").unwrap(), "out/a/b/c");
    assert_eq!(sanitize_target_path("out/", "/").unwrap(), "out/");
    assert_eq!(sanitize_target_path("out", ".").unwrap(), "out/");
}

#[test]
fn backslash_steps_up_are_refused() {
    let d = "/out";
    assert!(sanitize_target_path(d, "..\\evil").is_err());
    assert!(sanitize_target_path(d, "a\\..\\..\\evil").is_err());
    assert!(sanitize_target_path(d, "dir/..\\").is_err());
    assert!(sanitize_target_path(d, "x\\..").is_err());
    assert_eq!(sanitize_target_path(d, "a\\b").unwrap(), "/out/a\\b");
    assert_eq!(sanitize_target_path(d, "a\\..b").unwrap(), "/out/a\\..b");
    assert_eq!(sanitize_target_path(d, "x..y").unwrap(), "/out/x..y");
}
