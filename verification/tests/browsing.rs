use archive_extractor::browse::{rebuild_sort_keys, sort_key, sorted_indices, EntryBrowser, SortBy};
use archive_extractor::entry::ArchiveEntry;

fn entry(name: &str, is_dir: bool, size: u64) -> ArchiveEntry {
    ArchiveEntry {
        name: name.to_string(),
        is_dir,
        size,
        compressed_size: 0,
        path: name.to_string(),
    }
}

fn sample() -> Vec<ArchiveEntry> {
    vec![
        entry("b.TXT", false, 5),
        entry("A.zip", false, 10),
        entry("docs/", true, 0),
        entry("c.txt", false, 5),
    ]
}

#[test]
fn sort_keys_are_lowercase() {
    let k = sort_key(&entry("Dir/Report.PDF", false, 3));
    assert_eq!(k.name_lower.iter().collect::<String>(), "dir/report.pdf");
    assert_eq!(k.ext_lower.iter().collect::<String>(), "pdf");
    assert_eq!((k.size, k.is_dir), (3, false));
    let none = sort_key(&entry("README", false, 0));
    assert!(none.ext_lower.is_empty());
}

#[test]
fn new_browser_sorts_by_name_ascending() {
    let b = EntryBrowser::new();
    assert!(b.entries().is_empty());
    assert!(b.visible().is_empty());
    assert_eq!(b.sort_by(), SortBy::Name);
    assert!(b.sort_ascending());
    assert_eq!(SortBy::default(), SortBy::Name);
}

#[test]
fn sorting_by_each_column() {
    let mut b = EntryBrowser::new();
    b.set_entries(sample());
    assert_eq!(b.visible(), &vec![1, 0, 3, 2]);

    b.click_sort(SortBy::Name);
    assert!(!b.sort_ascending());
    assert_eq!(b.visible(), &vec![2, 3, 0, 1]);

    b.click_sort(SortBy::Size);
    assert_eq!(b.sort_by(), SortBy::Size);
    assert!(b.sort_ascending());
    assert_eq!(b.visible(), &vec![2, 0, 3, 1]);

    // Ties keep their archive order in both directions.
    b.click_sort(SortBy::Size);
    assert_eq!(b.visible(), &vec![1, 0, 3, 2]);

    b.click_sort(SortBy::Type);
    assert_eq!(b.visible(), &vec![2, 0, 3, 1]);
}

#[test]
fn clicking_a_column_twice_restores_the_direction() {
    let mut b = EntryBrowser::new();
    b.set_entries(sample());
    b.click_sort(SortBy::Type);
    let once = b.visible().clone();
    b.click_sort(SortBy::Type);
    b.click_sort(SortBy::Type);
    assert_eq!(b.sort_by(), SortBy::Type);
    assert!(b.sort_ascending());
    assert_eq!(b.visible(), &once);
}

#[test]
fn sorting_agrees_with_a_stable_sort() {
    let es = sample();
    let keys = rebuild_sort_keys(&es);
    for asc in [true, false] {
        let mut expected: Vec<usize> = (0..es.len()).collect();
        expected.sort_by(|&a, &b| {
            let o = keys[a].size.cmp(&keys[b].size);
            if asc {
                o
            } else {
                o.reverse()
            }
        });
        assert_eq!(sorted_indices(&keys, SortBy::Size, asc), expected);
    }
}

#[test]
fn filtering_keeps_matching_entries_in_order() {
    let mut b = EntryBrowser::new();
    b.set_entries(sample());
    b.click_sort(SortBy::Type);
    b.filter_entries("T");
    assert_eq!(b.visible(), &vec![0, 3]);
    // Filtering again with the same query keeps the same entries.
    b.filter_entries("T");
    assert_eq!(b.visible(), &vec![0, 3]);
    b.filter_entries("zip");
    assert!(b.visible().is_empty());
    b.filter_entries("");
    assert_eq!(b.visible(), &vec![2, 0, 3, 1]);
}

#[test]
fn keeping_entries_matching_a_lowercase_needle() {
    let mut b = EntryBrowser::new();
    b.set_entries(sample());
    b.keep_matching_entries("txt");
    assert_eq!(b.visible(), &vec![0, 3]);
    // The needle is compared with the lowercase names as it is.
    b.keep_matching_entries("TXT");
    assert!(b.visible().is_empty());
}

#[test]
fn clearing_keeps_the_sort_column() {
    let mut b = EntryBrowser::new();
    b.set_entries(sample());
    b.click_sort(SortBy::Size);
    b.clear();
    assert!(b.entries().is_empty());
    assert!(b.visible().is_empty());
    assert_eq!(b.sort_by(), SortBy::Size);
}

#[test]
fn total_size_of_entries() {
    let mut b = EntryBrowser::new();
    assert_eq!(b.total_size(), Some(0));
    b.set_entries(sample());
    assert_eq!(b.total_size(), Some(20));
    b.set_entries(vec![entry("a", false, u64::MAX), entry("b", false, 1)]);
    assert_eq!(b.total_size(), None);
}
