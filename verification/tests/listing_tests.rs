use rshell_core::listing::{
    build_listing, format_permissions, sort_entries, FileEntry, FileEntryType, RawEntry,
};

fn entry(name: &str, kind: FileEntryType) -> FileEntry {
    FileEntry {
        name: name.to_string(),
        size: 0,
        modified: None,
        permissions: None,
        file_type: kind,
    }
}

#[test]
fn test_format_permissions_full() {
    assert_eq!(format_permissions(0o777), "rwxrwxrwx");
}

#[test]
fn test_format_permissions_none() {
    assert_eq!(format_permissions(0o000), "---------");
}

#[test]
fn test_format_permissions_typical_file() {
    assert_eq!(format_permissions(0o644), "rw-r--r--");
}

#[test]
fn test_format_permissions_typical_dir() {
    assert_eq!(format_permissions(0o755), "rwxr-xr-x");
}

#[test]
fn test_format_permissions_write_only() {
    assert_eq!(format_permissions(0o200), "-w-------");
}

#[test]
fn test_sort_directories_first_case_insensitive() {
    let entries = vec![
        entry("zeta.txt", FileEntryType::File),
        entry("Alpha", FileEntryType::Directory),
        entry("beta.txt", FileEntryType::File),
        entry("gamma", FileEntryType::Directory),
        entry("Beta.TXT", FileEntryType::File),
    ];
    let sorted = sort_entries(entries);
    let names: Vec<&str> = sorted.iter().map(|e| e.name.as_str()).collect();
    // Directories first, then case-insensitive name order; the equal
    // names "beta.txt" and "Beta.TXT" keep their arrival order.
    assert_eq!(names, vec!["Alpha", "gamma", "beta.txt", "Beta.TXT", "zeta.txt"]);
}

#[test]
fn test_sort_is_deterministic_and_idempotent() {
    let make = || {
        vec![
            entry("b", FileEntryType::File),
            entry("A", FileEntryType::File),
            entry("d", FileEntryType::Directory),
            entry("c", FileEntryType::File),
        ]
    };
    let once = sort_entries(make());
    let again = sort_entries(make());
    let names_once: Vec<&str> = once.iter().map(|e| e.name.as_str()).collect();
    let names_again: Vec<&str> = again.iter().map(|e| e.name.as_str()).collect();
    assert_eq!(names_once, names_again);
    let twice = sort_entries(once);
    let names_twice: Vec<&str> = twice.iter().map(|e| e.name.as_str()).collect();
    assert_eq!(names_twice, names_again);
}

#[test]
fn test_build_listing_formats_and_filters() {
    let raws = vec![
        RawEntry {
            name: ".".to_string(),
            size: 0,
            modified: None,
            permissions: None,
            file_type: FileEntryType::Directory,
        },
        RawEntry {
            name: "..".to_string(),
            size: 0,
            modified: None,
            permissions: None,
            file_type: FileEntryType::Directory,
        },
        RawEntry {
            name: "notes.txt".to_string(),
            size: 1024,
            modified: Some(1704067200),
            permissions: Some(0o644),
            file_type: FileEntryType::File,
        },
        RawEntry {
            name: "src".to_string(),
            size: 4096,
            modified: None,
            permissions: Some(0o755),
            file_type: FileEntryType::Directory,
        },
    ];
    let listing = build_listing(raws);
    assert_eq!(listing.len(), 2);
    assert_eq!(listing[0].name, "src");
    assert_eq!(listing[0].permissions.as_deref(), Some("rwxr-xr-x"));
    assert_eq!(listing[1].name, "notes.txt");
    assert_eq!(listing[1].modified.as_deref(), Some("2024-01-01 00:00:00"));
    assert_eq!(listing[1].permissions.as_deref(), Some("rw-r--r--"));
}
