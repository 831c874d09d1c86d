use rshell_core::ftp_list::parse_ftp_list_line;
use rshell_core::listing::FileEntryType;

#[test]
fn test_parse_ftp_list_line_unix_dir() {
    let line = "drwxr-xr-x   2 user group  4096 Jan 15 12:00 mydir";
    let entry = parse_ftp_list_line(line).expect("should parse");
    assert_eq!(entry.name, "mydir");
    assert!(matches!(entry.file_type, FileEntryType::Directory));
    assert_eq!(entry.size, 4096);
    assert_eq!(entry.permissions.as_deref(), Some("drwxr-xr-x"));
}

#[test]
fn test_parse_ftp_list_line_unix_file() {
    let line = "-rw-r--r--   1 user group  12345 Feb 28 09:30 report.pdf";
    let entry = parse_ftp_list_line(line).expect("should parse");
    assert_eq!(entry.name, "report.pdf");
    assert!(matches!(entry.file_type, FileEntryType::File));
    assert_eq!(entry.size, 12345);
}

#[test]
fn test_parse_ftp_list_line_symlink() {
    let line = "lrwxrwxrwx   1 user group  10 Mar 01 00:00 link -> target";
    let entry = parse_ftp_list_line(line).expect("should parse");
    assert_eq!(entry.name, "link");
    assert!(matches!(entry.file_type, FileEntryType::Symlink));
}

#[test]
fn test_parse_ftp_list_line_name_with_spaces() {
    let line = "-rw-r--r--   1 user group  100 Dec 25 23:59 my file name.txt";
    let entry = parse_ftp_list_line(line).expect("should parse");
    assert_eq!(entry.name, "my file name.txt");
}

#[test]
fn test_parse_ftp_list_line_empty() {
    assert!(parse_ftp_list_line("").is_none());
    assert!(parse_ftp_list_line("   ").is_none());
}

#[test]
fn test_parse_ftp_list_line_dot_entries() {
    // These are filtered out when a listing is built, but the parser
    // itself should parse them.
    let line = "drwxr-xr-x   2 user group  4096 Jan 01 00:00 .";
    let entry = parse_ftp_list_line(line).expect("should parse");
    assert_eq!(entry.name, ".");
}

#[test]
fn test_parse_ftp_list_large_file_size() {
    let line = "-rw-r--r--   1 user group  9999999999 Dec 31 23:59 huge.iso";
    let entry = parse_ftp_list_line(line).expect("should parse");
    assert_eq!(entry.name, "huge.iso");
    assert_eq!(entry.size, 9999999999);
}

#[test]
fn test_parse_ftp_list_zero_size() {
    let line = "-rw-r--r--   1 user group  0 Apr 01 00:00 empty.txt";
    let entry = parse_ftp_list_line(line).expect("should parse");
    assert_eq!(entry.size, 0);
}

#[test]
fn test_parse_ftp_list_line_sparse_fallback() {
    // Too few separators: only the last word is usable as a name.
    let line = "name-only";
    let entry = parse_ftp_list_line(line).expect("should parse");
    assert_eq!(entry.name, "name-only");
    assert_eq!(entry.size, 0);
    assert!(entry.permissions.is_none());
    assert!(matches!(entry.file_type, FileEntryType::File));
}

#[test]
fn test_parse_ftp_list_line_modified_fields() {
    let line = "-rw-r--r--   1 user group  7 Jun 03 2019 notes.txt";
    let entry = parse_ftp_list_line(line).expect("should parse");
    assert_eq!(entry.modified.as_deref(), Some("Jun 03 2019"));
}

#[test]
fn test_parse_ftp_list_line_nondigit_size_is_zero() {
    let line = "-rw-r--r--   1 user group  12x45 Feb 28 09:30 odd.bin";
    let entry = parse_ftp_list_line(line).expect("should parse");
    assert_eq!(entry.size, 0);
}
