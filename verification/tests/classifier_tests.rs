use gitattr_filter::classifier::GitAttributesFile;

fn matches(input: &[u8], path: &str) -> bool {
    let file = GitAttributesFile::new(&["lfs".to_string()])
        .chain("", input)
        .unwrap();
    file.matches(path)
}

#[test]
fn test_gitattributes_empty_file() {
    let file = GitAttributesFile::new(&["lfs".to_string()]);
    assert!(!file.matches("foo"));
}

#[test]
fn test_gitattributes_simple_match() {
    assert!(matches(b"*.bin filter=lfs\n", "file.bin"));
    assert!(!matches(b"*.bin filter=lfs\n", "file.txt"));
    assert!(!matches(b"*.bin filter=other\n", "file.bin"));
}

#[test]
fn test_gitattributes_directory_match() {
    assert!(matches(b"dir/** filter=lfs\n", "dir/file.txt"));
    assert!(matches(b"dir/* filter=lfs\n", "dir/file.txt"));
    assert!(matches(b"dir/ filter=lfs\n", "dir/"));

    assert!(!matches(b"dir/** filter=lfs\n", "other/file.txt"));
    assert!(!matches(b"dir/* filter=lfs\n", "other/file.txt"));

    assert!(!matches(b"dir/ filter=lfs\n", "dir"));
}

#[test]
fn test_gitattributes_path_match() {
    assert!(matches(
        b"path/to/file.bin filter=lfs\n",
        "path/to/file.bin"
    ));
    assert!(!matches(b"path/to/file.bin filter=lfs\n", "path/file.bin"));
}

#[test]
fn test_gitattributes_wildcard_match() {
    assert!(matches(b"*.bin filter=lfs\n", "file.bin"));
    assert!(matches(b"file.* filter=lfs\n", "file.bin"));
    assert!(matches(b"**/file.bin filter=lfs\n", "path/to/file.bin"));
}

#[test]
fn test_gitattributes_multiple_attributes() {
    let input = b"*.bin filter=lfs diff=binary\n";
    assert!(matches(input, "file.bin"));
    assert!(!matches(b"*.bin diff=binary\n", "file.bin")); // Only testing filter=lfs
}

#[test]
fn test_gitattributes_chained_files() {
    let base = GitAttributesFile::new(&["lfs".to_string(), "text".to_string()]);
    let with_first = base.chain("", b"*.bin filter=lfs\n").unwrap();
    let with_second = with_first
        .chain("subdir", b"*.txt filter=text\n")
        .unwrap();

    assert!(with_second.matches("file.bin"));
    assert!(with_second.matches("subdir/file.txt"));
    assert!(!with_second.matches("file.txt")); // Not in subdir
}

#[test]
fn test_gitattributes_negated_pattern() {
    assert!(matches(b"*.bin filter=lfs\n", "file.bin"));
    assert!(matches(b"*.bin filter=lfs\n", "important.bin"));
    assert!(matches(
        b"*.bin filter=lfs\nimportant.bin -filter",
        "file.bin"
    ));
    assert!(!matches(
        b"*.bin filter=lfs\nimportant.bin -filter",
        "important.bin"
    ));
}

#[test]
fn test_gitattributes_multiple_filters() {
    // Create a GitAttributesFile with both "lfs" and "git-crypt" as ignore filters
    let file = GitAttributesFile::new(&["lfs".to_string(), "git-crypt".to_string()]);

    // Test with lfs filter
    let with_lfs = file.chain("", b"*.bin filter=lfs\n").unwrap();
    assert!(with_lfs.matches("file.bin"));

    // Test with git-crypt filter
    let with_git_crypt = file.chain("", b"*.secret filter=git-crypt\n").unwrap();
    assert!(with_git_crypt.matches("credentials.secret"));

    // Test with both filters in the same file
    let with_both = file
        .chain("", b"*.bin filter=lfs\n*.secret filter=git-crypt\n")
        .unwrap();
    assert!(with_both.matches("file.bin"));
    assert!(with_both.matches("credentials.secret"));
    assert!(!with_both.matches("normal.txt"));

    // Test that other filters don't match
    let with_other = file.chain("", b"*.txt filter=other\n").unwrap();
    assert!(!with_other.matches("file.txt"));
}
