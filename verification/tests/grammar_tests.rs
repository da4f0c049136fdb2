use gitattr_filter::classifier::GitAttributesError;
use gitattr_filter::classifier::GitAttributesFile;
use gitattr_filter::model::AttrState;

fn lfs_file(input: &[u8]) -> GitAttributesFile {
    GitAttributesFile::new(&["lfs".to_string()])
        .chain("", input)
        .unwrap()
}

#[test]
fn test_quoted_glob_with_spaces() {
    let file = lfs_file(b"\"foo bar\" filter=lfs\n");
    assert!(file.matches("foo bar"));
    assert!(!file.matches("foo"));
    assert!(!file.matches("bar"));
}

#[test]
fn test_quoted_glob_escapes() {
    // A quoted glob with a C-style tab escape matches the path holding a tab.
    let file = lfs_file(b"\"a\\tb\" filter=lfs\n");
    assert!(file.matches("a\tb"));
    assert!(!file.matches("atb"));
    // An octal escape: \101 is 'A'.
    let octal = lfs_file(b"\"\\101.bin\" filter=lfs\n");
    assert!(octal.matches("A.bin"));
    assert!(!octal.matches("B.bin"));
}

#[test]
fn test_unterminated_quote_is_plain_token() {
    // A quote that never closes falls back to plain token reading.
    let file = lfs_file(b"\"foo filter=lfs\n");
    assert!(file.matches("\"foo"));
    assert!(!file.matches("foo"));
}

#[test]
fn test_unset_and_unspecified_states() {
    // A later `!filter` puts the attribute back to unspecified: no match.
    assert!(!lfs_file(b"*.bin filter=lfs\n*.bin !filter\n").matches("file.bin"));
    // A later `-filter` unsets it, even with a value attached.
    assert!(!lfs_file(b"*.bin filter=lfs\n*.bin -filter=lfs\n").matches("file.bin"));
    // A bare `filter` sets the attribute without a value: no name to compare.
    assert!(!lfs_file(b"*.bin filter\n").matches("file.bin"));
}

#[test]
fn test_filter_value_is_case_sensitive() {
    assert!(!lfs_file(b"*.bin filter=LFS\n").matches("file.bin"));
    assert!(lfs_file(b"*.bin filter=lfs\n").matches("file.bin"));
}

#[test]
fn test_leading_slash_anchors() {
    let file = lfs_file(b"/x.bin filter=lfs\n");
    assert!(file.matches("x.bin"));
    assert!(!file.matches("dir/x.bin"));
}

#[test]
fn test_invalid_attr_name_drops_line() {
    // An invalid attribute name anywhere on the line drops the whole line.
    assert!(!lfs_file(b"*.bin filter=lfs bad~name\n").matches("file.bin"));
    // Subsequent lines are kept.
    assert!(lfs_file(b"*.txt filter=lfs bad~name\n*.bin filter=lfs\n").matches("file.bin"));
}

#[test]
fn test_negative_glob_line_skipped() {
    // Negated patterns are not allowed in gitattributes; the line is dropped.
    assert!(!lfs_file(b"!*.bin filter=lfs\n").matches("file.bin"));
    // An escaped `!` is a literal one.
    assert!(lfs_file(b"\\!important filter=lfs\n").matches("!important"));
}

#[test]
fn test_macro_line_skipped() {
    let file = lfs_file(b"[attr]binary filter=lfs\n*.bin filter=lfs\n");
    assert!(!file.matches("binary"));
    assert!(file.matches("file.bin"));
}

#[test]
fn test_byte_order_mark_skipped() {
    let mut input: Vec<u8> = vec![0xef, 0xbb, 0xbf];
    input.extend_from_slice(b"*.bin filter=lfs\n");
    let file = GitAttributesFile::new(&["lfs".to_string()])
        .chain("", &input)
        .unwrap();
    assert!(file.matches("file.bin"));
}

#[test]
fn test_crlf_and_trailing_blanks() {
    let file = lfs_file(b"*.bin filter=lfs \r\n*.txt filter=lfs\r\n");
    assert!(file.matches("file.bin"));
    assert!(file.matches("file.txt"));
    assert!(!file.matches("file.rs"));
}

#[test]
fn test_empty_path_never_matches() {
    assert!(!lfs_file(b"*.bin filter=lfs\n").matches(""));
}

#[test]
fn test_last_wins_precedence() {
    // Within one file, the later line wins.
    let a_then_b = b"*.bin filter=aa\n*.bin filter=bb\n";
    let sees_b = GitAttributesFile::new(&["bb".to_string()])
        .chain("", a_then_b)
        .unwrap();
    assert!(sees_b.matches("file.bin"));
    let sees_a = GitAttributesFile::new(&["aa".to_string()])
        .chain("", a_then_b)
        .unwrap();
    assert!(!sees_a.matches("file.bin"));

    // Across layers, the later layer wins.
    let layered = GitAttributesFile::new(&["bb".to_string()])
        .chain("", b"*.bin filter=aa\n")
        .unwrap()
        .chain("", b"*.bin filter=bb\n")
        .unwrap();
    assert!(layered.matches("file.bin"));
}

#[test]
fn test_chain_leaves_receiver_unchanged() {
    let base = GitAttributesFile::new(&["lfs".to_string()])
        .chain("", b"*.bin filter=lfs\n")
        .unwrap();
    let before = base.matches("sub/x.bin");
    let chained = base.chain("sub", b"*.bin -filter\n").unwrap();
    assert!(before);
    assert!(base.matches("sub/x.bin"));
    assert!(!chained.matches("sub/x.bin"));
}

#[test]
fn test_directory_itself_is_in_scope() {
    // A layer at `sub` applies to the directory `sub/` itself; the relative
    // candidate is empty, which only a bare `*` can match.
    let file = GitAttributesFile::new(&["lfs".to_string()])
        .chain("sub", b"* filter=lfs\n")
        .unwrap();
    assert!(file.matches("sub/"));
    assert!(!file.matches("sub"));
    assert!(file.matches("sub/x"));
    assert!(!file.matches("other"));
}

#[test]
fn test_resolve_reports_states() {
    let file = lfs_file(b"*.bin filter=lfs\n*.set filter\n*.un -filter\n*.non !filter\n");
    assert!(matches!(
        file.resolve("a.bin", false, "filter"),
        AttrState::Value(v) if v.as_slice() == b"lfs"
    ));
    assert!(matches!(file.resolve("a.set", false, "filter"), AttrState::SetAttr));
    assert!(matches!(file.resolve("a.un", false, "filter"), AttrState::UnsetAttr));
    assert!(matches!(
        file.resolve("a.non", false, "filter"),
        AttrState::Unspecified
    ));
    assert!(matches!(
        file.resolve("a.other", false, "filter"),
        AttrState::Unspecified
    ));
}

#[test]
fn test_read_error_carries_path_and_message() {
    let err = GitAttributesError::ReadFile {
        path: "sub/.gitattributes".to_string(),
        message: "permission denied".to_string(),
    };
    assert!(matches!(
        err,
        GitAttributesError::ReadFile { ref path, ref message }
            if path == "sub/.gitattributes" && message == "permission denied"
    ));
}
