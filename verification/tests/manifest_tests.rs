use bookbuild::manifest::parse_manifest;

#[test]
fn intro_line_yields_intro_md() {
    let content = b"- [Intro](./intro.md)".to_vec();
    let paths = parse_manifest(&content).unwrap();
    assert_eq!(paths, vec![b"intro.md".to_vec()]);
}

#[test]
fn entries_in_file_order_with_duplicates() {
    let content = b"# Summary\n- [A](./a.md)\nplain text\n- [B](./sub/b.md)\n- [A](./a.md)\n"
        .to_vec();
    let paths = parse_manifest(&content).unwrap();
    assert_eq!(
        paths,
        vec![b"a.md".to_vec(), b"sub/b.md".to_vec(), b"a.md".to_vec()]
    );
}

#[test]
fn no_matching_lines_yield_no_paths() {
    let content = b"# Summary\n\njust prose here\n".to_vec();
    let paths = parse_manifest(&content).unwrap();
    assert!(paths.is_empty());
}

#[test]
fn empty_manifest_yields_no_paths() {
    let content = Vec::new();
    let paths = parse_manifest(&content).unwrap();
    assert!(paths.is_empty());
}

#[test]
fn marker_at_line_end_is_rejected() {
    let content = b"- [broken](./".to_vec();
    assert!(parse_manifest(&content).is_none());
}

#[test]
fn one_bad_line_rejects_the_whole_manifest() {
    let content = b"- [A](./a.md)\nx(./\n- [B](./b.md)\n".to_vec();
    assert!(parse_manifest(&content).is_none());
}

#[test]
fn crlf_line_endings_are_handled() {
    let content = b"- [A](./a.md)\r\n- [B](./b.md)\r\n".to_vec();
    let paths = parse_manifest(&content).unwrap();
    assert_eq!(paths, vec![b"a.md".to_vec(), b"b.md".to_vec()]);
}

#[test]
fn last_line_without_newline_counts() {
    let content = b"- [A](./a.md)\n- [B](./b.md)".to_vec();
    let paths = parse_manifest(&content).unwrap();
    assert_eq!(paths, vec![b"a.md".to_vec(), b"b.md".to_vec()]);
}

#[test]
fn first_marker_wins_and_entry_runs_to_last_byte() {
    let content = b"- [x](./a) and (./b)".to_vec();
    let paths = parse_manifest(&content).unwrap();
    assert_eq!(paths, vec![b"a) and (./b".to_vec()]);
}

#[test]
fn marker_with_one_byte_after_gives_empty_path() {
    let content = b"- [x](./)".to_vec();
    let paths = parse_manifest(&content).unwrap();
    assert_eq!(paths, vec![Vec::new()]);
}
