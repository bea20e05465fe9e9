use attrnav::gateway::Classification;
use attrnav::gateway::classify_output;
use attrnav::gateway::completion_query_path;
use attrnav::gateway::error_text;
use attrnav::gateway::filter_child_names;
use attrnav::gateway::is_attrs_marker;
use attrnav::gateway::split_lines;
use attrnav::gateway::strip_query_prefix;

#[test]
fn split_lines_plain() {
    let out = b"foo\nbar\n".to_vec();
    assert_eq!(split_lines(&out), vec![b"foo".to_vec(), b"bar".to_vec()]);
}

#[test]
fn split_lines_without_final_newline() {
    let out = b"foo\nbar".to_vec();
    assert_eq!(split_lines(&out), vec![b"foo".to_vec(), b"bar".to_vec()]);
}

#[test]
fn split_lines_empty_input_has_no_lines() {
    let out = Vec::new();
    assert!(split_lines(&out).is_empty());
}

#[test]
fn split_lines_keeps_interior_empty_line() {
    let out = b"a\n\nb".to_vec();
    assert_eq!(
        split_lines(&out),
        vec![b"a".to_vec(), b"".to_vec(), b"b".to_vec()]
    );
}

#[test]
fn split_lines_strips_carriage_return() {
    let out = b"a\r\nb\r\n".to_vec();
    assert_eq!(split_lines(&out), vec![b"a".to_vec(), b"b".to_vec()]);
}

#[test]
fn strip_query_prefix_removes_leading_query() {
    let query = b"pkgs.".to_vec();
    let line = b"pkgs.foo".to_vec();
    assert_eq!(strip_query_prefix(&query, &line), b"foo".to_vec());
}

#[test]
fn strip_query_prefix_leaves_other_lines() {
    let query = b"root.".to_vec();
    let line = b"attrs".to_vec();
    assert_eq!(strip_query_prefix(&query, &line), b"attrs".to_vec());
}

#[test]
fn attrs_marker_is_recognised() {
    assert!(is_attrs_marker(&b"attrs".to_vec()));
    assert!(!is_attrs_marker(&b"attr".to_vec()));
    assert!(!is_attrs_marker(&b"attrss".to_vec()));
}

#[test]
fn filtering_drops_marker_and_strips_prefix() {
    let query = b"pkgs.".to_vec();
    let lines = vec![
        b"pkgs.attrs".to_vec(),
        b"pkgs.foo".to_vec(),
        b"pkgs.bar".to_vec(),
    ];
    let names = filter_child_names(&query, &lines);
    assert_eq!(names, vec![b"foo".to_vec(), b"bar".to_vec()]);
}

#[test]
fn filtering_drops_dotted_and_empty_names() {
    let query = b"root.".to_vec();
    let lines = vec![
        b"root.a.b".to_vec(),
        b"root.".to_vec(),
        b"other.thing".to_vec(),
        b"root.x".to_vec(),
    ];
    assert_eq!(filter_child_names(&query, &lines), vec![b"x".to_vec()]);
}

#[test]
fn classify_leaf_when_only_dotted_names_remain() {
    let query = b"root.".to_vec();
    let stdout = b"root.a.b\nroot.".to_vec();
    assert_eq!(classify_output(&query, &stdout), Classification::Leaf);
}

#[test]
fn classify_internal_with_marker_line() {
    let query = b"root.".to_vec();
    let stdout = b"attrs\nroot.alpha\nroot.beta".to_vec();
    let c = classify_output(&query, &stdout);
    assert_eq!(
        c,
        Classification::Internal(vec![b"alpha".to_vec(), b"beta".to_vec()])
    );
}

#[test]
fn classify_leaf_on_empty_output() {
    let query = b"root.alpha.".to_vec();
    let stdout = Vec::new();
    assert_eq!(classify_output(&query, &stdout), Classification::Leaf);
}

#[test]
fn classify_leaf_when_only_marker_remains() {
    let query = b"root.alpha.".to_vec();
    let stdout = b"attrs\n".to_vec();
    assert_eq!(classify_output(&query, &stdout), Classification::Leaf);
}

#[test]
fn completion_query_appends_dot() {
    assert_eq!(completion_query_path(&b"flake#a".to_vec()), b"flake#a.".to_vec());
}

#[test]
fn completion_query_keeps_trailing_dot() {
    assert_eq!(completion_query_path(&b"flake#a.".to_vec()), b"flake#a.".to_vec());
}

#[test]
fn completion_query_keeps_trailing_hash() {
    assert_eq!(completion_query_path(&b"flake#".to_vec()), b"flake#".to_vec());
}

#[test]
fn error_text_prefixes_stderr() {
    assert_eq!(error_text(&b"boom".to_vec()), b"Error: boom".to_vec());
}
