use openapi2discovery::resolver::ref_name;
use openapi2discovery::tree::{ends_with_param, parameter_names, parse_segments, resource_chain, Segment};

#[test]
fn nested_path() {
    let segs = parse_segments("/users/{userId}/files/{fileId}");
    assert_eq!(segs.len(), 4);
    assert!(matches!(&segs[0], Segment::Static(s) if s == "users"));
    assert!(matches!(&segs[1], Segment::Param(s) if s == "userId"));
    assert!(matches!(&segs[2], Segment::Static(s) if s == "files"));
    assert!(matches!(&segs[3], Segment::Param(s) if s == "fileId"));
    assert_eq!(resource_chain(&segs), ["users", "files"]);
    assert!(ends_with_param(&segs));
}

#[test]
fn collection_path() {
    let segs = parse_segments("/pets");
    assert_eq!(resource_chain(&segs), ["pets"]);
    assert!(!ends_with_param(&segs));
}

#[test]
fn empty_pieces_are_skipped() {
    let segs = parse_segments("//a///{b}/");
    assert_eq!(segs.len(), 2);
    assert!(matches!(&segs[0], Segment::Static(s) if s == "a"));
    assert!(matches!(&segs[1], Segment::Param(s) if s == "b"));
}

#[test]
fn root_path_has_no_segments() {
    let segs = parse_segments("/");
    assert!(segs.is_empty());
    assert!(resource_chain(&segs).is_empty());
    assert!(!ends_with_param(&segs));
}

#[test]
fn unbalanced_braces_are_literal() {
    let segs = parse_segments("/{open/close}/{/}/{}");
    assert_eq!(segs.len(), 5);
    assert!(matches!(&segs[0], Segment::Static(s) if s == "{open"));
    assert!(matches!(&segs[1], Segment::Static(s) if s == "close}"));
    assert!(matches!(&segs[2], Segment::Static(s) if s == "{"));
    assert!(matches!(&segs[3], Segment::Static(s) if s == "}"));
    assert!(matches!(&segs[4], Segment::Param(s) if s.is_empty()));
}

#[test]
fn parameter_names_follow_path_order() {
    let segs = parse_segments("/users/{userId}/posts/{postId}/comments/{commentId}");
    assert_eq!(parameter_names(&segs), ["userId", "postId", "commentId"]);
    assert_eq!(resource_chain(&segs), ["users", "posts", "comments"]);
}

#[test]
fn ref_name_takes_terminal_segment() {
    assert_eq!(ref_name("#/components/schemas/User"), "User");
    assert_eq!(ref_name("User"), "User");
    assert_eq!(ref_name("a/b/"), "");
    assert_eq!(ref_name(""), "");
}
