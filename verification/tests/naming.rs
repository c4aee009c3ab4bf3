use openapi2discovery::openapi::OperationObject;
use openapi2discovery::transform::resource_tree::method_name_for;
use openapi2discovery::transform::{slug_words, slugify};

fn check_slugify() {
    assert_eq!(slugify("My Cool API"), "my-cool-api");
    assert_eq!(slugify("Petstore"), "petstore");
    assert_eq!(slugify("  Spaces  Everywhere  "), "spaces-everywhere");
}

fn check_method_names() {
    let op = OperationObject::default();
    assert_eq!(method_name_for("GET", false, &op), "list");
    assert_eq!(method_name_for("GET", true, &op), "get");
    assert_eq!(method_name_for("POST", false, &op), "create");
    assert_eq!(method_name_for("PUT", true, &op), "update");
    assert_eq!(method_name_for("PATCH", true, &op), "patch");
    assert_eq!(method_name_for("DELETE", true, &op), "delete");
}

#[test]
fn mod_slugify_works() {
    check_slugify();
}

#[test]
fn transform_slugify_works() {
    check_slugify();
}

#[test]
fn resource_tree_method_name_mapping() {
    check_method_names();
}

#[test]
fn transform_method_name_mapping() {
    check_method_names();
}

#[test]
fn slugify_edge_cases() {
    assert_eq!(slugify(""), "");
    assert_eq!(slugify("---"), "");
    assert_eq!(slugify("Blog API v2.1"), "blog-api-v2-1");
    assert_eq!(slugify("ÉCOLE Über"), "école-über");
    assert_eq!(slugify("-a - - b-"), "a-b");
}

#[test]
fn slug_words_joins_unflagged_runs() {
    let flags = vec![false, true, true, false, false, true];
    assert_eq!(slug_words("a..bc.", &flags), "a-bc");
    assert_eq!(slug_words("", &Vec::new()), "");
}

#[test]
fn other_verb_shapes_use_operation_id_or_verb() {
    let op = OperationObject::default();
    assert_eq!(method_name_for("POST", true, &op), "create");
    assert_eq!(method_name_for("PUT", false, &op), "put");
    assert_eq!(method_name_for("PATCH", false, &op), "patch");
    assert_eq!(method_name_for("DELETE", false, &op), "delete");

    let named = OperationObject { operation_id: Some("uploadPhoto".to_string()), ..OperationObject::default() };
    assert_eq!(method_name_for("POST", true, &named), "create");
    assert_eq!(method_name_for("PUT", false, &named), "uploadPhoto");
    assert_eq!(method_name_for("GET", true, &named), "get");
}

#[test]
fn ascii_slugs_are_stable() {
    for title in ["My Cool API", "  Spaces  Everywhere  ", "Blog API v2.1", "--x__Y--", ""] {
        let once = slugify(title);
        assert!(once.chars().all(|c| c.is_ascii_lowercase() || c.is_ascii_digit() || c == '-'));
        assert_eq!(slugify(&once), once);
    }
}
