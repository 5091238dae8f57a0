use rust_sm_slim::endpoint::same_text;
use rust_sm_slim::Endpoint;

#[test]
fn ping_is_get_only() {
    assert_eq!(Endpoint::route("/ping", "GET"), Endpoint::Ping);
    assert_eq!(Endpoint::route("/ping", "POST"), Endpoint::NotFound);
    assert_eq!(Endpoint::route("/ping", "HEAD"), Endpoint::NotFound);
}

#[test]
fn invocations_is_post_only() {
    assert_eq!(Endpoint::route("/invocations", "POST"), Endpoint::Invocations);
    assert_eq!(Endpoint::route("/invocations", "GET"), Endpoint::NotFound);
    assert_eq!(Endpoint::route("/invocations", "PUT"), Endpoint::NotFound);
}

#[test]
fn other_paths_are_not_found() {
    assert_eq!(Endpoint::route("/", "GET"), Endpoint::NotFound);
    assert_eq!(Endpoint::route("", "GET"), Endpoint::NotFound);
    assert_eq!(Endpoint::route("/ping/", "GET"), Endpoint::NotFound);
    assert_eq!(Endpoint::route("/pin", "GET"), Endpoint::NotFound);
    assert_eq!(Endpoint::route("/Ping", "GET"), Endpoint::NotFound);
    assert_eq!(Endpoint::route("/invocation", "POST"), Endpoint::NotFound);
    assert_eq!(Endpoint::route("/invocations/1", "POST"), Endpoint::NotFound);
}

#[test]
fn methods_are_compared_as_they_stand() {
    assert_eq!(Endpoint::route("/ping", "get"), Endpoint::NotFound);
    assert_eq!(Endpoint::route("/invocations", "post"), Endpoint::NotFound);
    assert_eq!(Endpoint::route("/ping", ""), Endpoint::NotFound);
}

#[test]
fn same_text_compares_every_character() {
    assert!(same_text("", ""));
    assert!(same_text("/ping", "/ping"));
    assert!(!same_text("/ping", "/pinh"));
    assert!(!same_text("/ping", "/pin"));
    assert!(!same_text("/pin", "/ping"));
    assert!(!same_text("a", ""));
    assert!(same_text("d\u{e9}lai", "d\u{e9}lai"));
    assert!(!same_text("d\u{e9}lai", "delai"));
}
