use markdown_pipeline::slug::{sanitize, Pass};

#[test]
fn sanitize_hello_world() {
    assert_eq!(sanitize("Hello, World!"), "hello-world");
}

#[test]
fn sanitize_drops_leading_nonalpha() {
    assert_eq!(sanitize("3 Cats"), "cats");
}

#[test]
fn sanitize_is_deterministic() {
    let a = sanitize("Mixing CASE and 123 digits");
    let b = sanitize("Mixing CASE and 123 digits");
    assert_eq!(a, b);
}

#[test]
fn sanitize_keeps_underscore_dash_dot() {
    assert_eq!(sanitize("a_b-c.d"), "a_b-c.d");
}

#[test]
fn sanitize_maps_whitespace_runs() {
    assert_eq!(sanitize("a  b"), "a--b");
}

#[test]
fn sanitize_empty_and_symbol_only() {
    assert_eq!(sanitize(""), "");
    assert_eq!(sanitize("!!! ???"), "");
}

#[test]
fn sanitize_lowercases_nonascii() {
    assert_eq!(sanitize("Étude No. 1"), "étude-no.-1");
}

#[test]
fn pass_link_emits_content_only() {
    let mut p = Pass;
    let mut out = String::from("x");
    let content = String::from("text");
    let link = String::from("https://example.com");
    let r = p.link(&mut out, Some(&content), Some(&link), None);
    assert!(r);
    assert_eq!(out, "xtext");
}

#[test]
fn pass_link_without_content() {
    let mut p = Pass;
    let mut out = String::new();
    let r = p.link(&mut out, None, None, None);
    assert!(r);
    assert_eq!(out, "");
}
