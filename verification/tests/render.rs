use simple_eyre::error::walk;
use simple_eyre::error::ErrorNode;
use simple_eyre::report::render;
use simple_eyre::report::Context;

fn chain(root: &str, causes: &[&str]) -> ErrorNode {
    let mut node: Option<ErrorNode> = None;
    for text in causes.iter().rev() {
        node = Some(match node {
            None => ErrorNode::new(text),
            Some(inner) => ErrorNode::wrap(text, inner),
        });
    }
    match node {
        None => ErrorNode::new(root),
        Some(inner) => ErrorNode::wrap(root, inner),
    }
}

#[test]
fn no_cause_renders_text_only() {
    let e = ErrorNode::new("oh no this program is just bad!");
    assert_eq!(render(&e, false), "oh no this program is just bad!");
    assert_eq!(render(&e, true), "oh no this program is just bad!");
}

#[test]
fn single_cause_is_unnumbered() {
    let e = chain("config invalid", &["missing field `name`"]);
    assert_eq!(
        render(&e, false),
        "config invalid\n\nCaused by:\n    missing field `name`"
    );
}

#[test]
fn two_causes_are_numbered_from_zero() {
    let e = chain("db error", &["connection reset", "socket closed"]);
    assert_eq!(
        render(&e, false),
        "db error\n\nCaused by:\n    0: connection reset\n    1: socket closed"
    );
}

#[test]
fn multiline_numbered_entry_aligns_under_text() {
    let e = chain("r", &["a", "b", "line A\nline B"]);
    assert_eq!(
        render(&e, false),
        "r\n\nCaused by:\n    0: a\n    1: b\n    2: line A\n       line B"
    );
}

#[test]
fn multiline_unnumbered_entry_indents_every_line() {
    let e = chain("root", &["line A\nline B"]);
    assert_eq!(render(&e, false), "root\n\nCaused by:\n    line A\n    line B");
}

#[test]
fn empty_continuation_lines_are_still_prefixed() {
    let e = chain("root", &["a\n\nb"]);
    assert_eq!(render(&e, false), "root\n\nCaused by:\n    a\n    \n    b");
}

#[test]
fn trailing_newline_gets_a_prefixed_empty_line() {
    let e = chain("root", &["x\n"]);
    assert_eq!(render(&e, false), "root\n\nCaused by:\n    x\n    ");
}

#[test]
fn empty_cause_text_still_gets_its_indent() {
    let e = chain("root", &[""]);
    assert_eq!(render(&e, false), "root\n\nCaused by:\n    ");
}

#[test]
fn two_digit_labels_and_their_alignment() {
    let causes: Vec<String> = (0..10)
        .map(|i| format!("c{}", i))
        .chain(std::iter::once(String::from("p\nq")))
        .collect();
    let cause_refs: Vec<&str> = causes.iter().map(|s| s.as_str()).collect();
    let e = chain("root", &cause_refs);
    let out = render(&e, false);
    assert!(out.starts_with("root\n\nCaused by:\n    0: c0\n    1: c1\n"));
    assert!(out.ends_with("\n    9: c9\n    10: p\n        q"));
}

#[test]
fn rendering_twice_is_byte_identical() {
    let e = chain("db error", &["connection reset", "socket closed"]);
    let first = render(&e, false);
    let second = render(&e, false);
    assert_eq!(first.as_bytes(), second.as_bytes());
    let first_alt = render(&e, true);
    let second_alt = render(&e, true);
    assert_eq!(first_alt.as_bytes(), second_alt.as_bytes());
}

#[test]
fn alternate_mode_skips_the_cause_section() {
    let e = chain("top", &["mid", "deep", "deeper", "deepest"]);
    let out = render(&e, true);
    assert_eq!(out, "top");
    assert!(!out.contains("Caused by:"));
}

#[test]
fn walk_returns_the_chain_in_causal_order() {
    let e = chain("db error", &["connection reset", "socket closed"]);
    assert_eq!(walk(&e), vec!["connection reset", "socket closed"]);
}

#[test]
fn walk_of_a_leaf_is_empty() {
    let e = ErrorNode::new("alone");
    assert!(walk(&e).is_empty());
}

#[test]
fn context_debug_matches_render() {
    let e = chain("db error", &["connection reset", "socket closed"]);
    let ctx = Context::default(&e);
    assert_eq!(ctx.debug(&e, false), render(&e, false));
    assert_eq!(ctx.debug(&e, true), render(&e, true));
}
