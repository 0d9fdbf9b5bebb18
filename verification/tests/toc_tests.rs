use markdown_pipeline::error::Error;
use markdown_pipeline::toc::{parse_toc_config, Align, TocBuilder};

#[test]
fn config_defaults() {
    let c = parse_toc_config(None, None).unwrap();
    assert!(!c.show);
    assert_eq!(c.align, Align::Left);
}

#[test]
fn config_explicit_values() {
    let c = parse_toc_config(Some(true), Some("right")).unwrap();
    assert!(c.show);
    assert_eq!(c.align, Align::Right);
    let c = parse_toc_config(Some(false), Some("left")).unwrap();
    assert!(!c.show);
    assert_eq!(c.align, Align::Left);
}

#[test]
fn config_rejects_unknown_alignment() {
    assert_eq!(
        parse_toc_config(Some(true), Some("center")).unwrap_err(),
        Error::InvalidAlign
    );
}

fn build(align: Align, headers: &[(u32, &str, &str)]) -> String {
    let mut b = TocBuilder::new(align);
    for (level, slug, text) in headers {
        b.visit_header(*level, slug.to_string(), text.to_string());
    }
    b.finalize();
    b.render()
}

#[test]
fn single_header_markup() {
    let toc = build(Align::Left, &[(1, "a", "A")]);
    assert_eq!(
        toc,
        "<nav id=\"toc\">\n<h3>Contents</h3><ol>\n<li>\n<a href=\"#a\">A</a>\n</li>\n</ol>\n</nav>"
    );
}

#[test]
fn right_alignment_adds_the_class() {
    let toc = build(Align::Right, &[(1, "a", "A")]);
    assert!(toc.starts_with("<nav id=\"toc\"class=\"right-toc\">"));
}

#[test]
fn first_header_fixes_the_offset() {
    // A document starting at level 3 still opens a single top-level list.
    let toc = build(Align::Left, &[(3, "a", "A")]);
    assert_eq!(toc.matches("<ol>").count(), 1);
}

#[test]
fn nesting_is_balanced() {
    let toc = build(
        Align::Left,
        &[(1, "a", "A"), (2, "b", "B"), (3, "c", "C"), (2, "d", "D"), (1, "e", "E")],
    );
    assert_eq!(toc.matches("<ol>").count(), toc.matches("</ol>").count());
    assert_eq!(toc.matches("<li>").count(), toc.matches("</li>").count());
    assert_eq!(toc.matches("<ol>").count(), 3);
    assert_eq!(toc.matches("<li>").count(), 5);
}

#[test]
fn shallower_than_first_header_stays_balanced() {
    // The second header is shallower than the first ever seen.
    let toc = build(Align::Left, &[(3, "a", "A"), (1, "b", "B")]);
    assert_eq!(toc.matches("<ol>").count(), toc.matches("</ol>").count());
    assert_eq!(toc.matches("<li>").count(), toc.matches("</li>").count());
}

#[test]
fn no_headers_only_closes_the_container() {
    let mut b = TocBuilder::new(Align::Left);
    b.finalize();
    assert_eq!(b.render(), "</nav>");
}
