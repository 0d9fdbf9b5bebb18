use markdown_pipeline::abbr::strip_abbreviations;
use markdown_pipeline::cache::Cache;
use markdown_pipeline::error::Error;
use markdown_pipeline::highlight::fragment_digest;
use markdown_pipeline::render::{missing_highlights, render_markdown, Node};
use markdown_pipeline::toc::parse_toc_config;

#[test]
fn full_document_with_toc_and_abbreviation() {
    let src = "*[HTML]: HyperText Markup Language\nignored";
    let (_, table) = strip_abbreviations(src).unwrap();
    let nodes = vec![
        Node::Other(String::from("<p><toc /></p>")),
        Node::Header { level: 1, content: String::from("Intro") },
        Node::Text(String::from("I love HTML.")),
    ];
    let cfg = parse_toc_config(Some(true), None).unwrap();
    let hl = Cache::new();
    let out = render_markdown(&nodes, &table, cfg, &hl).unwrap();
    let mut expected = String::new();
    expected.push_str("<nav id=\"toc\">\n<h3>Contents</h3>");
    expected.push_str("<ol>\n<li>\n");
    expected.push_str("<a href=\"#intro\">Intro</a>\n");
    expected.push_str("</li>\n</ol>\n");
    expected.push_str("</nav>");
    expected.push_str("<h1 id=\"intro\">\n<span class=\"hash\">#</span>\n");
    expected.push_str("<a href=\"#intro\" class=\"header-link\">Intro</a>\n</h1>");
    expected.push_str("I love <abbr title=\"HyperText Markup Language\">HTML</abbr>.");
    assert_eq!(String::from_utf8(out).unwrap(), expected);
}

#[test]
fn disabled_toc_blanks_the_placeholder() {
    let nodes = vec![
        Node::Text(String::from("before ")),
        Node::Other(String::from("<p><toc align=\"right\"/></p>")),
        Node::Text(String::from(" after")),
        Node::Header { level: 2, content: String::from("Solo") },
    ];
    let cfg = parse_toc_config(None, None).unwrap();
    let hl = Cache::new();
    let out = render_markdown(&nodes, &Vec::new(), cfg, &hl).unwrap();
    let html = String::from_utf8(out).unwrap();
    assert!(html.starts_with("before  after"));
    assert!(!html.contains("<toc"));
    assert!(!html.contains("<nav"));
    // Header ids and self-links are emitted even with the TOC disabled.
    assert!(html.contains("<h2 id=\"solo\">"));
    assert!(html.contains("<a href=\"#solo\" class=\"header-link\">Solo</a>"));
}

#[test]
fn math_and_footnotes_and_spans() {
    let nodes = vec![
        Node::Math { text: String::from("E=mc^2"), display: false },
        Node::Math { text: String::from("\\sum_i i"), display: true },
        Node::HtmlSpan(String::from("<em>raw</em>")),
        Node::FootnoteDef { content: String::from("<p>note</p>\n"), num: 2 },
    ];
    let cfg = parse_toc_config(None, None).unwrap();
    let hl = Cache::new();
    let out = render_markdown(&nodes, &Vec::new(), cfg, &hl).unwrap();
    let html = String::from_utf8(out).unwrap();
    let mut expected = String::new();
    expected.push_str("<script type=\"math/tex\">E=mc^2</script>");
    expected.push_str("<script type=\"math/tex; mode=display\">\\sum_i i</script>");
    expected.push_str("<em>raw</em>");
    expected.push_str("\n<li id=\"fn2\">\n<p>note");
    expected.push_str("&nbsp;<a href=\"#fnref2\" title=\"continue reading\" rev=\"footnote\">");
    expected.push_str("<i class=\"fa fa-level-up\"></i></a></p></li>\n");
    assert_eq!(html, expected);
}

#[test]
fn only_the_first_placeholder_is_replaced() {
    let nodes = vec![
        Node::Other(String::from("<p><toc /></p>")),
        Node::Other(String::from("<p><toc /></p>")),
    ];
    let cfg = parse_toc_config(None, None).unwrap();
    let hl = Cache::new();
    let out = render_markdown(&nodes, &Vec::new(), cfg, &hl).unwrap();
    assert_eq!(String::from_utf8(out).unwrap(), "<p><toc /></p>");
}

#[test]
fn footnote_numbers_render_in_full() {
    let nodes = vec![Node::FootnoteDef { content: String::from("body!</p>\n"), num: 12 }];
    let cfg = parse_toc_config(None, None).unwrap();
    let hl = Cache::new();
    let out = render_markdown(&nodes, &Vec::new(), cfg, &hl).unwrap();
    let html = String::from_utf8(out).unwrap();
    assert!(html.contains("<li id=\"fn12\">"));
    assert!(html.contains("#fnref12"));
    assert!(html.contains("\">\nbody!&nbsp;"));
}

#[test]
fn uncached_code_block_fails_the_render() {
    let nodes = vec![Node::CodeBlock { lang: String::from("rust"), code: b"fn f() {}".to_vec() }];
    let cfg = parse_toc_config(None, None).unwrap();
    let hl = Cache::new();
    assert_eq!(
        render_markdown(&nodes, &Vec::new(), cfg, &hl).unwrap_err(),
        Error::MissingHighlight
    );
}

#[test]
fn cached_code_block_renders() {
    let code = b"fn f() {}".to_vec();
    let mut hl = Cache::new();
    hl.put(fragment_digest("rust", &code), b"HI".to_vec());
    let nodes = vec![Node::CodeBlock { lang: String::from("rust"), code }];
    let cfg = parse_toc_config(None, None).unwrap();
    let out = render_markdown(&nodes, &Vec::new(), cfg, &hl).unwrap();
    assert_eq!(
        String::from_utf8(out).unwrap(),
        "<figure class=\"codeblock\">\n<pre>\n<code class=\"highlight language-rust\">HI</code></pre></figure>"
    );
}

#[test]
fn missing_highlights_lists_uncached_blocks_once() {
    let cached_code = b"cached".to_vec();
    let mut hl = Cache::new();
    hl.put(fragment_digest("rust", &cached_code), b"X".to_vec());
    let nodes = vec![
        Node::Text(String::from("intro")),
        Node::CodeBlock { lang: String::from(""), code: b"plain".to_vec() },
        Node::CodeBlock { lang: String::from("rust"), code: cached_code },
        Node::CodeBlock { lang: String::from("python"), code: b"print(1)".to_vec() },
        Node::CodeBlock { lang: String::from("python"), code: b"print(1)".to_vec() },
    ];
    let reqs = missing_highlights(&nodes, &hl);
    assert_eq!(reqs.len(), 1);
    assert_eq!(reqs[0].lang, "python");
    assert_eq!(reqs[0].code, b"print(1)".to_vec());
    assert_eq!(reqs[0].digest, fragment_digest("python", &b"print(1)".to_vec()));
}

#[test]
fn fully_cached_document_needs_no_requests() {
    let code = b"print(1)".to_vec();
    let mut hl = Cache::new();
    hl.put(fragment_digest("python", &code), b"X".to_vec());
    let nodes = vec![
        Node::CodeBlock { lang: String::from(""), code: b"plain".to_vec() },
        Node::CodeBlock { lang: String::from("python"), code },
    ];
    assert!(missing_highlights(&nodes, &hl).is_empty());
}
