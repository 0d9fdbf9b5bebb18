use markdown_pipeline::cache::Cache;
use markdown_pipeline::pipeline::{preprocess, render_document};
use markdown_pipeline::render::Node;
use markdown_pipeline::toc::parse_toc_config;
use markdown_pipeline::view::append_site;
use sha1::{Digest, Sha1};

fn sha1_hex(bytes: &[u8]) -> String {
    let digest = Sha1::digest(bytes);
    let mut out = String::new();
    for b in digest.iter() {
        out.push_str(&format!("{:02x}", b));
    }
    out
}

#[test]
fn preprocess_digests_the_stripped_source() {
    let src = "*[K]: V\nbody";
    let p = preprocess(src).unwrap();
    assert_eq!(p.clean, "\nbody");
    assert_eq!(p.table.len(), 1);
    assert_eq!(p.digest, sha1_hex("\nbody".as_bytes()));
}

#[test]
fn digest_of_known_inputs() {
    // The digest wrapper must hash, not echo: SHA-1 test vectors.
    let p = preprocess("").unwrap();
    assert_eq!(p.digest, "da39a3ee5e6b4b0d3255bfef95601890afd80709");
    let p = preprocess("abc").unwrap();
    assert_eq!(p.digest, "a9993e364706816aba3e25717850c26c9cd0d89d");
}

#[test]
fn cold_then_warm_render_is_byte_identical() {
    let src = "a paragraph";
    let p = preprocess(src).unwrap();
    let nodes = vec![
        Node::Header { level: 1, content: String::from("Title") },
        Node::Text(String::from("a paragraph")),
    ];
    let cfg = parse_toc_config(None, None).unwrap();
    let hl = Cache::new();
    let mut doc_cache = Cache::new();
    let cold = render_document(&mut doc_cache, &p.digest, &nodes, &p.table, cfg, &hl).unwrap();
    let warm = render_document(&mut doc_cache, &p.digest, &nodes, &p.table, cfg, &hl).unwrap();
    assert_eq!(cold, warm);
}

#[test]
fn cache_hit_bypasses_the_render_pass() {
    // The only node is a code block whose fragment is not cached, so a
    // render pass would fail; the pre-populated document cache must
    // answer without ever rendering or asking the highlighter.
    let nodes = vec![Node::CodeBlock { lang: String::from("rust"), code: b"x".to_vec() }];
    let cfg = parse_toc_config(None, None).unwrap();
    let hl = Cache::new();
    let mut doc_cache = Cache::new();
    let digest = sha1_hex(b"whatever");
    doc_cache.put(digest.clone(), b"CACHED HTML".to_vec());
    let out = render_document(&mut doc_cache, &digest, &nodes, &Vec::new(), cfg, &hl).unwrap();
    assert_eq!(out, b"CACHED HTML".to_vec());
}

#[test]
fn miss_stores_the_render() {
    let nodes = vec![Node::Text(String::from("hi"))];
    let cfg = parse_toc_config(None, None).unwrap();
    let hl = Cache::new();
    let mut doc_cache = Cache::new();
    let digest = sha1_hex(b"key");
    let out = render_document(&mut doc_cache, &digest, &nodes, &Vec::new(), cfg, &hl).unwrap();
    assert_eq!(out, b"hi".to_vec());
    assert_eq!(doc_cache.get(&digest).unwrap(), &b"hi".to_vec());
}

#[test]
fn append_site_suffixes_titles() {
    assert_eq!(
        append_site(Some(String::from("About"))),
        Some(String::from("About - Blaenk Denum"))
    );
    assert_eq!(append_site(None), None);
}
