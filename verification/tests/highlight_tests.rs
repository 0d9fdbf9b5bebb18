use markdown_pipeline::cache::Cache;
use markdown_pipeline::highlight::{
    code_block_finish, code_block_start, fragment_digest, wrap_fragment, CodeOutcome,
};
use sha1::{Digest, Sha1};

fn sha1_hex(bytes: &[u8]) -> String {
    let digest = Sha1::digest(bytes);
    let mut out = String::new();
    for b in digest.iter() {
        out.push_str(&format!("{:02x}", b));
    }
    out
}

#[test]
fn envelope_shape() {
    let out = wrap_fragment("text", b"x = 1");
    assert_eq!(
        out,
        b"<figure class=\"codeblock\">\n<pre>\n<code class=\"highlight language-text\">x = 1</code></pre></figure>"
    );
}

#[test]
fn fragment_digest_is_sha1_of_language_and_code() {
    let code = b"fn main() {}".to_vec();
    let d = fragment_digest("rust", &code);
    let mut input = b"rust".to_vec();
    input.extend_from_slice(&code);
    assert_eq!(d, sha1_hex(&input));
}

#[test]
fn empty_language_passes_code_through() {
    let cache = Cache::new();
    let code = b"plain <stuff>".to_vec();
    match code_block_start(&cache, "", &code) {
        CodeOutcome::Ready(out) => assert_eq!(
            out,
            b"<figure class=\"codeblock\">\n<pre>\n<code class=\"highlight language-text\">plain <stuff></code></pre></figure>"
        ),
        CodeOutcome::NeedHighlight { .. } => panic!("text blocks never ask the highlighter"),
    }
}

#[test]
fn text_language_passes_code_through_despite_cache() {
    let mut cache = Cache::new();
    // Whatever the cache holds, a `text` block bypasses it.
    cache.put(String::from("unrelated"), b"junk".to_vec());
    let code = b"verbatim".to_vec();
    match code_block_start(&cache, "text", &code) {
        CodeOutcome::Ready(out) => assert!(out.ends_with(b"verbatim</code></pre></figure>")),
        CodeOutcome::NeedHighlight { .. } => panic!("text blocks never ask the highlighter"),
    }
}

#[test]
fn miss_then_finish_then_hit() {
    let mut cache = Cache::new();
    let code = b"let x = 1;".to_vec();
    let digest = match code_block_start(&cache, "rust", &code) {
        CodeOutcome::NeedHighlight { digest } => digest,
        CodeOutcome::Ready(_) => panic!("empty cache cannot serve the fragment"),
    };
    assert_eq!(digest, fragment_digest("rust", &code));

    let reply = b"<span class=\"k\">let</span> x = 1;".to_vec();
    let out = code_block_finish(&mut cache, "rust", &code, reply.clone());
    let mut expected = b"<figure class=\"codeblock\">\n<pre>\n<code class=\"highlight language-rust\">".to_vec();
    expected.extend_from_slice(&reply);
    expected.extend_from_slice(b"</code></pre></figure>");
    assert_eq!(out, expected);

    // The fragment is now cached: the same block renders without a request.
    match code_block_start(&cache, "rust", &code) {
        CodeOutcome::Ready(again) => assert_eq!(again, expected),
        CodeOutcome::NeedHighlight { .. } => panic!("fragment was just cached"),
    }
}

#[test]
fn prepopulated_cache_serves_the_fragment() {
    let mut cache = Cache::new();
    let code = b"print(1)".to_vec();
    let digest = fragment_digest("python", &code);
    cache.put(digest, b"HIGHLIGHTED".to_vec());
    match code_block_start(&cache, "python", &code) {
        CodeOutcome::Ready(out) => assert!(String::from_utf8(out).unwrap().contains("HIGHLIGHTED")),
        CodeOutcome::NeedHighlight { .. } => panic!("cache hit must not ask the highlighter"),
    }
}

#[test]
fn cache_entries_are_immutable() {
    let mut cache = Cache::new();
    cache.put(String::from("k"), b"first".to_vec());
    cache.put(String::from("k"), b"second".to_vec());
    assert_eq!(cache.get("k").unwrap(), &b"first".to_vec());
    assert!(cache.get("missing").is_none());
}
