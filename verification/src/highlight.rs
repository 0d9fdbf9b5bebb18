//! The highlight cache client for fenced code blocks.
//!
//! A code block with no language tag (or the tag `text`) is passed through
//! verbatim inside the fixed envelope, with no digest computed and no
//! request to the external highlighter.  Any other block is looked up in
//! the fragment cache under the digest of its language and code; on a miss
//! the caller must obtain the highlighted fragment from the external
//! highlighter (a two-frame request: language bytes, code bytes; one reply
//! frame) and hand it to [`code_block_finish`], which stores it and
//! renders the block.

use vstd::prelude::*;
use vstd::string::StringExecFns;

use crate::cache::Cache;
use crate::digest::{digest_hex, digest_of};
use crate::text::{append_str, str_eq};

verus! {

/// The language tag actually used: an absent or empty tag means `text`.
pub open spec fn norm_lang(lang: Seq<char>) -> Seq<char> {
    if lang.len() == 0 {
        "text"@
    } else {
        lang
    }
}

/// Whether the block skips highlighting entirely.
pub open spec fn trivial_lang(lang: Seq<char>) -> bool {
    norm_lang(lang) == "text"@
}

/// The cache key of a fragment: the digest of the language tag's bytes
/// followed by the code bytes.
pub open spec fn fragment_key(lang: Seq<char>, code: Seq<u8>) -> Seq<char> {
    digest_of(vstd::utf8::encode_utf8(lang) + code)
}

/// The fixed envelope around a code fragment.
pub open spec fn envelope(lang: Seq<char>, fragment: Seq<u8>) -> Seq<u8> {
    vstd::utf8::encode_utf8("<figure class=\"codeblock\">\n<pre>\n<code class=\"highlight language-"@)
        + vstd::utf8::encode_utf8(lang) + vstd::utf8::encode_utf8("\">"@) + fragment
        + vstd::utf8::encode_utf8("</code></pre></figure>"@)
}

/// What a code block renders to under a given fragment cache: the
/// verbatim code for a trivial language, the cached fragment on a hit,
/// and nothing on a miss (the fragment must first be requested).
pub open spec fn code_block_html(lang: Seq<char>, code: Seq<u8>, hl: Map<Seq<char>, Seq<u8>>) -> Option<
    Seq<u8>,
> {
    let nl = norm_lang(lang);
    if trivial_lang(lang) {
        Some(envelope(nl, code))
    } else if hl.contains_key(fragment_key(nl, code)) {
        Some(envelope(nl, hl[fragment_key(nl, code)]))
    } else {
        None
    }
}

/// The normalized language tag as a string.
pub fn lang_or_text(lang: &str) -> (r: String)
    ensures
        r@ == norm_lang(lang@),
{
    if lang.is_empty() {
        String::from_str("text")
    } else {
        String::from_str(lang)
    }
}

/// Wraps a fragment in the fixed envelope.
pub fn wrap_fragment(lang: &str, fragment: &[u8]) -> (r: Vec<u8>)
    ensures
        r@ == envelope(lang@, fragment@),
{
    let mut out: Vec<u8> = Vec::new();
    append_str(&mut out, "<figure class=\"codeblock\">\n<pre>\n<code class=\"highlight language-");
    append_str(&mut out, lang);
    append_str(&mut out, "\">");
    out.extend_from_slice(fragment);
    append_str(&mut out, "</code></pre></figure>");
    proof {
        assert(out@ =~= envelope(lang@, fragment@));
    }
    out
}

/// The cache key of a code block, as hex digits.
pub fn fragment_digest(lang: &str, code: &Vec<u8>) -> (r: String)
    ensures
        r@ == fragment_key(lang@, code@),
{
    let mut bytes: Vec<u8> = Vec::new();
    append_str(&mut bytes, lang);
    bytes.extend_from_slice(code.as_slice());
    proof {
        assert(bytes@ =~= vstd::utf8::encode_utf8(lang@) + code@);
    }
    digest_hex(bytes.as_slice())
}

/// The result of consulting the fragment cache for one code block.
pub enum CodeOutcome {
    /// The block's full markup; no request to the highlighter is needed.
    Ready(Vec<u8>),
    /// The fragment must be requested from the external highlighter; the
    /// reply is handed to [`code_block_finish`] under this digest.
    NeedHighlight { digest: String },
}

/// Consults the fragment cache for a code block.  A trivial language or a
/// cache hit yields the finished markup without any channel request; only
/// a miss for a non-trivial language asks for a highlight.
pub fn code_block_start(hl: &Cache, lang: &str, code: &Vec<u8>) -> (r: CodeOutcome)
    requires
        hl.wf(),
    ensures
        match r {
            CodeOutcome::Ready(out) => code_block_html(lang@, code@, hl@) == Some(out@),
            CodeOutcome::NeedHighlight { digest } => {
                &&& code_block_html(lang@, code@, hl@) is None
                &&& !trivial_lang(lang@)
                &&& digest@ == fragment_key(norm_lang(lang@), code@)
                &&& !hl@.contains_key(digest@)
            },
        },
{
    let nl = lang_or_text(lang);
    if str_eq(nl.as_str(), "text") {
        CodeOutcome::Ready(wrap_fragment(nl.as_str(), code.as_slice()))
    } else {
        let key = fragment_digest(nl.as_str(), code);
        match hl.get(key.as_str()) {
            Some(v) => CodeOutcome::Ready(wrap_fragment(nl.as_str(), v.as_slice())),
            None => CodeOutcome::NeedHighlight { digest: key },
        }
    }
}

/// Stores the highlighter's reply for a block and renders the block.  An
/// already-cached fragment wins over the reply: entries are immutable
/// once written.
pub fn code_block_finish(hl: &mut Cache, lang: &str, code: &Vec<u8>, reply: Vec<u8>) -> (r: Vec<
    u8,
>)
    requires
        old(hl).wf(),
        !trivial_lang(lang@),
    ensures
        final(hl).wf(),
        final(hl)@ == if old(hl)@.contains_key(fragment_key(norm_lang(lang@), code@)) {
            old(hl)@
        } else {
            old(hl)@.insert(fragment_key(norm_lang(lang@), code@), reply@)
        },
        final(hl)@.contains_key(fragment_key(norm_lang(lang@), code@)),
        r@ == envelope(
            norm_lang(lang@),
            final(hl)@[fragment_key(norm_lang(lang@), code@)],
        ),
        code_block_html(lang@, code@, final(hl)@) == Some(r@),
{
    let nl = lang_or_text(lang);
    let key = fragment_digest(nl.as_str(), code);
    hl.put(key.clone(), reply);
    match hl.get(key.as_str()) {
        Some(v) => wrap_fragment(nl.as_str(), v.as_slice()),
        None => {
            proof {
                assert(false);
            }
            Vec::new()
        },
    }
}

} // verus!
