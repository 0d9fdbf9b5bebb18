//! The HTML-producing render pass over a parsed document tree.
//!
//! The parser reduces a document to a sequence of nodes; every node kind
//! the pass does not treat specially arrives already rendered by the base
//! HTML renderer ([`Node::Other`]).  The pass substitutes abbreviations in
//! text nodes, wraps code blocks through the highlight cache client,
//! derives slugs and table-of-contents entries from headers, and finally
//! replaces the table-of-contents placeholder `<p><toc…/></p>` in the
//! output with the accumulated markup (empty when emission is disabled).

use vstd::prelude::*;
use vstd::string::StrSliceExecFns;
use vstd::string::StringExecFns;
use vstd::utf8::encode_utf8;

use crate::abbr::{abbr_pairs, apply_abbreviations, substitute, Abbr};
use crate::cache::Cache;
use crate::error::Error;
use crate::highlight::{
    code_block_html, code_block_start, fragment_digest, fragment_key, lang_or_text, norm_lang,
    trivial_lang, CodeOutcome,
};
use crate::slug::{sanitize, slug_of};
use crate::text::{
    append_chars, append_str, dec_of, lemma_find_byte_is, push_byte_range, scan_byte, str_eq,
    u32_dec,
};
use crate::toc::{
    toc_finalize, toc_init, toc_markup, toc_visit, toc_wf, Align, TocBuilder, TocConfig, TocState,
};

verus! {

/// One node of the parsed document, in document order.
pub enum Node {
    /// A text run; abbreviation substitution applies.
    Text(String),
    /// A fenced code block with its language tag (empty when absent).
    CodeBlock { lang: String, code: Vec<u8> },
    /// A header with its inline-rendered content.
    Header { level: u32, content: String },
    /// A math span, in display mode or inline.
    Math { text: String, display: bool },
    /// A raw inline HTML span, passed through verbatim.
    HtmlSpan(String),
    /// A footnote definition: its rendered body (which ends with the
    /// closing paragraph markup that the emission trims) and its number.
    FootnoteDef { content: String, num: u32 },
    /// Any other node kind, already rendered by the base HTML renderer.
    Other(String),
}

/// The ghost image of a node.
pub ghost enum NodeV {
    Text(Seq<char>),
    CodeBlock { lang: Seq<char>, code: Seq<u8> },
    Header { level: int, content: Seq<char> },
    Math { text: Seq<char>, display: bool },
    HtmlSpan(Seq<char>),
    FootnoteDef { content: Seq<char>, num: int },
    Other(Seq<char>),
}

pub open spec fn node_view(n: Node) -> NodeV {
    match n {
        Node::Text(t) => NodeV::Text(t@),
        Node::CodeBlock { lang, code } => NodeV::CodeBlock { lang: lang@, code: code@ },
        Node::Header { level, content } => NodeV::Header {
            level: level as int,
            content: content@,
        },
        Node::Math { text, display } => NodeV::Math { text: text@, display },
        Node::HtmlSpan(t) => NodeV::HtmlSpan(t@),
        Node::FootnoteDef { content, num } => NodeV::FootnoteDef {
            content: content@,
            num: num as int,
        },
        Node::Other(h) => NodeV::Other(h@),
    }
}

pub open spec fn nodes_view(ns: Seq<Node>) -> Seq<NodeV> {
    ns.map_values(|n: Node| node_view(n))
}

/// What the pass assumes of parser output: header levels start at one,
/// and a footnote body carries at least the closing paragraph markup that
/// the emission trims.
pub open spec fn wf_node(n: NodeV) -> bool {
    match n {
        NodeV::Header { level, content } => 1 <= level,
        NodeV::FootnoteDef { content, num } => content.len() >= 5 && 0 <= num,
        _ => true,
    }
}

pub open spec fn wf_nodes(ns: Seq<NodeV>) -> bool {
    forall|i: int| 0 <= i < ns.len() ==> wf_node(#[trigger] ns[i])
}

/// A header's own markup: an id and a self-link, emitted whether or not
/// table-of-contents emission is enabled.
pub open spec fn header_html(level: int, content: Seq<char>) -> Seq<u8> {
    encode_utf8("<h"@) + encode_utf8(dec_of(level)) + encode_utf8(" id=\""@) + encode_utf8(
        slug_of(content),
    ) + encode_utf8("\">\n<span class=\"hash\">#</span>\n<a href=\"#"@) + encode_utf8(
        slug_of(content),
    ) + encode_utf8("\" class=\"header-link\">"@) + encode_utf8(content) + encode_utf8(
        "</a>\n</h"@,
    ) + encode_utf8(dec_of(level)) + encode_utf8(">"@)
}

/// A math span's markup.
pub open spec fn math_html(text: Seq<char>, display: bool) -> Seq<u8> {
    (if display {
        encode_utf8("<script type=\"math/tex; mode=display\">"@)
    } else {
        encode_utf8("<script type=\"math/tex\">"@)
    }) + encode_utf8(text) + encode_utf8("</script>"@)
}

/// A footnote definition's markup: the body with its last five characters
/// (the closing paragraph markup) deferred until after the back link.
pub open spec fn footnote_html(content: Seq<char>, num: int) -> Seq<u8> {
    encode_utf8("\n<li id=\"fn"@) + encode_utf8(dec_of(num)) + encode_utf8("\">\n"@) + encode_utf8(
        content.take(content.len() - 5),
    ) + encode_utf8(
        "&nbsp;<a href=\"#fnref"@,
    ) + encode_utf8(dec_of(num)) + encode_utf8(
        "\" title=\"continue reading\" rev=\"footnote\"><i class=\"fa fa-level-up\"></i></a></p></li>\n"@,
    )
}

/// What one node contributes to the body, or nothing when a code block's
/// fragment is not yet available.
pub open spec fn node_html(
    n: NodeV,
    table: Seq<(Seq<char>, Seq<char>)>,
    hl: Map<Seq<char>, Seq<u8>>,
) -> Option<Seq<u8>> {
    match n {
        NodeV::Text(t) => Some(encode_utf8(substitute(t, table))),
        NodeV::CodeBlock { lang, code } => code_block_html(lang, code, hl),
        NodeV::Header { level, content } => Some(header_html(level, content)),
        NodeV::Math { text, display } => Some(math_html(text, display)),
        NodeV::HtmlSpan(t) => Some(encode_utf8(t)),
        NodeV::FootnoteDef { content, num } => Some(footnote_html(content, num)),
        NodeV::Other(h) => Some(encode_utf8(h)),
    }
}

/// The body: every node's contribution in order, or nothing when some
/// code block's fragment is missing.
pub open spec fn body_html(
    ns: Seq<NodeV>,
    table: Seq<(Seq<char>, Seq<char>)>,
    hl: Map<Seq<char>, Seq<u8>>,
) -> Option<Seq<u8>>
    decreases ns.len(),
{
    if ns.len() == 0 {
        Some(Seq::<u8>::empty())
    } else {
        match (body_html(ns.drop_last(), table, hl), node_html(ns.last(), table, hl)) {
            (Some(b), Some(h)) => Some(b + h),
            _ => None,
        }
    }
}

proof fn lemma_body_html_none(
    ns: Seq<NodeV>,
    table: Seq<(Seq<char>, Seq<char>)>,
    hl: Map<Seq<char>, Seq<u8>>,
    j: int,
)
    requires
        0 <= j < ns.len(),
        node_html(ns[j], table, hl) is None,
    ensures
        body_html(ns, table, hl) is None,
    decreases ns.len(),
{
    if j < ns.len() - 1 {
        assert(ns.drop_last()[j] == ns[j]);
        lemma_body_html_none(ns.drop_last(), table, hl, j);
    }
}

/// The table-of-contents state after the headers of `ns` have been
/// visited, starting from a fresh builder.
pub open spec fn toc_after(ns: Seq<NodeV>, align: Align) -> TocState
    decreases ns.len(),
{
    if ns.len() == 0 {
        toc_init(align)
    } else {
        let st = toc_after(ns.drop_last(), align);
        match ns.last() {
            NodeV::Header { level, content } => toc_visit(st, level, slug_of(content), content),
            _ => st,
        }
    }
}

proof fn lemma_toc_after_wf(ns: Seq<NodeV>, align: Align)
    requires
        wf_nodes(ns),
    ensures
        toc_wf(toc_after(ns, align)),
    decreases ns.len(),
{
    if ns.len() > 0 {
        assert(wf_nodes(ns.drop_last())) by {
            assert(forall|i: int|
                0 <= i < ns.len() - 1 ==> ns.drop_last()[i] == #[trigger] ns[i]);
        }
        lemma_toc_after_wf(ns.drop_last(), align);
        match ns.last() {
            NodeV::Header { level, content } => {
                assert(ns.last() == ns[ns.len() - 1]);
                crate::toc::lemma_toc_visit_wf(
                    toc_after(ns.drop_last(), align),
                    level,
                    slug_of(content),
                    content,
                );
            },
            _ => {},
        }
    }
}

/// The bytes of `<p><toc`.
pub open spec fn ph_pre() -> Seq<u8> {
    seq![60u8, 112u8, 62u8, 60u8, 116u8, 111u8, 99u8]
}

/// The bytes of `</p>`.
pub open spec fn ph_close_tag() -> Seq<u8> {
    seq![60u8, 47u8, 112u8, 62u8]
}

/// The position of the first `>` byte at or after `from`, or `b.len()`.
pub open spec fn gt_pos(b: Seq<u8>, from: int) -> int {
    from + crate::text::find_byte(b.skip(from), 62u8)
}

/// Whether the placeholder `<p><toc` … `/></p>` matches at `i`: the
/// prefix, then bytes other than `>`, then `/></p>`, whose first `>` is
/// the first one after the prefix.
pub open spec fn ph_at(b: Seq<u8>, i: int) -> bool {
    let g = gt_pos(b, i + 7);
    &&& 0 <= i
    &&& i + 7 <= b.len()
    &&& b.subrange(i, i + 7) == ph_pre()
    &&& i + 8 <= g
    &&& g + 5 <= b.len()
    &&& b[g - 1] == 47u8
    &&& b.subrange(g + 1, g + 5) == ph_close_tag()
}

/// The first position at or after `i` where the placeholder matches, or
/// `b.len()`.
pub open spec fn find_ph_from(b: Seq<u8>, i: int) -> int
    decreases b.len() - i,
    when 0 <= i <= b.len()
{
    if i >= b.len() {
        b.len() as int
    } else if ph_at(b, i) {
        i
    } else {
        find_ph_from(b, i + 1)
    }
}

proof fn lemma_find_ph_from_is(b: Seq<u8>, i: int, m: int)
    requires
        0 <= i <= m <= b.len(),
        forall|k: int| i <= k < m ==> !ph_at(b, k),
        m < b.len() ==> ph_at(b, m),
    ensures
        find_ph_from(b, i) == m,
    decreases m - i,
{
    if i < m {
        lemma_find_ph_from_is(b, i + 1, m);
    }
}

/// The body with its first placeholder occurrence replaced by `toc`, or
/// unchanged when there is none.  The replaced span runs from the match
/// to the end of `/></p>`.
pub open spec fn replace_ph(b: Seq<u8>, toc: Seq<u8>) -> Seq<u8> {
    let i = find_ph_from(b, 0);
    if i < b.len() {
        let g = gt_pos(b, i + 7);
        b.take(i) + toc + b.skip(g + 5)
    } else {
        b
    }
}

/// Facts every placeholder match gives about individual bytes.
proof fn lemma_ph_at_bytes(b: Seq<u8>, i: int)
    requires
        ph_at(b, i),
    ensures
        i + 7 <= b.len(),
        b[i] == 60u8,
        b[i + 1] == 112u8,
        b[i + 2] == 62u8,
        b[i + 3] == 60u8,
        b[i + 4] == 116u8,
        b[i + 5] == 111u8,
        b[i + 6] == 99u8,
{
    assert(b.subrange(i, i + 7)[0] == b[i]);
    assert(b.subrange(i, i + 7)[1] == b[i + 1]);
    assert(b.subrange(i, i + 7)[2] == b[i + 2]);
    assert(b.subrange(i, i + 7)[3] == b[i + 3]);
    assert(b.subrange(i, i + 7)[4] == b[i + 4]);
    assert(b.subrange(i, i + 7)[5] == b[i + 5]);
    assert(b.subrange(i, i + 7)[6] == b[i + 6]);
}

/// Replaces the first placeholder occurrence in `body` with `toc`.
#[verifier::rlimit(100)]
pub fn substitute_toc(body: &Vec<u8>, toc: &Vec<u8>) -> (r: Vec<u8>)
    ensures
        r@ == replace_ph(body@, toc@),
{
    let n = body.len();
    let mut i: usize = 0;
    while i < n
        invariant
            n == body@.len(),
            i <= n,
            forall|k: int| 0 <= k < i ==> !ph_at(body@, k),
        decreases n - i,
    {
        let mut matched = false;
        let mut end: usize = 0;
        if n - i >= 7 && body[i] == 60 && body[i + 1] == 112 && body[i + 2] == 62 && body[i + 3]
            == 60 && body[i + 4] == 116 && body[i + 5] == 111 && body[i + 6] == 99 {
            let g = scan_byte(body, i + 7, n, 62);
            proof {
                let rest = body@.skip(i + 7);
                assert forall|k: int| 0 <= k < g - i - 7 implies rest[k] != 62u8 by {
                    assert(rest[k] == body@[i + 7 + k]);
                }
                if g < n {
                    assert(rest[g - i - 7] == body@[g as int]);
                }
                lemma_find_byte_is(rest, 62u8, g - i - 7);
                assert(gt_pos(body@, i + 7) == g);
                assert(body@.subrange(i as int, i + 7) =~= ph_pre());
            }
            if g - i >= 8 && n - g >= 5 && body[g - 1] == 47 && body[g + 1] == 60 && body[g + 2]
                == 47 && body[g + 3] == 112 && body[g + 4] == 62 {
                proof {
                    assert(body@.subrange(g + 1, g + 5) =~= ph_close_tag());
                    assert(ph_at(body@, i as int));
                }
                matched = true;
                end = g + 5;
            } else {
                proof {
                    assert(!ph_at(body@, i as int));
                }
            }
        } else {
            proof {
                if ph_at(body@, i as int) {
                    lemma_ph_at_bytes(body@, i as int);
                }
                assert(!ph_at(body@, i as int));
            }
        }
        if matched {
            proof {
                lemma_find_ph_from_is(body@, 0, i as int);
            }
            let mut out: Vec<u8> = Vec::new();
            push_byte_range(&mut out, body, 0, i);
            out.extend_from_slice(toc.as_slice());
            push_byte_range(&mut out, body, end, n);
            proof {
                assert(body@.subrange(0, i as int) =~= body@.take(i as int));
                assert(body@.subrange(end as int, n as int) =~= body@.skip(end as int));
                assert(out@ =~= replace_ph(body@, toc@));
            }
            return out;
        }
        i = i + 1;
    }
    proof {
        lemma_find_ph_from_is(body@, 0, n as int);
    }
    let mut out: Vec<u8> = Vec::new();
    out.extend_from_slice(body.as_slice());
    proof {
        assert(out@ =~= replace_ph(body@, toc@));
    }
    out
}

/// The ghost image of the render pass state.
pub ghost struct RendererV {
    pub html: Seq<u8>,
    pub toc: TocState,
    pub config: TocConfig,
}

/// The stateful visitor of one render pass: the output buffer, the
/// table-of-contents accumulator and the document's settings.
pub struct Renderer {
    html: Vec<u8>,
    toc: TocBuilder,
    config: TocConfig,
}

impl View for Renderer {
    type V = RendererV;

    closed spec fn view(&self) -> RendererV {
        RendererV { html: self.html@, toc: self.toc@, config: self.config }
    }
}

impl Renderer {
    /// A fresh pass with an empty output buffer.
    pub fn new(config: TocConfig) -> (r: Renderer)
        ensures
            r@.html == Seq::<u8>::empty(),
            r@.toc == toc_init(config.align),
            toc_wf(r@.toc),
            r@.config == config,
    {
        Renderer { html: Vec::new(), toc: TocBuilder::new(config.align), config }
    }

    /// A text run: abbreviation substitution applies, nothing else.
    pub fn text(&mut self, t: &str, table: &Vec<Abbr>)
        ensures
            final(self)@.html == old(self)@.html + encode_utf8(
                substitute(t@, abbr_pairs(table@)),
            ),
            final(self)@.toc == old(self)@.toc,
            final(self)@.config == old(self)@.config,
    {
        let s = apply_abbreviations(t, table);
        append_str(&mut self.html, s.as_str());
    }

    /// A code block, rendered through the highlight cache client; fails
    /// when the fragment is neither trivial nor cached.
    pub fn code_block(&mut self, lang: &str, code: &Vec<u8>, hl: &Cache) -> (r: Result<(), Error>)
        requires
            hl.wf(),
        ensures
            match r {
                Ok(u) => {
                    &&& code_block_html(lang@, code@, hl@) is Some
                    &&& final(self)@.html == old(self)@.html + code_block_html(
                        lang@,
                        code@,
                        hl@,
                    )->0
                    &&& final(self)@.toc == old(self)@.toc
                    &&& final(self)@.config == old(self)@.config
                },
                Err(e) => {
                    &&& e == Error::MissingHighlight
                    &&& code_block_html(lang@, code@, hl@) is None
                    &&& final(self)@ == old(self)@
                },
            },
    {
        match code_block_start(hl, lang, code) {
            CodeOutcome::Ready(out) => {
                self.html.extend_from_slice(out.as_slice());
                Ok(())
            },
            CodeOutcome::NeedHighlight { digest } => Err(Error::MissingHighlight),
        }
    }

    /// A header: emits the id and self-link markup unconditionally, and
    /// accumulates the table-of-contents entry when emission is enabled.
    pub fn header(&mut self, level: u32, content: &str)
        requires
            1 <= level,
            toc_wf(old(self)@.toc),
        ensures
            final(self)@.html == old(self)@.html + header_html(level as int, content@),
            final(self)@.toc == if old(self)@.config.show {
                toc_visit(old(self)@.toc, level as int, slug_of(content@), content@)
            } else {
                old(self)@.toc
            },
            toc_wf(final(self)@.toc),
            final(self)@.config == old(self)@.config,
    {
        let slug = sanitize(content);
        let lv = u32_dec(level);
        append_str(&mut self.html, "<h");
        append_chars(&mut self.html, &lv);
        append_str(&mut self.html, " id=\"");
        append_str(&mut self.html, slug.as_str());
        append_str(&mut self.html, "\">\n<span class=\"hash\">#</span>\n<a href=\"#");
        append_str(&mut self.html, slug.as_str());
        append_str(&mut self.html, "\" class=\"header-link\">");
        append_str(&mut self.html, content);
        append_str(&mut self.html, "</a>\n</h");
        append_chars(&mut self.html, &lv);
        append_str(&mut self.html, ">");
        proof {
            assert(self.html@ =~= old(self)@.html + header_html(level as int, content@));
        }
        if self.config.show {
            self.toc.visit_header(level, slug, String::from_str(content));
        }
    }

    /// A math span.
    pub fn math(&mut self, text: &str, display: bool)
        ensures
            final(self)@.html == old(self)@.html + math_html(text@, display),
            final(self)@.toc == old(self)@.toc,
            final(self)@.config == old(self)@.config,
    {
        if display {
            append_str(&mut self.html, "<script type=\"math/tex; mode=display\">");
        } else {
            append_str(&mut self.html, "<script type=\"math/tex\">");
        }
        append_str(&mut self.html, text);
        append_str(&mut self.html, "</script>");
        proof {
            assert(self.html@ =~= old(self)@.html + math_html(text@, display));
        }
    }

    /// A raw inline HTML span, passed through verbatim.
    pub fn html_span(&mut self, text: &str)
        ensures
            final(self)@.html == old(self)@.html + encode_utf8(text@),
            final(self)@.toc == old(self)@.toc,
            final(self)@.config == old(self)@.config,
    {
        append_str(&mut self.html, text);
    }

    /// A footnote definition: the back link is spliced in before the
    /// body's closing paragraph markup (its last five characters).
    pub fn footnote_definition(&mut self, content: &str, num: u32)
        requires
            content@.len() >= 5,
        ensures
            final(self)@.html == old(self)@.html + footnote_html(content@, num as int),
            final(self)@.toc == old(self)@.toc,
            final(self)@.config == old(self)@.config,
    {
        let nv = u32_dec(num);
        append_str(&mut self.html, "\n<li id=\"fn");
        append_chars(&mut self.html, &nv);
        append_str(&mut self.html, "\">\n");
        let len = content.unicode_len();
        let trimmed = content.substring_char(0, len - 5);
        append_str(&mut self.html, trimmed);
        append_str(&mut self.html, "&nbsp;<a href=\"#fnref");
        append_chars(&mut self.html, &nv);
        append_str(
            &mut self.html,
            "\" title=\"continue reading\" rev=\"footnote\"><i class=\"fa fa-level-up\"></i></a></p></li>\n",
        );
        proof {
            assert(self.html@ =~= old(self)@.html + footnote_html(content@, num as int));
        }
    }

    /// Any other node kind: the base renderer's output, unmodified.
    pub fn other(&mut self, html: &str)
        ensures
            final(self)@.html == old(self)@.html + encode_utf8(html@),
            final(self)@.toc == old(self)@.toc,
            final(self)@.config == old(self)@.config,
    {
        append_str(&mut self.html, html);
    }

    /// End of document: close the table of contents when enabled.
    pub fn after_render(&mut self)
        requires
            toc_wf(old(self)@.toc),
        ensures
            final(self)@.html == old(self)@.html,
            final(self)@.toc == if old(self)@.config.show {
                toc_finalize(old(self)@.toc)
            } else {
                old(self)@.toc
            },
            final(self)@.config == old(self)@.config,
    {
        if self.config.show {
            self.toc.finalize();
        }
    }

    /// The finished document: the body with the placeholder replaced by
    /// the accumulated table-of-contents markup.
    pub fn finish(&self) -> (r: Vec<u8>)
        ensures
            r@ == replace_ph(self@.html, encode_utf8(toc_markup(self@.toc.tokens))),
    {
        let toc_str = self.toc.render();
        let mut toc_bytes: Vec<u8> = Vec::new();
        append_str(&mut toc_bytes, toc_str.as_str());
        proof {
            assert(toc_bytes@ =~= encode_utf8(toc_markup(self@.toc.tokens)));
        }
        substitute_toc(&self.html, &toc_bytes)
    }
}

/// One outstanding request to the external highlighter: the two frames
/// to send (the language tag and the code bytes) and the digest under
/// which the reply is cached.
pub struct HighlightReq {
    pub lang: String,
    pub code: Vec<u8>,
    pub digest: String,
}

/// The ghost image of a request.
pub ghost struct HighlightReqV {
    pub lang: Seq<char>,
    pub code: Seq<u8>,
    pub digest: Seq<char>,
}

pub open spec fn req_view(r: HighlightReq) -> HighlightReqV {
    HighlightReqV { lang: r.lang@, code: r.code@, digest: r.digest@ }
}

pub open spec fn reqs_view(s: Seq<HighlightReq>) -> Seq<HighlightReqV> {
    s.map_values(|r: HighlightReq| req_view(r))
}

/// Whether a digest is already listed.
pub open spec fn req_listed(acc: Seq<HighlightReqV>, k: Seq<char>) -> bool {
    exists|j: int| 0 <= j < acc.len() && (#[trigger] acc[j]).digest == k
}

/// What one node adds to the outstanding requests.
pub open spec fn missing_step(
    n: NodeV,
    hl: Map<Seq<char>, Seq<u8>>,
    acc: Seq<HighlightReqV>,
) -> Seq<HighlightReqV> {
    match n {
        NodeV::CodeBlock { lang, code } => {
            let k = fragment_key(norm_lang(lang), code);
            if !trivial_lang(lang) && !hl.contains_key(k) && !req_listed(acc, k) {
                acc.push(HighlightReqV { lang: norm_lang(lang), code: code, digest: k })
            } else {
                acc
            }
        },
        _ => acc,
    }
}

pub open spec fn missing_from(
    ns: Seq<NodeV>,
    hl: Map<Seq<char>, Seq<u8>>,
    acc: Seq<HighlightReqV>,
) -> Seq<HighlightReqV>
    decreases ns.len(),
{
    if ns.len() == 0 {
        acc
    } else {
        missing_from(ns.drop_first(), hl, missing_step(ns[0], hl, acc))
    }
}

/// The requests needed before `ns` can render under `hl`: one per
/// distinct digest of a non-trivial uncached code block, in order of
/// first appearance.
pub open spec fn missing_spec(ns: Seq<NodeV>, hl: Map<Seq<char>, Seq<u8>>) -> Seq<HighlightReqV> {
    missing_from(ns, hl, Seq::<HighlightReqV>::empty())
}

proof fn lemma_missing_from_uncached(
    ns: Seq<NodeV>,
    hl: Map<Seq<char>, Seq<u8>>,
    acc: Seq<HighlightReqV>,
)
    requires
        forall|j: int| 0 <= j < acc.len() ==> !hl.contains_key((#[trigger] acc[j]).digest),
    ensures
        forall|j: int|
            0 <= j < missing_from(ns, hl, acc).len() ==> !hl.contains_key(
                (#[trigger] missing_from(ns, hl, acc)[j]).digest,
            ),
    decreases ns.len(),
{
    if ns.len() > 0 {
        let acc2 = missing_step(ns[0], hl, acc);
        assert forall|j: int| 0 <= j < acc2.len() implies !hl.contains_key(
            (#[trigger] acc2[j]).digest,
        ) by {
            if j < acc.len() {
                assert(acc2[j] == acc[j]);
            }
        }
        lemma_missing_from_uncached(ns.drop_first(), hl, acc2);
        assert(missing_from(ns, hl, acc) == missing_from(ns.drop_first(), hl, acc2));
    }
}

/// No listed request is for a digest the cache already holds: a cached
/// code block never reaches the highlighter channel.
pub proof fn lemma_missing_uncached(ns: Seq<NodeV>, hl: Map<Seq<char>, Seq<u8>>)
    ensures
        forall|j: int|
            0 <= j < missing_spec(ns, hl).len() ==> !hl.contains_key(
                (#[trigger] missing_spec(ns, hl)[j]).digest,
            ),
{
    lemma_missing_from_uncached(ns, hl, Seq::<HighlightReqV>::empty());
}

proof fn lemma_missing_from_empty(
    ns: Seq<NodeV>,
    hl: Map<Seq<char>, Seq<u8>>,
    acc: Seq<HighlightReqV>,
)
    requires
        forall|i: int|
            0 <= i < ns.len() ==> match #[trigger] ns[i] {
                NodeV::CodeBlock { lang, code } => trivial_lang(lang) || hl.contains_key(
                    fragment_key(norm_lang(lang), code),
                ),
                _ => true,
            },
    ensures
        missing_from(ns, hl, acc) == acc,
    decreases ns.len(),
{
    if ns.len() > 0 {
        assert(missing_step(ns[0], hl, acc) == acc);
        assert forall|i: int| 0 <= i < ns.drop_first().len() implies match #[trigger] ns.drop_first()[i] {
            NodeV::CodeBlock { lang, code } => trivial_lang(lang) || hl.contains_key(
                fragment_key(norm_lang(lang), code),
            ),
            _ => true,
        } by {
            assert(ns.drop_first()[i] == ns[i + 1]);
        }
        lemma_missing_from_empty(ns.drop_first(), hl, acc);
    }
}

/// When every code block is trivial (no or `text` language) or already
/// cached, no request is made at all: such a document renders without
/// touching the highlighter channel, whatever the cache holds for other
/// digests.
pub proof fn lemma_missing_empty(ns: Seq<NodeV>, hl: Map<Seq<char>, Seq<u8>>)
    requires
        forall|i: int|
            0 <= i < ns.len() ==> match #[trigger] ns[i] {
                NodeV::CodeBlock { lang, code } => trivial_lang(lang) || hl.contains_key(
                    fragment_key(norm_lang(lang), code),
                ),
                _ => true,
            },
    ensures
        missing_spec(ns, hl) == Seq::<HighlightReqV>::empty(),
{
    lemma_missing_from_empty(ns, hl, Seq::<HighlightReqV>::empty());
}

/// Whether a digest is already among the collected requests.
fn req_contains(reqs: &Vec<HighlightReq>, key: &str) -> (r: bool)
    ensures
        r == req_listed(reqs_view(reqs@), key@),
{
    let mut j: usize = 0;
    while j < reqs.len()
        invariant
            j <= reqs@.len(),
            forall|k: int| 0 <= k < j ==> (#[trigger] reqs_view(reqs@)[k]).digest != key@,
        decreases reqs@.len() - j,
    {
        if str_eq(reqs[j].digest.as_str(), key) {
            proof {
                assert(reqs_view(reqs@)[j as int].digest == key@);
            }
            return true;
        }
        j = j + 1;
    }
    false
}

/// Collects the highlight requests that must be answered before `nodes`
/// can render under the fragment cache `hl`: the non-trivial code blocks
/// whose digests are neither cached nor already collected, in order.
pub fn missing_highlights(nodes: &Vec<Node>, hl: &Cache) -> (r: Vec<HighlightReq>)
    requires
        hl.wf(),
    ensures
        reqs_view(r@) == missing_spec(nodes_view(nodes@), hl@),
{
    let ghost ns = nodes_view(nodes@);
    let mut reqs: Vec<HighlightReq> = Vec::new();
    let mut i: usize = 0;
    proof {
        assert(ns.skip(0) =~= ns);
        assert(reqs_view(reqs@) =~= Seq::<HighlightReqV>::empty());
    }
    while i < nodes.len()
        invariant
            hl.wf(),
            ns == nodes_view(nodes@),
            i <= nodes@.len(),
            missing_spec(ns, hl@) == missing_from(ns.skip(i as int), hl@, reqs_view(reqs@)),
        decreases nodes@.len() - i,
    {
        let ghost rest = ns.skip(i as int);
        let ghost acc = reqs_view(reqs@);
        proof {
            assert(rest[0] == ns[i as int]);
            assert(rest.drop_first() =~= ns.skip(i + 1));
        }
        match &nodes[i] {
            Node::CodeBlock { lang, code } => {
                let nl = lang_or_text(lang.as_str());
                if !str_eq(nl.as_str(), "text") {
                    let key = fragment_digest(nl.as_str(), code);
                    let cached = hl.get(key.as_str()).is_some();
                    let listed = req_contains(&reqs, key.as_str());
                    if !cached && !listed {
                        let mut cc: Vec<u8> = Vec::new();
                        cc.extend_from_slice(code.as_slice());
                        proof {
                            assert(cc@ =~= code@);
                        }
                        let ghost gnl = nl@;
                        let ghost gcode = cc@;
                        let ghost gkey = key@;
                        reqs.push(HighlightReq { lang: nl, code: cc, digest: key });
                        proof {
                            assert(reqs_view(reqs@) =~= acc.push(
                                HighlightReqV { lang: gnl, code: gcode, digest: gkey },
                            ));
                            assert(reqs_view(reqs@) == missing_step(ns[i as int], hl@, acc));
                        }
                    } else {
                        proof {
                            assert(missing_step(ns[i as int], hl@, acc) == acc);
                        }
                    }
                } else {
                    proof {
                        assert(trivial_lang(lang@));
                        assert(missing_step(ns[i as int], hl@, acc) == acc);
                    }
                }
            },
            _ => {
                proof {
                    assert(missing_step(ns[i as int], hl@, acc) == acc);
                }
            },
        }
        i = i + 1;
    }
    proof {
        assert(ns.skip(nodes@.len() as int) =~= Seq::<NodeV>::empty());
    }
    reqs
}

/// What a full pass produces: the body with the placeholder substituted,
/// or nothing when some code block's fragment is missing from the cache.
pub open spec fn render_spec(
    ns: Seq<NodeV>,
    table: Seq<(Seq<char>, Seq<char>)>,
    hl: Map<Seq<char>, Seq<u8>>,
    cfg: TocConfig,
) -> Option<Seq<u8>> {
    match body_html(ns, table, hl) {
        Some(b) => {
            let st = if cfg.show {
                toc_finalize(toc_after(ns, cfg.align))
            } else {
                toc_init(cfg.align)
            };
            Some(replace_ph(b, encode_utf8(toc_markup(st.tokens))))
        },
        None => None,
    }
}

/// Renders a parsed document.  Every code block must be trivial or have
/// its fragment cached; otherwise the pass fails with
/// [`Error::MissingHighlight`] (collect the needed fragments first with
/// [`missing_highlights`] and store them with
/// [`crate::highlight::code_block_finish`]).
pub fn render_markdown(
    nodes: &Vec<Node>,
    table: &Vec<Abbr>,
    cfg: TocConfig,
    hl: &Cache,
) -> (r: Result<Vec<u8>, Error>)
    requires
        hl.wf(),
        wf_nodes(nodes_view(nodes@)),
    ensures
        match r {
            Ok(out) => render_spec(nodes_view(nodes@), abbr_pairs(table@), hl@, cfg) == Some(
                out@,
            ),
            Err(e) => {
                &&& e == Error::MissingHighlight
                &&& render_spec(nodes_view(nodes@), abbr_pairs(table@), hl@, cfg) is None
            },
        },
{
    let ghost ns = nodes_view(nodes@);
    let ghost gtable = abbr_pairs(table@);
    let mut rend = Renderer::new(cfg);
    let mut i: usize = 0;
    proof {
        assert(ns.take(0) =~= Seq::<NodeV>::empty());
    }
    while i < nodes.len()
        invariant
            hl.wf(),
            ns == nodes_view(nodes@),
            gtable == abbr_pairs(table@),
            wf_nodes(ns),
            i <= nodes@.len(),
            rend@.config == cfg,
            toc_wf(rend@.toc),
            body_html(ns.take(i as int), gtable, hl@) == Some(rend@.html),
            rend@.toc == if cfg.show {
                toc_after(ns.take(i as int), cfg.align)
            } else {
                toc_init(cfg.align)
            },
        decreases nodes@.len() - i,
    {
        let ghost prefix = ns.take(i as int);
        proof {
            assert(ns.take(i + 1).drop_last() =~= prefix);
            assert(ns.take(i + 1).last() == ns[i as int]);
            assert(ns[i as int] == node_view(nodes@[i as int]));
            assert(wf_node(ns[i as int]));
        }
        match &nodes[i] {
            Node::Text(t) => {
                rend.text(t.as_str(), table);
            },
            Node::CodeBlock { lang, code } => {
                match rend.code_block(lang.as_str(), code, hl) {
                    Ok(u) => {
                    },
                    Err(e) => {
                        proof {
                            lemma_body_html_none(ns, gtable, hl@, i as int);
                        }
                        return Err(e);
                    },
                }
            },
            Node::Header { level, content } => {
                rend.header(*level, content.as_str());
            },
            Node::Math { text, display } => {
                rend.math(text.as_str(), *display);
            },
            Node::HtmlSpan(t) => {
                rend.html_span(t.as_str());
            },
            Node::FootnoteDef { content, num } => {
                rend.footnote_definition(content.as_str(), *num);
            },
            Node::Other(h) => {
                rend.other(h.as_str());
            },
        }
        i = i + 1;
        proof {
            assert(body_html(ns.take(i as int), gtable, hl@) == Some(rend@.html));
            assert(rend@.toc == if cfg.show {
                toc_after(ns.take(i as int), cfg.align)
            } else {
                toc_init(cfg.align)
            });
        }
    }
    proof {
        assert(ns.take(nodes@.len() as int) =~= ns);
    }
    rend.after_render();
    Ok(rend.finish())
}

} // verus!
