//! Table-of-contents assembly.
//!
//! While headers are visited during a render pass, the builder accumulates
//! nested list markup: the first header opens the container and fixes the
//! level offset (so the first header always starts a top-level list), a
//! deeper header opens one list/item pair per level of increase, a
//! shallower one closes pairs down to its level, and a sibling closes and
//! reopens an item.  At the end of the document the remaining open pairs
//! and the container are closed.  The markup is accumulated as tokens so
//! that the balance of the emitted list and item tags is visible in the
//! contracts; `render` concatenates the tokens' markup.

use vstd::prelude::*;
use vstd::string::StringExecFns;

use crate::error::Error;
use crate::text::str_eq;

verus! {

/// Where the rendered container floats.
#[derive(Clone, Copy, Debug, PartialEq, Eq, Structural)]
pub enum Align {
    Left,
    Right,
}

/// Document-level table-of-contents settings, read from front matter.
#[derive(Clone, Copy, Debug, PartialEq, Eq, Structural)]
pub struct TocConfig {
    pub show: bool,
    pub align: Align,
}

/// Interprets the `toc.show` and `toc.align` front-matter values.  Both
/// default when absent: emission off, alignment left.  Any alignment
/// other than `left` or `right` is a fatal configuration error.
pub fn parse_toc_config(show: Option<bool>, align: Option<&str>) -> (r: Result<TocConfig, Error>)
    ensures
        match r {
            Ok(c) => {
                &&& c.show == (show == Some(true))
                &&& (align is None || align->0@ == "left"@ || align->0@ == "right"@)
                &&& c.align == (if align is Some && align->0@ == "right"@ {
                    Align::Right
                } else {
                    Align::Left
                })
            },
            Err(e) => {
                &&& e == Error::InvalidAlign
                &&& align is Some
                &&& align->0@ != "left"@
                &&& align->0@ != "right"@
            },
        },
{
    let show_flag = match show {
        Some(b) => b,
        None => false,
    };
    let align_flag = match align {
        None => Align::Left,
        Some(a) => {
            if str_eq(a, "right") {
                Align::Right
            } else if str_eq(a, "left") {
                Align::Left
            } else {
                return Err(Error::InvalidAlign);
            }
        },
    };
    Ok(TocConfig { show: show_flag, align: align_flag })
}

/// One piece of accumulated table-of-contents markup.
pub enum TocToken {
    /// The container prologue, with the alignment class when right-aligned.
    ContainerOpen(Align),
    /// A nested list together with its first item: `<ol>` `<li>`.
    OpenListItem,
    /// `</li>`, closing the current item before stepping shallower.
    CloseItem,
    /// `</ol>` `</li>`, closing one nesting level mid-document.
    CloseListItem,
    /// `<li>`, reopening an item after stepping shallower.
    OpenItem,
    /// `</li>` `<li>`, moving to a sibling item.
    Sibling,
    /// `</li>` `</ol>`, closing one nesting level at end of document.
    FinalClose,
    /// The container epilogue.
    ContainerClose,
    /// The link to a header's anchor.
    Anchor { slug: String, text: String },
}

/// The ghost image of a token.
pub ghost enum TokenV {
    ContainerOpen(Align),
    OpenListItem,
    CloseItem,
    CloseListItem,
    OpenItem,
    Sibling,
    FinalClose,
    ContainerClose,
    Anchor(Seq<char>, Seq<char>),
}

pub open spec fn token_view(t: TocToken) -> TokenV {
    match t {
        TocToken::ContainerOpen(a) => TokenV::ContainerOpen(a),
        TocToken::OpenListItem => TokenV::OpenListItem,
        TocToken::CloseItem => TokenV::CloseItem,
        TocToken::CloseListItem => TokenV::CloseListItem,
        TocToken::OpenItem => TokenV::OpenItem,
        TocToken::Sibling => TokenV::Sibling,
        TocToken::FinalClose => TokenV::FinalClose,
        TocToken::ContainerClose => TokenV::ContainerClose,
        TocToken::Anchor { slug, text } => TokenV::Anchor(slug@, text@),
    }
}

pub open spec fn tokens_view(ts: Seq<TocToken>) -> Seq<TokenV> {
    ts.map_values(|t: TocToken| token_view(t))
}

/// The markup a token renders to.
pub open spec fn token_markup(t: TokenV) -> Seq<char> {
    match t {
        TokenV::ContainerOpen(a) => "<nav id=\"toc\""@ + (if a == Align::Right {
            "class=\"right-toc\""@
        } else {
            Seq::<char>::empty()
        }) + ">\n<h3>Contents</h3>"@,
        TokenV::OpenListItem => "<ol>\n<li>\n"@,
        TokenV::CloseItem => "</li>\n"@,
        TokenV::CloseListItem => "</ol>\n</li>\n"@,
        TokenV::OpenItem => "<li>\n"@,
        TokenV::Sibling => "</li>\n<li>\n"@,
        TokenV::FinalClose => "</li>\n</ol>\n"@,
        TokenV::ContainerClose => "</nav>"@,
        TokenV::Anchor(slug, text) => "<a href=\"#"@ + slug + "\">"@ + text + "</a>\n"@,
    }
}

/// The accumulated markup of a token sequence.
pub open spec fn toc_markup(ts: Seq<TokenV>) -> Seq<char>
    decreases ts.len(),
{
    if ts.len() == 0 {
        Seq::<char>::empty()
    } else {
        toc_markup(ts.drop_last()) + token_markup(ts.last())
    }
}

/// How many `<ol>` a token opens.
pub open spec fn list_open_delta(t: TokenV) -> int {
    match t {
        TokenV::OpenListItem => 1,
        _ => 0,
    }
}

/// How many `</ol>` a token emits.
pub open spec fn list_close_delta(t: TokenV) -> int {
    match t {
        TokenV::CloseListItem => 1,
        TokenV::FinalClose => 1,
        _ => 0,
    }
}

/// How many `<li>` a token opens.
pub open spec fn item_open_delta(t: TokenV) -> int {
    match t {
        TokenV::OpenListItem => 1,
        TokenV::OpenItem => 1,
        TokenV::Sibling => 1,
        _ => 0,
    }
}

/// How many `</li>` a token emits.
pub open spec fn item_close_delta(t: TokenV) -> int {
    match t {
        TokenV::CloseItem => 1,
        TokenV::CloseListItem => 1,
        TokenV::Sibling => 1,
        TokenV::FinalClose => 1,
        _ => 0,
    }
}

pub open spec fn list_open_count(ts: Seq<TokenV>) -> int
    decreases ts.len(),
{
    if ts.len() == 0 {
        0
    } else {
        list_open_count(ts.drop_last()) + list_open_delta(ts.last())
    }
}

pub open spec fn list_close_count(ts: Seq<TokenV>) -> int
    decreases ts.len(),
{
    if ts.len() == 0 {
        0
    } else {
        list_close_count(ts.drop_last()) + list_close_delta(ts.last())
    }
}

pub open spec fn item_open_count(ts: Seq<TokenV>) -> int
    decreases ts.len(),
{
    if ts.len() == 0 {
        0
    } else {
        item_open_count(ts.drop_last()) + item_open_delta(ts.last())
    }
}

pub open spec fn item_close_count(ts: Seq<TokenV>) -> int
    decreases ts.len(),
{
    if ts.len() == 0 {
        0
    } else {
        item_close_count(ts.drop_last()) + item_close_delta(ts.last())
    }
}

/// The state of the builder between header visits.
pub ghost struct TocState {
    pub tokens: Seq<TokenV>,
    pub depth: int,
    pub offset: int,
    pub started: bool,
    pub align: Align,
}

/// The builder's invariant: the nesting depth is never negative, and the
/// accumulated tokens carry exactly `depth` unclosed list tags and
/// `depth` unclosed item tags.
pub open spec fn toc_wf(st: TocState) -> bool {
    &&& 0 <= st.offset
    &&& (st.started ==> 1 <= st.depth)
    &&& (!st.started ==> st.depth == 0)
    &&& list_open_count(st.tokens) - list_close_count(st.tokens) == st.depth
    &&& item_open_count(st.tokens) - item_close_count(st.tokens) == st.depth
}

pub open spec fn toc_init(align: Align) -> TocState {
    TocState {
        tokens: Seq::<TokenV>::empty(),
        depth: 0,
        offset: 0,
        started: false,
        align: align,
    }
}

pub open spec fn open_pairs(n: int) -> Seq<TokenV>
    decreases n,
{
    if n <= 0 {
        Seq::<TokenV>::empty()
    } else {
        open_pairs(n - 1).push(TokenV::OpenListItem)
    }
}

pub open spec fn close_pairs(n: int) -> Seq<TokenV>
    decreases n,
{
    if n <= 0 {
        Seq::<TokenV>::empty()
    } else {
        close_pairs(n - 1).push(TokenV::CloseListItem)
    }
}

pub open spec fn final_closes(n: int) -> Seq<TokenV>
    decreases n,
{
    if n <= 0 {
        Seq::<TokenV>::empty()
    } else {
        final_closes(n - 1).push(TokenV::FinalClose)
    }
}

/// A header's level relative to the offset, clamped to one so that a
/// header shallower than the first never unwinds past the top-level list.
pub open spec fn clamp_level(level: int, offset: int) -> int {
    if level - offset < 1 {
        1
    } else {
        level - offset
    }
}

/// The state after the container prologue, emitted by the first header.
pub open spec fn toc_started(st: TocState, level: int) -> TocState {
    if st.started {
        st
    } else {
        TocState {
            tokens: st.tokens.push(TokenV::ContainerOpen(st.align)),
            depth: 0,
            offset: level - 1,
            started: true,
            align: st.align,
        }
    }
}

/// The nesting adjustment a header at clamped level `l` performs.
pub open spec fn toc_adjust(st: TocState, l: int) -> TocState {
    if l > st.depth {
        TocState {
            tokens: st.tokens + open_pairs(l - st.depth),
            depth: l,
            offset: st.offset,
            started: st.started,
            align: st.align,
        }
    } else if l < st.depth {
        TocState {
            tokens: st.tokens.push(TokenV::CloseItem) + close_pairs(st.depth - l) + seq![
                TokenV::OpenItem,
            ],
            depth: l,
            offset: st.offset,
            started: st.started,
            align: st.align,
        }
    } else {
        TocState {
            tokens: st.tokens.push(TokenV::Sibling),
            depth: st.depth,
            offset: st.offset,
            started: st.started,
            align: st.align,
        }
    }
}

/// The full transition for one header visit.
pub open spec fn toc_visit(st: TocState, level: int, slug: Seq<char>, text: Seq<char>) -> TocState {
    let st1 = toc_started(st, level);
    let st2 = toc_adjust(st1, clamp_level(level, st1.offset));
    TocState {
        tokens: st2.tokens.push(TokenV::Anchor(slug, text)),
        depth: st2.depth,
        offset: st2.offset,
        started: st2.started,
        align: st2.align,
    }
}

/// The end-of-document transition: close the remaining open pairs, then
/// the container.
pub open spec fn toc_finalize(st: TocState) -> TocState {
    TocState {
        tokens: st.tokens + final_closes(st.depth) + seq![TokenV::ContainerClose],
        depth: 0,
        offset: st.offset,
        started: st.started,
        align: st.align,
    }
}

proof fn lemma_open_pairs_counts(n: int)
    requires
        n >= 0,
    ensures
        list_open_count(open_pairs(n)) == n,
        list_close_count(open_pairs(n)) == 0,
        item_open_count(open_pairs(n)) == n,
        item_close_count(open_pairs(n)) == 0,
    decreases n,
{
    if n > 0 {
        lemma_open_pairs_counts(n - 1);
        lemma_counts_push(open_pairs(n - 1), TokenV::OpenListItem);
    }
}

proof fn lemma_close_pairs_counts(n: int)
    requires
        n >= 0,
    ensures
        list_open_count(close_pairs(n)) == 0,
        list_close_count(close_pairs(n)) == n,
        item_open_count(close_pairs(n)) == 0,
        item_close_count(close_pairs(n)) == n,
    decreases n,
{
    if n > 0 {
        lemma_close_pairs_counts(n - 1);
        lemma_counts_push(close_pairs(n - 1), TokenV::CloseListItem);
    }
}

proof fn lemma_final_closes_counts(n: int)
    requires
        n >= 0,
    ensures
        list_open_count(final_closes(n)) == 0,
        list_close_count(final_closes(n)) == n,
        item_open_count(final_closes(n)) == 0,
        item_close_count(final_closes(n)) == n,
    decreases n,
{
    if n > 0 {
        lemma_final_closes_counts(n - 1);
        lemma_counts_push(final_closes(n - 1), TokenV::FinalClose);
    }
}

proof fn lemma_counts_single(t: TokenV)
    ensures
        list_open_count(seq![t]) == list_open_delta(t),
        list_close_count(seq![t]) == list_close_delta(t),
        item_open_count(seq![t]) == item_open_delta(t),
        item_close_count(seq![t]) == item_close_delta(t),
{
    assert(seq![t].drop_last() =~= Seq::<TokenV>::empty());
    assert(seq![t].last() == t);
    assert(list_open_count(Seq::<TokenV>::empty()) == 0);
    assert(list_close_count(Seq::<TokenV>::empty()) == 0);
    assert(item_open_count(Seq::<TokenV>::empty()) == 0);
    assert(item_close_count(Seq::<TokenV>::empty()) == 0);
}

proof fn lemma_counts_push(ts: Seq<TokenV>, t: TokenV)
    ensures
        list_open_count(ts.push(t)) == list_open_count(ts) + list_open_delta(t),
        list_close_count(ts.push(t)) == list_close_count(ts) + list_close_delta(t),
        item_open_count(ts.push(t)) == item_open_count(ts) + item_open_delta(t),
        item_close_count(ts.push(t)) == item_close_count(ts) + item_close_delta(t),
{
    assert(ts.push(t).drop_last() =~= ts);
    assert(ts.push(t).last() == t);
}

proof fn lemma_counts_concat(a: Seq<TokenV>, b: Seq<TokenV>)
    ensures
        list_open_count(a + b) == list_open_count(a) + list_open_count(b),
        list_close_count(a + b) == list_close_count(a) + list_close_count(b),
        item_open_count(a + b) == item_open_count(a) + item_open_count(b),
        item_close_count(a + b) == item_close_count(a) + item_close_count(b),
    decreases b.len(),
{
    if b.len() == 0 {
        assert(a + b =~= a);
    } else {
        lemma_counts_concat(a, b.drop_last());
        assert((a + b).drop_last() =~= a + b.drop_last());
        assert((a + b).last() == b.last());
    }
}

/// A header visit preserves the builder invariant, whatever the slug and
/// text.
pub proof fn lemma_toc_visit_wf(st: TocState, level: int, slug: Seq<char>, text: Seq<char>)
    requires
        toc_wf(st),
        level >= 1,
    ensures
        toc_wf(toc_visit(st, level, slug, text)),
{
    let st1 = toc_started(st, level);
    if !st.started {
        lemma_counts_push(st.tokens, TokenV::ContainerOpen(st.align));
    }
    let l = clamp_level(level, st1.offset);
    assert(l >= 1);
    let st2 = toc_adjust(st1, l);
    if l > st1.depth {
        lemma_open_pairs_counts(l - st1.depth);
        lemma_counts_concat(st1.tokens, open_pairs(l - st1.depth));
    } else if l < st1.depth {
        lemma_counts_push(st1.tokens, TokenV::CloseItem);
        lemma_close_pairs_counts(st1.depth - l);
        lemma_counts_concat(st1.tokens.push(TokenV::CloseItem), close_pairs(st1.depth - l));
        lemma_counts_concat(
            st1.tokens.push(TokenV::CloseItem) + close_pairs(st1.depth - l),
            seq![TokenV::OpenItem],
        );
        lemma_counts_single(TokenV::OpenItem);
    } else {
        lemma_counts_push(st1.tokens, TokenV::Sibling);
    }
    lemma_counts_push(st2.tokens, TokenV::Anchor(slug, text));
}

/// Finalizing a well-formed builder balances the markup: the tokens carry
/// exactly as many closing list and item tags as opening ones.
pub proof fn lemma_toc_finalize_balanced(st: TocState)
    requires
        toc_wf(st),
    ensures
        list_open_count(toc_finalize(st).tokens) == list_close_count(toc_finalize(st).tokens),
        item_open_count(toc_finalize(st).tokens) == item_close_count(toc_finalize(st).tokens),
{
    lemma_final_closes_counts(st.depth);
    lemma_counts_concat(st.tokens, final_closes(st.depth));
    lemma_counts_concat(st.tokens + final_closes(st.depth), seq![TokenV::ContainerClose]);
    lemma_counts_single(TokenV::ContainerClose);
}

/// A run of the state machine over a sequence of headers, each a level
/// with the slug and text of its anchor.
pub open spec fn toc_run(st: TocState, hs: Seq<(int, Seq<char>, Seq<char>)>) -> TocState
    decreases hs.len(),
{
    if hs.len() == 0 {
        st
    } else {
        toc_run(toc_visit(st, hs[0].0, hs[0].1, hs[0].2), hs.drop_first())
    }
}

proof fn lemma_toc_run_wf(st: TocState, hs: Seq<(int, Seq<char>, Seq<char>)>)
    requires
        toc_wf(st),
        forall|i: int| 0 <= i < hs.len() ==> (#[trigger] hs[i]).0 >= 1,
    ensures
        toc_wf(toc_run(st, hs)),
    decreases hs.len(),
{
    if hs.len() > 0 {
        lemma_toc_visit_wf(st, hs[0].0, hs[0].1, hs[0].2);
        lemma_toc_run_wf(toc_visit(st, hs[0].0, hs[0].1, hs[0].2), hs.drop_first());
    }
}

/// Visiting any sequence of headers with levels at least one, starting
/// from a fresh builder, and then finalizing, yields markup in which the
/// number of closing list tags equals the number of opening list tags,
/// and likewise for item tags; and the nesting depth never goes negative
/// along the way (every reachable state is well formed).
pub proof fn lemma_toc_balanced(align: Align, hs: Seq<(int, Seq<char>, Seq<char>)>)
    requires
        forall|i: int| 0 <= i < hs.len() ==> (#[trigger] hs[i]).0 >= 1,
    ensures
        toc_wf(toc_run(toc_init(align), hs)),
        list_open_count(toc_finalize(toc_run(toc_init(align), hs)).tokens) == list_close_count(
            toc_finalize(toc_run(toc_init(align), hs)).tokens,
        ),
        item_open_count(toc_finalize(toc_run(toc_init(align), hs)).tokens) == item_close_count(
            toc_finalize(toc_run(toc_init(align), hs)).tokens,
        ),
{
    lemma_toc_run_wf(toc_init(align), hs);
    lemma_toc_finalize_balanced(toc_run(toc_init(align), hs));
}

/// The stateful accumulator wired into a render pass.
pub struct TocBuilder {
    tokens: Vec<TocToken>,
    depth: u32,
    offset: u32,
    started: bool,
    align: Align,
}

impl View for TocBuilder {
    type V = TocState;

    closed spec fn view(&self) -> TocState {
        TocState {
            tokens: tokens_view(self.tokens@),
            depth: self.depth as int,
            offset: self.offset as int,
            started: self.started,
            align: self.align,
        }
    }
}

impl TocBuilder {
    /// A fresh builder with no headers seen.
    pub fn new(align: Align) -> (b: TocBuilder)
        ensures
            b@ == toc_init(align),
            toc_wf(b@),
    {
        let b = TocBuilder {
            tokens: Vec::new(),
            depth: 0,
            offset: 0,
            started: false,
            align: align,
        };
        proof {
            assert(tokens_view(b.tokens@) =~= Seq::<TokenV>::empty());
            assert(b@.tokens =~= toc_init(align).tokens);
        }
        b
    }

    /// Accumulates the markup for one header: the container prologue if
    /// this is the first header, the nesting adjustment for its level,
    /// and the anchor link.
    pub fn visit_header(&mut self, level: u32, slug: String, text: String)
        requires
            1 <= level,
            toc_wf(old(self)@),
        ensures
            final(self)@ == toc_visit(old(self)@, level as int, slug@, text@),
            toc_wf(final(self)@),
    {
        proof {
            lemma_toc_visit_wf(old(self)@, level as int, slug@, text@);
        }
        let ghost st0 = self@;
        if !self.started {
            self.tokens.push(TocToken::ContainerOpen(self.align));
            self.started = true;
            self.offset = level - 1;
            self.depth = 0;
            proof {
                assert(tokens_view(self.tokens@) =~= st0.tokens.push(
                    TokenV::ContainerOpen(st0.align),
                ));
            }
        }
        let ghost st1 = toc_started(st0, level as int);
        proof {
            assert(self@ == st1);
        }
        let l: u32 = if level <= self.offset {
            1
        } else {
            level - self.offset
        };
        proof {
            assert(l as int == clamp_level(level as int, st1.offset));
        }
        if l > self.depth {
            while self.depth < l
                invariant
                    st1.depth <= self.depth as int <= l,
                    self.offset == st1.offset,
                    self.started == st1.started,
                    self.align == st1.align,
                    tokens_view(self.tokens@) == st1.tokens + open_pairs(
                        self.depth as int - st1.depth,
                    ),
                decreases l - self.depth,
            {
                self.tokens.push(TocToken::OpenListItem);
                self.depth = self.depth + 1;
                proof {
                    assert(tokens_view(self.tokens@) =~= (st1.tokens + open_pairs(
                        self.depth as int - 1 - st1.depth,
                    )).push(TokenV::OpenListItem));
                    assert(open_pairs(self.depth as int - st1.depth) =~= open_pairs(
                        self.depth as int - 1 - st1.depth,
                    ).push(TokenV::OpenListItem));
                    assert(tokens_view(self.tokens@) =~= st1.tokens + open_pairs(
                        self.depth as int - st1.depth,
                    ));
                }
            }
        } else if l < self.depth {
            self.tokens.push(TocToken::CloseItem);
            let ghost closed_base = st1.tokens.push(TokenV::CloseItem);
            proof {
                assert(tokens_view(self.tokens@) =~= closed_base);
                assert(tokens_view(self.tokens@) =~= closed_base + close_pairs(0));
            }
            while l < self.depth
                invariant
                    l as int <= self.depth as int <= st1.depth,
                    self.offset == st1.offset,
                    self.started == st1.started,
                    self.align == st1.align,
                    closed_base == st1.tokens.push(TokenV::CloseItem),
                    tokens_view(self.tokens@) == closed_base + close_pairs(
                        st1.depth - self.depth as int,
                    ),
                decreases self.depth - l,
            {
                self.tokens.push(TocToken::CloseListItem);
                self.depth = self.depth - 1;
                proof {
                    assert(tokens_view(self.tokens@) =~= (closed_base + close_pairs(
                        st1.depth - self.depth as int - 1,
                    )).push(TokenV::CloseListItem));
                    assert(close_pairs(st1.depth - self.depth as int) =~= close_pairs(
                        st1.depth - self.depth as int - 1,
                    ).push(TokenV::CloseListItem));
                    assert(tokens_view(self.tokens@) =~= closed_base + close_pairs(
                        st1.depth - self.depth as int,
                    ));
                }
            }
            self.tokens.push(TocToken::OpenItem);
            proof {
                assert(tokens_view(self.tokens@) =~= (closed_base + close_pairs(
                    st1.depth - l as int,
                )).push(TokenV::OpenItem));
                assert((closed_base + close_pairs(st1.depth - l as int)).push(TokenV::OpenItem)
                    =~= closed_base + close_pairs(st1.depth - l as int) + seq![TokenV::OpenItem]);
            }
        } else {
            self.tokens.push(TocToken::Sibling);
            proof {
                assert(tokens_view(self.tokens@) =~= st1.tokens.push(TokenV::Sibling));
            }
        }
        let ghost st2 = toc_adjust(st1, l as int);
        proof {
            assert(self@ == st2);
        }
        let ghost gslug = slug@;
        let ghost gtext = text@;
        self.tokens.push(TocToken::Anchor { slug, text });
        proof {
            assert(tokens_view(self.tokens@) =~= st2.tokens.push(TokenV::Anchor(gslug, gtext)));
        }
    }

    /// Closes the remaining open pairs and the container.
    pub fn finalize(&mut self)
        requires
            toc_wf(old(self)@),
        ensures
            final(self)@ == toc_finalize(old(self)@),
            list_open_count(final(self)@.tokens) == list_close_count(final(self)@.tokens),
            item_open_count(final(self)@.tokens) == item_close_count(final(self)@.tokens),
    {
        proof {
            lemma_toc_finalize_balanced(old(self)@);
        }
        let ghost st0 = self@;
        proof {
            assert(tokens_view(self.tokens@) =~= st0.tokens + final_closes(0));
        }
        while self.depth > 0
            invariant
                0 <= self.depth as int <= st0.depth,
                self.offset == st0.offset,
                self.started == st0.started,
                self.align == st0.align,
                tokens_view(self.tokens@) == st0.tokens + final_closes(
                    st0.depth - self.depth as int,
                ),
            decreases self.depth,
        {
            self.tokens.push(TocToken::FinalClose);
            self.depth = self.depth - 1;
            proof {
                assert(tokens_view(self.tokens@) =~= (st0.tokens + final_closes(
                    st0.depth - self.depth as int - 1,
                )).push(TokenV::FinalClose));
                assert(final_closes(st0.depth - self.depth as int) =~= final_closes(
                    st0.depth - self.depth as int - 1,
                ).push(TokenV::FinalClose));
                assert(tokens_view(self.tokens@) =~= st0.tokens + final_closes(
                    st0.depth - self.depth as int,
                ));
            }
        }
        self.tokens.push(TocToken::ContainerClose);
        proof {
            assert(tokens_view(self.tokens@) =~= (st0.tokens + final_closes(st0.depth)).push(
                TokenV::ContainerClose,
            ));
            assert((st0.tokens + final_closes(st0.depth)).push(TokenV::ContainerClose) =~= st0.tokens
                + final_closes(st0.depth) + seq![TokenV::ContainerClose]);
        }
    }

    /// The accumulated markup.
    pub fn render(&self) -> (r: String)
        ensures
            r@ == toc_markup(self@.tokens),
    {
        let mut out = String::new();
        let mut i: usize = 0;
        proof {
            assert(tokens_view(self.tokens@).take(0) =~= Seq::<TokenV>::empty());
        }
        while i < self.tokens.len()
            invariant
                i <= self.tokens@.len(),
                out@ == toc_markup(tokens_view(self.tokens@).take(i as int)),
            decreases self.tokens@.len() - i,
        {
            let ghost ts = tokens_view(self.tokens@);
            match &self.tokens[i] {
                TocToken::ContainerOpen(a) => {
                    out.append("<nav id=\"toc\"");
                    if *a == Align::Right {
                        out.append("class=\"right-toc\"");
                    }
                    out.append(">\n<h3>Contents</h3>");
                },
                TocToken::OpenListItem => {
                    out.append("<ol>\n<li>\n");
                },
                TocToken::CloseItem => {
                    out.append("</li>\n");
                },
                TocToken::CloseListItem => {
                    out.append("</ol>\n</li>\n");
                },
                TocToken::OpenItem => {
                    out.append("<li>\n");
                },
                TocToken::Sibling => {
                    out.append("</li>\n<li>\n");
                },
                TocToken::FinalClose => {
                    out.append("</li>\n</ol>\n");
                },
                TocToken::ContainerClose => {
                    out.append("</nav>");
                },
                TocToken::Anchor { slug, text } => {
                    out.append("<a href=\"#");
                    out.append(slug.as_str());
                    out.append("\">");
                    out.append(text.as_str());
                    out.append("</a>\n");
                },
            }
            i = i + 1;
            proof {
                assert(ts.take(i as int).drop_last() =~= ts.take(i - 1));
                assert(ts.take(i as int).last() == ts[i - 1]);
                assert(out@ =~= toc_markup(ts.take(i as int)));
            }
        }
        proof {
            assert(tokens_view(self.tokens@).take(self.tokens@.len() as int) =~= tokens_view(
                self.tokens@,
            ));
        }
        out
    }
}

} // verus!
