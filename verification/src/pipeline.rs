//! The whole-document pipeline: preprocessing and the render cache.
//!
//! A document is preprocessed (abbreviation definitions extracted, the
//! cleaned source digested), then looked up in the render cache under the
//! digest of the cleaned source.  On a hit the cached bytes are returned
//! and nothing is parsed or rendered; on a miss the caller parses the
//! cleaned source, answers any outstanding highlight requests, and the
//! full render pass runs, its output stored under the digest before it is
//! returned.

use vstd::prelude::*;
use vstd::string::StringExecFns;
use vstd::utf8::encode_utf8;

use crate::abbr::{abbr_pairs, def_table, strip_abbreviations, strip_defs, table_ok, Abbr};
use crate::cache::Cache;
use crate::digest::{digest_hex, digest_of};
use crate::error::Error;
use crate::render::{nodes_view, render_markdown, render_spec, wf_nodes, Node};
use crate::toc::TocConfig;

verus! {

/// The key under which a document's render is cached: the digest of the
/// abbreviation-stripped source bytes.
pub open spec fn doc_key(source: Seq<char>) -> Seq<char> {
    digest_of(encode_utf8(strip_defs(source)))
}

/// A preprocessed document: the abbreviation-stripped source, the
/// abbreviation table, and the render-cache key.
pub struct Prepared {
    pub clean: String,
    pub table: Vec<Abbr>,
    pub digest: String,
}

/// Runs the abbreviation preprocessor and computes the render-cache key.
/// Fails if and only if some abbreviation key contains the reserved
/// separator `|`.
pub fn preprocess(source: &str) -> (r: Result<Prepared, Error>)
    ensures
        match r {
            Ok(p) => {
                &&& table_ok(def_table(source@))
                &&& p.clean@ == strip_defs(source@)
                &&& abbr_pairs(p.table@) == def_table(source@)
                &&& p.digest@ == doc_key(source@)
            },
            Err(e) => {
                &&& e == Error::ReservedAbbrKey
                &&& !table_ok(def_table(source@))
            },
        },
{
    match strip_abbreviations(source) {
        Ok((clean, table)) => {
            let digest = digest_hex(clean.as_str().as_bytes());
            Ok(Prepared { clean, table, digest })
        },
        Err(e) => Err(e),
    }
}

/// What a document yields under a render cache: the cached bytes on a
/// hit, the fresh render (if it succeeded) on a miss.
pub open spec fn document_result(
    doc: Map<Seq<char>, Seq<u8>>,
    key: Seq<char>,
    rendered: Option<Seq<u8>>,
) -> Option<Seq<u8>> {
    if doc.contains_key(key) {
        Some(doc[key])
    } else {
        rendered
    }
}

/// The render cache after a document was processed: a successful fresh
/// render is stored under its key; a hit or a failed render leaves the
/// cache unchanged.
pub open spec fn document_next(
    doc: Map<Seq<char>, Seq<u8>>,
    key: Seq<char>,
    rendered: Option<Seq<u8>>,
) -> Map<Seq<char>, Seq<u8>> {
    if doc.contains_key(key) || rendered is None {
        doc
    } else {
        doc.insert(key, rendered->0)
    }
}

/// Renders a parsed document through the render cache.  On a hit the
/// cached bytes come back and the render pass is skipped entirely; on a
/// miss the pass runs and its output is stored under the digest.
pub fn render_document(
    doc_cache: &mut Cache,
    digest: &str,
    nodes: &Vec<Node>,
    table: &Vec<Abbr>,
    cfg: TocConfig,
    hl: &Cache,
) -> (r: Result<Vec<u8>, Error>)
    requires
        old(doc_cache).wf(),
        hl.wf(),
        wf_nodes(nodes_view(nodes@)),
    ensures
        final(doc_cache).wf(),
        final(doc_cache)@ == document_next(
            old(doc_cache)@,
            digest@,
            render_spec(nodes_view(nodes@), abbr_pairs(table@), hl@, cfg),
        ),
        match r {
            Ok(out) => document_result(
                old(doc_cache)@,
                digest@,
                render_spec(nodes_view(nodes@), abbr_pairs(table@), hl@, cfg),
            ) == Some(out@),
            Err(e) => {
                &&& e == Error::MissingHighlight
                &&& !old(doc_cache)@.contains_key(digest@)
                &&& render_spec(nodes_view(nodes@), abbr_pairs(table@), hl@, cfg) is None
            },
        },
{
    let hit = match doc_cache.get(digest) {
        Some(v) => {
            let mut out: Vec<u8> = Vec::new();
            out.extend_from_slice(v.as_slice());
            proof {
                assert(out@ =~= old(doc_cache)@[digest@]);
            }
            Some(out)
        },
        None => None,
    };
    match hit {
        Some(out) => Ok(out),
        None => {
            match render_markdown(nodes, table, cfg, hl) {
                Ok(out) => {
                    let mut stored: Vec<u8> = Vec::new();
                    stored.extend_from_slice(out.as_slice());
                    proof {
                        assert(stored@ =~= out@);
                    }
                    doc_cache.put(String::from_str(digest), stored);
                    Ok(out)
                },
                Err(e) => Err(e),
            }
        },
    }
}

/// Rendering the same document twice yields byte-identical output: after
/// one pass over a cache (cold or warm), a second pass over the cache the
/// first left behind returns exactly what the first returned — even if
/// the fragment cache has gained entries in between (`rendered2`), since
/// the second pass is answered from the render cache.  The first pass
/// must have produced output (a hit, or a successful render).
pub proof fn lemma_document_idempotent(
    doc: Map<Seq<char>, Seq<u8>>,
    key: Seq<char>,
    rendered: Option<Seq<u8>>,
    rendered2: Option<Seq<u8>>,
)
    requires
        document_result(doc, key, rendered) is Some,
    ensures
        document_result(document_next(doc, key, rendered), key, rendered2) == document_result(
            doc,
            key,
            rendered,
        ),
{
}

} // verus!
