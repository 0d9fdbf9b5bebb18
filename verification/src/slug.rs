//! Anchor-safe slugs for header links.
//!
//! A header's inline content is first reduced to plain text by rendering
//! it through a pass-through visitor ([`Pass`]) that emits link text
//! without the link wrapper; the plain text is then sanitized: whitespace
//! becomes `-`, alphabetic characters, digits, `_`, `-` and `.` are kept
//! (lowercased), everything else is dropped, and leading characters up to
//! the first alphabetic one are removed so a slug never starts with a
//! digit or separator.

use vstd::prelude::*;
use vstd::string::StrSliceExecFns;
use vstd::string::StringExecFns;

use crate::text::{chars_string, push_range, str_chars};

verus! {

/// Whether a character counts as whitespace; the result depends on the
/// character alone.
pub uninterp spec fn whitespace_char(c: char) -> bool;

/// Whether a character is alphabetic; the result depends on the character
/// alone.
pub uninterp spec fn alphabetic_char(c: char) -> bool;

/// The character a character lowercases to; the result depends on the
/// character alone.
pub uninterp spec fn lower_char(c: char) -> char;

/// Relies on `char::is_whitespace`: a pure classification of the
/// character.
#[verifier::external_body]
fn is_whitespace(c: char) -> (r: bool)
    ensures
        r == whitespace_char(c),
{
    c.is_whitespace()
}

/// Relies on `char::is_alphabetic`: a pure classification of the
/// character.
#[verifier::external_body]
fn is_alphabetic(c: char) -> (r: bool)
    ensures
        r == alphabetic_char(c),
{
    c.is_alphabetic()
}

/// Relies on `char::to_lowercase`: the lowercase mapping of a character
/// yields at least one character, and only its first is kept (the
/// fallback argument of `unwrap_or` is never used).
#[verifier::external_body]
fn to_lower(c: char) -> (r: char)
    ensures
        r == lower_char(c),
{
    c.to_lowercase().next().unwrap_or(c)
}

/// The characters kept by the sanitizer (besides whitespace, which maps
/// to `-`).
pub open spec fn sluggish_char(c: char) -> bool {
    ||| alphabetic_char(c)
    ||| '0' <= c && c <= '9'
    ||| c == '_'
    ||| c == '-'
    ||| c == '.'
}

/// What one character contributes to the raw slug.
pub open spec fn slug_map_char(c: char) -> Seq<char> {
    if whitespace_char(c) {
        seq!['-']
    } else if sluggish_char(c) {
        seq![lower_char(c)]
    } else {
        Seq::<char>::empty()
    }
}

/// The raw slug: each character mapped, before leading trimming.
pub open spec fn slug_map(s: Seq<char>) -> Seq<char>
    decreases s.len(),
{
    if s.len() == 0 {
        Seq::<char>::empty()
    } else {
        slug_map_char(s[0]) + slug_map(s.drop_first())
    }
}

proof fn lemma_slug_map_snoc(s: Seq<char>, c: char)
    ensures
        slug_map(s.push(c)) == slug_map(s) + slug_map_char(c),
    decreases s.len(),
{
    if s.len() == 0 {
        assert(s.push(c)[0] == c);
        assert(s.push(c).drop_first() =~= s);
        assert(slug_map(s.push(c)) =~= slug_map(s) + slug_map_char(c));
    } else {
        lemma_slug_map_snoc(s.drop_first(), c);
        assert(s.push(c).drop_first() =~= s.drop_first().push(c));
        assert(s.push(c)[0] == s[0]);
        assert(slug_map(s.push(c)) =~= slug_map(s) + slug_map_char(c));
    }
}

/// The sequence with its leading non-alphabetic characters removed.
pub open spec fn skip_nonalpha(s: Seq<char>) -> Seq<char>
    decreases s.len(),
{
    if s.len() == 0 {
        s
    } else if alphabetic_char(s[0]) {
        s
    } else {
        skip_nonalpha(s.drop_first())
    }
}

proof fn lemma_skip_nonalpha_at(s: Seq<char>, m: int)
    requires
        0 <= m <= s.len(),
        forall|k: int| 0 <= k < m ==> !alphabetic_char(s[k]),
        m < s.len() ==> alphabetic_char(s[m]),
    ensures
        skip_nonalpha(s) == s.skip(m),
    decreases m,
{
    if m == 0 {
        assert(s.skip(0) =~= s);
    } else {
        lemma_skip_nonalpha_at(s.drop_first(), m - 1);
        assert(s.drop_first().skip(m - 1) =~= s.skip(m));
    }
}

/// The slug of a piece of plain text.
pub open spec fn slug_of(s: Seq<char>) -> Seq<char> {
    skip_nonalpha(slug_map(s))
}

/// The index of the first alphabetic character, or the length when there
/// is none.
fn first_alpha(v: &Vec<char>) -> (r: usize)
    ensures
        r <= v@.len(),
        forall|k: int| 0 <= k < r ==> !alphabetic_char(v@[k]),
        r < v@.len() ==> alphabetic_char(v@[r as int]),
{
    let mut i: usize = 0;
    while i < v.len()
        invariant
            i <= v@.len(),
            forall|k: int| 0 <= k < i ==> !alphabetic_char(v@[k]),
        decreases v@.len() - i,
    {
        if is_alphabetic(v[i]) {
            return i;
        }
        i = i + 1;
    }
    i
}

/// Sanitizes a header's plain-text content into an anchor-safe slug.
/// The result is a function of the content alone: the same content always
/// yields the same slug.
pub fn sanitize(content: &str) -> (r: String)
    ensures
        r@ == slug_of(content@),
{
    let chars = str_chars(content);
    let len = chars.len();
    let mut mapped: Vec<char> = Vec::new();
    let mut i: usize = 0;
    proof {
        assert(content@.take(0) =~= Seq::<char>::empty());
    }
    while i < len
        invariant
            chars@ == content@,
            len == chars@.len(),
            i <= len,
            mapped@ == slug_map(content@.take(i as int)),
        decreases len - i,
    {
        let c = chars[i];
        if is_whitespace(c) {
            mapped.push('-');
        } else {
            let al = is_alphabetic(c);
            if al || ('0' <= c && c <= '9') || c == '_' || c == '-' || c == '.' {
                mapped.push(to_lower(c));
            }
        }
        proof {
            lemma_slug_map_snoc(content@.take(i as int), content@[i as int]);
            assert(content@.take(i + 1) =~= content@.take(i as int).push(content@[i as int]));
            assert(mapped@ =~= slug_map(content@.take(i + 1)));
        }
        i = i + 1;
    }
    proof {
        assert(content@.take(len as int) =~= content@);
    }
    // Drop everything before the first alphabetic character.
    let mlen = mapped.len();
    let a = first_alpha(&mapped);
    proof {
        lemma_skip_nonalpha_at(mapped@, a as int);
    }
    let mut out: Vec<char> = Vec::new();
    push_range(&mut out, &mapped, a, mlen);
    proof {
        assert(out@ =~= mapped@.skip(a as int));
    }
    chars_string(&out)
}

/// A pass-through inline renderer: when a header's content is reduced to
/// plain text for slug generation, a link contributes only its text, with
/// the wrapper and destination dropped.
pub struct Pass;

impl Pass {
    /// Emits the link's content, ignoring the destination and title.
    pub fn link(
        &mut self,
        output: &mut String,
        content: Option<&String>,
        link: Option<&String>,
        title: Option<&String>,
    ) -> (r: bool)
        ensures
            final(output)@ == old(output)@ + match content {
                Some(c) => c@,
                None => Seq::<char>::empty(),
            },
            r,
    {
        match content {
            Some(c) => {
                output.append(c.as_str());
            },
            None => {
                proof {
                    assert(output@ =~= output@ + Seq::<char>::empty());
                }
            },
        }
        true
    }
}

} // verus!
