//! Abbreviation definitions: extraction and substitution.
//!
//! A document may define abbreviations on lines of the form
//! `*[KEY]: EXPANSION`.  Preprocessing removes the text of every such line
//! (the line break stays, leaving a blank line) and collects the
//! definitions in order.  During rendering, every occurrence of a defined
//! key in a text node is wrapped in an expansion element carrying the full
//! phrase.  A key must not contain `|`: that character is reserved as the
//! separator when the keys are compiled into a single matcher pattern, and
//! a key containing it aborts the document's build.

use vstd::prelude::*;

use crate::error::Error;
use crate::text::{
    chars_string, find_char, lemma_find_char, lemma_find_char_is, push_range, scan_char,
    str_chars,
};

verus! {

/// One abbreviation definition: the key as it occurs in the text, and the
/// full phrase it stands for.
#[derive(Debug)]
pub struct Abbr {
    pub key: String,
    pub expansion: String,
}

/// The definitions as pairs of character sequences.
pub open spec fn abbr_pairs(s: Seq<Abbr>) -> Seq<(Seq<char>, Seq<char>)> {
    s.map_values(|a: Abbr| (a.key@, a.expansion@))
}

/// The position of the closing bracket in a definition line: the first
/// `]` at or after position 2.
pub open spec fn def_bracket(line: Seq<char>) -> int {
    2 + find_char(line.skip(2), ']')
}

/// Whether a line is an abbreviation definition: it begins with `*[`, has
/// a non-empty bracketed key (which therefore cannot contain `]`),
/// followed by `]: ` and a non-empty expansion running to the end of the
/// line.
pub open spec fn is_def_line(line: Seq<char>) -> bool {
    let j = def_bracket(line);
    &&& line.len() >= 2
    &&& line[0] == '*'
    &&& line[1] == '['
    &&& 2 < j
    &&& j + 3 < line.len()
    &&& line[j + 1] == ':'
    &&& line[j + 2] == ' '
}

pub open spec fn def_key(line: Seq<char>) -> Seq<char> {
    line.subrange(2, def_bracket(line))
}

pub open spec fn def_expansion(line: Seq<char>) -> Seq<char> {
    line.subrange(def_bracket(line) + 3, line.len() as int)
}

/// What a line contributes to the cleaned source: nothing when it is a
/// definition, itself otherwise.
pub open spec fn line_clean(line: Seq<char>) -> Seq<char> {
    if is_def_line(line) {
        Seq::<char>::empty()
    } else {
        line
    }
}

/// What a line contributes to the table.
pub open spec fn line_defs(line: Seq<char>) -> Seq<(Seq<char>, Seq<char>)> {
    if is_def_line(line) {
        seq![(def_key(line), def_expansion(line))]
    } else {
        Seq::<(Seq<char>, Seq<char>)>::empty()
    }
}

/// The source with the text of every definition line removed.  Line breaks
/// are kept, so a removed definition leaves a blank line behind.
pub open spec fn strip_defs(s: Seq<char>) -> Seq<char>
    decreases s.len(),
    via strip_defs_dec
{
    let n = find_char(s, '\n');
    if n == s.len() {
        line_clean(s)
    } else {
        line_clean(s.take(n)) + seq!['\n'] + strip_defs(s.skip(n + 1))
    }
}

#[via_fn]
proof fn strip_defs_dec(s: Seq<char>) {
    lemma_find_char(s, '\n');
}

/// The abbreviation table of a source: the key and expansion of every
/// definition line, in order of appearance.
pub open spec fn def_table(s: Seq<char>) -> Seq<(Seq<char>, Seq<char>)>
    decreases s.len(),
    via def_table_dec
{
    let n = find_char(s, '\n');
    if n == s.len() {
        line_defs(s)
    } else {
        line_defs(s.take(n)) + def_table(s.skip(n + 1))
    }
}

#[via_fn]
proof fn def_table_dec(s: Seq<char>) {
    lemma_find_char(s, '\n');
}

/// A key is acceptable when it does not contain the reserved separator.
pub open spec fn key_ok(key: Seq<char>) -> bool {
    forall|k: int| 0 <= k < key.len() ==> key[k] != '|'
}

pub open spec fn table_ok(t: Seq<(Seq<char>, Seq<char>)>) -> bool {
    forall|i: int| 0 <= i < t.len() ==> key_ok(#[trigger] t[i].0)
}

/// Removes every abbreviation definition line from the source and returns
/// the cleaned text together with the table of definitions, in order.
/// Fails if and only if some definition's key contains the reserved
/// separator `|`.
#[verifier::rlimit(100)]
pub fn strip_abbreviations(source: &str) -> (r: Result<(String, Vec<Abbr>), Error>)
    ensures
        match r {
            Ok(p) => {
                &&& table_ok(def_table(source@))
                &&& p.0@ == strip_defs(source@)
                &&& abbr_pairs(p.1@) == def_table(source@)
            },
            Err(e) => {
                &&& e == Error::ReservedAbbrKey
                &&& !table_ok(def_table(source@))
            },
        },
{
    let chars = str_chars(source);
    let len = chars.len();
    let mut clean: Vec<char> = Vec::new();
    let mut table: Vec<Abbr> = Vec::new();
    let mut p: usize = 0;
    proof {
        assert(source@.skip(0) =~= source@);
        assert(clean@ + strip_defs(source@) =~= strip_defs(source@));
        assert(abbr_pairs(table@) =~= Seq::<(Seq<char>, Seq<char>)>::empty());
        assert(abbr_pairs(table@) + def_table(source@) =~= def_table(source@));
    }
    while p < len
        invariant
            chars@ == source@,
            len == chars@.len(),
            p <= len,
            strip_defs(source@) == clean@ + strip_defs(source@.skip(p as int)),
            def_table(source@) == abbr_pairs(table@) + def_table(source@.skip(p as int)),
            table_ok(abbr_pairs(table@)),
        decreases len - p,
    {
        let ghost rest = source@.skip(p as int);
        let e = scan_char(&chars, p, len, '\n');
        proof {
            assert forall|k: int| 0 <= k < e - p implies rest[k] != '\n' by {
                assert(rest[k] == chars@[p + k]);
            }
            if e < len {
                assert(rest[e - p] == chars@[e as int]);
            }
            lemma_find_char_is(rest, '\n', e - p);
        }
        let ghost line = if e < len {
            rest.take(e - p)
        } else {
            rest
        };
        proof {
            assert(line =~= source@.subrange(p as int, e as int));
        }

        // Parse the line as a definition.
        let mut bracket: usize = 0;
        let mut is_def = false;
        if e - p >= 2 && chars[p] == '*' && chars[p + 1] == '[' {
            let jb = scan_char(&chars, p + 2, e, ']');
            proof {
                assert forall|k: int| 0 <= k < jb - p - 2 implies line.skip(2)[k] != ']' by {
                    assert(line.skip(2)[k] == chars@[p + 2 + k]);
                }
                if jb < e {
                    assert(line.skip(2)[jb - p - 2] == chars@[jb as int]);
                }
                lemma_find_char_is(line.skip(2), ']', jb - p - 2);
                assert(def_bracket(line) == jb - p);
            }
            if jb > p + 2 && e - jb > 3 && chars[jb + 1] == ':' && chars[jb + 2] == ' ' {
                bracket = jb;
                is_def = true;
                assert(is_def_line(line));
            } else {
                assert(!is_def_line(line));
            }
        } else {
            assert(!is_def_line(line));
        }

        if is_def {
            let jb = bracket;
            proof {
                assert(def_key(line) =~= chars@.subrange(p + 2, jb as int));
                assert(def_expansion(line) =~= chars@.subrange(jb + 3, e as int));
            }
            // The key must not contain the reserved separator.
            let bar = scan_char(&chars, p + 2, jb, '|');
            if bar < jb {
                proof {
                    let t = def_table(source@);
                    let i = abbr_pairs(table@).len() as int;
                    let n = find_char(rest, '\n');
                    if n < rest.len() {
                        assert(def_table(rest) == line_defs(line) + def_table(rest.skip(n + 1)));
                    } else {
                        assert(def_table(rest) =~= line_defs(line) + Seq::<(Seq<char>,
                            Seq<char>,
                        )>::empty());
                    }
                    assert(line_defs(line)[0] == (def_key(line), def_expansion(line)));
                    assert(def_table(rest)[0] == (def_key(line), def_expansion(line)));
                    assert(t[i] == (def_key(line), def_expansion(line)));
                    assert(def_key(line)[bar - p - 2] == chars@[bar as int]);
                    assert(!key_ok(t[i].0));
                    assert(0 <= i < t.len());
                }
                return Err(Error::ReservedAbbrKey);
            }
            let mut kv: Vec<char> = Vec::new();
            push_range(&mut kv, &chars, p + 2, jb);
            let key = chars_string(&kv);
            let mut ev: Vec<char> = Vec::new();
            push_range(&mut ev, &chars, jb + 3, e);
            let expansion = chars_string(&ev);
            let ghost gk = key@;
            let ghost ge = expansion@;
            let ghost tp = abbr_pairs(table@);
            proof {
                assert(gk =~= def_key(line));
                assert(ge =~= def_expansion(line));
                assert(key_ok(gk));
            }
            table.push(Abbr { key, expansion });
            proof {
                assert(abbr_pairs(table@) =~= tp + seq![(gk, ge)]);
                assert(line_defs(line) =~= seq![(gk, ge)]);
                assert forall|i: int| 0 <= i < abbr_pairs(table@).len() implies key_ok(
                    #[trigger] abbr_pairs(table@)[i].0,
                ) by {
                    if i < tp.len() {
                        assert(abbr_pairs(table@)[i] == tp[i]);
                        assert(key_ok(tp[i].0));
                    }
                }
            }
        } else {
            push_range(&mut clean, &chars, p, e);
            assert(line_clean(line) == line);
        }

        if e < len {
            clean.push('\n');
            p = e + 1;
        } else {
            p = len;
        }
        proof {
            // Re-establish the folding invariants for the new position.
            let n = find_char(rest, '\n');
            if n < rest.len() {
                assert(strip_defs(rest) == line_clean(line) + seq!['\n'] + strip_defs(
                    rest.skip(n + 1),
                ));
                assert(rest.skip(n + 1) =~= source@.skip(p as int));
                assert(def_table(rest) == line_defs(line) + def_table(source@.skip(p as int)));
            } else {
                assert(strip_defs(rest) == line_clean(line));
                assert(source@.skip(p as int) =~= Seq::<char>::empty());
                assert(strip_defs(source@.skip(p as int)) == line_clean(
                    Seq::<char>::empty(),
                ));
                assert(def_table(rest) == line_defs(line));
                assert(def_table(source@.skip(p as int)) == line_defs(Seq::<char>::empty()));
            }
            assert(strip_defs(source@) =~= clean@ + strip_defs(source@.skip(p as int)));
            assert(def_table(source@) =~= abbr_pairs(table@) + def_table(source@.skip(p as int)));
        }
    }
    proof {
        assert(source@.skip(len as int) =~= Seq::<char>::empty());
        assert(strip_defs(source@) =~= clean@);
        assert(def_table(source@) =~= abbr_pairs(table@));
    }
    let cleaned = chars_string(&clean);
    Ok((cleaned, table))
}

/// The markup an occurrence of an abbreviation is replaced with: an
/// expansion element whose title carries the full phrase.
pub open spec fn expansion_markup(key: Seq<char>, full: Seq<char>) -> Seq<char> {
    "<abbr title=\""@ + full + "\">"@ + key + "</abbr>"@
}

/// Whether a definition matches at the start of `text`: its key is
/// non-empty and a prefix of `text`.
pub open spec fn entry_matches(text: Seq<char>, e: (Seq<char>, Seq<char>)) -> bool {
    &&& 1 <= e.0.len() <= text.len()
    &&& text.take(e.0.len() as int) == e.0
}

/// The first definition, in table order, that matches at the start of
/// `text` — the alternation order of the compiled matcher pattern.
pub open spec fn match_entry(text: Seq<char>, table: Seq<(Seq<char>, Seq<char>)>) -> Option<
    (Seq<char>, Seq<char>),
>
    decreases table.len(),
{
    if table.len() == 0 {
        None
    } else if entry_matches(text, table[0]) {
        Some(table[0])
    } else {
        match_entry(text, table.drop_first())
    }
}

proof fn lemma_match_entry(text: Seq<char>, table: Seq<(Seq<char>, Seq<char>)>)
    ensures
        match match_entry(text, table) {
            Some(e) => 1 <= e.0.len() <= text.len(),
            None => true,
        },
    decreases table.len(),
{
    if table.len() > 0 && !entry_matches(text, table[0]) {
        lemma_match_entry(text, table.drop_first());
    }
}

/// Skipping entries that do not match leaves the result unchanged.
proof fn lemma_match_entry_skip(text: Seq<char>, table: Seq<(Seq<char>, Seq<char>)>, q: int)
    requires
        0 <= q <= table.len(),
        forall|k: int| 0 <= k < q ==> !entry_matches(text, #[trigger] table[k]),
    ensures
        match_entry(text, table) == match_entry(text, table.skip(q)),
    decreases q,
{
    if q == 0 {
        assert(table.skip(0) =~= table);
    } else {
        assert(table.drop_first() =~= table.skip(1));
        lemma_match_entry_skip(text, table.skip(1), q - 1);
        assert(table.skip(1).skip(q - 1) =~= table.skip(q));
    }
}

/// The text with every occurrence of a defined abbreviation replaced by
/// its expansion markup.  Scanning is left to right; at each position the
/// first matching definition in table order wins, and scanning resumes
/// after the matched key.
pub open spec fn substitute(text: Seq<char>, table: Seq<(Seq<char>, Seq<char>)>) -> Seq<char>
    decreases text.len(),
    via substitute_dec
{
    if text.len() == 0 {
        Seq::<char>::empty()
    } else {
        match match_entry(text, table) {
            Some(e) => expansion_markup(e.0, e.1) + substitute(
                text.skip(e.0.len() as int),
                table,
            ),
            None => seq![text[0]] + substitute(text.drop_first(), table),
        }
    }
}

#[via_fn]
proof fn substitute_dec(text: Seq<char>, table: Seq<(Seq<char>, Seq<char>)>) {
    lemma_match_entry(text, table);
}

/// Whether a definition's key matches `chars` at position `i`.
fn entry_match_at(chars: &Vec<char>, i: usize, a: &Abbr) -> (r: bool)
    requires
        i <= chars@.len(),
    ensures
        r == entry_matches(chars@.skip(i as int), (a.key@, a.expansion@)),
{
    let ghost rest = chars@.skip(i as int);
    let n = chars.len();
    let klen = a.key.as_str().unicode_len();
    if klen == 0 || klen > n - i {
        return false;
    }
    let mut m: usize = 0;
    while m < klen
        invariant
            rest == chars@.skip(i as int),
            1 <= klen == a.key@.len(),
            n == chars@.len(),
            i + klen <= n,
            m <= klen,
            forall|k: int| 0 <= k < m ==> rest[k] == a.key@[k],
        decreases klen - m,
    {
        if chars[i + m] != a.key.as_str().get_char(m) {
            proof {
                assert(rest[m as int] == chars@[i + m]);
                assert(rest.take(klen as int)[m as int] != a.key@[m as int]);
            }
            return false;
        }
        m = m + 1;
    }
    proof {
        assert(rest.take(klen as int) =~= a.key@);
    }
    true
}

/// The index of the first definition matching at position `i`, if any.
fn find_match(chars: &Vec<char>, i: usize, table: &Vec<Abbr>) -> (m: Option<usize>)
    requires
        i <= chars@.len(),
    ensures
        match m {
            Some(q) => {
                &&& q < table@.len()
                &&& entry_matches(chars@.skip(i as int), abbr_pairs(table@)[q as int])
                &&& forall|k: int|
                    0 <= k < q ==> !entry_matches(
                        chars@.skip(i as int),
                        #[trigger] abbr_pairs(table@)[k],
                    )
            },
            None => forall|k: int|
                0 <= k < table@.len() ==> !entry_matches(
                    chars@.skip(i as int),
                    #[trigger] abbr_pairs(table@)[k],
                ),
        },
{
    let mut q: usize = 0;
    while q < table.len()
        invariant
            i <= chars@.len(),
            q <= table@.len(),
            forall|k: int|
                0 <= k < q ==> !entry_matches(
                    chars@.skip(i as int),
                    #[trigger] abbr_pairs(table@)[k],
                ),
        decreases table@.len() - q,
    {
        if entry_match_at(chars, i, &table[q]) {
            return Some(q);
        }
        q = q + 1;
    }
    None
}

/// Replaces every occurrence of a defined abbreviation in `text` with its
/// expansion markup, scanning left to right with the first matching
/// definition winning at each position.
pub fn apply_abbreviations(text: &str, table: &Vec<Abbr>) -> (r: String)
    ensures
        r@ == substitute(text@, abbr_pairs(table@)),
{
    let ghost pairs = abbr_pairs(table@);
    let chars = str_chars(text);
    let len = chars.len();
    let lit_open = str_chars("<abbr title=\"");
    let lit_mid = str_chars("\">");
    let lit_close = str_chars("</abbr>");
    let mut out: Vec<char> = Vec::new();
    let mut i: usize = 0;
    proof {
        assert(text@.skip(0) =~= text@);
        assert(out@ + substitute(text@, pairs) =~= substitute(text@, pairs));
    }
    while i < len
        invariant
            chars@ == text@,
            len == chars@.len(),
            i <= len,
            pairs == abbr_pairs(table@),
            lit_open@ == "<abbr title=\""@,
            lit_mid@ == "\">"@,
            lit_close@ == "</abbr>"@,
            substitute(text@, pairs) == out@ + substitute(text@.skip(i as int), pairs),
        decreases len - i,
    {
        let ghost rest = text@.skip(i as int);
        match find_match(&chars, i, table) {
            Some(q) => {
                proof {
                    lemma_match_entry_skip(rest, pairs, q as int);
                    assert(pairs.skip(q as int)[0] == pairs[q as int]);
                    assert(match_entry(rest, pairs.skip(q as int)) == Some(pairs[q as int]));
                    assert(match_entry(rest, pairs) == Some(pairs[q as int]));
                }
                let klen = table[q].key.as_str().unicode_len();
                out.extend_from_slice(lit_open.as_slice());
                let full = str_chars(table[q].expansion.as_str());
                out.extend_from_slice(full.as_slice());
                out.extend_from_slice(lit_mid.as_slice());
                let keyc = str_chars(table[q].key.as_str());
                out.extend_from_slice(keyc.as_slice());
                out.extend_from_slice(lit_close.as_slice());
                proof {
                    assert(substitute(rest, pairs) == expansion_markup(
                        pairs[q as int].0,
                        pairs[q as int].1,
                    ) + substitute(rest.skip(klen as int), pairs));
                    assert(rest.skip(klen as int) =~= text@.skip(i + klen));
                }
                i = i + klen;
            },
            None => {
                proof {
                    lemma_match_entry_skip(rest, pairs, pairs.len() as int);
                    assert(pairs.skip(pairs.len() as int) =~= Seq::<(Seq<char>,
                        Seq<char>,
                    )>::empty());
                    assert(match_entry(rest, pairs) is None);
                    assert(rest[0] == text@[i as int]);
                    assert(rest.drop_first() =~= text@.skip(i + 1));
                }
                out.push(chars[i]);
                i = i + 1;
            },
        }
        proof {
            assert(substitute(text@, pairs) =~= out@ + substitute(text@.skip(i as int), pairs));
        }
    }
    proof {
        assert(text@.skip(len as int) =~= Seq::<char>::empty());
        assert(substitute(text@, pairs) =~= out@);
    }
    chars_string(&out)
}

} // verus!
