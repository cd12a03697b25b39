//! Full-text search queries: user input turned into an SQLite FTS5 `MATCH`
//! expression that matches its words as plain text.
use vstd::prelude::*;

use crate::text::{chars_of, join, join_chars, split_whitespace, string_of, vviews, words};

verus! {

broadcast use vstd::string::group_string_axioms;

/// A token with each `"` doubled.
pub open spec fn double_quotes(t: Seq<char>) -> Seq<char>
    decreases t.len(),
{
    if t.len() == 0 {
        Seq::empty()
    } else if t.last() == '"' {
        double_quotes(t.drop_last()) + seq!['"', '"']
    } else {
        double_quotes(t.drop_last()).push(t.last())
    }
}

/// An FTS5 phrase holding exactly the token.
pub open spec fn fts5_phrase(t: Seq<char>) -> Seq<char> {
    seq!['"'] + double_quotes(t) + seq!['"']
}

/// The phrases of the words of a query.
pub open spec fn fts5_phrases(ws: Seq<Seq<char>>) -> Seq<Seq<char>> {
    Seq::new(ws.len(), |i: int| fts5_phrase(ws[i]))
}

/// The `MATCH` expression of a query: each whitespace-separated word as a
/// quoted phrase, the phrases separated by spaces; none for a blank query.
pub open spec fn fts5_query_spec(query: Seq<char>) -> Option<Seq<char>> {
    if words(query).len() == 0 {
        None
    } else {
        Some(join(fts5_phrases(words(query)), seq![' ']))
    }
}

fn fts5_phrase_exec(t: &[char]) -> (r: Vec<char>)
    ensures
        r@ == fts5_phrase(t@),
{
    let mut out: Vec<char> = Vec::new();
    out.push('"');
    let mut i: usize = 0;
    while i < t.len()
        invariant
            i <= t@.len(),
            out@ == seq!['"'] + double_quotes(t@.take(i as int)),
        decreases t.len() - i,
    {
        assert(t@.take(i + 1).drop_last() =~= t@.take(i as int));
        assert(t@.take(i + 1).last() == t@[i as int]);
        if t[i] == '"' {
            out.push('"');
            out.push('"');
        } else {
            out.push(t[i]);
        }
        i += 1;
    }
    assert(t@.take(t@.len() as int) =~= t@);
    out.push('"');
    out
}

/// Escapes a user search string for FTS5 `MATCH`: the input is plain text, not
/// FTS operators. Returns `None` when it has no words.
pub fn escape_fts5_query(query: &str) -> (r: Option<String>)
    ensures
        match fts5_query_spec(query@) {
            Some(q) => r matches Some(s) && s@ == q,
            None => r is None,
        },
{
    let chars = chars_of(query);
    let ws = split_whitespace(&chars);
    let ghost wv = vviews(ws@);
    let mut parts: Vec<Vec<char>> = Vec::new();
    let mut i: usize = 0;
    while i < ws.len()
        invariant
            i <= ws@.len(),
            wv == vviews(ws@),
            wv == words(query@),
            vviews(parts@) == fts5_phrases(wv).take(i as int),
        decreases ws.len() - i,
    {
        let ghost p0 = vviews(parts@);
        parts.push(fts5_phrase_exec(&ws[i]));
        i += 1;
        assert(fts5_phrases(wv).take(i as int) =~= fts5_phrases(wv).take(i - 1).push(
            fts5_phrase(wv[i - 1]),
        ));
        assert(vviews(parts@) =~= p0.push(fts5_phrase(wv[i - 1])));
    }
    assert(fts5_phrases(wv).take(ws@.len() as int) =~= fts5_phrases(wv));
    if parts.len() == 0 {
        None
    } else {
        let sep = vec![' '];
        assert(sep@ =~= seq![' ']);
        let joined = join_chars(&parts, &sep);
        Some(string_of(&joined))
    }
}

} // verus!
