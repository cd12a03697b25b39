//! Transcript refinement helpers: budgeted chunking of the transcript and
//! parsing of the model's indexed reply.
use vstd::prelude::*;

use std::collections::HashMap;

use crate::summary::RefineResult;
use crate::text::{
    all_digits, all_digits_exec, char_utf8_len, chars_of, decimal_text, extend_chars, extend_str,
    find_char, index_of, index_of_from, is_digit, is_word, is_ws, join, join_chars,
    lemma_decimal_text_digits, lemma_index_of_from_absent, lemma_index_of_from_found,
    lemma_lines_of_join, lemma_parse_decimal_text, lemma_trim_after_space, lemma_trim_ends,
    lemma_trim_noop, lemma_utf8_len_bound, strip_cr, trim_end, trim_start,
    lemma_utf8_len_concat, lemma_words_are_words, lines, parse_unsigned, parse_usize, push_decimal,
    slice_chars, split_lines, split_whitespace, starts_with, starts_with_chars, string_of, sviews,
    trim, trim_chars, trim_str, utf8_len, utf8_len_exec, vviews, words,
};

verus! {

/// The most characters of transcript sent in one refinement request.
pub const REFINE_CHUNK_CHARS: usize = 3000;

broadcast use {vstd::string::group_string_axioms, vstd::std_specs::hash::group_hash_axioms};

// ---------------------------------------------------------------------------
// Word chunks of a plain transcript
// ---------------------------------------------------------------------------

/// Greedy packing of words into chunks of at most `max` UTF-8 bytes: the
/// finished chunks and the chunk being filled. A word never splits; a word
/// longer than the budget gets a chunk of its own.
pub open spec fn word_chunk_scan(ws: Seq<Seq<char>>, max: nat) -> (Seq<Seq<char>>, Seq<char>)
    decreases ws.len(),
{
    if ws.len() == 0 {
        (Seq::empty(), Seq::empty())
    } else {
        let (done, cur) = word_chunk_scan(ws.drop_last(), max);
        let w = ws.last();
        let sep: nat = if cur.len() == 0 { 0 } else { 1 };
        if utf8_len(cur) + sep + utf8_len(w) > max && cur.len() > 0 {
            (done.push(trim(cur)), w)
        } else if cur.len() > 0 {
            (done, cur + seq![' '] + w)
        } else {
            (done, w)
        }
    }
}

/// The chunks `chunk_words` returns: at least one, an empty one for a text
/// without words.
pub open spec fn word_chunks(text: Seq<char>, max: nat) -> Seq<Seq<char>> {
    let (done, cur) = word_chunk_scan(words(text), max);
    let all = if trim(cur).len() > 0 {
        done.push(trim(cur))
    } else {
        done
    };
    if all.len() == 0 {
        seq![Seq::empty()]
    } else {
        all
    }
}

/// Splits `text` into whitespace-separated words and packs them, joined by
/// single spaces, into chunks of at most `max_chars` bytes.
pub fn chunk_words(text: &str, max_chars: usize) -> (r: Vec<String>)
    ensures
        sviews(r@) == word_chunks(text@, max_chars as nat),
{
    let chars = chars_of(text);
    let ws = split_whitespace(&chars);
    let ghost wv = vviews(ws@);
    let mut done: Vec<String> = Vec::new();
    let mut cur: Vec<char> = Vec::new();
    let mut cur_len: u128 = 0;
    let mut i: usize = 0;
    assert(sviews(done@) =~= Seq::<Seq<char>>::empty());
    while i < ws.len()
        invariant
            i <= ws@.len(),
            wv == vviews(ws@),
            wv == words(text@),
            (sviews(done@), cur@) == word_chunk_scan(wv.take(i as int), max_chars as nat),
            cur_len == utf8_len(cur@),
            cur_len <= 4 * (usize::MAX as int),
        decreases ws.len() - i,
    {
        let w = &ws[i];
        let wlen = utf8_len_exec(w);
        proof {
            lemma_utf8_len_bound(w@);
            assert(wv.take(i + 1).drop_last() =~= wv.take(i as int));
            assert(wv.take(i + 1).last() == w@);
        }
        let ghost d0 = sviews(done@);
        let sep: u128 = if cur.len() == 0 {
            0
        } else {
            1
        };
        if cur_len + sep + wlen > max_chars as u128 && cur.len() > 0 {
            let t = trim_chars(&cur);
            let s = string_of(&t);
            done.push(s);
            assert(sviews(done@) =~= d0.push(trim(cur@)));
            cur = Vec::new();
            cur_len = 0;
        }
        if cur.len() > 0 {
            let ghost c0 = cur@;
            cur.push(' ');
            proof {
                assert(cur@.drop_last() =~= c0);
            }
            cur_len = cur_len + 1;
        }
        let ghost c1 = cur@;
        extend_chars(&mut cur, w);
        proof {
            lemma_utf8_len_concat(c1, w@);
            if c1.len() > 0 {
                assert(c1 =~= c1.drop_last() + seq![' ']);
            } else {
                assert(cur@ =~= w@);
            }
        }
        cur_len = cur_len + wlen;
        i += 1;
    }
    assert(wv.take(ws@.len() as int) =~= wv);
    let ghost d1 = sviews(done@);
    let t = trim_chars(&cur);
    if t.len() > 0 {
        done.push(string_of(&t));
        assert(sviews(done@) =~= d1.push(t@));
    }
    if done.len() == 0 {
        done.push(String::new());
        assert(sviews(done@) =~= seq![Seq::<char>::empty()]);
    }
    done
}

proof fn lemma_trim_word_edges(s: Seq<char>)
    requires
        s.len() > 0,
        !is_ws(s[0]),
        !is_ws(s.last()),
    ensures
        trim(s) == s,
{
}

proof fn lemma_word_chunk_scan(ws: Seq<Seq<char>>, max: nat)
    requires
        forall|k: int| 0 <= k < ws.len() ==> is_word(#[trigger] ws[k]),
    ensures
        ({
            let (done, cur) = word_chunk_scan(ws, max);
            &&& ws.len() == 0 ==> done.len() == 0 && cur.len() == 0
            &&& ws.len() > 0 ==> {
                &&& cur.len() > 0
                &&& !is_ws(cur[0])
                &&& !is_ws(cur.last())
                &&& join(done.push(cur), seq![' ']) == join(ws, seq![' '])
                &&& (utf8_len(cur) <= max || ws.contains(cur))
                &&& forall|k: int|
                    0 <= k < done.len() ==> (utf8_len(#[trigger] done[k]) <= max || ws.contains(
                        done[k],
                    ))
            }
        }),
    decreases ws.len(),
{
    if ws.len() > 0 {
        let prev = ws.drop_last();
        assert forall|k: int| 0 <= k < prev.len() implies is_word(#[trigger] prev[k]) by {
            assert(prev[k] == ws[k]);
        }
        lemma_word_chunk_scan(prev, max);
        let (done, cur) = word_chunk_scan(prev, max);
        let w = ws.last();
        assert(is_word(ws[ws.len() - 1]));
        assert(ws =~= prev.push(w));
        assert(ws.contains(w)) by {
            assert(ws[ws.len() - 1] == w);
        }
        assert forall|x: Seq<char>| prev.contains(x) implies ws.contains(x) by {
            let k = choose|k: int| 0 <= k < prev.len() && prev[k] == x;
            assert(ws[k] == x);
        }
        let sep: nat = if cur.len() == 0 { 0 } else { 1 };
        if prev.len() == 0 {
            assert(join(seq![w], seq![' ']) == w);
            assert(done.push(w) =~= seq![w]);
            assert(ws =~= seq![w]);
        } else if utf8_len(cur) + sep + utf8_len(w) > max && cur.len() > 0 {
            lemma_trim_word_edges(cur);
            let d2 = done.push(cur);
            assert(d2.push(w).drop_last() =~= d2);
            assert(join(d2.push(w), seq![' ']) == join(d2, seq![' ']) + seq![' '] + w);
            assert(join(ws, seq![' ']) == join(prev, seq![' ']) + seq![' '] + w);
            assert forall|k: int| 0 <= k < d2.len() implies (utf8_len(#[trigger] d2[k]) <= max
                || ws.contains(d2[k])) by {
                if k < done.len() {
                    assert(d2[k] == done[k]);
                }
            }
        } else {
            let c2 = cur + seq![' '] + w;
            lemma_utf8_len_concat(cur, seq![' ']);
            lemma_utf8_len_concat(cur + seq![' '], w);
            assert(seq![' '].drop_last() =~= Seq::<char>::empty());
            assert(seq![' '].last() == ' ');
            assert(utf8_len(Seq::<char>::empty()) == 0);
            assert(char_utf8_len(' ') == 1);
            assert(utf8_len(seq![' ']) == 1);
            assert(c2[0] == cur[0]);
            assert(c2.last() == w.last());
            assert(w.last() == w[w.len() - 1]);
            assert(join(ws, seq![' ']) == join(prev, seq![' ']) + seq![' '] + w);
            if done.len() == 0 {
                assert(done.push(cur) =~= seq![cur]);
                assert(done.push(c2) =~= seq![c2]);
                assert(join(seq![cur], seq![' ']) == cur);
                assert(join(seq![c2], seq![' ']) == c2);
            } else {
                assert(done.push(cur).drop_last() =~= done);
                assert(done.push(c2).drop_last() =~= done);
                assert(join(done.push(c2), seq![' ']) =~= join(done.push(cur), seq![' '])
                    + seq![' '] + w);
            }
        }
    }
}

/// Packing words into chunks keeps every word, in order: the chunks joined by
/// single spaces are the text's words joined by single spaces. Each chunk fits
/// the byte budget unless it is a single word of the text; a text without
/// words gives one empty chunk.
pub proof fn law_word_chunks_keep_words(text: Seq<char>, max: nat)
    ensures
        words(text).len() == 0 ==> word_chunks(text, max) == seq![Seq::<char>::empty()],
        words(text).len() > 0 ==> join(word_chunks(text, max), seq![' ']) == join(
            words(text),
            seq![' '],
        ),
        forall|k: int|
            0 <= k < word_chunks(text, max).len() && words(text).len() > 0 ==> (utf8_len(
                #[trigger] word_chunks(text, max)[k],
            ) <= max || words(text).contains(word_chunks(text, max)[k])),
{
    let ws = words(text);
    lemma_words_are_words(text);
    lemma_word_chunk_scan(ws, max);
    let (done, cur) = word_chunk_scan(ws, max);
    if ws.len() > 0 {
        lemma_trim_word_edges(cur);
        let all = done.push(cur);
        assert(word_chunks(text, max) == all);
        assert forall|k: int| 0 <= k < all.len() implies (utf8_len(#[trigger] all[k]) <= max
            || ws.contains(all[k])) by {
            if k < done.len() {
                assert(all[k] == done[k]);
            }
        }
    } else {
        assert(trim(cur) =~= Seq::<char>::empty());
    }
}

// ---------------------------------------------------------------------------
// Indexed segment lines
// ---------------------------------------------------------------------------

/// The views of indexed lines.
pub open spec fn line_views(v: Seq<(usize, String)>) -> Seq<(usize, Seq<char>)> {
    Seq::new(v.len(), |i: int| (v[i].0, v[i].1@))
}

/// The views of chunks of indexed lines.
pub open spec fn chunk_views(v: Seq<Vec<(usize, String)>>) -> Seq<Seq<(usize, Seq<char>)>> {
    Seq::new(v.len(), |i: int| line_views(v[i]@))
}

/// Greedy packing of lines into chunks whose lines, joined by newlines, take at
/// most `max` UTF-8 bytes: the finished chunks, the chunk being filled and its
/// joined length. A line never splits; a longer line gets a chunk of its own.
pub open spec fn line_chunk_scan(ls: Seq<(usize, Seq<char>)>, max: nat) -> (
    Seq<Seq<(usize, Seq<char>)>>,
    Seq<(usize, Seq<char>)>,
    nat,
)
    decreases ls.len(),
{
    if ls.len() == 0 {
        (Seq::empty(), Seq::empty(), 0)
    } else {
        let (done, cur, len) = line_chunk_scan(ls.drop_last(), max);
        let line = ls.last();
        let line_len = utf8_len(line.1);
        if cur.len() > 0 && len + 1 + line_len > max {
            (done.push(cur), seq![line], line_len)
        } else if cur.len() > 0 {
            (done, cur.push(line), len + 1 + line_len)
        } else {
            (done, seq![line], line_len)
        }
    }
}

/// The chunks `chunk_indexed_lines` returns: at least one, an empty one when
/// there are no lines.
pub open spec fn line_chunks(ls: Seq<(usize, Seq<char>)>, max: nat) -> Seq<
    Seq<(usize, Seq<char>)>,
> {
    let (done, cur, _len) = line_chunk_scan(ls, max);
    let all = if cur.len() > 0 {
        done.push(cur)
    } else {
        done
    };
    if all.len() == 0 {
        seq![Seq::empty()]
    } else {
        all
    }
}

fn copy_line(line: &(usize, String)) -> (r: (usize, String))
    ensures
        r.0 == line.0,
        r.1@ == line.1@,
{
    (line.0, line.1.clone())
}

/// Groups indexed segment lines into character-budgeted chunks, never
/// splitting a line.
pub fn chunk_indexed_lines(lines: &[(usize, String)], max_chars: usize) -> (r: Vec<
    Vec<(usize, String)>,
>)
    ensures
        chunk_views(r@) == line_chunks(line_views(lines@), max_chars as nat),
{
    let ghost lv = line_views(lines@);
    let mut chunks: Vec<Vec<(usize, String)>> = Vec::new();
    let mut current: Vec<(usize, String)> = Vec::new();
    let mut current_len: u128 = 0;
    let mut i: usize = 0;
    assert(chunk_views(chunks@) =~= Seq::<Seq<(usize, Seq<char>)>>::empty());
    assert(line_views(current@) =~= Seq::<(usize, Seq<char>)>::empty());
    while i < lines.len()
        invariant
            i <= lines@.len(),
            lv == line_views(lines@),
            (chunk_views(chunks@), line_views(current@), current_len as nat) == line_chunk_scan(
                lv.take(i as int),
                max_chars as nat,
            ),
            current_len <= 4 * (usize::MAX as int),
        decreases lines.len() - i,
    {
        let chars = chars_of(lines[i].1.as_str());
        let line_len = utf8_len_exec(&chars);
        proof {
            lemma_utf8_len_bound(chars@);
            assert(lv.take(i + 1).drop_last() =~= lv.take(i as int));
            assert(lv.take(i + 1).last() == lv[i as int]);
        }
        let ghost c0 = chunk_views(chunks@);
        let ghost l0 = line_views(current@);
        let line = copy_line(&lines[i]);
        if current.len() > 0 && current_len + 1 + line_len > max_chars as u128 {
            chunks.push(current);
            assert(chunk_views(chunks@) =~= c0.push(l0));
            current = Vec::new();
            current.push(line);
            assert(line_views(current@) =~= seq![lv[i as int]]);
            current_len = line_len;
        } else if current.len() > 0 {
            current.push(line);
            assert(line_views(current@) =~= l0.push(lv[i as int]));
            current_len = current_len + 1 + line_len;
        } else {
            current.push(line);
            assert(line_views(current@) =~= seq![lv[i as int]]);
            current_len = line_len;
        }
        i += 1;
    }
    assert(lv.take(lines@.len() as int) =~= lv);
    let ghost c1 = chunk_views(chunks@);
    let ghost l1 = line_views(current@);
    if current.len() > 0 {
        chunks.push(current);
        assert(chunk_views(chunks@) =~= c1.push(l1));
    }
    if chunks.len() == 0 {
        chunks.push(Vec::new());
        assert(chunk_views(chunks@) =~= seq![Seq::<(usize, Seq<char>)>::empty()]);
    }
    chunks
}

/// Byte length of the lines of a chunk joined by newlines.
pub open spec fn joined_len(c: Seq<(usize, Seq<char>)>) -> nat
    decreases c.len(),
{
    if c.len() == 0 {
        0
    } else if c.len() == 1 {
        utf8_len(c[0].1)
    } else {
        joined_len(c.drop_last()) + 1 + utf8_len(c.last().1)
    }
}

/// A chunk that holds a line, and that fits the budget unless it is one line.
pub open spec fn well_sized(c: Seq<(usize, Seq<char>)>, max: nat) -> bool {
    c.len() > 0 && (c.len() > 1 ==> joined_len(c) <= max)
}

/// The first line after the `k`-th finished chunk: that of the next
/// finished chunk, or of the chunk being filled.
spec fn first_after(
    done: Seq<Seq<(usize, Seq<char>)>>,
    cur: Seq<(usize, Seq<char>)>,
    k: int,
) -> (usize, Seq<char>) {
    if k + 1 < done.len() {
        done[k + 1][0]
    } else {
        cur[0]
    }
}

/// A chunk could not also have taken the line that opens the next one.
pub open spec fn full_before(c: Seq<(usize, Seq<char>)>, next_first: (usize, Seq<char>), max: nat) -> bool {
    joined_len(c) + 1 + utf8_len(next_first.1) > max
}

proof fn lemma_line_chunk_scan(ls: Seq<(usize, Seq<char>)>, max: nat)
    ensures
        ({
            let (done, cur, len) = line_chunk_scan(ls, max);
            &&& done.flatten() + cur == ls
            &&& len == joined_len(cur)
            &&& (cur.len() > 0 <==> ls.len() > 0)
            &&& (cur.len() > 1 ==> len <= max)
            &&& forall|k: int| 0 <= k < done.len() ==> well_sized(#[trigger] done[k], max)
            &&& forall|k: int|
                0 <= k < done.len() ==> full_before(#[trigger] done[k], first_after(done, cur, k), max)
            &&& forall|k: int, j: int|
                0 <= k < done.len() && 0 <= j < done[k].len() ==> ls.contains(#[trigger] done[k][j])
            &&& forall|j: int| 0 <= j < cur.len() ==> ls.contains(#[trigger] cur[j])
        }),
    decreases ls.len(),
{
    broadcast use Seq::lemma_flatten_push;

    if ls.len() > 0 {
        lemma_line_chunk_scan(ls.drop_last(), max);
        let (done, cur, len) = line_chunk_scan(ls.drop_last(), max);
        let line = ls.last();
        assert(ls =~= ls.drop_last().push(line));
        let u = ls.drop_last();
        assert forall|x: (usize, Seq<char>)| u.contains(x) implies ls.contains(x) by {
            let w = choose|w: int| 0 <= w < u.len() && u[w] == x;
            assert(ls[w] == x);
        }
        assert(ls.contains(line)) by {
            assert(ls[ls.len() - 1] == line);
        }
        if cur.len() > 0 && len + 1 + utf8_len(line.1) > max {
            assert(done.push(cur).flatten() == done.flatten() + cur);
            assert(done.push(cur).flatten() + seq![line] =~= ls);
            assert(joined_len(seq![line]) == utf8_len(line.1));
            assert forall|k: int| 0 <= k < done.push(cur).len() implies well_sized(
                #[trigger] done.push(cur)[k],
                max,
            ) by {
                if k < done.len() {
                    assert(done.push(cur)[k] == done[k]);
                }
            }
            let nd = done.push(cur);
            let nc = seq![line];
            assert forall|k: int| 0 <= k < nd.len() implies full_before(
                #[trigger] nd[k],
                first_after(nd, nc, k),
                max,
            ) by {
                if k < done.len() {
                    assert(nd[k] == done[k]);
                    if k + 1 < done.len() {
                        assert(nd[k + 1] == done[k + 1]);
                    } else {
                        assert(nd[k + 1] == cur);
                    }
                } else {
                    assert(nd[k] == cur);
                }
            }
        } else if cur.len() > 0 {
            assert(done.flatten() + cur.push(line) =~= ls);
            assert(cur.push(line).drop_last() =~= cur);
            assert forall|k: int| 0 <= k < done.len() implies full_before(
                #[trigger] done[k],
                first_after(done, cur.push(line), k),
                max,
            ) by {
                assert(cur.push(line)[0] == cur[0]);
            }
        } else {
            assert(done.flatten() + seq![line] =~= ls);
            assert(joined_len(seq![line]) == utf8_len(line.1));
        }
    } else {
        assert(Seq::<Seq<(usize, Seq<char>)>>::empty().flatten() =~= Seq::empty());
        assert(Seq::<Seq<(usize, Seq<char>)>>::empty().flatten() + Seq::empty() =~= ls);
    }
}

/// Chunking indexed lines never splits, drops or reorders a line: the chunks,
/// concatenated, give back the input. When there are lines, every chunk holds
/// at least one, and a chunk of several lines fits the budget once joined by
/// newlines. No chunk could also have taken the line that opens the next one.
pub proof fn law_line_chunks_partition(ls: Seq<(usize, Seq<char>)>, max: nat)
    ensures
        line_chunks(ls, max).flatten() == ls,
        line_chunks(ls, max).len() >= 1,
        ls.len() > 0 ==> forall|k: int|
            0 <= k < line_chunks(ls, max).len() ==> well_sized(
                #[trigger] line_chunks(ls, max)[k],
                max,
            ),
        forall|k: int|
            0 <= k < line_chunks(ls, max).len() - 1 ==> full_before(
                #[trigger] line_chunks(ls, max)[k],
                line_chunks(ls, max)[k + 1][0],
                max,
            ),
{
    broadcast use Seq::lemma_flatten_push;

    lemma_line_chunk_scan(ls, max);
    let (done, cur, len) = line_chunk_scan(ls, max);
    if cur.len() > 0 {
        assert(done.push(cur).flatten() == done.flatten() + cur);
        assert forall|k: int| 0 <= k < done.push(cur).len() implies well_sized(
            #[trigger] done.push(cur)[k],
            max,
        ) by {
            if k < done.len() {
                assert(done.push(cur)[k] == done[k]);
            }
        }
        let all = done.push(cur);
        assert(line_chunks(ls, max) == all);
        assert forall|k: int| 0 <= k < all.len() - 1 implies full_before(
            #[trigger] all[k],
            all[k + 1][0],
            max,
        ) by {
            assert(all[k] == done[k]);
            assert(full_before(done[k], first_after(done, cur, k), max));
            if k + 1 < done.len() {
                assert(all[k + 1] == done[k + 1]);
            } else {
                assert(all[k + 1] == cur);
            }
        }
    } else {
        assert(cur =~= Seq::<(usize, Seq<char>)>::empty());
        assert(done.flatten() =~= ls);
        if done.len() == 0 {
            let one = seq![Seq::<(usize, Seq<char>)>::empty()];
            assert(one.flatten() == one[0] + one.drop_first().flatten());
            assert(one.drop_first() =~= Seq::<Seq<(usize, Seq<char>)>>::empty());
            assert(ls.len() == 0);
            assert(one.flatten() =~= ls);
        }
    }
}

// ---------------------------------------------------------------------------
// The model's indexed reply
// ---------------------------------------------------------------------------

/// `text` without an echoed speaker label: when the part before the first
/// `':'` is, once trimmed, a `SPEAKER..` label or all digits, the rest,
/// trimmed.
pub open spec fn strip_speaker_label(text: Seq<char>) -> Seq<char> {
    match index_of(text, ':') {
        Some(colon) => {
            let prefix = trim(text.take(colon));
            if starts_with(prefix, "SPEAKER"@) || all_digits(prefix) {
                trim(text.skip(colon + 1))
            } else {
                text
            }
        },
        None => text,
    }
}

/// The entry one reply line gives: `[N] text` with `N` a `usize` and a
/// non-blank text.
pub open spec fn refined_entry(raw: Seq<char>) -> Option<(usize, Seq<char>)> {
    let line = trim(raw);
    if line.len() == 0 || line[0] != '[' {
        None
    } else {
        let rest = line.drop_first();
        match index_of(rest, ']') {
            None => None,
            Some(close) => match parse_unsigned(trim(rest.take(close)), usize::MAX as nat) {
                None => None,
                Some(idx) => {
                    let text = strip_speaker_label(trim(rest.skip(close + 1)));
                    if text.len() == 0 {
                        None
                    } else {
                        Some((idx as usize, text))
                    }
                },
            },
        }
    }
}

/// The entries of reply lines, a later line for an index replacing an earlier.
pub open spec fn refined_map(ls: Seq<Seq<char>>) -> Map<usize, Seq<char>>
    decreases ls.len(),
{
    if ls.len() == 0 {
        Map::empty()
    } else {
        let m = refined_map(ls.drop_last());
        match refined_entry(ls.last()) {
            Some((idx, text)) => m.insert(idx, text),
            None => m,
        }
    }
}

/// The views of a map of strings.
pub open spec fn string_map_view(m: Map<usize, String>) -> Map<usize, Seq<char>> {
    m.map_values(|s: String| s@)
}

fn strip_speaker_label_exec(text: Vec<char>) -> (r: Vec<char>)
    ensures
        r@ == strip_speaker_label(text@),
{
    let n = text.len();
    match find_char(&text, ':') {
        Some(colon) => {
            assert(colon < n);
            let head = slice_chars(&text, 0, colon);
            let prefix = trim_chars(&head);
            let speaker = chars_of("SPEAKER");
            let digits = all_digits_exec(&prefix);
            assert(head@ =~= text@.take(colon as int));
            if starts_with_chars(&prefix, &speaker) || digits {
                let tail = slice_chars(&text, colon + 1, n);
                assert(tail@ =~= text@.skip(colon + 1));
                trim_chars(&tail)
            } else {
                text
            }
        },
        None => text,
    }
}

fn refined_entry_exec(raw: &Vec<char>) -> (r: Option<(usize, Vec<char>)>)
    ensures
        r matches Some((i, t)) ==> refined_entry(raw@) == Some((i, t@)),
        r is None ==> refined_entry(raw@) is None,
{
    let line = trim_chars(raw);
    if line.len() == 0 || line[0] != '[' {
        return None;
    }
    let rest = slice_chars(&line, 1, line.len());
    assert(rest@ =~= line@.drop_first());
    match find_char(&rest, ']') {
        None => None,
        Some(close) => {
            let head = slice_chars(&rest, 0, close);
            assert(head@ =~= rest@.take(close as int));
            let num = trim_chars(&head);
            match parse_usize(&num) {
                None => None,
                Some(idx) => {
                    let tail = slice_chars(&rest, close + 1, rest.len());
                    assert(tail@ =~= rest@.skip(close + 1));
                    let text = strip_speaker_label_exec(trim_chars(&tail));
                    if text.len() == 0 {
                        None
                    } else {
                        Some((idx, text))
                    }
                },
            }
        },
    }
}

/// Parses reply lines like `[3] refined text here` into a map from index to
/// text, dropping an echoed `SPEAKER_XX:` or numeric label.
pub fn parse_indexed_refined_lines(response: &str) -> (r: HashMap<usize, String>)
    ensures
        string_map_view(r@) == refined_map(lines(response@)),
{
    let chars = chars_of(response);
    let ls = split_lines(&chars);
    let ghost lv = vviews(ls@);
    let mut out: HashMap<usize, String> = HashMap::new();
    let mut i: usize = 0;
    assert(string_map_view(out@) =~= Map::<usize, Seq<char>>::empty());
    while i < ls.len()
        invariant
            i <= ls@.len(),
            lv == vviews(ls@),
            lv == lines(response@),
            string_map_view(out@) == refined_map(lv.take(i as int)),
        decreases ls.len() - i,
    {
        assert(lv.take(i + 1).drop_last() =~= lv.take(i as int));
        assert(lv.take(i + 1).last() == ls@[i as int]@);
        let ghost m0 = out@;
        match refined_entry_exec(&ls[i]) {
            Some((idx, text)) => {
                let s = string_of(&text);
                out.insert(idx, s);
                assert(string_map_view(out@) =~= string_map_view(m0).insert(idx, text@));
            },
            None => {},
        }
        i += 1;
    }
    assert(lv.take(ls@.len() as int) =~= lv);
    out
}

// ---------------------------------------------------------------------------
// Requests and the assembly of their replies
// ---------------------------------------------------------------------------

/// The system prompt of every refinement request.
pub open spec fn refine_system_prompt_text() -> Seq<char> {
    "You are a transcript refinement assistant. Your task is to improve raw transcripts by:\n1. Adding proper punctuation and capitalization\n2. Fixing transcription errors and making the text more readable\n3. Preserving all original content and meaning\n4. Maintaining the original language(s) of the transcript\n5. Keeping each input line as exactly one output line with the same [N] index prefix\n6. Do NOT merge, split, reorder, or drop lines\n7. Do NOT add commentary, metadata, or speaker labels\n8. Do NOT invent or copy speaker names (e.g. Guest-1, SPEAKER_00) into the refined text\n\nOutput format: one line per input line, each starting with the same [N] prefix followed by refined speech text only."@
}

pub fn refine_system_prompt() -> (r: String)
    ensures
        r@ == refine_system_prompt_text(),
{
    let mut out: Vec<char> = Vec::new();
    extend_str(
        &mut out,
        "You are a transcript refinement assistant. Your task is to improve raw transcripts by:\n1. Adding proper punctuation and capitalization\n2. Fixing transcription errors and making the text more readable\n3. Preserving all original content and meaning\n4. Maintaining the original language(s) of the transcript\n5. Keeping each input line as exactly one output line with the same [N] index prefix\n6. Do NOT merge, split, reorder, or drop lines\n7. Do NOT add commentary, metadata, or speaker labels\n8. Do NOT invent or copy speaker names (e.g. Guest-1, SPEAKER_00) into the refined text\n\nOutput format: one line per input line, each starting with the same [N] prefix followed by refined speech text only.",
    );
    string_of(&out)
}

/// The line sent for segment `i`: its index in brackets, then its trimmed text.
pub open spec fn indexed_line_text(i: nat, text: Seq<char>) -> Seq<char> {
    "["@ + decimal_text(i) + "] "@ + trim(text)
}

/// The lines sent for segments with the given texts, one per segment.
pub open spec fn indexed_lines_of(texts: Seq<Seq<char>>) -> Seq<Seq<char>> {
    Seq::new(texts.len(), |i: int| indexed_line_text(i as nat, texts[i]))
}

/// The texts a reply read back gives the first `m` segments: each segment
/// whose trimmed text is not blank gets it.
pub open spec fn texts_read_back(texts: Seq<Seq<char>>, m: int) -> Map<usize, Seq<char>> {
    Map::new(
        |k: usize| (k as int) < m && trim(texts[k as int]).len() > 0,
        |k: usize| trim(texts[k as int]),
    )
}

proof fn lemma_no_colon_no_label(y: Seq<char>)
    requires
        !y.contains(':'),
    ensures
        strip_speaker_label(y) == y,
{
    assert forall|j: int| 0 <= j < y.len() implies y[j] != ':' by {
        if y[j] == ':' {
            assert(y.contains(':'));
        }
    }
    lemma_index_of_from_absent(y, ':', 0);
}

proof fn lemma_digits_not_ws(d: Seq<char>, j: int)
    requires
        0 <= j < d.len(),
        is_digit(d[j]),
    ensures
        !is_ws(d[j]),
        d[j] != ']',
        d[j] != '\n',
{
}

/// What the parser reads from the line sent for one segment.
proof fn lemma_refined_entry_of_indexed(i: nat, t: Seq<char>)
    requires
        i <= usize::MAX,
        !trim(t).contains(':'),
    ensures
        refined_entry(indexed_line_text(i, t)) == if trim(t).len() > 0 {
            Some((i as usize, trim(t)))
        } else {
            None::<(usize, Seq<char>)>
        },
{
    reveal_strlit("[");
    reveal_strlit("] ");
    let y = trim(t);
    let d = decimal_text(i);
    lemma_decimal_text_digits(i);
    lemma_trim_ends(t);
    let line = indexed_line_text(i, t);
    assert(line =~= seq!['['] + d + seq![']', ' '] + y);
    let tl = if y.len() > 0 {
        line
    } else {
        seq!['['] + d + seq![']']
    };
    assert(is_ws(' '));
    assert(!is_ws('['));
    assert(!is_ws(']'));
    if y.len() > 0 {
        assert(line[0] == '[');
        assert(line.last() == y.last());
        lemma_trim_noop(line);
    } else {
        assert(line =~= seq!['['] + d + seq![']', ' ']);
        assert(line[0] == '[');
        assert(trim_start(line) == line);
        assert(line.last() == ' ');
        assert(line.drop_last() =~= tl);
        assert(tl.last() == ']');
        assert(trim_end(line) == trim_end(tl));
        assert(trim_end(tl) == tl);
    }
    assert(trim(line) == tl);
    let rest = tl.drop_first();
    assert(rest.len() > d.len());
    assert forall|j: int| 0 <= j < d.len() implies rest[j] == d[j] && rest[j] != ']' by {
        assert(is_digit(d[j]));
        lemma_digits_not_ws(d, j);
    }
    assert(rest[d.len() as int] == ']');
    lemma_index_of_from_found(rest, ']', 0, d.len() as int);
    assert(rest.take(d.len() as int) =~= d);
    assert(!is_ws(d[0])) by {
        assert(is_digit(d[0]));
    }
    assert(!is_ws(d.last())) by {
        assert(is_digit(d[d.len() - 1]));
    }
    lemma_trim_noop(d);
    lemma_parse_decimal_text(i, usize::MAX as nat);
    let after = rest.skip(d.len() as int + 1);
    if y.len() > 0 {
        assert(after =~= seq![' '] + y);
        lemma_trim_after_space(y);
        lemma_no_colon_no_label(y);
    } else {
        assert(after =~= Seq::<char>::empty());
        assert(trim(after) =~= Seq::<char>::empty());
        lemma_index_of_from_absent(Seq::<char>::empty(), ':', 0);
    }
}

proof fn lemma_refined_map_prefix(texts: Seq<Seq<char>>, m: int)
    requires
        0 <= m <= texts.len(),
        texts.len() <= usize::MAX + 1,
        forall|i: int| 0 <= i < texts.len() ==> !(#[trigger] trim(texts[i])).contains(':'),
    ensures
        refined_map(indexed_lines_of(texts).take(m)) == texts_read_back(texts, m),
    decreases m,
{
    let ls = indexed_lines_of(texts).take(m);
    if m == 0 {
        assert(ls =~= Seq::<Seq<char>>::empty());
        assert(texts_read_back(texts, 0) =~= Map::<usize, Seq<char>>::empty());
    } else {
        lemma_refined_map_prefix(texts, m - 1);
        assert(ls.drop_last() =~= indexed_lines_of(texts).take(m - 1));
        assert(ls.last() == indexed_line_text((m - 1) as nat, texts[m - 1]));
        assert(!trim(texts[m - 1]).contains(':'));
        lemma_refined_entry_of_indexed((m - 1) as nat, texts[m - 1]);
        if trim(texts[m - 1]).len() > 0 {
            assert(refined_map(ls) =~= texts_read_back(texts, m - 1).insert(
                (m - 1) as usize,
                trim(texts[m - 1]),
            ));
            assert(texts_read_back(texts, m - 1).insert((m - 1) as usize, trim(texts[m - 1]))
                =~= texts_read_back(texts, m));
        } else {
            assert(texts_read_back(texts, m - 1) =~= texts_read_back(texts, m));
        }
    }
}

proof fn lemma_indexed_line_shape(i: nat, t: Seq<char>)
    requires
        !trim(t).contains('\n'),
    ensures
        indexed_line_text(i, t).len() > 0,
        !indexed_line_text(i, t).contains('\n'),
        strip_cr(indexed_line_text(i, t)) == indexed_line_text(i, t),
{
    reveal_strlit("[");
    reveal_strlit("] ");
    let y = trim(t);
    let d = decimal_text(i);
    lemma_decimal_text_digits(i);
    lemma_trim_ends(t);
    let line = indexed_line_text(i, t);
    assert(line =~= seq!['['] + d + seq![']', ' '] + y);
    assert forall|w: int| 0 <= w < line.len() implies line[w] != '\n' by {
        if 1 <= w < 1 + d.len() {
            assert(line[w] == d[w - 1]);
            assert(is_digit(d[w - 1]));
        } else if w >= d.len() + 3 {
            assert(line[w] == y[w - d.len() - 3]);
            if y[w - d.len() - 3] == '\n' {
                assert(y.contains('\n'));
            }
        }
    }
    if line.contains('\n') {
        let w = choose|w: int| 0 <= w < line.len() && line[w] == '\n';
        assert(false);
    }
    assert(is_ws('\r'));
    if y.len() > 0 {
        assert(line.last() == y.last());
    } else {
        assert(line.last() == ' ');
    }
}

/// The lines sent for the segments of a refinement, read back by the reply
/// parser as they were sent, give every segment its own text: each segment
/// whose trimmed text is not blank gets exactly that text, and nothing else
/// is read. (Texts holding `:` could read as a speaker label, and texts
/// holding a line break as several lines; they are left out.)
pub proof fn law_indexed_lines_read_back(texts: Seq<Seq<char>>)
    requires
        texts.len() <= usize::MAX + 1,
        forall|i: int| 0 <= i < texts.len() ==> !(#[trigger] trim(texts[i])).contains(':'),
        forall|i: int| 0 <= i < texts.len() ==> !(#[trigger] trim(texts[i])).contains('\n'),
    ensures
        refined_map(lines(join(indexed_lines_of(texts), "\n"@))) == texts_read_back(
            texts,
            texts.len() as int,
        ),
{
    reveal_strlit("\n");
    let ls = indexed_lines_of(texts);
    lemma_refined_map_prefix(texts, texts.len() as int);
    assert(ls.take(texts.len() as int) =~= ls);
    if texts.len() == 0 {
        assert(join(ls, "\n"@) =~= Seq::<char>::empty());
        assert(lines(Seq::<char>::empty()) =~= Seq::<Seq<char>>::empty());
    } else {
        assert forall|i: int| 0 <= i < ls.len() implies (#[trigger] ls[i]).len() > 0
            && !ls[i].contains('\n') && strip_cr(ls[i]) == ls[i] by {
            lemma_indexed_line_shape(i as nat, texts[i]);
        }
        assert("\n"@ =~= seq!['\n']);
        lemma_lines_of_join(ls);
    }
}

/// The indexed lines of the segments' texts, one per segment, in order.
pub fn indexed_segment_lines(texts: &[String]) -> (r: Vec<(usize, String)>)
    ensures
        r@.len() == texts@.len(),
        forall|i: int|
            0 <= i < r@.len() ==> (#[trigger] r@[i]).0 == i && r@[i].1@ == indexed_line_text(
                i as nat,
                texts@[i]@,
            ),
{
    let mut out: Vec<(usize, String)> = Vec::new();
    let mut i: usize = 0;
    while i < texts.len()
        invariant
            i <= texts@.len(),
            out@.len() == i,
            forall|k: int|
                0 <= k < i ==> (#[trigger] out@[k]).0 == k && out@[k].1@ == indexed_line_text(
                    k as nat,
                    texts@[k]@,
                ),
        decreases texts.len() - i,
    {
        let mut line: Vec<char> = Vec::new();
        line.push('[');
        push_decimal(&mut line, i as u64);
        extend_str(&mut line, "] ");
        let t = trim_str(texts[i].as_str());
        extend_chars(&mut line, &t);
        proof {
            reveal_strlit("] ");
            reveal_strlit("[");
            assert(line@ =~= indexed_line_text(i as nat, texts@[i as int]@));
        }
        out.push((i, string_of(&line)));
        i += 1;
    }
    out
}

/// The user prompt for chunk `k` (counted from 0) of `total` chunks of
/// indexed lines.
pub open spec fn segment_chunk_prompt_text(k: nat, total: nat, lines: Seq<Seq<char>>) -> Seq<
    char,
> {
    "Refine this transcript chunk ("@ + decimal_text(k + 1) + "/"@ + decimal_text(total)
        + "). Keep every [N] line; one refined line per input line.\n\n"@ + join(lines, "\n"@)
}

/// The texts of indexed lines.
pub open spec fn line_texts(lines: Seq<(usize, String)>) -> Seq<Seq<char>> {
    Seq::new(lines.len(), |i: int| lines[i].1@)
}

pub fn segment_chunk_prompt(chunk_idx: usize, total: usize, chunk: &[(usize, String)]) -> (r:
    String)
    requires
        chunk_idx < total,
    ensures
        r@ == segment_chunk_prompt_text(chunk_idx as nat, total as nat, line_texts(chunk@)),
{
    let mut parts: Vec<Vec<char>> = Vec::new();
    let mut i: usize = 0;
    while i < chunk.len()
        invariant
            i <= chunk@.len(),
            vviews(parts@) == line_texts(chunk@).take(i as int),
        decreases chunk.len() - i,
    {
        let ghost p0 = vviews(parts@);
        parts.push(chars_of(chunk[i].1.as_str()));
        assert(vviews(parts@) =~= p0.push(chunk@[i as int].1@));
        i += 1;
        assert(line_texts(chunk@).take(i as int) =~= line_texts(chunk@).take(i - 1).push(
            chunk@[i - 1].1@,
        ));
    }
    assert(line_texts(chunk@).take(chunk@.len() as int) =~= line_texts(chunk@));
    let nl = chars_of("\n");
    let body = join_chars(&parts, &nl);
    let mut out: Vec<char> = Vec::new();
    extend_str(&mut out, "Refine this transcript chunk (");
    push_decimal(&mut out, (chunk_idx + 1) as u64);
    extend_str(&mut out, "/");
    push_decimal(&mut out, total as u64);
    extend_str(&mut out, "). Keep every [N] line; one refined line per input line.\n\n");
    extend_chars(&mut out, &body);
    string_of(&out)
}

/// The user prompt for chunk `k` (counted from 0) of `total` chunks of a
/// plain transcript.
pub open spec fn text_chunk_prompt_text(k: nat, total: nat, chunk: Seq<char>) -> Seq<char> {
    if total == 1 {
        "Refine this transcript text. Output only the refined text:\n\n"@ + chunk
    } else {
        "Refine this transcript chunk ("@ + decimal_text(k + 1) + "/"@ + decimal_text(total)
            + "). Do not summarize.\n\n"@ + chunk
    }
}

pub fn text_chunk_prompt(chunk_idx: usize, total: usize, chunk: &str) -> (r: String)
    requires
        chunk_idx < total,
    ensures
        r@ == text_chunk_prompt_text(chunk_idx as nat, total as nat, chunk@),
{
    let mut out: Vec<char> = Vec::new();
    if total == 1 {
        extend_str(&mut out, "Refine this transcript text. Output only the refined text:\n\n");
    } else {
        extend_str(&mut out, "Refine this transcript chunk (");
        push_decimal(&mut out, (chunk_idx + 1) as u64);
        extend_str(&mut out, "/");
        push_decimal(&mut out, total as u64);
        extend_str(&mut out, "). Do not summarize.\n\n");
    }
    extend_str(&mut out, chunk);
    string_of(&out)
}

/// The view of an optional string.
pub open spec fn opt_view(o: Option<String>) -> Option<Seq<char>> {
    match o {
        Some(s) => Some(s@),
        None => None,
    }
}

/// Whether one of the first `n` lines of a chunk carries index `i`.
pub open spec fn chunk_has_index(chunk: Seq<(usize, String)>, n: int, i: int) -> bool {
    exists|j: int| 0 <= j < n && (#[trigger] chunk[j]).0 == i
}

/// Records the refined text of every line of a chunk that the parsed reply
/// has; slots of other segments, and of lines the reply dropped, keep what
/// they held.
pub fn apply_refined_chunk(
    slots: &mut Vec<Option<String>>,
    chunk: &[(usize, String)],
    parsed: &HashMap<usize, String>,
)
    requires
        forall|j: int| 0 <= j < chunk@.len() ==> (#[trigger] chunk@[j]).0 < old(slots)@.len(),
    ensures
        final(slots)@.len() == old(slots)@.len(),
        forall|i: int|
            0 <= i < final(slots)@.len() ==> opt_view(#[trigger] final(slots)@[i]) == if chunk_has_index(
                chunk@,
                chunk@.len() as int,
                i,
            ) && parsed@.contains_key(i as usize) {
                Some(parsed@[i as usize]@)
            } else {
                opt_view(old(slots)@[i])
            },
{
    let mut j: usize = 0;
    while j < chunk.len()
        invariant
            j <= chunk@.len(),
            slots@.len() == old(slots)@.len(),
            forall|k: int| 0 <= k < chunk@.len() ==> (#[trigger] chunk@[k]).0 < slots@.len(),
            forall|i: int|
                0 <= i < slots@.len() ==> opt_view(#[trigger] slots@[i]) == if chunk_has_index(
                    chunk@,
                    j as int,
                    i,
                ) && parsed@.contains_key(i as usize) {
                    Some(parsed@[i as usize]@)
                } else {
                    opt_view(old(slots)@[i])
                },
        decreases chunk.len() - j,
    {
        let idx = chunk[j].0;
        let got = parsed.get(&idx);
        proof {
            assert forall|i: int| chunk_has_index(chunk@, j + 1, i) <==> (chunk_has_index(
                chunk@,
                j as int,
                i,
            ) || i == idx) by {
                if i == idx {
                    assert(chunk@[j as int].0 == i);
                }
            }
        }
        match got {
            Some(text) => {
                let t = text.clone();
                slots.set(idx, Some(t));
            },
            None => {},
        }
        j += 1;
    }
}

/// The views of the texts the segments end with.
pub open spec fn final_texts(slots: Seq<Option<String>>, raw: Seq<String>) -> Seq<Seq<char>> {
    Seq::new(
        slots.len(),
        |i: int|
            match slots[i] {
                Some(s) => s@,
                None => trim(raw[i]@),
            },
    )
}

/// Closes a refinement over segments: a segment the model dropped keeps its
/// raw text, trimmed; the document text is the segments' texts joined by
/// spaces.
pub fn finish_refined(slots: Vec<Option<String>>, raw_texts: &[String]) -> (r: RefineResult)
    requires
        slots@.len() == raw_texts@.len(),
    ensures
        sviews(r.segment_refined@) == final_texts(slots@, raw_texts@),
        r.refined_text@ == join(final_texts(slots@, raw_texts@), seq![' ']),
{
    let ghost ft = final_texts(slots@, raw_texts@);
    let mut texts: Vec<String> = Vec::new();
    let mut parts: Vec<Vec<char>> = Vec::new();
    let mut i: usize = 0;
    while i < slots.len()
        invariant
            i <= slots@.len(),
            slots@.len() == raw_texts@.len(),
            ft == final_texts(slots@, raw_texts@),
            sviews(texts@) == ft.take(i as int),
            vviews(parts@) == ft.take(i as int),
        decreases slots.len() - i,
    {
        let ghost t0 = sviews(texts@);
        let ghost p0 = vviews(parts@);
        let v: Vec<char> = match &slots[i] {
            Some(s) => chars_of(s.as_str()),
            None => trim_str(raw_texts[i].as_str()),
        };
        assert(v@ == ft[i as int]);
        texts.push(string_of(&v));
        parts.push(v);
        i += 1;
        assert(ft.take(i as int) =~= ft.take(i - 1).push(ft[i - 1]));
        assert(sviews(texts@) =~= t0.push(ft[i - 1]));
        assert(vviews(parts@) =~= p0.push(ft[i - 1]));
    }
    assert(ft.take(slots@.len() as int) =~= ft);
    let sep = chars_of(" ");
    proof {
        reveal_strlit(" ");
    }
    assert(sep@ =~= seq![' ']);
    let joined = join_chars(&parts, &sep);
    RefineResult { refined_text: string_of(&joined), segment_refined: texts }
}

/// The indexed lines of segments, as views: line `i` is `[i] text`.
pub open spec fn indexed_segment_views(raw: Seq<String>) -> Seq<(usize, Seq<char>)> {
    Seq::new(raw.len(), |i: int| (i as usize, indexed_line_text(i as nat, raw[i]@)))
}

/// Every line of `a` has a smaller index than every line of `b`.
pub open spec fn indices_before(a: Seq<(usize, Seq<char>)>, b: Seq<(usize, Seq<char>)>) -> bool {
    forall|x: int, y: int| 0 <= x < a.len() && 0 <= y < b.len() ==> #[trigger] a[x].0 < #[trigger] b[y].0
}

/// The indices of the lines strictly increase.
pub open spec fn indices_increase(ls: Seq<(usize, Seq<char>)>) -> bool {
    forall|a: int, b: int| 0 <= a < b < ls.len() ==> #[trigger] ls[a].0 < #[trigger] ls[b].0
}

proof fn lemma_line_chunk_scan_order(ls: Seq<(usize, Seq<char>)>, max: nat)
    requires
        indices_increase(ls),
    ensures
        ({
            let (done, cur, len) = line_chunk_scan(ls, max);
            &&& forall|k1: int, k2: int|
                0 <= k1 < k2 < done.len() ==> indices_before(#[trigger] done[k1], #[trigger] done[k2])
            &&& forall|k: int| 0 <= k < done.len() ==> indices_before(#[trigger] done[k], cur)
        }),
    decreases ls.len(),
{
    if ls.len() > 0 {
        let u = ls.drop_last();
        assert(indices_increase(u)) by {
            assert forall|a: int, b: int| 0 <= a < b < u.len() implies #[trigger] u[a].0 < #[trigger] u[b].0 by {
                assert(u[a] == ls[a] && u[b] == ls[b]);
            }
        }
        lemma_line_chunk_scan_order(u, max);
        lemma_line_chunk_scan(u, max);
        let (done, cur, len) = line_chunk_scan(u, max);
        let line = ls.last();
        let n = ls.len() - 1;
        assert forall|x: (usize, Seq<char>)| u.contains(x) implies x.0 < line.0 by {
            let w = choose|w: int| 0 <= w < u.len() && u[w] == x;
            assert(ls[w] == x);
            assert(ls[w].0 < ls[n].0);
        }
        if cur.len() > 0 && len + 1 + utf8_len(line.1) > max {
            let nd = done.push(cur);
            let nc = seq![line];
            assert forall|k1: int, k2: int| 0 <= k1 < k2 < nd.len() implies indices_before(
                #[trigger] nd[k1],
                #[trigger] nd[k2],
            ) by {
                assert(nd[k1] == done[k1]);
                if k2 < done.len() {
                    assert(nd[k2] == done[k2]);
                } else {
                    assert(nd[k2] == cur);
                }
            }
            assert forall|k: int| 0 <= k < nd.len() implies indices_before(#[trigger] nd[k], nc) by {
                assert forall|x: int, y: int| 0 <= x < nd[k].len() && 0 <= y < nc.len() implies
                    #[trigger] nd[k][x].0 < #[trigger] nc[y].0 by {
                    if k < done.len() {
                        assert(nd[k] == done[k]);
                        assert(u.contains(done[k][x]));
                    } else {
                        assert(nd[k] == cur);
                        assert(u.contains(cur[x]));
                    }
                }
            }
            assert(line_chunk_scan(ls, max) == (nd, nc, utf8_len(line.1)));
        } else if cur.len() > 0 {
            let nc = cur.push(line);
            assert forall|k: int| 0 <= k < done.len() implies indices_before(#[trigger] done[k], nc) by {
                assert forall|x: int, y: int| 0 <= x < done[k].len() && 0 <= y < nc.len() implies
                    #[trigger] done[k][x].0 < #[trigger] nc[y].0 by {
                    if y < cur.len() {
                        assert(nc[y] == cur[y]);
                    } else {
                        assert(u.contains(done[k][x]));
                    }
                }
            }
        } else {
            assert(u.len() == 0);
            assert(done.flatten() + cur == u);
            assert(done.len() == 0) by {
                if done.len() > 0 {
                    assert(done[0].len() > 0);
                    assert(u.contains(done[0][0]));
                }
            }
        }
    }
}

/// Chunks of lines whose indices increase keep the order: every line of an
/// earlier chunk has a smaller index than every line of a later one.
proof fn lemma_line_chunks_order(ls: Seq<(usize, Seq<char>)>, max: nat)
    requires
        indices_increase(ls),
    ensures
        forall|k1: int, k2: int|
            0 <= k1 < k2 < line_chunks(ls, max).len() ==> indices_before(
                #[trigger] line_chunks(ls, max)[k1],
                #[trigger] line_chunks(ls, max)[k2],
            ),
{
    lemma_line_chunk_scan_order(ls, max);
    let (done, cur, len) = line_chunk_scan(ls, max);
    if cur.len() > 0 {
        let all = done.push(cur);
        assert forall|k1: int, k2: int| 0 <= k1 < k2 < all.len() implies indices_before(
            #[trigger] all[k1],
            #[trigger] all[k2],
        ) by {
            assert(all[k1] == done[k1]);
            if k2 < done.len() {
                assert(all[k2] == done[k2]);
            } else {
                assert(all[k2] == cur);
            }
        }
    }
}

/// `reply_text` when only chunk `k` can hold segment `i`.
proof fn lemma_reply_text_one_chunk(
    chunks: Seq<Vec<(usize, String)>>,
    replies: Seq<String>,
    i: int,
    k: int,
    m: int,
)
    requires
        0 <= k < chunks.len(),
        m <= chunks.len(),
        forall|c: int|
            0 <= c < chunks.len() && c != k ==> !chunk_has_index(#[trigger] chunks[c]@, chunks[c]@.len() as int, i),
        chunk_has_index(chunks[k]@, chunks[k]@.len() as int, i),
    ensures
        reply_text(chunks, replies, i, m) == (if m > k && refined_map(lines(replies[k]@)).contains_key(
            i as usize,
        ) {
            Some(refined_map(lines(replies[k]@))[i as usize])
        } else {
            None
        }),
    decreases m,
{
    if m > 0 {
        lemma_reply_text_one_chunk(chunks, replies, i, k, m - 1);
    }
}

/// Each segment of a refinement takes the reply of the one chunk that holds
/// it: no other chunk holds the segment, and its text is the line that
/// chunk's reply gives it, else its raw text, trimmed.
pub proof fn law_refine_segment_takes_its_chunk(
    raw: Seq<String>,
    chunks: Seq<Vec<(usize, String)>>,
    replies: Seq<String>,
    max: nat,
    i: int,
    k: int,
)
    requires
        raw.len() <= usize::MAX,
        chunk_views(chunks) == line_chunks(indexed_segment_views(raw), max),
        replies.len() == chunks.len(),
        0 <= k < chunks.len(),
        chunk_has_index(chunks[k]@, chunks[k]@.len() as int, i),
    ensures
        forall|c: int|
            0 <= c < chunks.len() && c != k ==> !chunk_has_index(#[trigger] chunks[c]@, chunks[c]@.len() as int, i),
        refined_segment(raw, chunks, replies, i) == (if refined_map(lines(replies[k]@)).contains_key(
            i as usize,
        ) {
            refined_map(lines(replies[k]@))[i as usize]
        } else {
            trim(raw[i]@)
        }),
{
    let ls = indexed_segment_views(raw);
    assert(indices_increase(ls));
    lemma_line_chunks_order(ls, max);
    let lc = line_chunks(ls, max);
    assert forall|c: int|
        0 <= c < chunks.len() && c != k implies !chunk_has_index(#[trigger] chunks[c]@, chunks[c]@.len() as int, i) by {
        if chunk_has_index(chunks[c]@, chunks[c]@.len() as int, i) {
            let a = choose|a: int| 0 <= a < chunks[c]@.len() && (#[trigger] chunks[c]@[a]).0 == i;
            let b = choose|b: int| 0 <= b < chunks[k]@.len() && (#[trigger] chunks[k]@[b]).0 == i;
            assert(chunk_views(chunks)[c] == line_views(chunks[c]@));
            assert(chunk_views(chunks)[k] == line_views(chunks[k]@));
            assert(lc[c][a].0 == chunks[c]@[a].0);
            assert(lc[k][b].0 == chunks[k]@[b].0);
            if c < k {
                assert(indices_before(lc[c], lc[k]));
                assert(lc[c][a].0 < lc[k][b].0);
            } else {
                assert(indices_before(lc[k], lc[c]));
                assert(lc[k][b].0 < lc[c][a].0);
            }
        }
    }
    lemma_reply_text_one_chunk(chunks, replies, i, k, chunks.len() as int);
}

proof fn lemma_line_chunks_members(ls: Seq<(usize, Seq<char>)>, max: nat)
    ensures
        forall|k: int, j: int|
            0 <= k < line_chunks(ls, max).len() && 0 <= j < line_chunks(ls, max)[k].len()
                ==> ls.contains(#[trigger] line_chunks(ls, max)[k][j]),
{
    lemma_line_chunk_scan(ls, max);
    let (done, cur, len) = line_chunk_scan(ls, max);
    if cur.len() > 0 {
        let all = done.push(cur);
        assert forall|k: int, j: int| 0 <= k < all.len() && 0 <= j < all[k].len() implies ls.contains(
            #[trigger] all[k][j],
        ) by {
            if k < done.len() {
                assert(all[k] == done[k]);
            } else {
                assert(all[k] == cur);
            }
        }
    } else if done.len() == 0 {
        let one = seq![Seq::<(usize, Seq<char>)>::empty()];
        assert(line_chunks(ls, max) == one);
    }
}

/// The chunks a transcript's segments are refined in: their indexed lines
/// packed into chunks of at most `max_chars` bytes; every line carries the
/// index of a segment.
pub fn refine_chunks(raw_texts: &[String], max_chars: usize) -> (r: Vec<Vec<(usize, String)>>)
    ensures
        chunk_views(r@) == line_chunks(indexed_segment_views(raw_texts@), max_chars as nat),
        forall|k: int, j: int|
            0 <= k < r@.len() && 0 <= j < r@[k]@.len() ==> (#[trigger] r@[k]@[j]).0 < raw_texts@.len(),
{
    let lines = indexed_segment_lines(raw_texts);
    let ghost lv = line_views(lines@);
    assert(lv =~= indexed_segment_views(raw_texts@));
    let r = chunk_indexed_lines(&lines, max_chars);
    proof {
        lemma_line_chunks_members(lv, max_chars as nat);
        assert forall|k: int, j: int| 0 <= k < r@.len() && 0 <= j < r@[k]@.len() implies (
        #[trigger] r@[k]@[j]).0 < raw_texts@.len() by {
            assert(chunk_views(r@)[k] == line_views(r@[k]@));
            let x = line_views(r@[k]@)[j];
            assert(x == (r@[k]@[j].0, r@[k]@[j].1@));
            assert(line_chunks(lv, max_chars as nat)[k][j] == x);
            assert(lv.contains(x));
            let w = choose|w: int| 0 <= w < lv.len() && lv[w] == x;
            assert(lines@[w].0 == w);
        }
    }
    r
}

/// The refined text the replies give segment `i`: from the last of the
/// first `k` chunks that holds the segment and whose reply has a line for
/// it; none if no such chunk.
pub open spec fn reply_text(
    chunks: Seq<Vec<(usize, String)>>,
    replies: Seq<String>,
    i: int,
    k: int,
) -> Option<Seq<char>>
    decreases k,
{
    if k <= 0 {
        None
    } else {
        let m = refined_map(lines(replies[k - 1]@));
        if chunk_has_index(chunks[k - 1]@, chunks[k - 1]@.len() as int, i) && m.contains_key(
            i as usize,
        ) {
            Some(m[i as usize])
        } else {
            reply_text(chunks, replies, i, k - 1)
        }
    }
}

/// The text segment `i` ends with after a refinement: the refined line the
/// replies give it, else its raw text, trimmed.
pub open spec fn refined_segment(
    raw: Seq<String>,
    chunks: Seq<Vec<(usize, String)>>,
    replies: Seq<String>,
    i: int,
) -> Seq<char> {
    match reply_text(chunks, replies, i, chunks.len() as int) {
        Some(t) => t,
        None => trim(raw[i]@),
    }
}

/// Refines the segments of a transcript from the model's replies, one per
/// chunk of indexed lines (`replies[k]` answers the prompt of `chunks[k]`):
/// each segment takes the line a reply gives it, a segment whose line was
/// dropped keeps its raw text, trimmed, and the document text is the
/// segments' texts joined by spaces.
pub fn refine_from_replies(
    raw_texts: &[String],
    chunks: &[Vec<(usize, String)>],
    replies: &[String],
) -> (r: RefineResult)
    requires
        replies@.len() == chunks@.len(),
        forall|k: int, j: int|
            0 <= k < chunks@.len() && 0 <= j < chunks@[k]@.len() ==> (#[trigger] chunks@[k]@[j]).0
                < raw_texts@.len(),
    ensures
        r.segment_refined@.len() == raw_texts@.len(),
        forall|i: int|
            0 <= i < raw_texts@.len() ==> (#[trigger] r.segment_refined@[i])@ == refined_segment(
                raw_texts@,
                chunks@,
                replies@,
                i,
            ),
        r.refined_text@ == join(sviews(r.segment_refined@), seq![' ']),
{
    let n = raw_texts.len();
    let mut slots: Vec<Option<String>> = Vec::new();
    let mut i: usize = 0;
    while i < n
        invariant
            i <= n,
            n == raw_texts@.len(),
            slots@.len() == i,
            forall|q: int| 0 <= q < i ==> (#[trigger] slots@[q]) is None,
        decreases n - i,
    {
        slots.push(None);
        i += 1;
    }
    let mut k: usize = 0;
    while k < chunks.len()
        invariant
            k <= chunks@.len(),
            replies@.len() == chunks@.len(),
            n == raw_texts@.len(),
            slots@.len() == n,
            forall|c: int, j: int|
                0 <= c < chunks@.len() && 0 <= j < chunks@[c]@.len() ==> (#[trigger] chunks@[c]@[j]).0
                    < raw_texts@.len(),
            forall|q: int|
                0 <= q < n ==> opt_view(#[trigger] slots@[q]) == reply_text(
                    chunks@,
                    replies@,
                    q,
                    k as int,
                ),
        decreases chunks.len() - k,
    {
        let parsed = parse_indexed_refined_lines(replies[k].as_str());
        let ghost m = refined_map(lines(replies@[k as int]@));
        assert(string_map_view(parsed@) == m);
        assert forall|j: int| 0 <= j < chunks@[k as int]@.len() implies (#[trigger] chunks@[k as int]@[j]).0
            < slots@.len() by {
        }
        apply_refined_chunk(&mut slots, chunks[k].as_slice(), &parsed);
        assert forall|q: int| 0 <= q < n implies opt_view(#[trigger] slots@[q]) == reply_text(
            chunks@,
            replies@,
            q,
            k + 1,
        ) by {
            if parsed@.contains_key(q as usize) {
                assert(m.contains_key(q as usize));
                assert(m[q as usize] == parsed@[q as usize]@);
            } else {
                assert(!m.contains_key(q as usize));
            }
        }
        k += 1;
    }
    let r = finish_refined(slots, raw_texts);
    proof {
        assert forall|q: int| 0 <= q < n implies (#[trigger] r.segment_refined@[q])@
            == refined_segment(raw_texts@, chunks@, replies@, q) by {
            assert(sviews(r.segment_refined@)[q] == r.segment_refined@[q]@);
        }
        assert(sviews(r.segment_refined@) == final_texts(slots@, raw_texts@));
    }
    r
}

/// Closes a refinement of a plain transcript: the refined chunks joined by
/// blank lines, and no per-segment texts.
pub fn join_refined_chunks(chunks: &[String]) -> (r: RefineResult)
    ensures
        r.refined_text@ == join(sviews(chunks@), "\n\n"@),
        r.segment_refined@.len() == 0,
{
    let mut parts: Vec<Vec<char>> = Vec::new();
    let mut i: usize = 0;
    while i < chunks.len()
        invariant
            i <= chunks@.len(),
            vviews(parts@) == sviews(chunks@).take(i as int),
        decreases chunks.len() - i,
    {
        let ghost p0 = vviews(parts@);
        parts.push(chars_of(chunks[i].as_str()));
        i += 1;
        assert(sviews(chunks@).take(i as int) =~= sviews(chunks@).take(i - 1).push(
            chunks@[i - 1]@,
        ));
        assert(vviews(parts@) =~= p0.push(chunks@[i - 1]@));
    }
    assert(sviews(chunks@).take(chunks@.len() as int) =~= sviews(chunks@));
    let sep = chars_of("\n\n");
    let joined = join_chars(&parts, &sep);
    RefineResult { refined_text: string_of(&joined), segment_refined: Vec::new() }
}

/// The token limit of a refinement request: the configured one, at least
/// 1024.
pub fn refine_max_tokens(configured: u32) -> (r: u32)
    ensures
        r == if configured >= 1024 {
            configured
        } else {
            1024
        },
{
    if configured >= 1024 {
        configured
    } else {
        1024
    }
}

} // verus!
