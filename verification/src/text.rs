//! Character-level text model shared by the rest of the library.
//!
//! Strings are modelled by their view, a `Seq<char>`. Every helper here has an
//! executable version over `Vec<char>` / `&str` and a spec version that the
//! contracts elsewhere speak of.
use vstd::prelude::*;

verus! {

broadcast use vstd::string::group_string_axioms;

// ---------------------------------------------------------------------------
// Conversions between `&str`, `String` and `Vec<char>`
// ---------------------------------------------------------------------------

/// The characters of `s`, in order.
pub fn chars_of(s: &str) -> (v: Vec<char>)
    ensures
        v@ == s@,
{
    let mut v: Vec<char> = Vec::new();
    for c in it: s.chars()
        invariant
            v@ == it.seq().take(it.index() as int),
    {
        v.push(c);
    }
    v
}

/// Appends one character to a string (`String::push`).
#[verifier::external_body]
pub(crate) fn push_char(s: &mut String, c: char)
    ensures
        final(s)@ == old(s)@.push(c),
{
    s.push(c);
}

/// A string holding exactly the given characters.
pub fn string_of(v: &[char]) -> (s: String)
    ensures
        s@ == v@,
{
    let mut s = String::new();
    let mut i: usize = 0;
    while i < v.len()
        invariant
            i <= v.len(),
            s@ == v@.take(i as int),
        decreases v.len() - i,
    {
        push_char(&mut s, v[i]);
        i += 1;
        assert(v@.take(i as int) == v@.take(i - 1).push(v@[i - 1]));
    }
    assert(v@.take(v.len() as int) == v@);
    s
}

/// Appends `b` to `a`.
pub fn extend_chars(a: &mut Vec<char>, b: &[char])
    ensures
        final(a)@ == old(a)@ + b@,
{
    let mut i: usize = 0;
    while i < b.len()
        invariant
            i <= b.len(),
            a@ == old(a)@ + b@.take(i as int),
        decreases b.len() - i,
    {
        a.push(b[i]);
        i += 1;
        assert(b@.take(i as int) == b@.take(i - 1).push(b@[i - 1]));
    }
    assert(b@.take(b.len() as int) == b@);
}

/// Appends the characters of `b` to `a`.
pub fn extend_str(a: &mut Vec<char>, b: &str)
    ensures
        final(a)@ == old(a)@ + b@,
{
    let v = chars_of(b);
    extend_chars(a, &v);
}

/// Concatenation `a ++ b`.
pub fn concat_chars(a: &[char], b: &[char]) -> (r: Vec<char>)
    ensures
        r@ == a@ + b@,
{
    let mut r: Vec<char> = Vec::new();
    extend_chars(&mut r, a);
    extend_chars(&mut r, b);
    r
}

/// Copy of a slice of characters.
pub fn copy_chars(a: &[char]) -> (r: Vec<char>)
    ensures
        r@ == a@,
{
    let mut r: Vec<char> = Vec::new();
    extend_chars(&mut r, a);
    r
}

/// The characters at indices `from..to`.
pub fn slice_chars(a: &[char], from: usize, to: usize) -> (r: Vec<char>)
    requires
        from <= to <= a@.len(),
    ensures
        r@ == a@.subrange(from as int, to as int),
{
    let mut r: Vec<char> = Vec::new();
    let mut i = from;
    while i < to
        invariant
            from <= i <= to,
            to <= a@.len(),
            r@ == a@.subrange(from as int, i as int),
        decreases to - i,
    {
        r.push(a[i]);
        i += 1;
        assert(a@.subrange(from as int, i as int) == a@.subrange(from as int, i - 1).push(
            a@[i - 1],
        ));
    }
    r
}

// ---------------------------------------------------------------------------
// Whitespace and trimming (`char::is_whitespace`, `str::trim`)
// ---------------------------------------------------------------------------

/// Unicode `White_Space`, the property `char::is_whitespace` tests.
pub open spec fn is_ws(c: char) -> bool {
    ||| ('\u{9}' <= c && c <= '\u{d}')
    ||| c == ' '
    ||| c == '\u{85}'
    ||| c == '\u{a0}'
    ||| c == '\u{1680}'
    ||| ('\u{2000}' <= c && c <= '\u{200a}')
    ||| c == '\u{2028}'
    ||| c == '\u{2029}'
    ||| c == '\u{202f}'
    ||| c == '\u{205f}'
    ||| c == '\u{3000}'
}

pub fn is_whitespace(c: char) -> (b: bool)
    ensures
        b == is_ws(c),
{
    ('\u{9}' <= c && c <= '\u{d}') || c == ' ' || c == '\u{85}' || c == '\u{a0}' || c
        == '\u{1680}' || ('\u{2000}' <= c && c <= '\u{200a}') || c == '\u{2028}' || c
        == '\u{2029}' || c == '\u{202f}' || c == '\u{205f}' || c == '\u{3000}'
}

/// `s` without its leading whitespace.
pub open spec fn trim_start(s: Seq<char>) -> Seq<char>
    decreases s.len(),
{
    if s.len() > 0 && is_ws(s[0]) {
        trim_start(s.drop_first())
    } else {
        s
    }
}

/// `s` without its trailing whitespace.
pub open spec fn trim_end(s: Seq<char>) -> Seq<char>
    decreases s.len(),
{
    if s.len() > 0 && is_ws(s.last()) {
        trim_end(s.drop_last())
    } else {
        s
    }
}

/// `s` without leading and trailing whitespace (`str::trim`).
pub open spec fn trim(s: Seq<char>) -> Seq<char> {
    trim_end(trim_start(s))
}

proof fn lemma_trim_start_suffix(s: Seq<char>)
    ensures
        trim_start(s).len() <= s.len(),
        trim_start(s) == s.skip(s.len() - trim_start(s).len()),
        trim_start(s).len() > 0 ==> !is_ws(trim_start(s)[0]),
    decreases s.len(),
{
    if s.len() > 0 && is_ws(s[0]) {
        lemma_trim_start_suffix(s.drop_first());
        assert(s.drop_first().skip(s.drop_first().len() - trim_start(s).len()) =~= s.skip(
            s.len() - trim_start(s).len(),
        ));
    } else {
        assert(s.skip(0) =~= s);
    }
}

proof fn lemma_trim_end_prefix(s: Seq<char>)
    ensures
        trim_end(s).len() <= s.len(),
        trim_end(s) == s.take(trim_end(s).len() as int),
        trim_end(s).len() > 0 ==> !is_ws(trim_end(s).last()),
    decreases s.len(),
{
    if s.len() > 0 && is_ws(s.last()) {
        lemma_trim_end_prefix(s.drop_last());
        assert(s.drop_last().take(trim_end(s).len() as int) =~= s.take(trim_end(s).len() as int));
    } else {
        assert(s.take(s.len() as int) =~= s);
    }
}

/// A trimmed string that is not empty starts and ends with a character that
/// is not whitespace.
pub proof fn lemma_trim_ends(s: Seq<char>)
    ensures
        trim(s).len() > 0 ==> !is_ws(trim(s)[0]) && !is_ws(trim(s).last()),
{
    let t = trim_start(s);
    lemma_trim_start_suffix(s);
    lemma_trim_end_prefix(t);
    if trim(s).len() > 0 {
        assert(trim(s)[0] == t[0]);
    }
}

/// Trimming changes nothing in a string that starts and ends with a
/// character that is not whitespace.
pub proof fn lemma_trim_noop(s: Seq<char>)
    requires
        s.len() > 0,
        !is_ws(s[0]),
        !is_ws(s.last()),
    ensures
        trim(s) == s,
{
}

/// Trimming a space followed by a trimmed string gives that string.
pub proof fn lemma_trim_after_space(x: Seq<char>)
    requires
        x.len() == 0 || (!is_ws(x[0]) && !is_ws(x.last())),
    ensures
        trim(seq![' '] + x) == x,
{
    let s = seq![' '] + x;
    assert(s.drop_first() =~= x);
    assert(s[0] == ' ');
    assert(is_ws(' '));
    assert(trim_start(s) == trim_start(x));
    assert(trim_start(x) == x);
    assert(trim_end(x) == x);
}

/// Index of the first non-whitespace character at or after `i` (or `len`).
pub fn skip_ws(v: &[char], i: usize) -> (j: usize)
    requires
        i <= v@.len(),
    ensures
        i <= j <= v@.len(),
        forall|k: int| i <= k < j ==> is_ws(#[trigger] v@[k]),
        j < v@.len() ==> !is_ws(v@[j as int]),
        trim_start(v@.skip(i as int)) == v@.skip(j as int),
{
    let mut j = i;
    while j < v.len() && is_whitespace(v[j])
        invariant
            i <= j <= v@.len(),
            forall|k: int| i <= k < j ==> is_ws(#[trigger] v@[k]),
            trim_start(v@.skip(i as int)) == trim_start(v@.skip(j as int)),
        decreases v.len() - j,
    {
        assert(v@.skip(j as int).drop_first() == v@.skip(j + 1));
        j += 1;
    }
    j
}

/// Bounds `(start, end)` of `trim(v)` inside `v`.
pub fn trim_bounds(v: &[char]) -> (r: (usize, usize))
    ensures
        r.0 <= r.1 <= v@.len(),
        trim(v@) == v@.subrange(r.0 as int, r.1 as int),
{
    let start = skip_ws(v, 0);
    assert(v@.skip(0) == v@);
    let mut end = v.len();
    while end > start && is_whitespace(v[end - 1])
        invariant
            start <= end <= v@.len(),
            trim_end(v@.skip(start as int)) == trim_end(v@.subrange(start as int, end as int)),
        decreases end - start,
    {
        assert(v@.subrange(start as int, end as int).drop_last() == v@.subrange(
            start as int,
            end - 1,
        ));
        end -= 1;
    }
    assert(v@.subrange(start as int, v@.len() as int) == v@.skip(start as int));
    (start, end)
}

/// `trim(v)` as a vector.
pub fn trim_chars(v: &[char]) -> (r: Vec<char>)
    ensures
        r@ == trim(v@),
{
    let (a, b) = trim_bounds(v);
    slice_chars(v, a, b)
}

/// `trim(s)` as a vector.
pub fn trim_str(s: &str) -> (r: Vec<char>)
    ensures
        r@ == trim(s@),
{
    let v = chars_of(s);
    trim_chars(&v)
}

// ---------------------------------------------------------------------------
// Prefixes, suffixes, equality
// ---------------------------------------------------------------------------

pub open spec fn starts_with(s: Seq<char>, p: Seq<char>) -> bool {
    p.len() <= s.len() && s.take(p.len() as int) == p
}

pub open spec fn ends_with(s: Seq<char>, p: Seq<char>) -> bool {
    p.len() <= s.len() && s.skip(s.len() - p.len()) == p
}

/// Whether `p` occurs in `s` at index `i`.
pub open spec fn occurs_at(s: Seq<char>, p: Seq<char>, i: int) -> bool {
    0 <= i && i + p.len() <= s.len() && s.subrange(i, i + p.len()) == p
}

/// Whether `p` occurs somewhere in `s` (`str::contains`).
pub open spec fn contains(s: Seq<char>, p: Seq<char>) -> bool {
    exists|i: int| occurs_at(s, p, i)
}

/// Whether `p` occurs in `s` at index `i` (checked character by character).
pub fn occurs_at_exec(s: &[char], p: &[char], i: usize) -> (b: bool)
    ensures
        b == occurs_at(s@, p@, i as int),
{
    let n = s.len();
    if i > n || p.len() > n - i {
        return false;
    }
    let mut k: usize = 0;
    while k < p.len()
        invariant
            k <= p@.len(),
            n == s@.len(),
            i + p@.len() <= n,
            forall|m: int| 0 <= m < k ==> s@[i + m] == p@[m],
        decreases p.len() - k,
    {
        if s[i + k] != p[k] {
            assert(s@.subrange(i as int, i + p@.len())[k as int] != p@[k as int]);
            return false;
        }
        k += 1;
    }
    assert(s@.subrange(i as int, i + p@.len()) == p@);
    true
}

pub fn starts_with_chars(s: &[char], p: &[char]) -> (b: bool)
    ensures
        b == starts_with(s@, p@),
{
    let r = occurs_at_exec(s, p, 0);
    assert(s@.subrange(0, p@.len() as int) == s@.take(p@.len() as int));
    r
}

pub fn starts_with_str(s: &[char], p: &str) -> (b: bool)
    ensures
        b == starts_with(s@, p@),
{
    let pv = chars_of(p);
    starts_with_chars(s, &pv)
}

pub fn ends_with_chars(s: &[char], p: &[char]) -> (b: bool)
    ensures
        b == ends_with(s@, p@),
{
    if p.len() > s.len() {
        return false;
    }
    let r = occurs_at_exec(s, p, s.len() - p.len());
    assert(s@.subrange(s@.len() - p@.len(), s@.len() as int) == s@.skip(s@.len() - p@.len()));
    r
}

pub fn eq_chars(a: &[char], b: &[char]) -> (r: bool)
    ensures
        r == (a@ == b@),
{
    if a.len() != b.len() {
        return false;
    }
    let r = starts_with_chars(a, b);
    assert(a@.take(b@.len() as int) =~= a@);
    r
}

pub fn eq_str(a: &[char], b: &str) -> (r: bool)
    ensures
        r == (a@ == b@),
{
    let bv = chars_of(b);
    eq_chars(a, &bv)
}

pub fn contains_chars(s: &[char], p: &[char]) -> (b: bool)
    ensures
        b == contains(s@, p@),
{
    if p.len() > s.len() {
        assert forall|i: int| !occurs_at(s@, p@, i) by {}
        return false;
    }
    let last = s.len() - p.len();
    let mut i: usize = 0;
    while i < last
        invariant
            i <= last,
            last == s@.len() - p@.len(),
            forall|j: int| 0 <= j < i ==> !occurs_at(s@, p@, j),
        decreases last - i,
    {
        if occurs_at_exec(s, p, i) {
            return true;
        }
        i += 1;
    }
    if occurs_at_exec(s, p, last) {
        return true;
    }
    assert forall|j: int| !occurs_at(s@, p@, j) by {
        if 0 <= j < i {
        }
    }
    false
}

pub fn contains_str(s: &[char], p: &str) -> (b: bool)
    ensures
        b == contains(s@, p@),
{
    let pv = chars_of(p);
    contains_chars(s, &pv)
}

// ---------------------------------------------------------------------------
// ASCII case (`to_ascii_lowercase`, `eq_ignore_ascii_case`)
// ---------------------------------------------------------------------------

pub open spec fn ascii_lower_char(c: char) -> char {
    if 'A' <= c && c <= 'Z' {
        ((c as u32) + 32) as char
    } else {
        c
    }
}

pub open spec fn ascii_lower(s: Seq<char>) -> Seq<char> {
    Seq::new(s.len(), |i: int| ascii_lower_char(s[i]))
}

pub open spec fn eq_ignore_ascii_case(a: Seq<char>, b: Seq<char>) -> bool {
    ascii_lower(a) == ascii_lower(b)
}

pub fn to_ascii_lower_char(c: char) -> (r: char)
    ensures
        r == ascii_lower_char(c),
{
    if 'A' <= c && c <= 'Z' {
        ((c as u8) + 32) as char
    } else {
        c
    }
}

pub fn to_ascii_lower(v: &[char]) -> (r: Vec<char>)
    ensures
        r@ == ascii_lower(v@),
{
    let mut r: Vec<char> = Vec::new();
    let mut i: usize = 0;
    while i < v.len()
        invariant
            i <= v@.len(),
            r@ == ascii_lower(v@.take(i as int)),
        decreases v.len() - i,
    {
        let c = to_ascii_lower_char(v[i]);
        r.push(c);
        i += 1;
        assert(ascii_lower(v@.take(i as int)) == ascii_lower(v@.take(i - 1)).push(c));
    }
    assert(v@.take(v@.len() as int) == v@);
    r
}

pub fn eq_ignore_ascii_case_chars(a: &[char], b: &[char]) -> (r: bool)
    ensures
        r == eq_ignore_ascii_case(a@, b@),
{
    let la = to_ascii_lower(a);
    let lb = to_ascii_lower(b);
    eq_chars(&la, &lb)
}

// ---------------------------------------------------------------------------
// Splitting (`split_whitespace`, `lines`)
// ---------------------------------------------------------------------------

/// The views of a sequence of character vectors.
pub open spec fn vviews(v: Seq<Vec<char>>) -> Seq<Seq<char>> {
    Seq::new(v.len(), |i: int| v[i]@)
}

/// Left-to-right scan state of `split_whitespace`: the finished words and the
/// word being read.
pub open spec fn words_scan(s: Seq<char>) -> (Seq<Seq<char>>, Seq<char>)
    decreases s.len(),
{
    if s.len() == 0 {
        (Seq::empty(), Seq::empty())
    } else {
        let (done, cur) = words_scan(s.drop_last());
        let c = s.last();
        if is_ws(c) {
            if cur.len() > 0 {
                (done.push(cur), Seq::empty())
            } else {
                (done, cur)
            }
        } else {
            (done, cur.push(c))
        }
    }
}

/// The maximal runs of non-whitespace characters of `s` (`str::split_whitespace`).
pub open spec fn words(s: Seq<char>) -> Seq<Seq<char>> {
    let (done, cur) = words_scan(s);
    if cur.len() > 0 {
        done.push(cur)
    } else {
        done
    }
}

/// A word: non-empty, without whitespace.
pub open spec fn is_word(w: Seq<char>) -> bool {
    w.len() > 0 && forall|j: int| 0 <= j < w.len() ==> !is_ws(#[trigger] w[j])
}

proof fn lemma_words_scan_shape(s: Seq<char>)
    ensures
        ({
            let (done, cur) = words_scan(s);
            &&& forall|k: int| 0 <= k < done.len() ==> is_word(#[trigger] done[k])
            &&& forall|j: int| 0 <= j < cur.len() ==> !is_ws(#[trigger] cur[j])
        }),
    decreases s.len(),
{
    if s.len() > 0 {
        lemma_words_scan_shape(s.drop_last());
        let (done, cur) = words_scan(s.drop_last());
        if !is_ws(s.last()) {
            assert forall|j: int| 0 <= j < cur.push(s.last()).len() implies !is_ws(
                #[trigger] cur.push(s.last())[j],
            ) by {
                if j < cur.len() {
                    assert(cur.push(s.last())[j] == cur[j]);
                }
            }
        } else if cur.len() > 0 {
            assert forall|k: int| 0 <= k < done.push(cur).len() implies is_word(
                #[trigger] done.push(cur)[k],
            ) by {
                if k < done.len() {
                    assert(done.push(cur)[k] == done[k]);
                }
            }
        }
    }
}

/// Every word of `s` is non-empty and holds no whitespace.
pub proof fn lemma_words_are_words(s: Seq<char>)
    ensures
        forall|k: int| 0 <= k < words(s).len() ==> is_word(#[trigger] words(s)[k]),
{
    lemma_words_scan_shape(s);
    let (done, cur) = words_scan(s);
    if cur.len() > 0 {
        assert forall|k: int| 0 <= k < done.push(cur).len() implies is_word(
            #[trigger] done.push(cur)[k],
        ) by {
            if k < done.len() {
                assert(done.push(cur)[k] == done[k]);
            }
        }
    }
}

/// The words of `v` (`str::split_whitespace`).
pub fn split_whitespace(v: &[char]) -> (r: Vec<Vec<char>>)
    ensures
        vviews(r@) == words(v@),
{
    let mut done: Vec<Vec<char>> = Vec::new();
    let mut cur: Vec<char> = Vec::new();
    let mut i: usize = 0;
    while i < v.len()
        invariant
            i <= v@.len(),
            (vviews(done@), cur@) == words_scan(v@.take(i as int)),
        decreases v.len() - i,
    {
        let c = v[i];
        assert(v@.take(i + 1).drop_last() == v@.take(i as int));
        let ghost dv0 = vviews(done@);
        if is_whitespace(c) {
            if cur.len() > 0 {
                let w = cur;
                done.push(w);
                cur = Vec::new();
                assert(vviews(done@) =~= dv0.push(w@));
            }
        } else {
            cur.push(c);
            assert(vviews(done@) =~= dv0);
        }
        i += 1;
    }
    assert(v@.take(v@.len() as int) == v@);
    let ghost dv1 = vviews(done@);
    if cur.len() > 0 {
        let ghost w = cur@;
        done.push(cur);
        assert(vviews(done@) =~= dv1.push(w));
    }
    done
}

/// `line` without one trailing `'\r'`.
pub open spec fn strip_cr(line: Seq<char>) -> Seq<char> {
    if line.len() > 0 && line.last() == '\r' {
        line.drop_last()
    } else {
        line
    }
}

/// Left-to-right scan state of `str::lines`.
pub open spec fn lines_scan(s: Seq<char>) -> (Seq<Seq<char>>, Seq<char>)
    decreases s.len(),
{
    if s.len() == 0 {
        (Seq::empty(), Seq::empty())
    } else {
        let (done, cur) = lines_scan(s.drop_last());
        let c = s.last();
        if c == '\n' {
            (done.push(strip_cr(cur)), Seq::empty())
        } else {
            (done, cur.push(c))
        }
    }
}

/// The lines of `s` (`str::lines`): split at `'\n'`, a `'\r'` right before the
/// `'\n'` dropped, no empty last line after a final line ending.
pub open spec fn lines(s: Seq<char>) -> Seq<Seq<char>> {
    let (done, cur) = lines_scan(s);
    if cur.len() > 0 {
        done.push(cur)
    } else {
        done
    }
}

proof fn lemma_lines_scan_append(a: Seq<char>, b: Seq<char>)
    requires
        !b.contains('\n'),
    ensures
        lines_scan(a + b) == (lines_scan(a).0, lines_scan(a).1 + b),
    decreases b.len(),
{
    if b.len() == 0 {
        assert(a + b =~= a);
        assert(lines_scan(a).1 + b =~= lines_scan(a).1);
    } else {
        assert((a + b).drop_last() =~= a + b.drop_last());
        assert(!b.drop_last().contains('\n')) by {
            if b.drop_last().contains('\n') {
                let w = choose|w: int| 0 <= w < b.drop_last().len() && b.drop_last()[w] == '\n';
                assert(b[w] == '\n');
            }
        }
        assert(b.last() != '\n') by {
            if b.last() == '\n' {
                assert(b[b.len() - 1] == '\n');
            }
        }
        lemma_lines_scan_append(a, b.drop_last());
        assert((a + b).last() == b.last());
        assert(lines_scan(a).1 + b.drop_last() + seq![b.last()] =~= lines_scan(a).1 + b);
        assert((lines_scan(a).1 + b.drop_last()).push(b.last()) =~= lines_scan(a).1 + b);
    }
}

/// The lines of lines joined by line breaks are those lines, when none is
/// empty, holds a line break or ends with a carriage return.
pub proof fn lemma_lines_of_join(ls: Seq<Seq<char>>)
    requires
        ls.len() > 0,
        forall|i: int|
            0 <= i < ls.len() ==> (#[trigger] ls[i]).len() > 0 && !ls[i].contains('\n')
                && strip_cr(ls[i]) == ls[i],
    ensures
        lines(join(ls, seq!['\n'])) == ls,
{
    lemma_lines_scan_of_join(ls);
    assert(ls.drop_last().push(ls.last()) =~= ls);
}

proof fn lemma_lines_scan_of_join(ls: Seq<Seq<char>>)
    requires
        ls.len() > 0,
        forall|i: int|
            0 <= i < ls.len() ==> (#[trigger] ls[i]).len() > 0 && !ls[i].contains('\n')
                && strip_cr(ls[i]) == ls[i],
    ensures
        lines_scan(join(ls, seq!['\n'])) == (ls.drop_last(), ls.last()),
    decreases ls.len(),
{
    if ls.len() == 1 {
        assert(join(ls, seq!['\n']) == ls[0]);
        assert(Seq::<char>::empty() + ls[0] =~= ls[0]);
        lemma_lines_scan_append(Seq::<char>::empty(), ls[0]);
        assert(lines_scan(Seq::<char>::empty()) == (Seq::<Seq<char>>::empty(), Seq::<char>::empty()));
        assert(Seq::<char>::empty() + ls[0] =~= ls[0]);
        assert(ls.drop_last() =~= Seq::<Seq<char>>::empty());
    } else {
        let front = ls.drop_last();
        assert forall|i: int| 0 <= i < front.len() implies (#[trigger] front[i]).len() > 0
            && !front[i].contains('\n') && strip_cr(front[i]) == front[i] by {
            assert(front[i] == ls[i]);
        }
        lemma_lines_scan_of_join(front);
        let j = join(front, seq!['\n']);
        assert(join(ls, seq!['\n']) == j + seq!['\n'] + ls.last());
        assert((j + seq!['\n']).drop_last() =~= j);
        assert((j + seq!['\n']).last() == '\n');
        assert(lines_scan(j + seq!['\n']) == (front.drop_last().push(strip_cr(front.last())), Seq::<char>::empty()));
        assert(front.drop_last().push(front.last()) =~= front);
        assert(strip_cr(front.last()) == front.last()) by {
            assert(front.last() == ls[front.len() - 1]);
        }
        assert(ls.last() == ls[ls.len() - 1]);
        lemma_lines_scan_append(j + seq!['\n'], ls.last());
        assert(Seq::<char>::empty() + ls.last() =~= ls.last());
    }
}

pub fn strip_cr_exec(line: Vec<char>) -> (r: Vec<char>)
    ensures
        r@ == strip_cr(line@),
{
    let mut line = line;
    if line.len() > 0 && line[line.len() - 1] == '\r' {
        line.pop();
    }
    line
}

/// The lines of `v` (`str::lines`).
pub fn split_lines(v: &[char]) -> (r: Vec<Vec<char>>)
    ensures
        vviews(r@) == lines(v@),
{
    let mut done: Vec<Vec<char>> = Vec::new();
    let mut cur: Vec<char> = Vec::new();
    let mut i: usize = 0;
    while i < v.len()
        invariant
            i <= v@.len(),
            (vviews(done@), cur@) == lines_scan(v@.take(i as int)),
        decreases v.len() - i,
    {
        let c = v[i];
        assert(v@.take(i + 1).drop_last() == v@.take(i as int));
        let ghost dv0 = vviews(done@);
        if c == '\n' {
            let w = strip_cr_exec(cur);
            let ghost wv = w@;
            done.push(w);
            cur = Vec::new();
            assert(vviews(done@) =~= dv0.push(wv));
        } else {
            cur.push(c);
            assert(vviews(done@) =~= dv0);
        }
        i += 1;
    }
    assert(v@.take(v@.len() as int) == v@);
    let ghost dv1 = vviews(done@);
    if cur.len() > 0 {
        let ghost w = cur@;
        done.push(cur);
        assert(vviews(done@) =~= dv1.push(w));
    }
    done
}

// ---------------------------------------------------------------------------
// Searching (`str::find` with a character)
// ---------------------------------------------------------------------------

/// Index of the first `c` in `s` at or after `i`.
pub open spec fn index_of_from(s: Seq<char>, c: char, i: int) -> Option<int>
    decreases s.len() - i,
{
    if i < 0 || i >= s.len() {
        None
    } else if s[i] == c {
        Some(i)
    } else {
        index_of_from(s, c, i + 1)
    }
}

/// Index of the first `c` in `s`.
pub open spec fn index_of(s: Seq<char>, c: char) -> Option<int> {
    index_of_from(s, c, 0)
}

proof fn lemma_index_of_from_bounds(s: Seq<char>, c: char, i: int)
    ensures
        index_of_from(s, c, i) matches Some(k) ==> i <= k < s.len() && s[k] == c && forall|
            j: int,
        | i <= j < k ==> s[j] != c,
        index_of_from(s, c, i) is None && 0 <= i ==> forall|j: int| i <= j < s.len() ==> s[j] != c,
    decreases s.len() - i,
{
    if 0 <= i < s.len() && s[i] != c {
        lemma_index_of_from_bounds(s, c, i + 1);
    }
}

/// A character that occurs in `s` has a first index.
pub proof fn lemma_index_of_none(s: Seq<char>, c: char, w: int)
    requires
        0 <= w < s.len(),
        s[w] == c,
    ensures
        index_of(s, c) is Some,
{
    lemma_index_of_from_bounds(s, c, 0);
}

/// The first `c` at or after `i` is at `k` when `s[k]` is `c` and none is
/// before it.
pub proof fn lemma_index_of_from_found(s: Seq<char>, c: char, i: int, k: int)
    requires
        0 <= i <= k < s.len(),
        s[k] == c,
        forall|j: int| i <= j < k ==> s[j] != c,
    ensures
        index_of_from(s, c, i) == Some(k),
    decreases k - i,
{
    if i < k {
        lemma_index_of_from_found(s, c, i + 1, k);
    }
}

/// A string without `c` has no index of `c`.
pub proof fn lemma_index_of_from_absent(s: Seq<char>, c: char, i: int)
    requires
        0 <= i,
        forall|j: int| i <= j < s.len() ==> s[j] != c,
    ensures
        index_of_from(s, c, i) is None,
    decreases s.len() - i,
{
    if i < s.len() {
        lemma_index_of_from_absent(s, c, i + 1);
    }
}

/// First index of `c` in `v` (`str::find` with a `char` pattern, counted in
/// characters).
pub fn find_char(v: &[char], c: char) -> (r: Option<usize>)
    ensures
        r matches Some(k) ==> index_of(v@, c) == Some(k as int),
        r is None ==> index_of(v@, c) is None,
        r matches Some(k) ==> k < v@.len() && v@[k as int] == c,
{
    let mut i: usize = 0;
    while i < v.len()
        invariant
            i <= v@.len(),
            index_of(v@, c) == index_of_from(v@, c, i as int),
        decreases v.len() - i,
    {
        if v[i] == c {
            return Some(i);
        }
        i += 1;
    }
    None
}

/// `s` without its trailing `c`s (`str::trim_end_matches` with a char).
pub open spec fn strip_trailing(s: Seq<char>, c: char) -> Seq<char>
    decreases s.len(),
{
    if s.len() > 0 && s.last() == c {
        strip_trailing(s.drop_last(), c)
    } else {
        s
    }
}

pub fn strip_trailing_exec(v: &[char], c: char) -> (r: Vec<char>)
    ensures
        r@ == strip_trailing(v@, c),
{
    let mut end = v.len();
    assert(v@.take(v@.len() as int) =~= v@);
    while end > 0 && v[end - 1] == c
        invariant
            end <= v@.len(),
            strip_trailing(v@, c) == strip_trailing(v@.take(end as int), c),
        decreases end,
    {
        assert(v@.take(end as int).drop_last() =~= v@.take(end - 1));
        end -= 1;
    }
    let r = slice_chars(v, 0, end);
    assert(r@ =~= v@.take(end as int));
    r
}

// ---------------------------------------------------------------------------
// Joining (`[..].join(sep)`)
// ---------------------------------------------------------------------------

/// `parts` joined with `sep` between consecutive parts.
pub open spec fn join(parts: Seq<Seq<char>>, sep: Seq<char>) -> Seq<char>
    decreases parts.len(),
{
    if parts.len() == 0 {
        Seq::empty()
    } else if parts.len() == 1 {
        parts[0]
    } else {
        join(parts.drop_last(), sep) + sep + parts.last()
    }
}

pub fn join_chars(parts: &Vec<Vec<char>>, sep: &[char]) -> (r: Vec<char>)
    ensures
        r@ == join(vviews(parts@), sep@),
{
    let mut r: Vec<char> = Vec::new();
    let mut i: usize = 0;
    while i < parts.len()
        invariant
            i <= parts@.len(),
            r@ == join(vviews(parts@).take(i as int), sep@),
        decreases parts.len() - i,
    {
        assert(vviews(parts@).take(i + 1).drop_last() == vviews(parts@).take(i as int));
        if i > 0 {
            extend_chars(&mut r, sep);
        }
        extend_chars(&mut r, &parts[i]);
        i += 1;
        assert(vviews(parts@).take(i as int).last() == parts@[i - 1]@);
    }
    assert(vviews(parts@).take(parts@.len() as int) == vviews(parts@));
    r
}

// ---------------------------------------------------------------------------
// Decimal and hexadecimal numbers
// ---------------------------------------------------------------------------

pub open spec fn is_digit(c: char) -> bool {
    '0' <= c && c <= '9'
}

pub open spec fn digit_value(c: char) -> nat {
    (c as nat - '0' as nat) as nat
}

pub open spec fn all_digits(s: Seq<char>) -> bool {
    forall|i: int| 0 <= i < s.len() ==> #[trigger] is_digit(s[i])
}

pub fn all_digits_exec(v: &[char]) -> (b: bool)
    ensures
        b == all_digits(v@),
{
    let mut k: usize = 0;
    while k < v.len()
        invariant
            k <= v@.len(),
            forall|j: int| 0 <= j < k ==> is_digit(#[trigger] v@[j]),
        decreases v.len() - k,
    {
        if !('0' <= v[k] && v[k] <= '9') {
            assert(!is_digit(v@[k as int]));
            return false;
        }
        k += 1;
    }
    true
}

/// Value of a string of decimal digits.
pub open spec fn decimal_value(s: Seq<char>) -> nat
    decreases s.len(),
{
    if s.len() == 0 {
        0
    } else {
        decimal_value(s.drop_last()) * 10 + digit_value(s.last())
    }
}

/// The digits that `str::parse` reads for an unsigned integer: an optional
/// leading `'+'` is skipped when more characters follow it.
pub open spec fn unsigned_digits(s: Seq<char>) -> Seq<char> {
    if s.len() > 1 && s[0] == '+' {
        s.drop_first()
    } else {
        s
    }
}

/// What `str::parse::<uN>()` returns for an unsigned type whose maximum is `max`.
pub open spec fn parse_unsigned(s: Seq<char>, max: nat) -> Option<nat> {
    let d = unsigned_digits(s);
    if d.len() > 0 && all_digits(d) && decimal_value(d) <= max {
        Some(decimal_value(d))
    } else {
        None
    }
}

/// Parses an unsigned decimal number no larger than `max` (`str::parse::<uN>()`).
pub fn parse_unsigned_exec(v: &[char], max: u64) -> (r: Option<u64>)
    ensures
        r matches Some(n) ==> parse_unsigned(v@, max as nat) == Some(n as nat),
        r is None ==> parse_unsigned(v@, max as nat) is None,
{
    let start: usize = if v.len() > 1 && v[0] == '+' {
        1
    } else {
        0
    };
    let ghost d = unsigned_digits(v@);
    assert(d == v@.skip(start as int));
    if start >= v.len() {
        return None;
    }
    let mut acc: u64 = 0;
    let mut i = start;
    while i < v.len()
        invariant
            start <= i <= v@.len(),
            d == v@.skip(start as int),
            d == unsigned_digits(v@),
            acc as nat == decimal_value(v@.subrange(start as int, i as int)),
            acc <= max,
            all_digits(v@.subrange(start as int, i as int)),
        decreases v.len() - i,
    {
        let c = v[i];
        assert(v@.subrange(start as int, i + 1).drop_last() == v@.subrange(start as int, i as int));
        if !('0' <= c && c <= '9') {
            assert(d[i - start] == c);
            assert(!is_digit(d[i - start]));
            return None;
        }
        let dv = (c as u32 - '0' as u32) as u64;
        assert(decimal_value(v@.subrange(start as int, i + 1)) == acc * 10 + dv);
        assert(v@.subrange(start as int, v@.len() as int) == d);
        match acc.checked_mul(10) {
            None => {
                proof { lemma_decimal_prefix_monotone(v@, start as int, i + 1); }
                return None;
            },
            Some(m) => match m.checked_add(dv) {
                None => {
                    proof { lemma_decimal_prefix_monotone(v@, start as int, i + 1); }
                    return None;
                },
                Some(n) => {
                    if n > max {
                        proof { lemma_decimal_prefix_monotone(v@, start as int, i + 1); }
                        return None;
                    }
                    acc = n;
                },
            },
        }
        i += 1;
        assert(all_digits(v@.subrange(start as int, i as int)));
    }
    assert(v@.subrange(start as int, v@.len() as int) == d);
    Some(acc)
}

/// Once a digit prefix exceeds `max`, the whole digit string does too (or has a
/// non-digit).
proof fn lemma_decimal_prefix_monotone(s: Seq<char>, start: int, k: int)
    requires
        0 <= start <= k <= s.len(),
    ensures
        all_digits(s.subrange(start, s.len() as int)) ==> decimal_value(s.subrange(start, k))
            <= decimal_value(s.subrange(start, s.len() as int)),
    decreases s.len() - k,
{
    if k < s.len() {
        lemma_decimal_prefix_monotone(s, start, k + 1);
        assert(s.subrange(start, k + 1).drop_last() == s.subrange(start, k));
        if all_digits(s.subrange(start, s.len() as int)) {
            assert(s.subrange(start, s.len() as int)[k - start] == s[k]);
            assert(is_digit(s[k]));
        }
    }
}

/// Parses a `usize` (`str::parse::<usize>()`).
pub fn parse_usize(v: &[char]) -> (r: Option<usize>)
    ensures
        r matches Some(n) ==> parse_unsigned(v@, usize::MAX as nat) == Some(n as nat),
        r is None ==> parse_unsigned(v@, usize::MAX as nat) is None,
{
    match parse_unsigned_exec(v, usize::MAX as u64) {
        Some(n) => Some(n as usize),
        None => None,
    }
}

/// Parses a `u32` (`str::parse::<u32>()`).
pub fn parse_u32(v: &[char]) -> (r: Option<u32>)
    ensures
        r matches Some(n) ==> parse_unsigned(v@, u32::MAX as nat) == Some(n as nat),
        r is None ==> parse_unsigned(v@, u32::MAX as nat) is None,
{
    match parse_unsigned_exec(v, u32::MAX as u64) {
        Some(n) => Some(n as u32),
        None => None,
    }
}

/// Decimal form of `n` without leading zeros (`{}` of an unsigned integer).
pub open spec fn decimal_text(n: nat) -> Seq<char>
    decreases n,
{
    if n < 10 {
        seq![hex_digit_lower(n)]
    } else {
        decimal_text(n / 10).push(hex_digit_lower(n % 10))
    }
}

/// The decimal form of a number is a non-empty string of digits whose value
/// is the number.
pub proof fn lemma_decimal_text_digits(n: nat)
    ensures
        decimal_text(n).len() > 0,
        all_digits(decimal_text(n)),
        decimal_value(decimal_text(n)) == n,
    decreases n,
{
    if n < 10 {
        let c = hex_digit_lower(n);
        assert(decimal_text(n) =~= seq![c]);
        assert(seq![c].drop_last() =~= Seq::<char>::empty());
        assert(is_digit(c));
        assert(digit_value(c) == n);
        assert(decimal_value(Seq::<char>::empty()) == 0);
        assert(decimal_value(seq![c]) == decimal_value(seq![c].drop_last()) * 10 + digit_value(c));
    } else {
        lemma_decimal_text_digits(n / 10);
        let d = decimal_text(n / 10);
        let c = hex_digit_lower(n % 10);
        assert(decimal_text(n) == d.push(c));
        assert(d.push(c).drop_last() =~= d);
        assert(is_digit(c));
        assert(digit_value(c) == n % 10);
        vstd::arithmetic::div_mod::lemma_fundamental_div_mod(n as int, 10);
        assert(decimal_value(d.push(c)) == decimal_value(d) * 10 + digit_value(c));
        assert(decimal_value(d.push(c)) == n);
        assert forall|i: int| 0 <= i < d.push(c).len() implies #[trigger] is_digit(d.push(c)[i]) by {
            if i < d.len() {
                assert(d.push(c)[i] == d[i]);
            }
        }
    }
}

/// `str::parse` reads a number back from its decimal form.
pub proof fn lemma_parse_decimal_text(n: nat, max: nat)
    requires
        n <= max,
    ensures
        parse_unsigned(decimal_text(n), max) == Some(n),
{
    lemma_decimal_text_digits(n);
    assert(is_digit(decimal_text(n)[0]));
    assert(unsigned_digits(decimal_text(n)) == decimal_text(n));
}

/// Appends the decimal form of `n`.
pub fn push_decimal(out: &mut Vec<char>, n: u64)
    ensures
        final(out)@ == old(out)@ + decimal_text(n as nat),
    decreases n,
{
    if n >= 10 {
        push_decimal(out, n / 10);
    }
    let d = (n % 10) as u8;
    let c = hex_digit_exec(d, false);
    out.push(c);
    proof {
        if n >= 10 {
            assert(decimal_text(n as nat) == decimal_text((n / 10) as nat).push(c));
        } else {
            assert(decimal_text(n as nat) == seq![c]);
        }
    }
}

/// Lower-case hexadecimal digit of `d < 16`.
pub open spec fn hex_digit_lower(d: nat) -> char {
    if d < 10 {
        ((d + 48) as u32) as char
    } else {
        ((d + 87) as u32) as char
    }
}

/// Upper-case hexadecimal digit of `d < 16`.
pub open spec fn hex_digit_upper(d: nat) -> char {
    if d < 10 {
        ((d + 48) as u32) as char
    } else {
        ((d + 55) as u32) as char
    }
}

/// Lower-case hexadecimal form of `n` without leading zeros (`{:x}`).
pub open spec fn hex_lower(n: nat) -> Seq<char>
    decreases n,
{
    if n < 16 {
        seq![hex_digit_lower(n)]
    } else {
        hex_lower(n / 16).push(hex_digit_lower(n % 16))
    }
}

pub fn hex_digit_exec(d: u8, upper: bool) -> (c: char)
    requires
        d < 16,
    ensures
        upper ==> c == hex_digit_upper(d as nat),
        !upper ==> c == hex_digit_lower(d as nat),
{
    if d < 10 {
        (d + 48) as char
    } else if upper {
        (d + 55) as char
    } else {
        (d + 87) as char
    }
}

/// `{:x}` of a `u64`.
pub fn hex_lower_u64(n: u64) -> (r: Vec<char>)
    ensures
        r@ == hex_lower(n as nat),
    decreases n,
{
    if n < 16 {
        let c = hex_digit_exec(n as u8, false);
        let mut r: Vec<char> = Vec::new();
        r.push(c);
        assert(r@ == seq![c]);
        r
    } else {
        let mut r = hex_lower_u64(n / 16);
        let c = hex_digit_exec((n % 16) as u8, false);
        r.push(c);
        r
    }
}

/// `{:02X}` of a byte: two upper-case hexadecimal digits.
pub open spec fn hex2_upper(b: u8) -> Seq<char> {
    seq![hex_digit_upper((b / 16) as nat), hex_digit_upper((b % 16) as nat)]
}

/// `{:02x}` of a byte: two lower-case hexadecimal digits.
pub open spec fn hex2_lower(b: u8) -> Seq<char> {
    seq![hex_digit_lower((b / 16) as nat), hex_digit_lower((b % 16) as nat)]
}

pub fn push_hex2(out: &mut Vec<char>, b: u8, upper: bool)
    ensures
        upper ==> final(out)@ == old(out)@ + hex2_upper(b),
        !upper ==> final(out)@ == old(out)@ + hex2_lower(b),
{
    let hi = hex_digit_exec(b / 16, upper);
    let lo = hex_digit_exec(b % 16, upper);
    out.push(hi);
    out.push(lo);
}

// ---------------------------------------------------------------------------
// Unicode lower-casing (`str::to_lowercase`)
// ---------------------------------------------------------------------------

/// What `str::to_lowercase` returns for a string (full Unicode case mapping).
pub uninterp spec fn unicode_lowercase(s: Seq<char>) -> Seq<char>;

/// `str::to_lowercase` of the standard library. Its result is named
/// `unicode_lowercase`; of the Unicode mapping only its documented ASCII
/// part is claimed: on ASCII text it lower-cases `A` to `Z` and leaves every
/// other character as it is.
#[verifier::external_body]
pub(crate) fn to_lowercase(s: &[char]) -> (r: Vec<char>)
    ensures
        r@ == unicode_lowercase(s@),
        (forall|i: int| 0 <= i < s@.len() ==> (s@[i] as u32) < 128) ==> r@ == ascii_lower(s@),
{
    let text: String = s.iter().collect();
    text.to_lowercase().chars().collect()
}

} // verus!

verus! {

// ---------------------------------------------------------------------------
// Views of string collections and UTF-8 lengths
// ---------------------------------------------------------------------------

/// The views of a sequence of strings.
pub open spec fn sviews(v: Seq<String>) -> Seq<Seq<char>> {
    Seq::new(v.len(), |i: int| v[i]@)
}

/// Number of bytes `c` takes in UTF-8 (`char::len_utf8`).
pub open spec fn char_utf8_len(c: char) -> nat {
    if (c as u32) < 0x80 {
        1
    } else if (c as u32) < 0x800 {
        2
    } else if (c as u32) < 0x10000 {
        3
    } else {
        4
    }
}

/// Number of bytes of `s` in UTF-8 (`str::len`).
pub open spec fn utf8_len(s: Seq<char>) -> nat
    decreases s.len(),
{
    if s.len() == 0 {
        0
    } else {
        utf8_len(s.drop_last()) + char_utf8_len(s.last())
    }
}

pub proof fn lemma_utf8_len_bound(s: Seq<char>)
    ensures
        utf8_len(s) <= 4 * s.len(),
    decreases s.len(),
{
    if s.len() > 0 {
        lemma_utf8_len_bound(s.drop_last());
    }
}

pub proof fn lemma_utf8_len_concat(a: Seq<char>, b: Seq<char>)
    ensures
        utf8_len(a + b) == utf8_len(a) + utf8_len(b),
    decreases b.len(),
{
    if b.len() == 0 {
        assert(a + b =~= a);
    } else {
        lemma_utf8_len_concat(a, b.drop_last());
        assert((a + b).drop_last() =~= a + b.drop_last());
    }
}

/// UTF-8 byte length of a character vector.
pub fn utf8_len_exec(v: &[char]) -> (n: u128)
    ensures
        n == utf8_len(v@),
        v@.len() <= usize::MAX,
{
    let len = v.len();
    let mut n: u128 = 0;
    let mut i: usize = 0;
    while i < len
        invariant
            i <= len,
            len == v@.len(),
            n == utf8_len(v@.take(i as int)),
            n <= 4 * i,
        decreases len - i,
    {
        let c = v[i];
        let k: u128 = if (c as u32) < 0x80 {
            1
        } else if (c as u32) < 0x800 {
            2
        } else if (c as u32) < 0x10000 {
            3
        } else {
            4
        };
        assert(v@.take(i + 1).drop_last() == v@.take(i as int));
        n = n + k;
        i += 1;
    }
    assert(v@.take(len as int) == v@);
    n
}

} // verus!
