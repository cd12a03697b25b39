//! Decisions of the transcription client: the text fields of an upload, when
//! a failed upload is tried again, and how the transcripts of the chunks of a
//! long recording are put back in order and merged into one.
use vstd::prelude::*;

use crate::text::{
    chars_of, eq_str, extend_str, join, join_chars, sviews, trim, trim_chars, vviews, string_of,
};

verus! {

broadcast use vstd::string::group_string_axioms;

// ---------------------------------------------------------------------------
// Upload fields
// ---------------------------------------------------------------------------

/// The prompt sent with an upload for a language when the request names none.
pub open spec fn default_prompt_text(language: Seq<char>) -> Option<Seq<char>> {
    if language == "id"@ {
        Some("Berikut adalah transkripsi percakapan yang jelas dan terstruktur:"@)
    } else if language == "en"@ {
        Some("The following is a clear and structured transcription:"@)
    } else if language == "ja"@ {
        Some("以下は明確で構造化された文字起こしです。"@)
    } else if language == "ko"@ {
        Some("다음은 명확하고 구조화된 대화 녹취록입니다:"@)
    } else if language == "zh"@ {
        Some("以下是清晰且结构化的转录内容："@)
    } else {
        None
    }
}

/// The default prompt for a language code, for the languages that have one.
pub fn default_prompt(language: &str) -> (r: Option<&'static str>)
    ensures
        match default_prompt_text(language@) {
            Some(p) => r matches Some(s) && s@ == p,
            None => r is None,
        },
{
    if eq_str(&chars_of(language), "id") {
        Some("Berikut adalah transkripsi percakapan yang jelas dan terstruktur:")
    } else if eq_str(&chars_of(language), "en") {
        Some("The following is a clear and structured transcription:")
    } else if eq_str(&chars_of(language), "ja") {
        Some("以下は明確で構造化された文字起こしです。")
    } else if eq_str(&chars_of(language), "ko") {
        Some("다음은 명확하고 구조화된 대화 녹취록입니다:")
    } else if eq_str(&chars_of(language), "zh") {
        Some("以下是清晰且结构化的转录内容：")
    } else {
        None
    }
}

/// The prompt of an upload: the request's own, else the default prompt of
/// its language.
pub open spec fn upload_prompt_text(prompt: Option<Seq<char>>, language: Option<Seq<char>>) -> Option<
    Seq<char>,
> {
    match prompt {
        Some(p) => Some(p),
        None => match language {
            Some(l) => default_prompt_text(l),
            None => None,
        },
    }
}

/// The text fields of an upload besides the temperature: the model, the
/// response format (`verbose_json` unless the request names one) and the
/// prompt, when there is one.
pub fn upload_text_fields(
    model: &str,
    response_format: Option<&str>,
    prompt: Option<&str>,
    language: Option<&str>,
) -> (r: Vec<(String, String)>)
    ensures
        ({
            let fmt = match response_format {
                Some(f) => f@,
                None => "verbose_json"@,
            };
            let p = upload_prompt_text(
                match prompt {
                    Some(x) => Some(x@),
                    None => None,
                },
                match language {
                    Some(x) => Some(x@),
                    None => None,
                },
            );
            &&& r@.len() == if p is Some { 3int } else { 2int }
            &&& r@[0].0@ == "model"@ && r@[0].1@ == model@
            &&& r@[1].0@ == "response_format"@ && r@[1].1@ == fmt
            &&& p matches Some(t) ==> r@[2].0@ == "prompt"@ && r@[2].1@ == t
        }),
{
    let mut out: Vec<(String, String)> = Vec::new();
    out.push((string_of(&chars_of("model")), string_of(&chars_of(model))));
    let fmt = match response_format {
        Some(f) => string_of(&chars_of(f)),
        None => string_of(&chars_of("verbose_json")),
    };
    out.push((string_of(&chars_of("response_format")), fmt));
    match prompt {
        Some(p) => {
            out.push((string_of(&chars_of("prompt")), string_of(&chars_of(p))));
        },
        None => match language {
            Some(l) => match default_prompt(l) {
                Some(d) => {
                    out.push((string_of(&chars_of("prompt")), string_of(&chars_of(d))));
                },
                None => {},
            },
            None => {},
        },
    }
    out
}

/// The endpoint an upload is posted to: `{base}/audio/transcriptions`.
pub fn transcription_url(base_url: &str) -> (r: String)
    ensures
        r@ == base_url@ + "/audio/transcriptions"@,
{
    let mut out = chars_of(base_url);
    extend_str(&mut out, "/audio/transcriptions");
    string_of(&out)
}

// ---------------------------------------------------------------------------
// Retrying an upload
// ---------------------------------------------------------------------------

/// How many times an upload is attempted at most.
pub const MAX_ATTEMPTS: u32 = 3;

/// What one attempt at an upload came to.
#[derive(Clone, Copy, Debug, PartialEq, Eq, Structural)]
pub enum AttemptOutcome {
    /// A success status.
    Success,
    /// A 5xx status.
    ServerError,
    /// Any other status that is not a success.
    OtherStatus,
    /// The request did not get a response.
    NetworkError,
}

/// What to do after an attempt.
#[derive(Clone, Copy, Debug, PartialEq, Eq, Structural)]
pub enum RetryStep {
    /// Read the response.
    Accept,
    /// Wait this many seconds, then attempt again.
    RetryAfter(u64),
    /// Give up, reporting the status.
    FailStatus,
    /// Give up, reporting the network error.
    FailNetwork,
}

/// The wait before attempt `attempt + 1`: one second, doubling each time.
pub open spec fn backoff_secs(attempt: nat) -> nat {
    vstd::arithmetic::power2::pow2((attempt - 1) as nat)
}

pub open spec fn retry_step_spec(attempt: nat, outcome: AttemptOutcome) -> RetryStep {
    match outcome {
        AttemptOutcome::Success => RetryStep::Accept,
        AttemptOutcome::ServerError => if attempt < MAX_ATTEMPTS {
            RetryStep::RetryAfter(backoff_secs(attempt) as u64)
        } else {
            RetryStep::FailStatus
        },
        AttemptOutcome::OtherStatus => RetryStep::FailStatus,
        AttemptOutcome::NetworkError => if attempt < MAX_ATTEMPTS {
            RetryStep::RetryAfter(backoff_secs(attempt) as u64)
        } else {
            RetryStep::FailNetwork
        },
    }
}

/// Decides what follows attempt number `attempt` (counted from 1): server
/// and network errors are tried again after a doubling wait until the last
/// attempt; a success is accepted; anything else fails at once.
pub fn retry_step(attempt: u32, outcome: AttemptOutcome) -> (r: RetryStep)
    requires
        1 <= attempt <= MAX_ATTEMPTS,
    ensures
        r == retry_step_spec(attempt as nat, outcome),
        attempt == MAX_ATTEMPTS ==> !(r is RetryAfter),
        r matches RetryStep::RetryAfter(d) ==> 1 <= d <= 2,
{
    proof {
        vstd::arithmetic::power2::lemma2_to64();
    }
    let delay: u64 = if attempt == 1 {
        1
    } else {
        2
    };
    match outcome {
        AttemptOutcome::Success => RetryStep::Accept,
        AttemptOutcome::ServerError => {
            if attempt < MAX_ATTEMPTS {
                RetryStep::RetryAfter(delay)
            } else {
                RetryStep::FailStatus
            }
        },
        AttemptOutcome::OtherStatus => RetryStep::FailStatus,
        AttemptOutcome::NetworkError => {
            if attempt < MAX_ATTEMPTS {
                RetryStep::RetryAfter(delay)
            } else {
                RetryStep::FailNetwork
            }
        },
    }
}

// ---------------------------------------------------------------------------
// Merging the transcripts of chunks
// ---------------------------------------------------------------------------

/// The transcript of one chunk. `S` is the segment type, whose timestamps
/// the caller has already moved by the chunk's offset.
pub struct ChunkTranscript<S> {
    pub text: String,
    pub language: Option<String>,
    pub segments: Option<Vec<S>>,
}

/// The transcript of a whole recording: segments carry their new ids.
pub struct MergedTranscript<S> {
    pub text: String,
    pub language: Option<String>,
    pub segments: Option<Vec<(u32, S)>>,
}

pub open spec fn chunk_segments<S>(c: ChunkTranscript<S>) -> Seq<S> {
    match c.segments {
        Some(v) => v@,
        None => Seq::empty(),
    }
}

/// All the segments of the chunks, in order.
pub open spec fn all_segments<S>(cs: Seq<ChunkTranscript<S>>) -> Seq<S>
    decreases cs.len(),
{
    if cs.len() == 0 {
        Seq::empty()
    } else {
        all_segments(cs.drop_last()) + chunk_segments(cs.last())
    }
}

/// The trimmed texts of the chunks, blank ones left out.
pub open spec fn kept_texts<S>(cs: Seq<ChunkTranscript<S>>) -> Seq<Seq<char>>
    decreases cs.len(),
{
    if cs.len() == 0 {
        Seq::empty()
    } else {
        let k = kept_texts(cs.drop_last());
        let t = trim(cs.last().text@);
        if t.len() > 0 {
            k.push(t)
        } else {
            k
        }
    }
}

/// The language of the first chunk that reports one.
pub open spec fn first_language<S>(cs: Seq<ChunkTranscript<S>>) -> Option<Seq<char>>
    decreases cs.len(),
{
    if cs.len() == 0 {
        None
    } else {
        match first_language(cs.drop_last()) {
            Some(l) => Some(l),
            None => match cs.last().language {
                Some(l) => Some(l@),
                None => None,
            },
        }
    }
}

proof fn lemma_all_segments_prefix<S>(cs: Seq<ChunkTranscript<S>>, k: int)
    requires
        0 <= k <= cs.len(),
    ensures
        all_segments(cs.take(k)).len() <= all_segments(cs).len(),
    decreases cs.len(),
{
    if k < cs.len() {
        assert(cs.drop_last().take(k) =~= cs.take(k));
        lemma_all_segments_prefix(cs.drop_last(), k);
    } else {
        assert(cs.take(k) =~= cs);
    }
}

/// Merges the transcripts of consecutive chunks: the trimmed texts that are
/// not blank are joined with a space, the language is the first one
/// reported, and the segments follow one another with ids counted from 0
/// (no segments at all gives `None`).
pub fn merge_chunk_transcripts<S>(chunks: Vec<ChunkTranscript<S>>) -> (r: MergedTranscript<S>)
    requires
        all_segments(chunks@).len() <= u32::MAX,
    ensures
        r.text@ == join(kept_texts(chunks@), " "@),
        match first_language(chunks@) {
            Some(l) => r.language matches Some(x) && x@ == l,
            None => r.language is None,
        },
        all_segments(chunks@).len() == 0 ==> r.segments is None,
        all_segments(chunks@).len() > 0 ==> (r.segments matches Some(v) && v@.len()
            == all_segments(chunks@).len() && forall|i: int|
            0 <= i < v@.len() ==> (#[trigger] v@[i]).0 == i && v@[i].1 == all_segments(
                chunks@,
            )[i]),
{
    let ghost orig = chunks@;
    let mut chunks = chunks;
    let mut texts: Vec<Vec<char>> = Vec::new();
    let mut language: Option<String> = None;
    let mut out: Vec<(u32, S)> = Vec::new();
    let mut next_id: u32 = 0;
    let mut k: usize = 0;
    let n = chunks.len();
    while chunks.len() > 0
        invariant
            n == orig.len(),
            k + chunks@.len() == n,
            chunks@ == orig.skip(k as int),
            all_segments(orig).len() <= u32::MAX,
            vviews(texts@) == kept_texts(orig.take(k as int)),
            match first_language(orig.take(k as int)) {
                Some(l) => language matches Some(x) && x@ == l,
                None => language is None,
            },
            out@.len() == all_segments(orig.take(k as int)).len(),
            next_id as int == out@.len(),
            forall|i: int|
                0 <= i < out@.len() ==> (#[trigger] out@[i]).0 == i && out@[i].1 == all_segments(
                    orig.take(k as int),
                )[i],
        decreases chunks.len(),
    {
        let ghost pre = orig.take(k as int);
        assert(orig.take(k + 1).drop_last() =~= pre);
        assert(orig.take(k + 1).last() == orig[k as int]);
        assert(chunks@[0] == orig[k as int]);
        proof {
            lemma_all_segments_prefix(orig, k + 1);
        }
        let c = chunks.remove(0);
        assert(chunks@ =~= orig.skip(k + 1));
        let t = trim_chars(&chars_of(c.text.as_str()));
        if t.len() > 0 {
            texts.push(t);
        }
        assert(vviews(texts@) =~= kept_texts(orig.take(k + 1)));
        let ghost segs = chunk_segments(c);
        let ghost base = out@.len();
        assert(all_segments(orig.take(k + 1)) =~= all_segments(pre) + segs);
        if language.is_none() {
            language = c.language;
        }
        match c.segments {
            Some(v) => {
                let mut v = v;
                let mut j: usize = 0;
                let m = v.len();
                while v.len() > 0
                    invariant
                        m == segs.len(),
                        j + v@.len() == m,
                        v@ == segs.skip(j as int),
                        out@.len() == base + j,
                        base == all_segments(pre).len(),
                        all_segments(orig.take(k + 1)) == all_segments(pre) + segs,
                        all_segments(orig.take(k + 1)).len() <= u32::MAX,
                        next_id as int == out@.len(),
                        forall|i: int|
                            0 <= i < out@.len() ==> (#[trigger] out@[i]).0 == i && out@[i].1
                                == all_segments(orig.take(k + 1))[i],
                    decreases v.len(),
                {
                    assert(v@[0] == segs[j as int]);
                    let s = v.remove(0);
                    assert(v@ =~= segs.skip(j + 1));
                    out.push((next_id, s));
                    next_id = next_id + 1;
                    j += 1;
                }
            },
            None => {
                assert(all_segments(orig.take(k + 1)) =~= all_segments(pre));
            },
        }
        k += 1;
    }
    assert(orig.take(n as int) =~= orig);
    let text = string_of(&join_chars(&texts, &chars_of(" ")));
    let segments = if out.len() == 0 {
        None
    } else {
        Some(out)
    };
    MergedTranscript { text, language, segments }
}


// ---------------------------------------------------------------------------
// Putting chunk transcripts back in order
// ---------------------------------------------------------------------------

/// How many of the pairs have an index of at most `k`.
pub open spec fn le_count<R>(t: Seq<(usize, R)>, k: usize) -> nat
    decreases t.len(),
{
    if t.len() == 0 {
        0
    } else {
        le_count(t.drop_last(), k) + if t.last().0 <= k {
            1nat
        } else {
            0nat
        }
    }
}

/// The pairs sorted by index, pairs with equal indices in the order they
/// came: each pair in turn goes after every pair already placed whose
/// index is not larger (a stable sort by index).
pub open spec fn by_index<R>(s: Seq<(usize, R)>) -> Seq<(usize, R)>
    decreases s.len(),
{
    if s.len() == 0 {
        Seq::empty()
    } else {
        let t = by_index(s.drop_last());
        t.insert(le_count(t, s.last().0) as int, s.last())
    }
}

/// The indices never decrease along the pairs.
pub open spec fn index_sorted<R>(t: Seq<(usize, R)>) -> bool {
    forall|i: int, j: int| 0 <= i < j < t.len() ==> t[i].0 <= t[j].0
}

proof fn lemma_le_count_bound<R>(t: Seq<(usize, R)>, k: usize)
    ensures
        le_count(t, k) <= t.len(),
    decreases t.len(),
{
    if t.len() > 0 {
        lemma_le_count_bound(t.drop_last(), k);
    }
}

/// In pairs sorted by index, those with an index of at most `k` come first.
proof fn lemma_le_count_splits<R>(t: Seq<(usize, R)>, k: usize)
    requires
        index_sorted(t),
    ensures
        le_count(t, k) <= t.len(),
        forall|i: int| 0 <= i < le_count(t, k) ==> #[trigger] t[i].0 <= k,
        forall|i: int| le_count(t, k) <= i < t.len() ==> #[trigger] t[i].0 > k,
    decreases t.len(),
{
    lemma_le_count_bound(t, k);
    if t.len() > 0 {
        let u = t.drop_last();
        assert(index_sorted(u)) by {
            assert forall|i: int, j: int| 0 <= i < j < u.len() implies u[i].0 <= u[j].0 by {
                assert(u[i] == t[i] && u[j] == t[j]);
            }
        }
        lemma_le_count_splits(u, k);
        let n = t.len() - 1;
        if t.last().0 <= k {
            assert forall|i: int| 0 <= i < u.len() implies #[trigger] u[i].0 <= k by {
                assert(u[i] == t[i]);
                assert(t[i].0 <= t[n].0);
            }
            if le_count(u, k) < u.len() {
                let w = le_count(u, k) as int;
                assert(u[w].0 > k);
                assert(u[w].0 <= k);
            }
            assert forall|i: int| 0 <= i < le_count(t, k) implies #[trigger] t[i].0 <= k by {
                if i < n {
                    assert(u[i] == t[i]);
                }
            }
        } else {
            assert forall|i: int| 0 <= i < le_count(t, k) implies #[trigger] t[i].0 <= k by {
                assert(u[i] == t[i]);
            }
            assert forall|i: int| le_count(t, k) <= i < t.len() implies #[trigger] t[i].0 > k by {
                if i < n {
                    assert(u[i] == t[i]);
                }
            }
        }
    }
}

/// The order chunk transcripts are put back in is sorted by index and holds
/// exactly the pairs given.
proof fn lemma_by_index<R>(s: Seq<(usize, R)>)
    ensures
        by_index(s).len() == s.len(),
        index_sorted(by_index(s)),
        by_index(s).to_multiset() == s.to_multiset(),
    decreases s.len(),
{
    broadcast use vstd::seq_lib::to_multiset_insert, vstd::seq_lib::to_multiset_build;

    if s.len() == 0 {
        assert(s =~= Seq::<(usize, R)>::empty());
    } else {
        let u = s.drop_last();
        let x = s.last();
        lemma_by_index(u);
        let t = by_index(u);
        lemma_le_count_splits(t, x.0);
        let p = le_count(t, x.0) as int;
        let r = t.insert(p, x);
        assert(r == by_index(s));
        assert forall|i: int, j: int| 0 <= i < j < r.len() implies r[i].0 <= r[j].0 by {
            if j < p {
                assert(r[i] == t[i] && r[j] == t[j]);
            } else if j == p {
                assert(r[i] == t[i]);
            } else if i < p {
                assert(r[i] == t[i] && r[j] == t[j - 1]);
            } else if i == p {
                assert(r[j] == t[j - 1]);
            } else {
                assert(r[i] == t[i - 1] && r[j] == t[j - 1]);
            }
        }
        assert(s =~= u.push(x));
    }
}

/// Puts the transcripts of chunks, received as their tasks finished, back in
/// chunk order: sorted by chunk index, pairs with equal indices keeping the
/// order they came in (`sort_by_key` on the index).
pub fn restore_chunk_order<R>(results: Vec<(usize, R)>) -> (r: Vec<(usize, R)>)
    ensures
        r@ == by_index(results@),
        index_sorted(r@),
        r@.to_multiset() == results@.to_multiset(),
{
    let ghost input = results@;
    let mut rest = results;
    let mut out: Vec<(usize, R)> = Vec::new();
    let n = rest.len();
    let mut i: usize = 0;
    assert(input.skip(0) =~= input);
    while i < n
        invariant
            n == input.len(),
            i <= n,
            rest@ == input.skip(i as int),
            out@ == by_index(input.take(i as int)),
        decreases n - i,
    {
        let item = rest.remove(0);
        assert(item == input[i as int]);
        let k = item.0;
        let mut c: usize = 0;
        let mut j: usize = 0;
        while j < out.len()
            invariant
                j <= out@.len(),
                c == le_count(out@.take(j as int), k),
                c <= j,
            decreases out.len() - j,
        {
            assert(out@.take(j + 1).drop_last() =~= out@.take(j as int));
            if out[j].0 <= k {
                c += 1;
            }
            j += 1;
        }
        assert(out@.take(out@.len() as int) =~= out@);
        proof {
            lemma_le_count_bound(out@, k);
        }
        out.insert(c, item);
        i += 1;
        assert(input.take(i as int).drop_last() =~= input.take(i - 1));
        assert(rest@ =~= input.skip(i as int));
    }
    assert(input.take(n as int) =~= input);
    proof {
        lemma_by_index(input);
    }
    out
}

} // verus!
