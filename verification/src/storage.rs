//! Rules of the meeting store that do not touch the database: resolving a
//! short meeting id, which speaker renames are allowed, where voice samples
//! live, and how voiceprint centroids and aliases are stored.
use vstd::prelude::*;

use crate::text::{
    chars_of, extend_chars, extend_str, join, join_chars, push_decimal, decimal_text, starts_with,
    starts_with_str, string_of, sviews, utf8_len, utf8_len_exec, vviews,
};

verus! {

broadcast use vstd::string::group_string_axioms;

// ---------------------------------------------------------------------------
// Resolving a meeting id from a prefix
// ---------------------------------------------------------------------------

/// Ids and prefixes shorter than this many bytes are refused.
pub const MIN_ID_PREFIX_BYTES: u64 = 8;

/// Refuses an id or prefix shorter than eight bytes.
pub fn check_id_prefix(id_or_prefix: &str) -> (r: Result<(), String>)
    ensures
        r is Ok <==> utf8_len(id_or_prefix@) >= 8,
        r matches Err(e) ==> e@ == "ID too short, need at least 8 characters"@,
{
    let n = utf8_len_exec(&chars_of(id_or_prefix));
    if n < 8 {
        Err(string_of(&chars_of("ID too short, need at least 8 characters")))
    } else {
        Ok(())
    }
}

/// The message for a prefix that several meetings share, naming at most
/// three of them.
pub open spec fn ambiguous_id_text(id: Seq<char>, matches: Seq<Seq<char>>) -> Seq<char> {
    "Ambiguous ID '"@ + id + "', matches: "@ + join(
        if matches.len() > 3 {
            matches.take(3)
        } else {
            matches
        },
        ", "@,
    )
}

/// Picks the meeting a prefix names from the ids that start with it (the
/// store fetches at most four): none, exactly one, or an ambiguity error.
pub fn pick_prefix_match(id_or_prefix: &str, matches: Vec<String>) -> (r: Result<
    Option<String>,
    String,
>)
    ensures
        matches@.len() == 0 ==> r == Ok::<Option<String>, String>(None),
        matches@.len() == 1 ==> r == Ok::<Option<String>, String>(Some(matches@[0])),
        matches@.len() > 1 ==> (r matches Err(e) && e@ == ambiguous_id_text(
            id_or_prefix@,
            sviews(matches@),
        )),
{
    if matches.len() == 0 {
        return Ok(None);
    }
    if matches.len() == 1 {
        let mut matches = matches;
        let m = matches.remove(0);
        return Ok(Some(m));
    }
    let ghost mv = sviews(matches@);
    let shown: usize = if matches.len() > 3 {
        3
    } else {
        matches.len()
    };
    let mut parts: Vec<Vec<char>> = Vec::new();
    let mut i: usize = 0;
    while i < shown
        invariant
            i <= shown,
            shown <= matches@.len(),
            mv == sviews(matches@),
            crate::text::vviews(parts@) == mv.take(i as int),
        decreases shown - i,
    {
        let c = chars_of(matches[i].as_str());
        let ghost p0 = parts@;
        parts.push(c);
        assert(mv[i as int] == matches@[i as int]@);
        assert(crate::text::vviews(parts@) =~= crate::text::vviews(p0).push(c@));
        assert(crate::text::vviews(parts@) =~= mv.take(i + 1));
        i += 1;
    }
    assert(mv.take(shown as int) =~= if mv.len() > 3 {
        mv.take(3)
    } else {
        mv
    });
    let mut out: Vec<char> = Vec::new();
    extend_str(&mut out, "Ambiguous ID '");
    extend_str(&mut out, id_or_prefix);
    extend_str(&mut out, "', matches: ");
    let joined = crate::text::join_chars(&parts, &chars_of(", "));
    extend_chars(&mut out, &joined);
    Err(string_of(&out))
}

/// Resolves a meeting id or a prefix of one, given what the store found:
/// whether a meeting has exactly that id, and the ids that start with it (at
/// most four are fetched). Too short a prefix is refused before anything;
/// an exact id wins; otherwise the prefix matches decide.
pub fn resolve_meeting_id(id_or_prefix: &str, exact_exists: bool, matches: Vec<String>) -> (r:
    Result<Option<String>, String>)
    ensures
        utf8_len(id_or_prefix@) < 8 ==> (r matches Err(e) && e@
            == "ID too short, need at least 8 characters"@),
        utf8_len(id_or_prefix@) >= 8 && exact_exists ==> (r matches Ok(Some(id)) && id@
            == id_or_prefix@),
        utf8_len(id_or_prefix@) >= 8 && !exact_exists ==> {
            &&& matches@.len() == 0 ==> r == Ok::<Option<String>, String>(None)
            &&& matches@.len() == 1 ==> r == Ok::<Option<String>, String>(Some(matches@[0]))
            &&& matches@.len() > 1 ==> (r matches Err(e) && e@ == ambiguous_id_text(
                id_or_prefix@,
                sviews(matches@),
            ))
        },
{
    match check_id_prefix(id_or_prefix) {
        Err(e) => return Err(e),
        Ok(()) => {},
    }
    if exact_exists {
        return Ok(Some(string_of(&chars_of(id_or_prefix))));
    }
    pick_prefix_match(id_or_prefix, matches)
}

// ---------------------------------------------------------------------------
// Renaming speakers
// ---------------------------------------------------------------------------

/// The renames that change something: pairs whose old and new labels differ,
/// in order.
pub open spec fn effective_renames_spec(pairs: Seq<(Seq<char>, Seq<char>)>) -> Seq<
    (Seq<char>, Seq<char>),
>
    decreases pairs.len(),
{
    if pairs.len() == 0 {
        Seq::empty()
    } else {
        let k = effective_renames_spec(pairs.drop_last());
        if pairs.last().0 != pairs.last().1 {
            k.push(pairs.last())
        } else {
            k
        }
    }
}

pub open spec fn pair_views(pairs: Seq<(String, String)>) -> Seq<(Seq<char>, Seq<char>)> {
    Seq::new(pairs.len(), |i: int| (pairs[i].0@, pairs[i].1@))
}

/// Drops the renames of a label to itself.
pub fn effective_renames(pairs: &[(String, String)]) -> (r: Vec<(String, String)>)
    ensures
        pair_views(r@) == effective_renames_spec(pair_views(pairs@)),
{
    let ghost pv = pair_views(pairs@);
    let mut out: Vec<(String, String)> = Vec::new();
    let mut i: usize = 0;
    while i < pairs.len()
        invariant
            i <= pairs@.len(),
            pv == pair_views(pairs@),
            pair_views(out@) == effective_renames_spec(pv.take(i as int)),
        decreases pairs.len() - i,
    {
        assert(pv.take(i + 1).drop_last() =~= pv.take(i as int));
        assert(pv.take(i + 1).last() == pv[i as int]);
        let a = chars_of(pairs[i].0.as_str());
        let b = chars_of(pairs[i].1.as_str());
        if !crate::text::eq_chars(&a, &b) {
            out.push((string_of(&a), string_of(&b)));
            assert(pair_views(out@) =~= effective_renames_spec(pv.take(i + 1)));
        } else {
            assert(pair_views(out@) =~= effective_renames_spec(pv.take(i + 1)));
        }
        i += 1;
    }
    assert(pv.take(pairs@.len() as int) =~= pv);
    out
}

pub open spec fn rename_refusal_text(label: Seq<char>, person: Seq<char>) -> Seq<char> {
    "Cannot rename speaker '"@ + label + "' - identified as '"@ + person
        + "' from voice bank. Use 'Clear Voice Identification' to reset."@
}

/// A label that the voice bank identified may be renamed only when the
/// person it names is a guest (`Guest-...`).
pub fn check_rename_allowed(label: &str, identified_as: Option<&str>) -> (r: Result<(), String>)
    ensures
        match identified_as {
            None => r is Ok,
            Some(p) => if starts_with(p@, "Guest-"@) {
                r is Ok
            } else {
                r matches Err(e) && e@ == rename_refusal_text(label@, p@)
            },
        },
{
    match identified_as {
        None => Ok(()),
        Some(p) => {
            let pc = chars_of(p);
            if starts_with_str(&pc, "Guest-") {
                Ok(())
            } else {
                let mut out: Vec<char> = Vec::new();
                extend_str(&mut out, "Cannot rename speaker '");
                extend_str(&mut out, label);
                extend_str(&mut out, "' - identified as '");
                extend_chars(&mut out, &pc);
                extend_str(
                    &mut out,
                    "' from voice bank. Use 'Clear Voice Identification' to reset.",
                );
                Err(string_of(&out))
            }
        },
    }
}

// ---------------------------------------------------------------------------
// Voice samples
// ---------------------------------------------------------------------------

/// Where a voice sample is kept, relative to the data directory:
/// `voiceprints/{person}/samples/{sample}.wav`.
pub fn sample_relative_path(person_id: &str, sample_id: &str) -> (r: String)
    ensures
        r@ == "voiceprints/"@ + person_id@ + "/samples/"@ + sample_id@ + ".wav"@,
{
    let mut out: Vec<char> = Vec::new();
    extend_str(&mut out, "voiceprints/");
    extend_str(&mut out, person_id);
    extend_str(&mut out, "/samples/");
    extend_str(&mut out, sample_id);
    extend_str(&mut out, ".wav");
    string_of(&out)
}

// ---------------------------------------------------------------------------
// Aliases of a person
// ---------------------------------------------------------------------------

#[verifier::external_type_specification]
#[verifier::external_body]
pub struct ExJsonError(serde_json::Error);

/// The JSON text `serde_json::to_string` writes for a list of strings.
pub uninterp spec fn json_of_strings(items: Seq<Seq<char>>) -> Seq<char>;

/// The list of strings `serde_json::from_str` reads from a text, if it reads
/// one.
pub uninterp spec fn strings_of_json(text: Seq<char>) -> Option<Seq<Seq<char>>>;

/// `serde_json::to_string` on a list of strings. It cannot fail there (it
/// fails only for a failing `Serialize` impl or a map key that is not a
/// string); the text is the JSON array of the strings, a function of the
/// strings alone, and `serde_json::from_str` reads the same list back from
/// it (every string is written with the escapes JSON reads back).
#[verifier::external_body]
fn strings_to_json(items: &[String]) -> (r: Result<String, serde_json::Error>)
    ensures
        r is Ok,
        r matches Ok(t) ==> t@ == json_of_strings(sviews(items@)),
        r matches Ok(t) ==> strings_of_json(t@) == Some(sviews(items@)),
{
    serde_json::to_string(items)
}

/// `serde_json::from_str::<Vec<String>>`: it succeeds exactly when the text
/// reads as a list of strings, and gives that list.
#[verifier::external_body]
fn strings_from_json(text: &str) -> (r: Result<Vec<String>, serde_json::Error>)
    ensures
        r is Ok <==> strings_of_json(text@) is Some,
        r matches Ok(v) ==> strings_of_json(text@) == Some(sviews(v@)),
{
    serde_json::from_str::<Vec<String>>(text)
}

/// The stored form of a person's aliases: nothing for none, else their JSON
/// array, which reads back as the same aliases.
pub fn aliases_to_db(aliases: &[String]) -> (r: Option<String>)
    ensures
        aliases@.len() == 0 ==> r is None,
        aliases@.len() > 0 ==> (r matches Some(t) && t@ == json_of_strings(sviews(aliases@))),
        aliases@.len() > 0 ==> (r matches Some(t) && strings_of_json(t@) == Some(sviews(aliases@))),
{
    if aliases.len() == 0 {
        None
    } else {
        match strings_to_json(aliases) {
            Ok(t) => Some(t),
            Err(_) => Some(string_of(&chars_of("[]"))),
        }
    }
}

/// A person's aliases read back: the stored JSON array, or none when nothing
/// is stored or it does not read as a list of strings.
pub fn aliases_from_db(raw: Option<String>) -> (r: Vec<String>)
    ensures
        match raw {
            Some(t) => match strings_of_json(t@) {
                Some(v) => sviews(r@) == v,
                None => r@.len() == 0,
            },
            None => r@.len() == 0,
        },
{
    match raw {
        Some(t) => match strings_from_json(t.as_str()) {
            Ok(v) => v,
            Err(_) => Vec::new(),
        },
        None => Vec::new(),
    }
}

// ---------------------------------------------------------------------------
// Centroids as bytes
// ---------------------------------------------------------------------------
// A centroid is a vector of `f32`; the store keeps the little-endian bytes
// of each component. Here a component is handled by its bit pattern.

/// Byte `j` (0 to 3) of `w`, least significant first.
pub open spec fn le_byte(w: u32, j: int) -> u8 {
    if j == 0 {
        (w & 0xff) as u8
    } else if j == 1 {
        ((w >> 8u32) & 0xff) as u8
    } else if j == 2 {
        ((w >> 16u32) & 0xff) as u8
    } else {
        ((w >> 24u32) & 0xff) as u8
    }
}

/// The word whose little-endian bytes are `b0 b1 b2 b3`.
pub open spec fn le_word(b0: u8, b1: u8, b2: u8, b3: u8) -> u32 {
    (b0 as u32) | ((b1 as u32) << 8u32) | ((b2 as u32) << 16u32) | ((b3 as u32) << 24u32)
}

/// The bytes of a centroid: four per component, little-endian.
pub open spec fn centroid_bytes(ws: Seq<u32>) -> Seq<u8> {
    Seq::new(4 * ws.len(), |k: int| le_byte(ws[k / 4], k % 4))
}

/// The components read back from bytes, four bytes each.
pub open spec fn centroid_words(b: Seq<u8>) -> Seq<u32> {
    Seq::new(b.len() / 4, |i: int| le_word(b[4 * i], b[4 * i + 1], b[4 * i + 2], b[4 * i + 3]))
}

proof fn lemma_le_word_of_bytes(w: u32)
    ensures
        le_word(le_byte(w, 0), le_byte(w, 1), le_byte(w, 2), le_byte(w, 3)) == w,
{
    let b0 = (w & 0xff) as u8;
    let b1 = ((w >> 8u32) & 0xff) as u8;
    let b2 = ((w >> 16u32) & 0xff) as u8;
    let b3 = ((w >> 24u32) & 0xff) as u8;
    assert((b0 as u32) | ((b1 as u32) << 8u32) | ((b2 as u32) << 16u32) | ((b3 as u32) << 24u32)
        == w) by (bit_vector)
        requires
            b0 == (w & 0xff) as u8,
            b1 == ((w >> 8u32) & 0xff) as u8,
            b2 == ((w >> 16u32) & 0xff) as u8,
            b3 == ((w >> 24u32) & 0xff) as u8,
    ;
}

/// Reading back the bytes of a centroid gives the centroid.
pub proof fn law_centroid_bytes_roundtrip(ws: Seq<u32>)
    ensures
        centroid_words(centroid_bytes(ws)) == ws,
{
    let b = centroid_bytes(ws);
    assert(b.len() / 4 == ws.len());
    assert forall|i: int| 0 <= i < ws.len() implies #[trigger] centroid_words(b)[i] == ws[i] by {
        assert((4 * i) / 4 == i && (4 * i) % 4 == 0);
        assert((4 * i + 1) / 4 == i && (4 * i + 1) % 4 == 1);
        assert((4 * i + 2) / 4 == i && (4 * i + 2) % 4 == 2);
        assert((4 * i + 3) / 4 == i && (4 * i + 3) % 4 == 3);
        lemma_le_word_of_bytes(ws[i]);
    }
    assert(centroid_words(b) =~= ws);
}

/// The stored bytes of a centroid.
pub fn centroid_to_bytes(words: &[u32]) -> (r: Vec<u8>)
    requires
        4 * words@.len() <= usize::MAX,
    ensures
        r@ == centroid_bytes(words@),
{
    let mut out: Vec<u8> = Vec::new();
    let mut i: usize = 0;
    while i < words.len()
        invariant
            i <= words@.len(),
            4 * words@.len() <= usize::MAX,
            out@.len() == 4 * i,
            forall|k: int| 0 <= k < 4 * i ==> #[trigger] out@[k] == le_byte(words@[k / 4], k % 4),
        decreases words.len() - i,
    {
        let w = words[i];
        out.push((w & 0xff) as u8);
        out.push(((w >> 8u32) & 0xff) as u8);
        out.push(((w >> 16u32) & 0xff) as u8);
        out.push(((w >> 24u32) & 0xff) as u8);
        assert forall|k: int| 0 <= k < 4 * (i + 1) implies #[trigger] out@[k] == le_byte(
            words@[k / 4],
            k % 4,
        ) by {
            if k >= 4 * i {
                assert(k / 4 == i as int);
            }
        }
        i += 1;
    }
    assert(out@ =~= centroid_bytes(words@));
    out
}

pub open spec fn centroid_size_text(len: nat, dim: nat) -> Seq<char> {
    "centroid blob size "@ + decimal_text(len) + " does not match dim "@ + decimal_text(dim)
        + " (expected "@ + decimal_text(4 * dim) + " bytes)"@
}

/// Reads a stored centroid of `dim` components, refusing bytes of the wrong
/// size.
pub fn centroid_from_bytes(bytes: &[u8], dim: u32) -> (r: Result<Vec<u32>, String>)
    ensures
        bytes@.len() == 4 * dim ==> (r matches Ok(ws) && ws@ == centroid_words(bytes@)),
        bytes@.len() != 4 * dim ==> (r matches Err(e) && e@ == centroid_size_text(
            bytes@.len(),
            dim as nat,
        )),
{
    let expected: u64 = (dim as u64) * 4;
    if (bytes.len() as u64) != expected {
        let mut out: Vec<char> = Vec::new();
        extend_str(&mut out, "centroid blob size ");
        push_decimal(&mut out, bytes.len() as u64);
        extend_str(&mut out, " does not match dim ");
        push_decimal(&mut out, dim as u64);
        extend_str(&mut out, " (expected ");
        push_decimal(&mut out, expected);
        extend_str(&mut out, " bytes)");
        return Err(string_of(&out));
    }
    let n = dim as usize;
    let blen = bytes.len();
    let mut ws: Vec<u32> = Vec::new();
    let mut i: usize = 0;
    while i < n
        invariant
            blen == bytes@.len(),
            i <= n,
            n == dim,
            bytes@.len() == 4 * n,
            ws@.len() == i,
            forall|j: int| 0 <= j < i ==> #[trigger] ws@[j] == le_word(
                bytes@[4 * j],
                bytes@[4 * j + 1],
                bytes@[4 * j + 2],
                bytes@[4 * j + 3],
            ),
        decreases n - i,
    {
        let b0 = bytes[4 * i];
        let b1 = bytes[4 * i + 1];
        let b2 = bytes[4 * i + 2];
        let b3 = bytes[4 * i + 3];
        ws.push((b0 as u32) | ((b1 as u32) << 8u32) | ((b2 as u32) << 16u32) | ((b3 as u32) << 24u32));
        i += 1;
    }
    assert(ws@ =~= centroid_words(bytes@));
    Ok(ws)
}


// ---------------------------------------------------------------------------
// Reading a transcript back
// ---------------------------------------------------------------------------

/// The text of a stored transcript: the texts of its segments, in order,
/// joined by single spaces. A meeting with no stored segments has no
/// transcript.
pub fn stored_transcript_text(meeting_id: &str, texts: &[String]) -> (r: Result<String, String>)
    ensures
        texts@.len() == 0 ==> (r matches Err(e) && e@ == "Transcript not found for meeting: "@
            + meeting_id@),
        texts@.len() > 0 ==> (r matches Ok(t) && t@ == join(sviews(texts@), " "@)),
{
    if texts.len() == 0 {
        let mut e: Vec<char> = Vec::new();
        extend_str(&mut e, "Transcript not found for meeting: ");
        extend_str(&mut e, meeting_id);
        return Err(string_of(&e));
    }
    let mut parts: Vec<Vec<char>> = Vec::new();
    let mut i: usize = 0;
    while i < texts.len()
        invariant
            i <= texts.len(),
            parts@.len() == i,
            vviews(parts@) == sviews(texts@).take(i as int),
        decreases texts.len() - i,
    {
        let v = chars_of(texts[i].as_str());
        assert(v@ == texts@[i as int]@);
        let ghost before = parts@;
        parts.push(v);
        assert(parts@ == before.push(v));
        i += 1;
        assert forall|k: int| 0 <= k < i implies #[trigger] vviews(parts@)[k] == sviews(texts@).take(
            i as int,
        )[k] by {
            if k < i - 1 {
                assert(parts@[k] == before[k]);
                assert(vviews(before)[k] == sviews(texts@).take(i - 1)[k]);
            } else {
                assert(parts@[k] == v);
            }
        }
        assert(vviews(parts@) =~= sviews(texts@).take(i as int));
    }
    assert(sviews(texts@).take(texts.len() as int) =~= sviews(texts@));
    let sep = chars_of(" ");
    Ok(string_of(&join_chars(&parts, &sep)))
}

} // verus!
