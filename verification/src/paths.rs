//! Unix paths held as strings: the parts of `std::path` the library reads
//! from them (the file name, its extension and stem), and joining.
use vstd::prelude::*;

use std::path::Path;

verus! {

broadcast use vstd::string::group_string_axioms;

/// A path segment that names something: not empty, not `.`.
pub open spec fn is_named_part(seg: Seq<char>) -> bool {
    seg.len() > 0 && seg != seq!['.']
}

/// Left-to-right scan of a path: the named parts read so far and the segment
/// being read.
pub open spec fn path_parts_scan(p: Seq<char>) -> (Seq<Seq<char>>, Seq<char>)
    decreases p.len(),
{
    if p.len() == 0 {
        (Seq::empty(), Seq::empty())
    } else {
        let (done, cur) = path_parts_scan(p.drop_last());
        if p.last() == '/' {
            (
                if is_named_part(cur) {
                    done.push(cur)
                } else {
                    done
                },
                Seq::empty(),
            )
        } else {
            (done, cur.push(p.last()))
        }
    }
}

/// The named parts of a path, in order: its `/`-separated segments without
/// empty ones and `.` ones (the normalization of `Path::components`).
pub open spec fn path_parts(p: Seq<char>) -> Seq<Seq<char>> {
    let (done, cur) = path_parts_scan(p);
    if is_named_part(cur) {
        done.push(cur)
    } else {
        done
    }
}

/// `Path::file_name`: the last named part, unless the path has none or ends in
/// `..`.
pub open spec fn file_name_spec(p: Seq<char>) -> Option<Seq<char>> {
    let parts = path_parts(p);
    if parts.len() == 0 || parts.last() == seq!['.', '.'] {
        None
    } else {
        Some(parts.last())
    }
}

/// Index of the last `c` in `s`.
pub open spec fn last_index_of(s: Seq<char>, c: char) -> Option<int>
    decreases s.len(),
{
    if s.len() == 0 {
        None
    } else if s.last() == c {
        Some(s.len() - 1)
    } else {
        last_index_of(s.drop_last(), c)
    }
}

/// `Path::extension`: what follows the last `.` of the file name, when that
/// `.` is not its first character.
pub open spec fn extension_spec(p: Seq<char>) -> Option<Seq<char>> {
    match file_name_spec(p) {
        None => None,
        Some(name) => match last_index_of(name, '.') {
            Some(k) => if k > 0 {
                Some(name.skip(k + 1))
            } else {
                None
            },
            None => None,
        },
    }
}

/// `Path::file_stem`: the file name up to its last `.`, when that `.` is not
/// its first character; otherwise the whole file name.
pub open spec fn file_stem_spec(p: Seq<char>) -> Option<Seq<char>> {
    match file_name_spec(p) {
        None => None,
        Some(name) => match last_index_of(name, '.') {
            Some(k) => if k > 0 {
                Some(name.take(k))
            } else {
                Some(name)
            },
            None => Some(name),
        },
    }
}

/// `PathBuf::join` of a relative or absolute `part`: an absolute part
/// replaces the path; otherwise a `/` goes between them unless the path is
/// empty or already ends in one.
pub open spec fn join_spec(base: Seq<char>, part: Seq<char>) -> Seq<char> {
    if part.len() > 0 && part[0] == '/' {
        part
    } else if base.len() > 0 && base.last() != '/' {
        base + seq!['/'] + part
    } else {
        base + part
    }
}

/// `Path::file_name` of `std::path` on a Unix path given as a string.
/// Trusted: the contract restates the documented behaviour of `file_name`
/// (the last component after `Path::components` normalization; none for a
/// path ending in `..`).
#[verifier::external_body]
pub(crate) fn file_name(p: &str) -> (r: Option<Vec<char>>)
    ensures
        r matches Some(v) ==> file_name_spec(p@) == Some(v@),
        r is None ==> file_name_spec(p@) is None,
{
    match Path::new(p).file_name() {
        Some(n) => match n.to_str() {
            Some(t) => Some(t.chars().collect()),
            None => None,
        },
        None => None,
    }
}

/// `Path::extension` of `std::path` on a Unix path given as a string.
/// Trusted: the contract restates the four documented cases of `extension`.
#[verifier::external_body]
pub(crate) fn extension(p: &str) -> (r: Option<Vec<char>>)
    ensures
        r matches Some(v) ==> extension_spec(p@) == Some(v@),
        r is None ==> extension_spec(p@) is None,
{
    match Path::new(p).extension() {
        Some(n) => match n.to_str() {
            Some(t) => Some(t.chars().collect()),
            None => None,
        },
        None => None,
    }
}

/// `Path::file_stem` of `std::path` on a Unix path given as a string.
/// Trusted: the contract restates the documented cases of `file_stem`.
#[verifier::external_body]
pub(crate) fn file_stem(p: &str) -> (r: Option<Vec<char>>)
    ensures
        r matches Some(v) ==> file_stem_spec(p@) == Some(v@),
        r is None ==> file_stem_spec(p@) is None,
{
    match Path::new(p).file_stem() {
        Some(n) => match n.to_str() {
            Some(t) => Some(t.chars().collect()),
            None => None,
        },
        None => None,
    }
}

/// `Path::join` on Unix paths given as strings, as `join_spec` states it.
pub(crate) fn path_join(base: &str, part: &str) -> (r: String)
    ensures
        r@ == join_spec(base@, part@),
{
    let p = crate::text::chars_of(part);
    if p.len() > 0 && p[0] == '/' {
        return crate::text::string_of(&p);
    }
    let mut out = crate::text::chars_of(base);
    if out.len() > 0 && out[out.len() - 1] != '/' {
        out.push('/');
    }
    crate::text::extend_chars(&mut out, &p);
    crate::text::string_of(&out)
}

} // verus!
