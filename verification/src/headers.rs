//! The header inspector: reads `content-encoding` and the
//! `content-disposition` filename out of a saved raw response-header blob.

use vstd::prelude::*;

use crate::strutil::{
    find_char, find_sub, spec_find, spec_find_sub, spec_split, spec_starts_with, spec_to_lower,
    spec_trim, split_str, starts_with_str, str_eq, to_lower, trim_str,
};

verus! {

/// What one header line contributes to the content-encoding lookup: the
/// trimmed value after the colon of a `content-encoding` line, ASCII case
/// folded; nothing for any other line.
pub open spec fn spec_encoding_from_line(line: Seq<char>) -> Option<Seq<char>> {
    let l = spec_to_lower(spec_trim(line));
    if spec_starts_with(l, "content-encoding"@) {
        match spec_find(l, ':') {
            Some(pos) => Some(spec_trim(l.skip(pos + 1))),
            None => None,
        }
    } else {
        None
    }
}

/// The first line's contribution, scanning in order.
pub open spec fn spec_first_encoding(lines: Seq<Seq<char>>) -> Option<Seq<char>>
    decreases lines.len(),
{
    if lines.len() == 0 {
        None
    } else {
        match spec_encoding_from_line(lines[0]) {
            Some(e) => Some(e),
            None => spec_first_encoding(lines.drop_first()),
        }
    }
}

/// The content encoding announced by a raw header blob.
pub open spec fn spec_content_encoding(header: Seq<char>) -> Option<Seq<char>> {
    spec_first_encoding(spec_split(header, '\n'))
}

/// Reads one line's content-encoding contribution, proved against
/// `spec_encoding_from_line`.
fn encoding_from_line(line: &str) -> (r: Option<String>)
    ensures
        r.deep_view() == spec_encoding_from_line(line@),
{
    let t = trim_str(line);
    let l = to_lower(t);
    if starts_with_str(l.as_str(), "content-encoding") {
        match find_char(l.as_str(), ':') {
            Some(pos) => {
                proof {
                    crate::strutil::lemma_spec_find(l@, ':');
                }
                let n = l.as_str().unicode_len();
                let value = l.as_str().substring_char(pos + 1, n);
                Some(String::from_str(trim_str(value)))
            },
            None => None,
        }
    } else {
        None
    }
}

/// Scans the raw header blob line by line and returns the first
/// `content-encoding` value, trimmed and ASCII case folded (a non-ASCII
/// character in a header line passes through unfolded).
pub fn parse_http_header_content_encoding(header_text: &str) -> (r: Option<String>)
    ensures
        r.deep_view() == spec_content_encoding(header_text@),
{
    let lines = split_str(header_text, '\n');
    let ghost lv = lines.deep_view();
    let n = lines.len();
    proof {
        assert(lv.len() == n);
        assert(lv.skip(0) =~= lv);
    }
    let mut i: usize = 0;
    while i < n
        invariant
            n == lines.len(),
            lv == lines.deep_view(),
            lv.len() == n,
            0 <= i <= n,
            lv == spec_split(header_text@, '\n'),
            spec_first_encoding(lv) == spec_first_encoding(lv.skip(i as int)),
        decreases n - i,
    {
        proof {
            assert(lv.skip(i as int)[0] == lv[i as int]);
            assert(lv.skip(i as int).drop_first() =~= lv.skip(i + 1));
            assert(lines[i as int]@ == lv[i as int]);
        }
        match encoding_from_line(lines[i].as_str()) {
            Some(e) => {
                proof {
                    assert(spec_encoding_from_line(lv[i as int]) == Some(e@));
                    assert(spec_first_encoding(lv.skip(i as int)) == Some(e@));
                }
                return Some(e);
            },
            None => {},
        }
        i += 1;
    }
    proof {
        assert(lv.skip(n as int).len() == 0);
    }
    None
}

/// The key and value of one `;`-separated parameter: the part is trimmed,
/// split at its first `=`, and both sides are trimmed again. A part without
/// `=` carries nothing.
pub open spec fn spec_kv_of_part(part: Seq<char>) -> Option<(Seq<char>, Seq<char>)> {
    let p = spec_trim(part);
    match spec_find(p, '=') {
        Some(e) => Some((spec_trim(p.take(e)), spec_trim(p.skip(e + 1)))),
        None => None,
    }
}

/// The value of the first parameter carrying the given key.
pub open spec fn spec_first_value_with_key(parts: Seq<Seq<char>>, key: Seq<char>) -> Option<
    Seq<char>,
>
    decreases parts.len(),
{
    if parts.len() == 0 {
        None
    } else {
        match spec_kv_of_part(parts[0]) {
            Some(kv) => if kv.0 == key {
                Some(kv.1)
            } else {
                spec_first_value_with_key(parts.drop_first(), key)
            },
            None => spec_first_value_with_key(parts.drop_first(), key),
        }
    }
}

/// An RFC 5987 value keeps only what follows its first `''`, if it has one.
pub open spec fn spec_after_charset(v: Seq<char>) -> Seq<char> {
    match spec_find_sub(v, seq!['\'', '\'']) {
        Some(p) => v.skip(p + 2),
        None => v,
    }
}

/// The filename picked from the parameters after a `content-disposition`
/// colon: a `filename*` parameter wins over a `filename` parameter, earliest
/// of each kind first, and the winner drops its charset prefix.
pub open spec fn spec_disp_name(rest: Seq<char>) -> Option<Seq<char>> {
    let parts = spec_split(rest, ';');
    match spec_first_value_with_key(parts, "filename*"@) {
        Some(v) => Some(spec_after_charset(v)),
        None => match spec_first_value_with_key(parts, "filename"@) {
            Some(v) => Some(spec_after_charset(v)),
            None => None,
        },
    }
}

/// What one header line contributes to the filename lookup: nothing for
/// other lines; for the first `content-disposition` line with a colon, the
/// final answer, which may itself be "no filename".
pub open spec fn spec_disp_from_line(line: Seq<char>) -> Option<Option<Seq<char>>> {
    let l = spec_to_lower(spec_trim(line));
    if spec_starts_with(l, "content-disposition"@) {
        match spec_find(l, ':') {
            Some(pos) => Some(spec_disp_name(l.skip(pos + 1))),
            None => None,
        }
    } else {
        None
    }
}

/// The first line's terminal contribution, scanning in order.
pub open spec fn spec_first_disp(lines: Seq<Seq<char>>) -> Option<Seq<char>>
    decreases lines.len(),
{
    if lines.len() == 0 {
        None
    } else {
        match spec_disp_from_line(lines[0]) {
            Some(res) => res,
            None => spec_first_disp(lines.drop_first()),
        }
    }
}

/// The filename suggested by a raw header blob's `content-disposition`.
pub open spec fn spec_content_disposition(header: Seq<char>) -> Option<Seq<char>> {
    spec_first_disp(spec_split(header, '\n'))
}

/// Finds the first parameter with the given key, proved against
/// `spec_first_value_with_key`.
fn first_value_with_key(parts: &Vec<String>, key: &str) -> (r: Option<String>)
    ensures
        r.deep_view() == spec_first_value_with_key(parts.deep_view(), key@),
{
    let ghost pv = parts.deep_view();
    let n = parts.len();
    proof {
        assert(pv.len() == n);
        assert(pv.skip(0) =~= pv);
    }
    let mut i: usize = 0;
    while i < n
        invariant
            n == parts.len(),
            pv == parts.deep_view(),
            pv.len() == n,
            0 <= i <= n,
            spec_first_value_with_key(pv, key@) == spec_first_value_with_key(
                pv.skip(i as int),
                key@,
            ),
        decreases n - i,
    {
        proof {
            assert(pv.skip(i as int)[0] == pv[i as int]);
            assert(pv.skip(i as int).drop_first() =~= pv.skip(i + 1));
            assert(parts[i as int]@ == pv[i as int]);
        }
        let p = trim_str(parts[i].as_str());
        match find_char(p, '=') {
            Some(e) => {
                proof {
                    crate::strutil::lemma_spec_find(p@, '=');
                }
                let pn = p.unicode_len();
                let k = trim_str(p.substring_char(0, e));
                if str_eq(k, key) {
                    let v = trim_str(p.substring_char(e + 1, pn));
                    return Some(String::from_str(v));
                }
            },
            None => {},
        }
        i += 1;
    }
    proof {
        assert(pv.skip(n as int).len() == 0);
    }
    None
}

/// Drops the charset prefix of an RFC 5987 value, proved against
/// `spec_after_charset`.
fn after_charset(v: &str) -> (r: String)
    ensures
        r@ == spec_after_charset(v@),
{
    proof {
        reveal_strlit("''");
        assert("''"@ =~= seq!['\'', '\'']);
    }
    match find_sub(v, "''") {
        Some(p) => {
            proof {
                crate::strutil::lemma_spec_find_sub(v@, seq!['\'', '\'']);
            }
            let n = v.unicode_len();
            String::from_str(v.substring_char(p + 2, n))
        },
        None => String::from_str(v),
    }
}

/// Picks the filename out of the text after a `content-disposition` colon,
/// proved against `spec_disp_name`.
fn disp_name(rest: &str) -> (r: Option<String>)
    ensures
        r.deep_view() == spec_disp_name(rest@),
{
    let parts = split_str(rest, ';');
    match first_value_with_key(&parts, "filename*") {
        Some(v) => Some(after_charset(v.as_str())),
        None => match first_value_with_key(&parts, "filename") {
            Some(v) => Some(after_charset(v.as_str())),
            None => None,
        },
    }
}

/// Reads one line's filename contribution, proved against
/// `spec_disp_from_line`.
fn disp_from_line(line: &str) -> (r: Option<Option<String>>)
    ensures
        match r {
            Some(res) => spec_disp_from_line(line@) == Some(res.deep_view()),
            None => spec_disp_from_line(line@) is None,
        },
{
    let t = trim_str(line);
    let l = to_lower(t);
    if starts_with_str(l.as_str(), "content-disposition") {
        match find_char(l.as_str(), ':') {
            Some(pos) => {
                proof {
                    crate::strutil::lemma_spec_find(l@, ':');
                }
                let n = l.as_str().unicode_len();
                let rest = l.as_str().substring_char(pos + 1, n);
                Some(disp_name(rest))
            },
            None => None,
        }
    } else {
        None
    }
}

/// Scans the raw header blob line by line: the first
/// `content-disposition` line with a colon decides the suggested filename,
/// ASCII lowercased (non-ASCII characters in the name pass through
/// unfolded); a blob without such a line suggests none.
pub fn parse_http_header_content_disposition(header_text: &str) -> (r: Option<String>)
    ensures
        r.deep_view() == spec_content_disposition(header_text@),
{
    let lines = split_str(header_text, '\n');
    let ghost lv = lines.deep_view();
    let n = lines.len();
    proof {
        assert(lv.len() == n);
        assert(lv.skip(0) =~= lv);
    }
    let mut i: usize = 0;
    while i < n
        invariant
            n == lines.len(),
            lv == lines.deep_view(),
            lv.len() == n,
            0 <= i <= n,
            lv == spec_split(header_text@, '\n'),
            spec_first_disp(lv) == spec_first_disp(lv.skip(i as int)),
        decreases n - i,
    {
        proof {
            assert(lv.skip(i as int)[0] == lv[i as int]);
            assert(lv.skip(i as int).drop_first() =~= lv.skip(i + 1));
            assert(lines[i as int]@ == lv[i as int]);
        }
        match disp_from_line(lines[i].as_str()) {
            Some(res) => {
                proof {
                    assert(spec_disp_from_line(lv[i as int]) == Some(res.deep_view()));
                    assert(spec_first_disp(lv.skip(i as int)) == res.deep_view());
                }
                return res;
            },
            None => {},
        }
        i += 1;
    }
    proof {
        assert(lv.skip(n as int).len() == 0);
    }
    None
}

} // verus!
