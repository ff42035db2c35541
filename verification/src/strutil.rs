//! Character-sequence utilities shared by the parsers: searching, trimming,
//! case folding and substring tests, each with an exact specification.

use vstd::prelude::*;

verus! {

/// Index of the first occurrence of `c` in `s`, if any.
pub open spec fn spec_find(s: Seq<char>, c: char) -> Option<int>
    decreases s.len(),
{
    if s.len() == 0 {
        None
    } else if s[0] == c {
        Some(0int)
    } else {
        match spec_find(s.drop_first(), c) {
            Some(i) => Some(i + 1),
            None => None,
        }
    }
}

/// Index of the last occurrence of `c` in `s`, if any.
pub open spec fn spec_rfind(s: Seq<char>, c: char) -> Option<int>
    decreases s.len(),
{
    if s.len() == 0 {
        None
    } else if s[s.len() - 1] == c {
        Some(s.len() - 1)
    } else {
        spec_rfind(s.drop_last(), c)
    }
}

pub proof fn lemma_spec_find(s: Seq<char>, c: char)
    ensures
        match spec_find(s, c) {
            Some(i) => 0 <= i < s.len() && s[i] == c && (forall|k: int| 0 <= k < i ==> s[k] != c),
            None => forall|k: int| 0 <= k < s.len() ==> s[k] != c,
        },
    decreases s.len(),
{
    if s.len() > 0 && s[0] != c {
        lemma_spec_find(s.drop_first(), c);
        assert forall|k: int| 1 <= k < s.len() implies s[k] == s.drop_first()[k - 1] by {
        }
    }
}

pub proof fn lemma_spec_rfind(s: Seq<char>, c: char)
    ensures
        match spec_rfind(s, c) {
            Some(i) => 0 <= i < s.len() && s[i] == c && (forall|k: int|
                i < k < s.len() ==> s[k] != c),
            None => forall|k: int| 0 <= k < s.len() ==> s[k] != c,
        },
    decreases s.len(),
{
    if s.len() > 0 && s[s.len() - 1] != c {
        lemma_spec_rfind(s.drop_last(), c);
        assert(forall|k: int|
            0 <= k < s.len() - 1 ==> s.drop_last()[k] == s[k]);
    }
}

/// First occurrence of `c` in `s`, scanning from the front.
pub fn find_char(s: &str, c: char) -> (r: Option<usize>)
    ensures
        match r {
            Some(i) => spec_find(s@, c) == Some(i as int),
            None => spec_find(s@, c) is None,
        },
{
    let n = s.unicode_len();
    let mut i: usize = 0;
    while i < n
        invariant
            n == s@.len(),
            0 <= i <= n,
            forall|k: int| 0 <= k < i ==> s@[k] != c,
        decreases n - i,
    {
        if s.get_char(i) == c {
            proof {
                lemma_spec_find(s@, c);
            }
            return Some(i);
        }
        i += 1;
    }
    proof {
        lemma_spec_find(s@, c);
    }
    None
}

/// Last occurrence of `c` in `s`, scanning from the back.
pub fn rfind_char(s: &str, c: char) -> (r: Option<usize>)
    ensures
        match r {
            Some(i) => spec_rfind(s@, c) == Some(i as int),
            None => spec_rfind(s@, c) is None,
        },
{
    let n = s.unicode_len();
    let mut i: usize = n;
    while i > 0
        invariant
            n == s@.len(),
            0 <= i <= n,
            forall|k: int| i <= k < n ==> s@[k] != c,
        decreases i,
    {
        i -= 1;
        if s.get_char(i) == c {
            proof {
                lemma_spec_rfind(s@, c);
            }
            return Some(i);
        }
    }
    proof {
        lemma_spec_rfind(s@, c);
    }
    None
}

/// Character-wise equality of two string slices.
pub fn str_eq(a: &str, b: &str) -> (r: bool)
    ensures
        r == (a@ == b@),
{
    let an = a.unicode_len();
    let bn = b.unicode_len();
    if an != bn {
        assert(a@ != b@);
        return false;
    }
    let mut i: usize = 0;
    while i < an
        invariant
            an == a@.len(),
            an == b@.len(),
            0 <= i <= an,
            forall|k: int| 0 <= k < i ==> a@[k] == b@[k],
        decreases an - i,
    {
        if a.get_char(i) != b.get_char(i) {
            return false;
        }
        i += 1;
    }
    proof {
        assert(a@ =~= b@);
    }
    true
}

/// Does `s` start with the prefix `p`?
pub open spec fn spec_starts_with(s: Seq<char>, p: Seq<char>) -> bool {
    s.len() >= p.len() && s.subrange(0, p.len() as int) == p
}

/// Does `s` end with the suffix `p`?
pub open spec fn spec_ends_with(s: Seq<char>, p: Seq<char>) -> bool {
    s.len() >= p.len() && s.subrange(s.len() - p.len(), s.len() as int) == p
}

pub fn starts_with_str(s: &str, p: &str) -> (r: bool)
    ensures
        r == spec_starts_with(s@, p@),
{
    let n = s.unicode_len();
    let pn = p.unicode_len();
    if pn > n {
        return false;
    }
    let mut i: usize = 0;
    while i < pn
        invariant
            n == s@.len(),
            pn == p@.len(),
            pn <= n,
            0 <= i <= pn,
            forall|k: int| 0 <= k < i ==> s@[k] == p@[k],
        decreases pn - i,
    {
        if s.get_char(i) != p.get_char(i) {
            assert(s@.subrange(0, p@.len() as int)[i as int] != p@[i as int]);
            return false;
        }
        i += 1;
    }
    proof {
        assert(s@.subrange(0, p@.len() as int) =~= p@);
    }
    true
}

/// The characters that `str::trim` removes (the White_Space property).
pub open spec fn is_space_char(c: char) -> bool {
    c == ' ' || c == '\t' || c == '\n' || c == '\u{B}' || c == '\u{C}' || c == '\r' || c
        == '\u{85}' || c == '\u{A0}' || c == '\u{1680}' || c == '\u{2000}' || c == '\u{2001}' || c
        == '\u{2002}' || c == '\u{2003}' || c == '\u{2004}' || c == '\u{2005}' || c == '\u{2006}'
        || c == '\u{2007}' || c == '\u{2008}' || c == '\u{2009}' || c == '\u{200A}' || c
        == '\u{2028}' || c == '\u{2029}' || c == '\u{202F}' || c == '\u{205F}' || c == '\u{3000}'
}

pub fn is_space(c: char) -> (r: bool)
    ensures
        r == is_space_char(c),
{
    c == ' ' || c == '\t' || c == '\n' || c == '\u{B}' || c == '\u{C}' || c == '\r' || c
        == '\u{85}' || c == '\u{A0}' || c == '\u{1680}' || c == '\u{2000}' || c == '\u{2001}' || c
        == '\u{2002}' || c == '\u{2003}' || c == '\u{2004}' || c == '\u{2005}' || c == '\u{2006}'
        || c == '\u{2007}' || c == '\u{2008}' || c == '\u{2009}' || c == '\u{200A}' || c
        == '\u{2028}' || c == '\u{2029}' || c == '\u{202F}' || c == '\u{205F}' || c == '\u{3000}'
}

/// Index of the first character that is not whitespace, if any.
pub open spec fn spec_first_non_space(s: Seq<char>) -> Option<int>
    decreases s.len(),
{
    if s.len() == 0 {
        None
    } else if !is_space_char(s[0]) {
        Some(0int)
    } else {
        match spec_first_non_space(s.drop_first()) {
            Some(i) => Some(i + 1),
            None => None,
        }
    }
}

/// Index of the last character that is not whitespace, if any.
pub open spec fn spec_last_non_space(s: Seq<char>) -> Option<int>
    decreases s.len(),
{
    if s.len() == 0 {
        None
    } else if !is_space_char(s[s.len() - 1]) {
        Some(s.len() - 1)
    } else {
        spec_last_non_space(s.drop_last())
    }
}

/// `s` with leading and trailing whitespace removed.
pub open spec fn spec_trim(s: Seq<char>) -> Seq<char> {
    match (spec_first_non_space(s), spec_last_non_space(s)) {
        (Some(a), Some(b)) => s.subrange(a, b + 1),
        _ => Seq::empty(),
    }
}

pub proof fn lemma_spec_first_non_space(s: Seq<char>)
    ensures
        match spec_first_non_space(s) {
            Some(i) => 0 <= i < s.len() && !is_space_char(s[i]) && (forall|k: int|
                0 <= k < i ==> is_space_char(s[k])),
            None => forall|k: int| 0 <= k < s.len() ==> is_space_char(s[k]),
        },
    decreases s.len(),
{
    if s.len() > 0 && is_space_char(s[0]) {
        lemma_spec_first_non_space(s.drop_first());
        assert forall|k: int| 1 <= k < s.len() implies s[k] == s.drop_first()[k - 1] by {
        }
    }
}

pub proof fn lemma_spec_last_non_space(s: Seq<char>)
    ensures
        match spec_last_non_space(s) {
            Some(i) => 0 <= i < s.len() && !is_space_char(s[i]) && (forall|k: int|
                i < k < s.len() ==> is_space_char(s[k])),
            None => forall|k: int| 0 <= k < s.len() ==> is_space_char(s[k]),
        },
    decreases s.len(),
{
    if s.len() > 0 && is_space_char(s[s.len() - 1]) {
        lemma_spec_last_non_space(s.drop_last());
        assert(forall|k: int| 0 <= k < s.len() - 1 ==> s.drop_last()[k] == s[k]);
    }
}

/// `str::trim`, proved against `spec_trim`.
pub fn trim_str<'a>(s: &'a str) -> (r: &'a str)
    ensures
        r@ == spec_trim(s@),
{
    let n = s.unicode_len();
    let mut a: usize = 0;
    while a < n && is_space(s.get_char(a))
        invariant
            n == s@.len(),
            0 <= a <= n,
            forall|k: int| 0 <= k < a ==> is_space_char(s@[k]),
        decreases n - a,
    {
        a += 1;
    }
    if a == n {
        proof {
            lemma_spec_first_non_space(s@);
            lemma_spec_last_non_space(s@);
        }
        return s.substring_char(0, 0);
    }
    let mut b: usize = n - 1;
    while b > a && is_space(s.get_char(b))
        invariant
            n == s@.len(),
            a <= b < n,
            forall|k: int| 0 <= k < a ==> is_space_char(s@[k]),
            !is_space_char(s@[a as int]),
            forall|k: int| b < k < n ==> is_space_char(s@[k]),
        decreases b,
    {
        b -= 1;
    }
    proof {
        lemma_spec_first_non_space(s@);
        lemma_spec_last_non_space(s@);
    }
    s.substring_char(a, b + 1)
}

/// ASCII lowercase folding of one character; a character outside `A`..`Z`,
/// a non-ASCII uppercase letter included, passes through unchanged.
pub open spec fn lower_char(c: char) -> char {
    match c {
        'A' => 'a',
        'B' => 'b',
        'C' => 'c',
        'D' => 'd',
        'E' => 'e',
        'F' => 'f',
        'G' => 'g',
        'H' => 'h',
        'I' => 'i',
        'J' => 'j',
        'K' => 'k',
        'L' => 'l',
        'M' => 'm',
        'N' => 'n',
        'O' => 'o',
        'P' => 'p',
        'Q' => 'q',
        'R' => 'r',
        'S' => 's',
        'T' => 't',
        'U' => 'u',
        'V' => 'v',
        'W' => 'w',
        'X' => 'x',
        'Y' => 'y',
        'Z' => 'z',
        _ => c,
    }
}

/// ASCII lowercase folding of a whole sequence; non-ASCII characters are
/// not folded.
pub open spec fn spec_to_lower(s: Seq<char>) -> Seq<char> {
    Seq::new(s.len(), |i: int| lower_char(s[i]))
}

/// Relies on `String::push`: appends the given character to the string.
pub assume_specification[ String::push ](s: &mut String, c: char)
    ensures
        final(s)@ == old(s)@.push(c),
;

/// ASCII lowercase folding, proved against `spec_to_lower`.
pub fn to_lower(s: &str) -> (r: String)
    ensures
        r@ == spec_to_lower(s@),
{
    let n = s.unicode_len();
    let mut r = String::new();
    let mut i: usize = 0;
    while i < n
        invariant
            n == s@.len(),
            0 <= i <= n,
            r@ == spec_to_lower(s@).subrange(0, i as int),
        decreases n - i,
    {
        let c = s.get_char(i);
        let lc: char = match c {
            'A' => 'a',
            'B' => 'b',
            'C' => 'c',
            'D' => 'd',
            'E' => 'e',
            'F' => 'f',
            'G' => 'g',
            'H' => 'h',
            'I' => 'i',
            'J' => 'j',
            'K' => 'k',
            'L' => 'l',
            'M' => 'm',
            'N' => 'n',
            'O' => 'o',
            'P' => 'p',
            'Q' => 'q',
            'R' => 'r',
            'S' => 's',
            'T' => 't',
            'U' => 'u',
            'V' => 'v',
            'W' => 'w',
            'X' => 'x',
            'Y' => 'y',
            'Z' => 'z',
            _ => c,
        };
        r.push(lc);
        proof {
            assert(r@ =~= spec_to_lower(s@).subrange(0, i + 1));
        }
        i += 1;
    }
    proof {
        assert(spec_to_lower(s@).subrange(0, n as int) =~= spec_to_lower(s@));
    }
    r
}

/// Does the substring `sub` occur in `s` starting at index `i`?
pub open spec fn spec_has_sub_at(s: Seq<char>, sub: Seq<char>, i: int) -> bool {
    0 <= i && i + sub.len() <= s.len() && s.subrange(i, i + sub.len()) == sub
}

/// Index of the first occurrence of `sub` in `s`, if any.
pub open spec fn spec_find_sub(s: Seq<char>, sub: Seq<char>) -> Option<int>
    decreases s.len(),
{
    if s.len() < sub.len() {
        None
    } else if s.subrange(0, sub.len() as int) == sub {
        Some(0int)
    } else if s.len() == 0 {
        None
    } else {
        match spec_find_sub(s.drop_first(), sub) {
            Some(i) => Some(i + 1),
            None => None,
        }
    }
}

pub proof fn lemma_spec_find_sub(s: Seq<char>, sub: Seq<char>)
    ensures
        match spec_find_sub(s, sub) {
            Some(i) => spec_has_sub_at(s, sub, i) && (forall|k: int|
                0 <= k < i ==> !spec_has_sub_at(s, sub, k)),
            None => forall|k: int| !spec_has_sub_at(s, sub, k),
        },
    decreases s.len(),
{
    if s.len() >= sub.len() && s.subrange(0, sub.len() as int) != sub && s.len() > 0 {
        lemma_spec_find_sub(s.drop_first(), sub);
        assert forall|k: int| spec_has_sub_at(s, sub, k) && k >= 1 implies spec_has_sub_at(
            s.drop_first(),
            sub,
            k - 1,
        ) by {
            assert(s.drop_first().subrange(k - 1, k - 1 + sub.len()) =~= s.subrange(
                k,
                k + sub.len(),
            ));
        }
        assert forall|k: int| spec_has_sub_at(s.drop_first(), sub, k - 1) && k
            >= 1 implies spec_has_sub_at(s, sub, k) by {
            assert(s.subrange(k, k + sub.len()) =~= s.drop_first().subrange(
                k - 1,
                k - 1 + sub.len(),
            ));
        }
    }
}

/// Does `sub` occur at index `i` of `s`?
fn match_at(s: &str, sub: &str, i: usize) -> (r: bool)
    requires
        i + sub@.len() <= s@.len(),
        s@.len() <= usize::MAX,
    ensures
        r == spec_has_sub_at(s@, sub@, i as int),
{
    let m = sub.unicode_len();
    let mut j: usize = 0;
    while j < m
        invariant
            m == sub@.len(),
            i + m <= s@.len(),
            s@.len() <= usize::MAX,
            0 <= j <= m,
            forall|k: int| 0 <= k < j ==> s@[i + k] == sub@[k],
        decreases m - j,
    {
        if s.get_char(i + j) != sub.get_char(j) {
            assert(s@.subrange(i as int, i + sub@.len())[j as int] != sub@[j as int]);
            return false;
        }
        j += 1;
    }
    proof {
        assert(s@.subrange(i as int, i + sub@.len()) =~= sub@);
    }
    true
}

/// First occurrence of the substring `sub` in `s`.
pub fn find_sub(s: &str, sub: &str) -> (r: Option<usize>)
    ensures
        match r {
            Some(i) => spec_find_sub(s@, sub@) == Some(i as int),
            None => spec_find_sub(s@, sub@) is None,
        },
{
    let n = s.unicode_len();
    let m = sub.unicode_len();
    if m > n {
        proof {
            lemma_spec_find_sub(s@, sub@);
        }
        return None;
    }
    if m == 0 {
        proof {
            assert(s@.subrange(0, 0) =~= sub@);
        }
        return Some(0);
    }
    let mut i: usize = 0;
    while i <= n - m
        invariant
            n == s@.len(),
            m == sub@.len(),
            0 < m <= n,
            0 <= i <= n - m + 1,
            forall|k: int| 0 <= k < i ==> !spec_has_sub_at(s@, sub@, k),
        decreases n - i,
    {
        if match_at(s, sub, i) {
            proof {
                lemma_spec_find_sub(s@, sub@);
            }
            return Some(i);
        }
        i += 1;
    }
    proof {
        lemma_spec_find_sub(s@, sub@);
    }
    None
}

/// Does the substring `sub` occur anywhere in `s`?
pub fn contains_sub(s: &str, sub: &str) -> (r: bool)
    ensures
        r == (spec_find_sub(s@, sub@) is Some),
{
    find_sub(s, sub).is_some()
}

pub fn ends_with_str(s: &str, p: &str) -> (r: bool)
    ensures
        r == spec_ends_with(s@, p@),
{
    let n = s.unicode_len();
    let pn = p.unicode_len();
    if pn > n {
        return false;
    }
    let mut i: usize = 0;
    while i < pn
        invariant
            n == s@.len(),
            pn == p@.len(),
            pn <= n,
            0 <= i <= pn,
            forall|k: int| 0 <= k < i ==> s@[n - pn + k] == p@[k],
        decreases pn - i,
    {
        if s.get_char(n - pn + i) != p.get_char(i) {
            assert(s@.subrange(s@.len() - p@.len(), s@.len() as int)[i as int] != p@[i as int]);
            return false;
        }
        i += 1;
    }
    proof {
        assert(s@.subrange(s@.len() - p@.len(), s@.len() as int) =~= p@);
    }
    true
}

/// The segments of `s` between occurrences of the separator `c`.
pub open spec fn spec_split(s: Seq<char>, c: char) -> Seq<Seq<char>>
    decreases s.len(),
{
    if s.len() == 0 {
        seq![Seq::<char>::empty()]
    } else if s[0] == c {
        seq![Seq::<char>::empty()] + spec_split(s.drop_first(), c)
    } else {
        let rest = spec_split(s.drop_first(), c);
        seq![seq![s[0]] + rest[0]] + rest.drop_first()
    }
}

pub proof fn lemma_spec_split_len(s: Seq<char>, c: char)
    ensures
        spec_split(s, c).len() >= 1,
    decreases s.len(),
{
    if s.len() > 0 {
        lemma_spec_split_len(s.drop_first(), c);
    }
}

/// Splitting at the first separator: the first segment is everything before
/// it, and the remaining segments split the text after it.
pub proof fn lemma_spec_split_at_find(s: Seq<char>, c: char)
    ensures
        match spec_find(s, c) {
            Some(i) => spec_split(s, c) == seq![s.subrange(0, i)] + spec_split(
                s.subrange(i + 1, s.len() as int),
                c,
            ),
            None => spec_split(s, c) == seq![s],
        },
    decreases s.len(),
{
    lemma_spec_find(s, c);
    if s.len() == 0 {
        assert(spec_split(s, c) =~~= seq![s]);
    } else if s[0] == c {
        assert(s.drop_first() =~= s.subrange(1, s.len() as int));
        assert(s.subrange(0, 0) =~= Seq::<char>::empty());
        assert(spec_split(s, c) =~= seq![s.subrange(0, 0)] + spec_split(
            s.subrange(1, s.len() as int),
            c,
        ));
    } else {
        lemma_spec_split_at_find(s.drop_first(), c);
        lemma_spec_split_len(s.drop_first(), c);
        match spec_find(s.drop_first(), c) {
            Some(j) => {
                assert(spec_find(s, c) == Some(j + 1));
                let rest = spec_split(s.drop_first(), c);
                assert(rest[0] == s.drop_first().subrange(0, j));
                assert(seq![s[0]] + s.drop_first().subrange(0, j) =~= s.subrange(0, j + 1));
                assert(s.drop_first().subrange(j + 1, s.drop_first().len() as int) =~= s.subrange(
                    j + 2,
                    s.len() as int,
                ));
                assert(spec_split(s, c) =~~= seq![s.subrange(0, j + 1)] + spec_split(
                    s.subrange(j + 2, s.len() as int),
                    c,
                ));
            },
            None => {
                assert(spec_find(s, c) is None);
                let rest = spec_split(s.drop_first(), c);
                assert(rest =~= seq![s.drop_first()]);
                assert(seq![s[0]] + s.drop_first() =~= s);
                assert(rest.drop_first() =~= Seq::<Seq<char>>::empty());
                assert(spec_split(s, c) =~~= seq![s]);
            },
        }
    }
}

/// Splits `s` at every occurrence of `c`, proved against `spec_split`.
pub fn split_str(s: &str, c: char) -> (r: Vec<String>)
    ensures
        r.deep_view() == spec_split(s@, c),
    decreases s@.len(),
{
    proof {
        lemma_spec_find(s@, c);
        lemma_spec_split_at_find(s@, c);
    }
    match find_char(s, c) {
        None => {
            let mut r: Vec<String> = Vec::new();
            r.push(String::from_str(s));
            proof {
                assert(r.deep_view() =~= seq![s@]);
            }
            r
        },
        Some(i) => {
            let n = s.unicode_len();
            let head = s.substring_char(0, i);
            let tail = s.substring_char(i + 1, n);
            let mut rest = split_str(tail, c);
            let mut r: Vec<String> = Vec::new();
            r.push(String::from_str(head));
            r.append(&mut rest);
            proof {
                assert(r.deep_view() =~= seq![head@] + spec_split(tail@, c));
            }
            r
        },
    }
}

/// The decimal digit character for `d`.
pub open spec fn spec_digit(d: int) -> char {
    if d == 0 {
        '0'
    } else if d == 1 {
        '1'
    } else if d == 2 {
        '2'
    } else if d == 3 {
        '3'
    } else if d == 4 {
        '4'
    } else if d == 5 {
        '5'
    } else if d == 6 {
        '6'
    } else if d == 7 {
        '7'
    } else if d == 8 {
        '8'
    } else {
        '9'
    }
}

/// The decimal rendering of `n`.
pub open spec fn spec_dec(n: nat) -> Seq<char>
    decreases n,
{
    if n < 10 {
        seq![spec_digit(n as int)]
    } else {
        spec_dec(n / 10) + seq![spec_digit((n % 10) as int)]
    }
}

/// Renders `n` in decimal, proved against `spec_dec`.
pub fn dec_string(n: u64) -> (r: String)
    ensures
        r@ == spec_dec(n as nat),
    decreases n,
{
    let d = n % 10;
    let dc: char = match d {
        0 => '0',
        1 => '1',
        2 => '2',
        3 => '3',
        4 => '4',
        5 => '5',
        6 => '6',
        7 => '7',
        8 => '8',
        _ => '9',
    };
    assert(dc == spec_digit(d as int));
    if n < 10 {
        let mut r = String::new();
        r.push(dc);
        proof {
            assert(r@ =~= spec_dec(n as nat));
        }
        r
    } else {
        let mut r = dec_string(n / 10);
        r.push(dc);
        proof {
            assert(r@ =~= spec_dec(n as nat));
        }
        r
    }
}

/// Lexicographic order on character sequences by code point, the order that
/// `str` comparison uses.
pub open spec fn spec_str_le(a: Seq<char>, b: Seq<char>) -> bool
    decreases a.len(),
{
    if a.len() == 0 {
        true
    } else if b.len() == 0 {
        false
    } else if a[0] == b[0] {
        spec_str_le(a.drop_first(), b.drop_first())
    } else {
        (a[0] as u32) < (b[0] as u32)
    }
}

pub proof fn lemma_str_le_total(a: Seq<char>, b: Seq<char>)
    ensures
        spec_str_le(a, b) || spec_str_le(b, a),
    decreases a.len(),
{
    if a.len() > 0 && b.len() > 0 {
        if a[0] == b[0] {
            lemma_str_le_total(a.drop_first(), b.drop_first());
        } else {
            vstd::utf8::char_u32_cast(a[0], a[0] as u32);
            vstd::utf8::char_u32_cast(b[0], b[0] as u32);
        }
    }
}

pub proof fn lemma_str_le_trans(a: Seq<char>, b: Seq<char>, c: Seq<char>)
    requires
        spec_str_le(a, b),
        spec_str_le(b, c),
    ensures
        spec_str_le(a, c),
    decreases a.len(),
{
    if a.len() > 0 && b.len() > 0 && c.len() > 0 {
        if a[0] == b[0] && b[0] == c[0] {
            lemma_str_le_trans(a.drop_first(), b.drop_first(), c.drop_first());
        }
    }
}

/// One peeled step of the lexicographic comparison.
proof fn lemma_str_le_step(a: Seq<char>, b: Seq<char>, i: int)
    requires
        0 <= i < a.len(),
        0 <= i < b.len(),
        a[i] == b[i],
    ensures
        spec_str_le(a.skip(i), b.skip(i)) == spec_str_le(a.skip(i + 1), b.skip(i + 1)),
{
    assert(a.skip(i).len() > 0);
    assert(b.skip(i).len() > 0);
    assert(a.skip(i)[0] == a[i]);
    assert(b.skip(i)[0] == b[i]);
    assert(a.skip(i).drop_first() =~= a.skip(i + 1));
    assert(b.skip(i).drop_first() =~= b.skip(i + 1));
}

/// Lexicographic string comparison, proved against `spec_str_le`.
pub fn str_le(a: &str, b: &str) -> (r: bool)
    ensures
        r == spec_str_le(a@, b@),
{
    let an = a.unicode_len();
    let bn = b.unicode_len();
    let mut i: usize = 0;
    proof {
        assert(a@.skip(0) =~= a@);
        assert(b@.skip(0) =~= b@);
    }
    while i < an && i < bn
        invariant
            an == a@.len(),
            bn == b@.len(),
            0 <= i <= an,
            0 <= i <= bn,
            spec_str_le(a@, b@) == spec_str_le(a@.skip(i as int), b@.skip(i as int)),
        decreases an - i,
    {
        let ca = a.get_char(i);
        let cb = b.get_char(i);
        if ca != cb {
            assert(a@.skip(i as int)[0] == ca);
            assert(b@.skip(i as int)[0] == cb);
            assert(a@.skip(i as int).len() > 0 && b@.skip(i as int).len() > 0);
            return (ca as u32) < (cb as u32);
        }
        proof {
            lemma_str_le_step(a@, b@, i as int);
        }
        i += 1;
    }
    if i < bn {
        assert(a@.skip(i as int).len() == 0);
        true
    } else if i < an {
        assert(b@.skip(i as int).len() == 0 && a@.skip(i as int).len() > 0);
        false
    } else {
        assert(a@.skip(i as int).len() == 0);
        true
    }
}

} // verus!
