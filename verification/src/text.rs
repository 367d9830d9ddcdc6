//! Character-level text utilities with their mathematical models.
use vstd::prelude::*;

verus! {

/// `String::push`: appends one character.
#[verifier::external_body]
pub(crate) fn push_char(s: &mut String, c: char)
    ensures
        final(s)@ == old(s)@.push(c),
{
    s.push(c);
}

/// The characters of a string slice, in order.
pub fn chars_of(s: &str) -> (v: Vec<char>)
    ensures
        v@ == s@,
{
    let mut v: Vec<char> = Vec::new();
    for c in it: s.chars()
        invariant
            v@ == it.seq().take(it.index() as int),
            it.seq() == s@,
    {
        v.push(c);
    }
    v
}

/// A string holding exactly the given characters.
pub fn string_from(v: &[char]) -> (s: String)
    ensures
        s@ == v@,
{
    let mut s = String::new();
    let mut i: usize = 0;
    while i < v.len()
        invariant
            i <= v@.len(),
            s@ == v@.take(i as int),
        decreases v@.len() - i,
    {
        push_char(&mut s, v[i]);
        assert(v@.take(i as int).push(v@[i as int]) =~= v@.take(i + 1));
        i += 1;
    }
    assert(v@.take(v@.len() as int) =~= v@);
    s
}


/// Unicode `White_Space`, the property `char::is_whitespace` tests.
pub open spec fn is_ws(c: char) -> bool {
    let u = c as u32;
    (0x09 <= u <= 0x0d) || u == 0x20 || u == 0x85 || u == 0xa0 || u == 0x1680 || (0x2000 <= u
        <= 0x200a) || u == 0x2028 || u == 0x2029 || u == 0x202f || u == 0x205f || u == 0x3000
}

/// Whether a character is white space, as `char::is_whitespace` says.
pub fn is_whitespace(c: char) -> (b: bool)
    ensures
        b == is_ws(c),
{
    let u = c as u32;
    (0x09 <= u && u <= 0x0d) || u == 0x20 || u == 0x85 || u == 0xa0 || u == 0x1680 || (0x2000
        <= u && u <= 0x200a) || u == 0x2028 || u == 0x2029 || u == 0x202f || u == 0x205f || u
        == 0x3000
}

pub open spec fn is_ascii_upper(c: char) -> bool {
    'A' <= c <= 'Z'
}

pub open spec fn is_ascii_lower(c: char) -> bool {
    'a' <= c <= 'z'
}

pub open spec fn is_ascii_digit(c: char) -> bool {
    '0' <= c <= '9'
}

pub open spec fn is_ascii_alnum(c: char) -> bool {
    is_ascii_upper(c) || is_ascii_lower(c) || is_ascii_digit(c)
}

/// `char::is_ascii_punctuation`: the printable ASCII characters that are
/// neither letters, digits nor the space.
pub open spec fn is_ascii_punct(c: char) -> bool {
    ('!' <= c <= '/') || (':' <= c <= '@') || ('[' <= c <= '`') || ('{' <= c <= '~')
}

/// A character in ASCII lower case, as `char::to_ascii_lowercase` gives it.
pub open spec fn lower(c: char) -> char {
    if is_ascii_upper(c) {
        ((c as u32) + 32) as char
    } else {
        c
    }
}

pub fn to_ascii_lower(c: char) -> (r: char)
    ensures
        r == lower(c),
{
    if 'A' <= c && c <= 'Z' {
        let u = (c as u32) + 32;
        assert(0x61 <= u <= 0x7a);
        proof {
            vstd::utf8::char_is_scalar(c);
        }
        char_from_ascii(u)
    } else {
        c
    }
}

/// The character of an ASCII code point.
pub fn char_from_ascii(u: u32) -> (c: char)
    requires
        u < 0x80,
    ensures
        c == u as char,
        c as u32 == u,
{
    let b = u as u8;
    let c = b as char;
    c
}

pub open spec fn lower_seq(s: Seq<char>) -> Seq<char> {
    s.map_values(|c: char| lower(c))
}

/// A text in ASCII lower case, as `str::to_ascii_lowercase` gives it.
pub fn ascii_lowercase(s: &[char]) -> (r: Vec<char>)
    ensures
        r@ == lower_seq(s@),
{
    let mut r: Vec<char> = Vec::new();
    let mut i: usize = 0;
    while i < s.len()
        invariant
            i <= s@.len(),
            r@ == lower_seq(s@.take(i as int)),
        decreases s@.len() - i,
    {
        let c = to_ascii_lower(s[i]);
        r.push(c);
        assert(lower_seq(s@.take(i + 1)) =~= lower_seq(s@.take(i as int)).push(c));
        i += 1;
    }
    assert(s@.take(s@.len() as int) =~= s@);
    r
}

/// `s` holds `p` at position `i`.
pub open spec fn matches_at(s: Seq<char>, i: int, p: Seq<char>) -> bool {
    0 <= i && i + p.len() <= s.len() && s.subrange(i, i + p.len()) == p
}

pub open spec fn starts_with(s: Seq<char>, p: Seq<char>) -> bool {
    matches_at(s, 0, p)
}

pub open spec fn ends_with(s: Seq<char>, p: Seq<char>) -> bool {
    matches_at(s, s.len() - p.len(), p)
}

/// The first position at or after `i` where `p` occurs in `s`.
pub open spec fn find_from(s: Seq<char>, p: Seq<char>, i: int) -> Option<int>
    decreases s.len() + 1 - i,
{
    if i < 0 || i + p.len() > s.len() {
        None
    } else if matches_at(s, i, p) {
        Some(i)
    } else {
        find_from(s, p, i + 1)
    }
}

/// `str::find` with a string pattern, counted in characters.
pub open spec fn find(s: Seq<char>, p: Seq<char>) -> Option<int> {
    find_from(s, p, 0)
}

pub open spec fn contains(s: Seq<char>, p: Seq<char>) -> bool {
    find(s, p) is Some
}

pub proof fn lemma_find_from(s: Seq<char>, p: Seq<char>, i: int)
    requires
        0 <= i,
    ensures
        match find_from(s, p, i) {
            Some(j) => i <= j && matches_at(s, j, p) && forall|k: int|
                i <= k < j ==> !matches_at(s, k, p),
            None => forall|k: int| i <= k ==> !matches_at(s, k, p),
        },
    decreases s.len() + 1 - i,
{
    if i + p.len() > s.len() {
    } else if matches_at(s, i, p) {
    } else {
        lemma_find_from(s, p, i + 1);
    }
}

/// Whether `p` occurs in `s` at `i` (exec).
pub fn matches_at_exec(s: &[char], i: usize, p: &[char]) -> (b: bool)
    ensures
        b == matches_at(s@, i as int, p@),
{
    if i > s.len() || p.len() > s.len() - i {
        return false;
    }
    let mut k: usize = 0;
    while k < p.len()
        invariant
            i + p@.len() <= s@.len(),
            i + p.len() <= s.len(),
            k <= p@.len(),
            forall|m: int| 0 <= m < k ==> s@[i + m] == p@[m],
        decreases p@.len() - k,
    {
        if s[i + k] != p[k] {
            assert(s@.subrange(i as int, i + p@.len())[k as int] != p@[k as int]);
            return false;
        }
        k += 1;
    }
    assert(s@.subrange(i as int, i + p@.len()) =~= p@);
    true
}

/// `find_from` (exec).
pub fn find_from_exec(s: &[char], p: &[char], from: usize) -> (r: Option<usize>)
    ensures
        match r {
            Some(j) => find_from(s@, p@, from as int) == Some(j as int),
            None => find_from(s@, p@, from as int) is None,
        },
{
    let mut i = from;
    if i > s.len() || p.len() > s.len() - i {
        return None;
    }
    while p.len() <= s.len() - i
        invariant
            from <= i,
            i <= s@.len(),
            find_from(s@, p@, from as int) == find_from(s@, p@, i as int),
        decreases s@.len() - i,
    {
        if matches_at_exec(s, i, p) {
            return Some(i);
        }
        proof {
            if p@.len() == 0 {
                assert(s@.subrange(i as int, i as int) =~= p@);
            }
        }
        i += 1;
    }
    None
}

/// `find_from` for a single character.
pub fn find_char_from(s: &[char], c: char, from: usize) -> (r: Option<usize>)
    ensures
        match r {
            Some(j) => find_from(s@, seq![c], from as int) == Some(j as int),
            None => find_from(s@, seq![c], from as int) is None,
        },
{
    let ghost p = seq![c];
    let mut i = from;
    if i >= s.len() {
        return None;
    }
    while i < s.len()
        invariant
            from <= i,
            i <= s@.len(),
            p == seq![c],
            find_from(s@, p, from as int) == find_from(s@, p, i as int),
        decreases s@.len() - i,
    {
        assert(matches_at(s@, i as int, p) <==> s@[i as int] == c) by {
            if s@[i as int] == c {
                assert(s@.subrange(i as int, i + 1) =~= p);
            }
            if matches_at(s@, i as int, p) {
                assert(s@.subrange(i as int, i + 1)[0] == p[0]);
            }
        }
        if s[i] == c {
            return Some(i);
        }
        i += 1;
    }
    None
}

/// Removes leading whitespace.
pub open spec fn trim_start(s: Seq<char>) -> Seq<char>
    decreases s.len(),
{
    if s.len() > 0 && is_ws(s[0]) {
        trim_start(s.drop_first())
    } else {
        s
    }
}

/// Removes trailing whitespace.
pub open spec fn trim_end(s: Seq<char>) -> Seq<char>
    decreases s.len(),
{
    if s.len() > 0 && is_ws(s.last()) {
        trim_end(s.drop_last())
    } else {
        s
    }
}

/// A text without white space at either end, as `str::trim` gives it.
pub open spec fn trim(s: Seq<char>) -> Seq<char> {
    trim_end(trim_start(s))
}

/// Number of leading whitespace characters.
pub open spec fn lead_ws(s: Seq<char>, i: int) -> int
    decreases s.len() - i,
{
    if 0 <= i < s.len() && is_ws(s[i]) {
        lead_ws(s, i + 1)
    } else {
        i
    }
}

pub proof fn lemma_trim_start_skip(s: Seq<char>, i: int)
    requires
        0 <= i <= s.len(),
    ensures
        trim_start(s.skip(i)) == s.skip(lead_ws(s, i)),
        i <= lead_ws(s, i) <= s.len(),
    decreases s.len() - i,
{
    if i < s.len() && is_ws(s[i]) {
        assert(s.skip(i).drop_first() =~= s.skip(i + 1));
        lemma_trim_start_skip(s, i + 1);
    }
}

/// Position just past the last non-whitespace character before `j`.
pub open spec fn trail_ws(s: Seq<char>, j: int) -> int
    decreases j,
{
    if 0 < j <= s.len() && is_ws(s[j - 1]) {
        trail_ws(s, j - 1)
    } else {
        j
    }
}

pub proof fn lemma_trim_end_take(s: Seq<char>, j: int)
    requires
        0 <= j <= s.len(),
    ensures
        trim_end(s.take(j)) == s.take(trail_ws(s, j)),
        0 <= trail_ws(s, j) <= j,
    decreases j,
{
    if 0 < j && is_ws(s[j - 1]) {
        assert(s.take(j).drop_last() =~= s.take(j - 1));
        lemma_trim_end_take(s, j - 1);
    }
}

/// `str::trim` (exec), returning the kept range.
pub fn trim_range(s: &[char], from: usize, to: usize) -> (r: (usize, usize))
    requires
        from <= to <= s@.len(),
    ensures
        from <= r.0 <= r.1 <= to,
        s@.subrange(r.0 as int, r.1 as int) == trim(s@.subrange(from as int, to as int)),
{
    let ghost t = s@.subrange(from as int, to as int);
    let mut a = from;
    while a < to && is_whitespace(s[a])
        invariant
            from <= a <= to,
            to <= s@.len(),
            t == s@.subrange(from as int, to as int),
            lead_ws(t, (a - from) as int) == lead_ws(t, 0),
        decreases to - a,
    {
        a += 1;
    }
    proof {
        lemma_trim_start_skip(t, 0);
        assert(t.skip(0) =~= t);
    }
    let mut b = to;
    let ghost u = s@.subrange(a as int, to as int);
    assert(u =~= t.skip(a - from));
    while b > a && is_whitespace(s[b - 1])
        invariant
            a <= b <= to,
            to <= s@.len(),
            u == s@.subrange(a as int, to as int),
            trail_ws(u, (b - a) as int) == trail_ws(u, u.len() as int),
        decreases b,
    {
        b -= 1;
    }
    proof {
        lemma_trim_end_take(u, u.len() as int);
        assert(u.take(u.len() as int) =~= u);
        assert(s@.subrange(a as int, b as int) =~= u.take((b - a) as int));
    }
    (a, b)
}

/// `str::trim` (exec).
pub fn trim_str(s: &[char]) -> (r: Vec<char>)
    ensures
        r@ == trim(s@),
{
    let (a, b) = trim_range(s, 0, s.len());
    assert(s@.subrange(0, s@.len() as int) =~= s@);
    slice_to_vec(s, a, b)
}

/// A copy of `s[a..b]`.
pub fn slice_to_vec(s: &[char], a: usize, b: usize) -> (r: Vec<char>)
    requires
        a <= b <= s@.len(),
    ensures
        r@ == s@.subrange(a as int, b as int),
{
    let mut r: Vec<char> = Vec::new();
    let mut i = a;
    while i < b
        invariant
            a <= i <= b,
            b <= s@.len(),
            r@ == s@.subrange(a as int, i as int),
        decreases b - i,
    {
        r.push(s[i]);
        assert(s@.subrange(a as int, i + 1) =~= s@.subrange(a as int, i as int).push(s@[i as int]));
        i += 1;
    }
    r
}

/// Appends `s[a..b]` to `out`.
pub fn extend_range(out: &mut Vec<char>, s: &[char], a: usize, b: usize)
    requires
        a <= b <= s@.len(),
    ensures
        final(out)@ == old(out)@ + s@.subrange(a as int, b as int),
{
    let ghost start = out@;
    let mut i = a;
    while i < b
        invariant
            a <= i <= b,
            b <= s@.len(),
            out@ == start + s@.subrange(a as int, i as int),
        decreases b - i,
    {
        out.push(s[i]);
        assert(s@.subrange(a as int, i + 1) =~= s@.subrange(a as int, i as int).push(s@[i as int]));
        i += 1;
    }
}

/// Appends all of `s` to `out`.
pub fn extend(out: &mut Vec<char>, s: &[char])
    ensures
        final(out)@ == old(out)@ + s@,
{
    extend_range(out, s, 0, s.len());
    assert(s@.subrange(0, s@.len() as int) =~= s@);
}

/// `str::replace`: every non-overlapping occurrence of `p` from position
/// `i` on, left to right, becomes `r`.
pub open spec fn replace_from(s: Seq<char>, p: Seq<char>, r: Seq<char>, i: int) -> Seq<char>
    recommends
        p.len() > 0,
    decreases s.len() - i,
    when 0 <= i <= s.len() && p.len() > 0
{
    match find_from(s, p, i) {
        None => s.subrange(i, s.len() as int),
        Some(j) => if i <= j && j + p.len() <= s.len() {
            s.subrange(i, j) + r + replace_from(s, p, r, j + p.len())
        } else {
            Seq::empty()
        },
    }
}

pub open spec fn replace_all(s: Seq<char>, p: Seq<char>, r: Seq<char>) -> Seq<char> {
    replace_from(s, p, r, 0)
}

/// `str::replacen(p, r, 1)`: the first occurrence only.
pub open spec fn replace_first(s: Seq<char>, p: Seq<char>, r: Seq<char>) -> Seq<char> {
    match find(s, p) {
        None => s,
        Some(j) => s.take(j) + r + s.skip(j + p.len()),
    }
}

/// `str::replace` (exec).
pub fn replace_all_exec(s: &[char], p: &[char], r: &[char]) -> (out: Vec<char>)
    requires
        p@.len() > 0,
    ensures
        out@ == replace_all(s@, p@, r@),
{
    let mut out: Vec<char> = Vec::new();
    let mut i: usize = 0;
    while i <= s.len()
        invariant
            i <= s@.len(),
            p@.len() > 0,
            out@ + replace_from(s@, p@, r@, i as int) == replace_all(s@, p@, r@),
        decreases s@.len() - i,
    {
        proof {
            lemma_find_from(s@, p@, i as int);
        }
        match find_from_exec(s, p, i) {
            None => {
                extend_range(&mut out, s, i, s.len());
                return out;
            },
            Some(j) => {
                let ghost before = out@;
                extend_range(&mut out, s, i, j);
                extend(&mut out, r);
                assert(before + replace_from(s@, p@, r@, i as int) == out@ + replace_from(
                    s@,
                    p@,
                    r@,
                    j + p@.len(),
                ));
                i = j + p.len();
            },
        }
    }
    out
}

/// `str::replacen(p, r, 1)` (exec).
pub fn replace_first_exec(s: &[char], p: &[char], r: &[char]) -> (out: Vec<char>)
    ensures
        out@ == replace_first(s@, p@, r@),
{
    proof {
        lemma_find_from(s@, p@, 0);
    }
    match find_from_exec(s, p, 0) {
        None => {
            assert(s@.subrange(0, s@.len() as int) =~= s@);
            slice_to_vec(s, 0, s.len())
        },
        Some(j) => {
            assert(matches_at(s@, j as int, p@));
            let n = s.len();
            let m = p.len();
            assert(j + m <= n);
            assert(s@.take(j as int) =~= s@.subrange(0, j as int));
            assert(s@.skip(j + p@.len()) =~= s@.subrange(j + p@.len(), s@.len() as int));
            let mut out = slice_to_vec(s, 0, j);
            extend(&mut out, r);
            extend_range(&mut out, s, j + p.len(), s.len());
            out
        },
    }
}


/// Position of the first whitespace character at or after `i` (or the end).
pub open spec fn word_end(s: Seq<char>, i: int) -> int
    decreases s.len() - i,
{
    if 0 <= i < s.len() && !is_ws(s[i]) {
        word_end(s, i + 1)
    } else {
        i
    }
}

pub proof fn lemma_word_end(s: Seq<char>, i: int)
    requires
        0 <= i <= s.len(),
    ensures
        i <= word_end(s, i) <= s.len(),
        forall|k: int| i <= k < word_end(s, i) ==> !is_ws(s[k]),
        word_end(s, i) < s.len() ==> is_ws(s[word_end(s, i)]),
    decreases s.len() - i,
{
    if i < s.len() && !is_ws(s[i]) {
        lemma_word_end(s, i + 1);
    }
}

pub proof fn lemma_lead_ws(s: Seq<char>, i: int)
    requires
        0 <= i <= s.len(),
    ensures
        i <= lead_ws(s, i) <= s.len(),
        forall|k: int| i <= k < lead_ws(s, i) ==> is_ws(s[k]),
        lead_ws(s, i) < s.len() ==> !is_ws(s[lead_ws(s, i)]),
    decreases s.len() - i,
{
    if i < s.len() && is_ws(s[i]) {
        lemma_lead_ws(s, i + 1);
    }
}

/// `lead_ws` (exec).
pub fn skip_ws(s: &[char], i: usize) -> (r: usize)
    requires
        i <= s@.len(),
    ensures
        r == lead_ws(s@, i as int),
{
    let mut j = i;
    while j < s.len() && is_whitespace(s[j])
        invariant
            i <= j <= s@.len(),
            lead_ws(s@, j as int) == lead_ws(s@, i as int),
        decreases s@.len() - j,
    {
        j += 1;
    }
    j
}

/// `word_end` (exec).
pub fn skip_word(s: &[char], i: usize) -> (r: usize)
    requires
        i <= s@.len(),
    ensures
        r == word_end(s@, i as int),
{
    let mut j = i;
    while j < s.len() && !is_whitespace(s[j])
        invariant
            i <= j <= s@.len(),
            word_end(s@, j as int) == word_end(s@, i as int),
        decreases s@.len() - j,
    {
        j += 1;
    }
    j
}

/// The whitespace-separated words of `s` from position `i` on
/// (`str::split_whitespace`).
pub open spec fn words_from(s: Seq<char>, i: int) -> Seq<Seq<char>>
    decreases s.len() - i,
{
    let a = lead_ws(s, i);
    if i < 0 || i > s.len() || a >= s.len() || a < i {
        Seq::empty()
    } else {
        let b = word_end(s, a);
        if b <= a || b > s.len() {
            Seq::empty()
        } else {
            seq![s.subrange(a, b)] + words_from(s, b)
        }
    }
}

pub open spec fn words(s: Seq<char>) -> Seq<Seq<char>> {
    words_from(s, 0)
}

/// Removes every leading `c` (`str::trim_start_matches(c)`).
pub open spec fn trim_start_char(s: Seq<char>, c: char) -> Seq<char>
    decreases s.len(),
{
    if s.len() > 0 && s[0] == c {
        trim_start_char(s.drop_first(), c)
    } else {
        s
    }
}

/// Removes every trailing `c` (`str::trim_end_matches(c)`).
pub open spec fn trim_end_char(s: Seq<char>, c: char) -> Seq<char>
    decreases s.len(),
{
    if s.len() > 0 && s.last() == c {
        trim_end_char(s.drop_last(), c)
    } else {
        s
    }
}

/// `str::trim_matches(c)`.
pub open spec fn trim_char(s: Seq<char>, c: char) -> Seq<char> {
    trim_end_char(trim_start_char(s, c), c)
}

proof fn lemma_trim_start_first(s: Seq<char>)
    ensures
        trim_start(s).len() == 0 || !is_ws(trim_start(s)[0]),
    decreases s.len(),
{
    if s.len() > 0 && is_ws(s[0]) {
        lemma_trim_start_first(s.drop_first());
    }
}

proof fn lemma_trim_end_last(s: Seq<char>)
    ensures
        trim_end(s).len() <= s.len(),
        trim_end(s) == s.take(trim_end(s).len() as int),
        trim_end(s).len() == 0 || !is_ws(trim_end(s).last()),
    decreases s.len(),
{
    if s.len() > 0 && is_ws(s.last()) {
        lemma_trim_end_last(s.drop_last());
        assert(s.drop_last().take(trim_end(s).len() as int) =~= s.take(trim_end(s).len() as int));
    } else {
        assert(s.take(s.len() as int) =~= s);
    }
}

/// Lemma: trimming a text that starts with a non-white-space character
/// keeps that character first and leaves a prefix of the text.
pub proof fn lemma_trim_keeps_head(s: Seq<char>)
    requires
        s.len() > 0,
        !is_ws(s[0]),
    ensures
        1 <= trim(s).len() <= s.len(),
        trim(s) == s.take(trim(s).len() as int),
    decreases s.len(),
{
    assert(trim_start(s) == s);
    lemma_trim_end_last(s);
    if s.len() > 1 && is_ws(s.last()) {
        let d = s.drop_last();
        assert(d[0] == s[0]);
        lemma_trim_keeps_head(d);
        assert(trim_start(d) == d);
        assert(trim_end(s) == trim_end(d));
        assert(d.take(trim(d).len() as int) =~= s.take(trim(d).len() as int));
    }
}

/// Lemma: trimming a trimmed text changes nothing.
pub proof fn lemma_trim_idempotent(s: Seq<char>)
    ensures
        trim(trim(s)) == trim(s),
{
    let t = trim_start(s);
    let u = trim_end(t);
    lemma_trim_start_first(s);
    lemma_trim_end_last(t);
    if u.len() > 0 {
        assert(u[0] == t[0]);
    }
    assert(trim_start(u) == u);
    assert(trim_end(u) == u);
}

proof fn lemma_trim_start_char_first(s: Seq<char>, c: char)
    ensures
        trim_start_char(s, c).len() == 0 || trim_start_char(s, c)[0] != c,
    decreases s.len(),
{
    if s.len() > 0 && s[0] == c {
        lemma_trim_start_char_first(s.drop_first(), c);
    }
}

proof fn lemma_trim_end_char_last(s: Seq<char>, c: char)
    ensures
        trim_end_char(s, c).len() <= s.len(),
        trim_end_char(s, c) == s.take(trim_end_char(s, c).len() as int),
        trim_end_char(s, c).len() == 0 || trim_end_char(s, c).last() != c,
    decreases s.len(),
{
    if s.len() > 0 && s.last() == c {
        lemma_trim_end_char_last(s.drop_last(), c);
        assert(s.drop_last().take(trim_end_char(s, c).len() as int) =~= s.take(
            trim_end_char(s, c).len() as int,
        ));
    } else {
        assert(s.take(s.len() as int) =~= s);
    }
}

/// Lemma: trimming `c` off a text already trimmed of it changes nothing.
pub proof fn lemma_trim_char_idempotent(s: Seq<char>, c: char)
    ensures
        trim_char(trim_char(s, c), c) == trim_char(s, c),
{
    let t = trim_start_char(s, c);
    let u = trim_end_char(t, c);
    lemma_trim_start_char_first(s, c);
    lemma_trim_end_char_last(t, c);
    if u.len() > 0 {
        assert(u[0] == t[0]);
    }
    assert(trim_start_char(u, c) == u);
    assert(trim_end_char(u, c) == u);
}

/// `trim_start_char` (exec).
pub fn trim_start_char_exec(s: &[char], c: char) -> (r: Vec<char>)
    ensures
        r@ == trim_start_char(s@, c),
{
    let mut i: usize = 0;
    assert(s@.skip(0) =~= s@);
    while i < s.len() && s[i] == c
        invariant
            i <= s@.len(),
            trim_start_char(s@.skip(i as int), c) == trim_start_char(s@, c),
        decreases s@.len() - i,
    {
        assert(s@.skip(i as int).drop_first() =~= s@.skip(i + 1));
        i += 1;
    }
    assert(s@.skip(i as int) =~= s@.subrange(i as int, s@.len() as int));
    slice_to_vec(s, i, s.len())
}

/// `trim_end_char` (exec).
pub fn trim_end_char_exec(s: &[char], c: char) -> (r: Vec<char>)
    ensures
        r@ == trim_end_char(s@, c),
{
    let mut j: usize = s.len();
    assert(s@.take(j as int) =~= s@);
    while j > 0 && s[j - 1] == c
        invariant
            j <= s@.len(),
            trim_end_char(s@.take(j as int), c) == trim_end_char(s@, c),
        decreases j,
    {
        assert(s@.take(j as int).drop_last() =~= s@.take(j - 1));
        j -= 1;
    }
    assert(s@.take(j as int) =~= s@.subrange(0, j as int));
    slice_to_vec(s, 0, j)
}

/// `trim_char` (exec).
pub fn trim_char_exec(s: &[char], c: char) -> (r: Vec<char>)
    ensures
        r@ == trim_char(s@, c),
{
    let a = trim_start_char_exec(s, c);
    trim_end_char_exec(&a, c)
}

/// Whether the sequence consists of whitespace only.
pub open spec fn is_blank(s: Seq<char>) -> bool {
    trim(s).len() == 0
}

/// `str::trim().is_empty()` (exec).
pub fn blank(s: &[char]) -> (b: bool)
    ensures
        b == is_blank(s@),
{
    let r = trim_range(s, 0, s.len());
    assert(s@.subrange(0, s@.len() as int) =~= s@);
    r.0 == r.1
}


/// Where the line starting at `i` ends: the next `\n`, or the end.
pub open spec fn line_end(s: Seq<char>, i: int) -> int {
    match find_from(s, seq!['\n'], i) {
        Some(e) => e,
        None => s.len() as int,
    }
}

/// The line starting at `i`: up to the next `\n`, without a `\r` that
/// precedes that `\n`.
pub open spec fn line_at(s: Seq<char>, i: int) -> Seq<char> {
    let e = line_end(s, i);
    if e < s.len() && e > i && s[e - 1] == '\r' {
        s.subrange(i, e - 1)
    } else {
        s.subrange(i, e)
    }
}

/// `str::lines` from position `i` on.
pub open spec fn lines_from(s: Seq<char>, i: int) -> Seq<Seq<char>>
    decreases s.len() - i,
{
    if i < 0 || i >= s.len() {
        Seq::empty()
    } else {
        let e = line_end(s, i);
        if e < i || e >= s.len() {
            seq![line_at(s, i)]
        } else {
            seq![line_at(s, i)] + lines_from(s, e + 1)
        }
    }
}

/// The lines of a text, as `str::lines` gives them.
pub open spec fn lines(s: Seq<char>) -> Seq<Seq<char>> {
    lines_from(s, 0)
}

pub proof fn lemma_line_end(s: Seq<char>, i: int)
    requires
        0 <= i <= s.len(),
    ensures
        i <= line_end(s, i) <= s.len(),
        line_end(s, i) < s.len() ==> s[line_end(s, i)] == '\n',
        forall|k: int| i <= k < line_end(s, i) ==> s[k] != '\n',
{
    lemma_find_from(s, seq!['\n'], i);
    assert forall|k: int| i <= k < line_end(s, i) implies s[k] != '\n' by {
        assert(!matches_at(s, k, seq!['\n']));
        if s[k] == '\n' {
            assert(s.subrange(k, k + 1) =~= seq!['\n']);
        }
    }
    match find_from(s, seq!['\n'], i) {
        Some(e) => {
            assert(s.subrange(e, e + 1)[0] == s[e]);
        },
        None => {},
    }
}

/// The line starting at `i` (exec): its range and where the next line starts.
pub fn next_line(s: &[char], i: usize) -> (r: (usize, usize, usize))
    requires
        i < s@.len(),
    ensures
        i <= r.0 && r.0 <= r.1 && r.1 <= s@.len(),
        r.0 == i,
        s@.subrange(r.0 as int, r.1 as int) == line_at(s@, i as int),
        line_end(s@, i as int) < s@.len() ==> r.2 == line_end(s@, i as int) + 1,
        line_end(s@, i as int) == s@.len() ==> r.2 == s@.len(),
        r.2 > i,
        r.2 <= s@.len(),
{
    proof {
        lemma_line_end(s@, i as int);
    }
    let e = match find_char_from(s, '\n', i) {
        Some(e) => e,
        None => s.len(),
    };
    let b = if e < s.len() && e > i && s[e - 1] == '\r' {
        e - 1
    } else {
        e
    };
    let next = if e < s.len() {
        e + 1
    } else {
        e
    };
    (i, b, next)
}

/// The decimal digits of `n` (`usize::to_string`).
pub open spec fn decimal(n: nat) -> Seq<char>
    decreases n,
{
    if n < 10 {
        seq![(0x30 + n) as char]
    } else {
        decimal(n / 10) + seq![(0x30 + n % 10) as char]
    }
}

/// Appends the decimal digits of `n`.
pub fn push_decimal(out: &mut Vec<char>, n: usize)
    ensures
        final(out)@ == old(out)@ + decimal(n as nat),
    decreases n,
{
    if n >= 10 {
        push_decimal(out, n / 10);
    }
    let d = (n % 10) as u32;
    let c = char_from_ascii(0x30 + d);
    out.push(c);
    if n < 10 {
        assert(decimal(n as nat) =~= seq![c]);
        assert(out@ =~= old(out)@ + decimal(n as nat));
    } else {
        assert(out@ =~= old(out)@ + decimal(n as nat));
    }
}

/// Lexicographic order of character sequences, by code point (the order of
/// `String`).
pub open spec fn seq_less(a: Seq<char>, b: Seq<char>) -> bool
    decreases a.len(),
{
    if a.len() == 0 {
        b.len() > 0
    } else if b.len() == 0 {
        false
    } else if (a[0] as u32) < (b[0] as u32) {
        true
    } else if (a[0] as u32) > (b[0] as u32) {
        false
    } else {
        seq_less(a.drop_first(), b.drop_first())
    }
}

pub proof fn lemma_seq_less_irreflexive(a: Seq<char>)
    ensures
        !seq_less(a, a),
    decreases a.len(),
{
    if a.len() > 0 {
        lemma_seq_less_irreflexive(a.drop_first());
    }
}

pub proof fn lemma_seq_less_transitive(a: Seq<char>, b: Seq<char>, c: Seq<char>)
    requires
        seq_less(a, b),
        seq_less(b, c),
    ensures
        seq_less(a, c),
    decreases a.len(),
{
    if a.len() > 0 && b.len() > 0 && c.len() > 0 {
        if (a[0] as u32) == (b[0] as u32) && (b[0] as u32) == (c[0] as u32) {
            lemma_seq_less_transitive(a.drop_first(), b.drop_first(), c.drop_first());
        }
    }
}

pub proof fn lemma_char_u32_injective(x: char, y: char)
    ensures
        (x as u32) == (y as u32) ==> x == y,
{
}

pub proof fn lemma_seq_less_total(a: Seq<char>, b: Seq<char>)
    ensures
        seq_less(a, b) || seq_less(b, a) || a == b,
    decreases a.len(),
{
    if a.len() > 0 && b.len() > 0 {
        lemma_seq_less_total(a.drop_first(), b.drop_first());
        if (a[0] as u32) == (b[0] as u32) {
            lemma_char_u32_injective(a[0], b[0]);
            if a.drop_first() == b.drop_first() {
                assert(a =~= seq![a[0]] + a.drop_first());
                assert(b =~= seq![b[0]] + b.drop_first());
            }
        }
    } else if a.len() == 0 && b.len() == 0 {
        assert(a =~= b);
    }
}

pub proof fn lemma_seq_less_asym(a: Seq<char>, b: Seq<char>)
    ensures
        seq_less(a, b) ==> !seq_less(b, a),
{
    if seq_less(a, b) && seq_less(b, a) {
        lemma_seq_less_transitive(a, b, a);
        lemma_seq_less_irreflexive(a);
    }
}

/// `seq_less` (exec), with equality.
pub fn compare_chars(a: &[char], b: &[char]) -> (r: (bool, bool))
    ensures
        r.0 == seq_less(a@, b@),
        r.1 == (a@ == b@),
{
    let mut i: usize = 0;
    assert(a@.skip(0) =~= a@);
    assert(b@.skip(0) =~= b@);
    while i < a.len() && i < b.len() && a[i] == b[i]
        invariant
            i <= a@.len(),
            i <= b@.len(),
            a@.take(i as int) == b@.take(i as int),
            seq_less(a@.skip(i as int), b@.skip(i as int)) == seq_less(a@, b@),
        decreases a@.len() - i,
    {
        assert(a@.skip(i as int).drop_first() =~= a@.skip(i + 1));
        assert(b@.skip(i as int).drop_first() =~= b@.skip(i + 1));
        assert(a@.take(i + 1) =~= a@.take(i as int).push(a@[i as int]));
        assert(b@.take(i + 1) =~= b@.take(i as int).push(b@[i as int]));
        i += 1;
    }
    let less = if i == a.len() {
        i < b.len()
    } else if i == b.len() {
        false
    } else {
        (a[i] as u32) < (b[i] as u32)
    };
    let eq = i == a.len() && i == b.len();
    proof {
        assert(a@.skip(i as int).len() == a@.len() - i);
        if i < a@.len() && i < b@.len() {
            assert(a@.skip(i as int)[0] == a@[i as int]);
            assert(b@.skip(i as int)[0] == b@[i as int]);
            if (a@[i as int] as u32) == (b@[i as int] as u32) {
                lemma_char_u32_injective(a@[i as int], b@[i as int]);
            }
        }
        if eq {
            assert(a@ =~= a@.take(i as int));
            assert(b@ =~= b@.take(i as int));
        }
        if a@ == b@ {
            assert(a@.len() == b@.len());
        }
    }
    (less, eq)
}

} // verus!
