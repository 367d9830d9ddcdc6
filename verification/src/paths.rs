//! Paths as text, with the meaning that `std::path` gives them on Unix:
//! `/` separates components, a leading `/` is the root.
use vstd::prelude::*;
use crate::text::{
    chars_of, extend, find_char_from, find_from, lemma_find_from, matches_at,
    slice_to_vec, starts_with, string_from,
};

verus! {

/// Drops trailing separators and trailing `.` components.
pub open spec fn strip_tail(s: Seq<char>) -> Seq<char>
    decreases s.len(),
{
    if s.len() > 0 && s.last() == '/' {
        strip_tail(s.drop_last())
    } else if s.len() >= 2 && s.last() == '.' && s[s.len() - 2] == '/' {
        strip_tail(s.drop_last())
    } else {
        s
    }
}

/// The position just after the last `/` of `s` before `j` (0 when none).
pub open spec fn after_last_sep(s: Seq<char>, j: int) -> int
    decreases j,
{
    if j <= 0 || j > s.len() {
        0
    } else if s[j - 1] == '/' {
        j
    } else {
        after_last_sep(s, j - 1)
    }
}

/// The position of the last `.` of `s` (or -1).
pub open spec fn last_dot(s: Seq<char>, j: int) -> int
    decreases j,
{
    if j <= 0 || j > s.len() {
        -1
    } else if s[j - 1] == '.' {
        j - 1
    } else {
        last_dot(s, j - 1)
    }
}

/// Where the last component of `s` starts, and the component itself.
pub open spec fn last_segment(s: Seq<char>) -> (int, Seq<char>) {
    let t = strip_tail(s);
    let a = after_last_sep(t, t.len() as int);
    (a, t.subrange(a, t.len() as int))
}

/// `Path::file_name`: the last component, unless it is missing, `.` or `..`.
pub open spec fn file_name(s: Seq<char>) -> Option<Seq<char>> {
    let seg = last_segment(s).1;
    if seg.len() == 0 || seg == seq!['.'] || seg == seq!['.', '.'] {
        None
    } else {
        Some(seg)
    }
}

/// Length of the stem of a file name: up to its last `.`, unless that is
/// the first character or there is none.
pub open spec fn stem_len(name: Seq<char>) -> int {
    let d = last_dot(name, name.len() as int);
    if d <= 0 {
        name.len() as int
    } else {
        d
    }
}

/// The file name without its extension, as `Path::file_stem` gives it.
pub open spec fn file_stem(s: Seq<char>) -> Option<Seq<char>> {
    match file_name(s) {
        None => None,
        Some(n) => Some(n.take(stem_len(n))),
    }
}

/// `Path::extension`: what follows the last `.` of the file name, when that
/// `.` is not its first character.
pub open spec fn extension(s: Seq<char>) -> Option<Seq<char>> {
    match file_name(s) {
        None => None,
        Some(n) => {
            let d = last_dot(n, n.len() as int);
            if d <= 0 {
                None
            } else {
                Some(n.skip(d + 1))
            }
        },
    }
}

/// `PathBuf::set_extension`: everything after the stem is replaced by `.ext`
/// (or removed when `ext` is empty); a path without a file name is kept.
pub open spec fn with_extension(s: Seq<char>, ext: Seq<char>) -> Seq<char> {
    match file_name(s) {
        None => s,
        Some(n) => {
            let end = last_segment(s).0 + stem_len(n);
            s.take(end) + if ext.len() == 0 {
                Seq::empty()
            } else {
                seq!['.'] + ext
            }
        },
    }
}

/// `Path::is_absolute` on Unix.
pub open spec fn is_absolute(s: Seq<char>) -> bool {
    s.len() > 0 && s[0] == '/'
}

/// `PathBuf::push` / `Path::join`: an absolute `p` replaces `base`; else
/// `p` is appended, with a separator unless `base` is empty or ends in one.
pub open spec fn join(base: Seq<char>, p: Seq<char>) -> Seq<char> {
    if is_absolute(p) {
        p
    } else if base.len() > 0 && base.last() != '/' {
        base + seq!['/'] + p
    } else {
        base + p
    }
}

/// Lemma: `strip_tail` is a prefix.
pub proof fn lemma_strip_tail(s: Seq<char>)
    ensures
        strip_tail(s).len() <= s.len(),
        strip_tail(s) == s.take(strip_tail(s).len() as int),
    decreases s.len(),
{
    if s.len() > 0 && s.last() == '/' {
        lemma_strip_tail(s.drop_last());
        assert(s.drop_last().take(strip_tail(s).len() as int) =~= s.take(strip_tail(s).len() as int));
    } else if s.len() >= 2 && s.last() == '.' && s[s.len() - 2] == '/' {
        lemma_strip_tail(s.drop_last());
        assert(s.drop_last().take(strip_tail(s).len() as int) =~= s.take(strip_tail(s).len() as int));
    } else {
        assert(s.take(s.len() as int) =~= s);
    }
}

pub proof fn lemma_after_last_sep(s: Seq<char>, j: int)
    requires
        0 <= j <= s.len(),
    ensures
        0 <= after_last_sep(s, j) <= j,
        forall|k: int| after_last_sep(s, j) <= k < j ==> s[k] != '/',
        after_last_sep(s, j) > 0 ==> s[after_last_sep(s, j) - 1] == '/',
    decreases j,
{
    if j > 0 && s[j - 1] != '/' {
        lemma_after_last_sep(s, j - 1);
    }
}

pub proof fn lemma_last_dot(s: Seq<char>, j: int)
    requires
        0 <= j <= s.len(),
    ensures
        -1 <= last_dot(s, j) < j,
        last_dot(s, j) >= 0 ==> s[last_dot(s, j)] == '.',
        forall|k: int| last_dot(s, j) < k < j ==> s[k] != '.',
    decreases j,
{
    if j > 0 && s[j - 1] != '.' {
        lemma_last_dot(s, j - 1);
    }
}

proof fn lemma_after_last_sep_at(u: Seq<char>, a: int, j: int)
    requires
        0 <= a <= j <= u.len(),
        forall|k: int| a <= k < j ==> u[k] != '/',
        a > 0 ==> u[a - 1] == '/',
    ensures
        after_last_sep(u, j) == a,
    decreases j,
{
    if j > a {
        lemma_after_last_sep_at(u, a, j - 1);
    }
}

proof fn lemma_last_dot_at(m: Seq<char>, d: int, j: int)
    requires
        0 <= d < j <= m.len(),
        m[d] == '.',
        forall|k: int| d < k < j ==> m[k] != '.',
    ensures
        last_dot(m, j) == d,
    decreases j,
{
    if j > d + 1 {
        lemma_last_dot_at(m, d, j - 1);
    }
}

/// Law: giving a path that has a file name an extension (one without dots
/// or separators) makes that its extension, and keeps the path apart from
/// its extension.
pub proof fn lemma_with_extension(s: Seq<char>, ext: Seq<char>)
    requires
        file_name(s) is Some,
        ext.len() > 0,
        forall|i: int| 0 <= i < ext.len() ==> ext[i] != '.' && ext[i] != '/',
    ensures
        extension(with_extension(s, ext)) == Some(ext),
        with_extension(with_extension(s, ext), Seq::empty()) == with_extension(s, Seq::empty()),
{
    let t = strip_tail(s);
    lemma_strip_tail(s);
    let a = after_last_sep(t, t.len() as int);
    lemma_after_last_sep(t, t.len() as int);
    let n = t.subrange(a, t.len() as int);
    assert(file_name(s) == Some(n));
    lemma_last_dot(n, n.len() as int);
    let st = stem_len(n);
    assert(1 <= st <= n.len());
    let end = a + st;
    let u = with_extension(s, ext);
    assert(u == s.take(end) + (seq!['.'] + ext));
    assert(s.take(end) =~= t.take(end));
    assert(u.last() == ext.last());
    assert(strip_tail(u) == u);
    assert forall|k: int| a <= k < u.len() implies u[k] != '/' by {
        if k < end {
            assert(u[k] == t[k]);
            assert(t[k] == n[k - a]);
        } else if k > end {
            assert(u[k] == ext[k - end - 1]);
        }
    }
    if a > 0 {
        assert(u[a - 1] == t[a - 1]);
    }
    lemma_after_last_sep_at(u, a, u.len() as int);
    let m = u.subrange(a, u.len() as int);
    assert(m.len() == st + 1 + ext.len());
    assert(m != seq!['.']);
    assert(m != seq!['.', '.']);
    assert(last_segment(u).1 == m);
    assert(file_name(u) == Some(m));
    assert(m[st] == '.');
    assert forall|k: int| st < k < m.len() implies m[k] != '.' by {
        assert(m[k] == ext[k - st - 1]);
    }
    lemma_last_dot_at(m, st, m.len() as int);
    assert(m.skip(st + 1) =~= ext);
    assert(stem_len(m) == st);
    assert(last_segment(u).0 == a);
    assert(with_extension(u, Seq::empty()) =~= u.take(end));
    assert(u.take(end) =~= s.take(end));
    assert(with_extension(s, Seq::empty()) =~= s.take(end));
}

/// Length of `strip_tail(s)` (exec).
fn strip_tail_len(s: &[char]) -> (n: usize)
    ensures
        n == strip_tail(s@).len(),
        n <= s@.len(),
{
    let mut n = s.len();
    assert(s@.take(n as int) =~= s@);
    loop
        invariant
            n <= s@.len(),
            strip_tail(s@.take(n as int)) == strip_tail(s@),
        decreases n,
    {
        if n > 0 && s[n - 1] == '/' {
            assert(s@.take(n as int).drop_last() =~= s@.take(n - 1));
            n -= 1;
        } else if n >= 2 && s[n - 1] == '.' && s[n - 2] == '/' {
            assert(s@.take(n as int).drop_last() =~= s@.take(n - 1));
            n -= 1;
        } else {
            proof {
                lemma_strip_tail(s@);
            }
            return n;
        }
    }
}

/// Where the last component starts and ends (exec).
pub fn last_segment_range(s: &[char]) -> (r: (usize, usize))
    ensures
        r.0 <= r.1 <= s@.len(),
        r.0 == last_segment(s@).0,
        s@.subrange(r.0 as int, r.1 as int) == last_segment(s@).1,
        r.1 == strip_tail(s@).len(),
{
    let n = strip_tail_len(s);
    proof {
        lemma_strip_tail(s@);
    }
    let ghost t = strip_tail(s@);
    let mut a = n;
    while a > 0 && s[a - 1] != '/'
        invariant
            a <= n,
            n == t.len(),
            n <= s@.len(),
            t == s@.take(n as int),
            after_last_sep(t, a as int) == after_last_sep(t, n as int),
        decreases a,
    {
        a -= 1;
    }
    assert(t.subrange(a as int, n as int) =~= s@.subrange(a as int, n as int));
    (a, n)
}

fn is_dot_name(s: &[char], a: usize, b: usize) -> (r: bool)
    requires
        a <= b <= s@.len(),
    ensures
        r == (s@.subrange(a as int, b as int) == seq!['.'] || s@.subrange(a as int, b as int)
            == seq!['.', '.']),
{
    let ghost seg = s@.subrange(a as int, b as int);
    if b - a == 1 && s[a] == '.' {
        assert(seg =~= seq!['.']);
        true
    } else if b - a == 2 && s[a] == '.' && s[a + 1] == '.' {
        assert(seg =~= seq!['.', '.']);
        true
    } else {
        proof {
            assert(seg.len() == b - a);
            if seg.len() == 1 {
                assert(seg[0] == s@[a as int]);
                assert(seg != seq!['.']);
            }
            if seg.len() == 2 {
                assert(seg[0] == s@[a as int]);
                assert(seg[1] == s@[a + 1]);
                assert(seg != seq!['.', '.']);
            }
        }
        false
    }
}

/// The range of the file name within `s`, if there is one.
pub fn file_name_range(s: &[char]) -> (r: Option<(usize, usize)>)
    ensures
        match r {
            Some((a, b)) => a <= b <= s@.len() && a == last_segment(s@).0 && file_name(s@) == Some(
                s@.subrange(a as int, b as int),
            ),
            None => file_name(s@) is None,
        },
{
    let (a, b) = last_segment_range(s);
    if a == b || is_dot_name(s, a, b) {
        None
    } else {
        Some((a, b))
    }
}

/// Position of the last `.` in `s[a..b]`, relative to `a` (exec).
fn last_dot_in(s: &[char], a: usize, b: usize) -> (r: Option<usize>)
    requires
        a <= b <= s@.len(),
    ensures
        match r {
            Some(d) => last_dot(s@.subrange(a as int, b as int), b - a) == d as int,
            None => last_dot(s@.subrange(a as int, b as int), b - a) == -1,
        },
{
    let ghost seg = s@.subrange(a as int, b as int);
    let mut j = b - a;
    while j > 0 && s[a + j - 1] != '.'
        invariant
            j <= b - a,
            a <= b <= s@.len(),
            seg == s@.subrange(a as int, b as int),
            last_dot(seg, j as int) == last_dot(seg, b - a),
        decreases j,
    {
        j -= 1;
    }
    if j == 0 {
        None
    } else {
        Some(j - 1)
    }
}

/// `Path::file_name`, as text.
pub fn path_file_name(path: &str) -> (r: Option<String>)
    ensures
        match r {
            Some(n) => file_name(path@) == Some(n@),
            None => file_name(path@) is None,
        },
{
    let s = chars_of(path);
    match file_name_range(&s) {
        None => None,
        Some((a, b)) => Some(string_from(&slice_to_vec(&s, a, b))),
    }
}

/// `Path::file_stem`, as text.
pub fn path_file_stem(path: &str) -> (r: Option<String>)
    ensures
        match r {
            Some(n) => file_stem(path@) == Some(n@),
            None => file_stem(path@) is None,
        },
{
    let s = chars_of(path);
    match file_name_range(&s) {
        None => None,
        Some((a, b)) => {
            let ghost n = s@.subrange(a as int, b as int);
            proof {
                lemma_last_dot(n, n.len() as int);
            }
            let len = match last_dot_in(&s, a, b) {
                Some(d) if d > 0 => d,
                _ => b - a,
            };
            assert(n.take(stem_len(n)) =~= s@.subrange(a as int, a + len));
            Some(string_from(&slice_to_vec(&s, a, a + len)))
        },
    }
}

/// `Path::extension`, as text.
pub fn path_extension(path: &str) -> (r: Option<String>)
    ensures
        match r {
            Some(e) => extension(path@) == Some(e@),
            None => extension(path@) is None,
        },
{
    let s = chars_of(path);
    extension_chars(&s)
}

/// `Path::extension` on characters.
pub fn extension_chars(s: &[char]) -> (r: Option<String>)
    ensures
        match r {
            Some(e) => extension(s@) == Some(e@),
            None => extension(s@) is None,
        },
{
    match file_name_range(s) {
        None => None,
        Some((a, b)) => {
            let ghost n = s@.subrange(a as int, b as int);
            proof {
                lemma_last_dot(n, n.len() as int);
            }
            match last_dot_in(s, a, b) {
                Some(d) if d > 0 => {
                    assert(n.skip(d + 1) =~= s@.subrange(a + d + 1, b as int));
                    Some(string_from(&slice_to_vec(s, a + d + 1, b)))
                },
                _ => None,
            }
        },
    }
}

/// `PathBuf::set_extension`, as text (`ext` holds no separator).
pub fn path_with_extension(path: &str, ext: &str) -> (r: String)
    ensures
        r@ == with_extension(path@, ext@),
{
    let s = chars_of(path);
    match file_name_range(&s) {
        None => string_from(&s),
        Some((a, b)) => {
            let ghost n = s@.subrange(a as int, b as int);
            proof {
                lemma_last_dot(n, n.len() as int);
            }
            let len = match last_dot_in(&s, a, b) {
                Some(d) if d > 0 => d,
                _ => b - a,
            };
            let mut out = slice_to_vec(&s, 0, a + len);
            let e = chars_of(ext);
            if e.len() > 0 {
                out.push('.');
                extend(&mut out, &e);
            }
            assert(out@ =~= with_extension(path@, ext@));
            string_from(&out)
        },
    }
}

/// `Path::join`, as text.
pub fn path_join(base: &str, p: &str) -> (r: String)
    ensures
        r@ == join(base@, p@),
{
    let b = chars_of(base);
    let q = chars_of(p);
    if q.len() > 0 && q[0] == '/' {
        return string_from(&q);
    }
    let mut out = b;
    let n = out.len();
    if n > 0 && out[n - 1] != '/' {
        out.push('/');
    }
    extend(&mut out, &q);
    string_from(&out)
}


/// A path component.
pub enum Comp {
    Root,
    Cur,
    Parent,
    Normal(Seq<char>),
}

/// The component a `/`-free segment contributes (none for `""` and `.`).
pub open spec fn segment_comp(seg: Seq<char>) -> Seq<Comp> {
    if seg.len() == 0 || seg == seq!['.'] {
        Seq::empty()
    } else if seg == seq!['.', '.'] {
        seq![Comp::Parent]
    } else {
        seq![Comp::Normal(seg)]
    }
}

/// Where the segment starting at `i` ends: the next `/`, or the end.
pub open spec fn seg_end(s: Seq<char>, i: int) -> int {
    match find_from(s, seq!['/'], i) {
        Some(e) => e,
        None => s.len() as int,
    }
}

/// The components of the segments from position `i` on.
pub open spec fn comps_from(s: Seq<char>, i: int) -> Seq<Comp>
    decreases s.len() + 1 - i,
{
    if i < 0 || i > s.len() {
        Seq::empty()
    } else {
        let e = seg_end(s, i);
        if e < i || e > s.len() {
            Seq::empty()
        } else if e < s.len() {
            segment_comp(s.subrange(i, e)) + comps_from(s, e + 1)
        } else {
            segment_comp(s.subrange(i, e))
        }
    }
}

/// `Path::components` on Unix: a root for a leading `/`, a current-directory
/// component for a leading `.` segment, then `..` and the normal segments,
/// without empty and `.` segments.
pub open spec fn components(s: Seq<char>) -> Seq<Comp> {
    if s.len() > 0 && s[0] == '/' {
        seq![Comp::Root] + comps_from(s, 1)
    } else if s == seq!['.'] || starts_with(s, seq!['.', '/']) {
        seq![Comp::Cur] + comps_from(s, 2)
    } else {
        comps_from(s, 0)
    }
}

/// An executable path component.
#[derive(Debug)]
pub enum Component {
    RootDir,
    CurDir,
    ParentDir,
    Normal(Vec<char>),
}

impl Component {
    pub open spec fn view_of(self) -> Comp {
        match self {
            Component::RootDir => Comp::Root,
            Component::CurDir => Comp::Cur,
            Component::ParentDir => Comp::Parent,
            Component::Normal(v) => Comp::Normal(v@),
        }
    }
}

pub open spec fn comps_view(v: Seq<Component>) -> Seq<Comp> {
    v.map_values(|c: Component| c.view_of())
}

proof fn lemma_seg_end(s: Seq<char>, i: int)
    requires
        0 <= i <= s.len(),
    ensures
        i <= seg_end(s, i) <= s.len(),
        seg_end(s, i) < s.len() ==> s[seg_end(s, i)] == '/',
{
    lemma_find_from(s, seq!['/'], i);
    match find_from(s, seq!['/'], i) {
        Some(e) => {
            assert(s.subrange(e, e + 1)[0] == s[e]);
        },
        None => {},
    }
}

fn push_segment(out: &mut Vec<Component>, s: &[char], a: usize, b: usize)
    requires
        a <= b <= s@.len(),
    ensures
        comps_view(final(out)@) == comps_view(old(out)@) + segment_comp(s@.subrange(a as int, b as int)),
{
    let ghost seg = s@.subrange(a as int, b as int);
    let ghost before = out@;
    if b == a {
        assert(comps_view(out@) =~= comps_view(before) + segment_comp(seg));
    } else if b - a == 1 && s[a] == '.' {
        assert(seg =~= seq!['.']);
        assert(comps_view(out@) =~= comps_view(before) + segment_comp(seg));
    } else if b - a == 2 && s[a] == '.' && s[a + 1] == '.' {
        assert(seg =~= seq!['.', '.']);
        out.push(Component::ParentDir);
        assert(comps_view(out@) =~= comps_view(before) + segment_comp(seg));
    } else {
        proof {
            if seg.len() == 1 {
                assert(seg[0] == s@[a as int]);
            }
            if seg.len() == 2 {
                assert(seg[0] == s@[a as int]);
                assert(seg[1] == s@[a + 1]);
            }
        }
        let v = slice_to_vec(s, a, b);
        out.push(Component::Normal(v));
        assert(comps_view(out@) =~= comps_view(before) + segment_comp(seg));
    }
}

/// `Path::components` (exec).
pub fn path_components(s: &[char]) -> (r: Vec<Component>)
    ensures
        comps_view(r@) == components(s@),
{
    let mut out: Vec<Component> = Vec::new();
    let mut i: usize;
    if s.len() > 0 && s[0] == '/' {
        out.push(Component::RootDir);
        i = 1;
    } else if (s.len() == 1 && s[0] == '.') || (s.len() >= 2 && s[0] == '.' && s[1] == '/') {
        proof {
            if s@.len() == 1 {
                assert(s@ =~= seq!['.']);
            } else {
                assert(s@.subrange(0, 2) =~= seq!['.', '/']);
            }
        }
        out.push(Component::CurDir);
        i = 2;
    } else {
        proof {
            if s@ == seq!['.'] {
                assert(s@[0] == '.');
            }
            if starts_with(s@, seq!['.', '/']) {
                assert(s@.subrange(0, 2)[0] == s@[0]);
                assert(s@.subrange(0, 2)[1] == s@[1]);
            }
        }
        i = 0;
    }
    let ghost head = comps_view(out@);
    assert(components(s@) == head + comps_from(s@, i as int));
    if i > s.len() {
        assert(comps_from(s@, i as int) =~= Seq::<Comp>::empty());
        assert(comps_view(out@) =~= components(s@));
        return out;
    }
    loop
        invariant
            i <= s@.len(),
            comps_view(out@) + comps_from(s@, i as int) == components(s@),
        decreases s@.len() + 1 - i,
    {
        proof {
            lemma_seg_end(s@, i as int);
        }
        let e = match find_char_from(s, '/', i) {
            Some(e) => e,
            None => s.len(),
        };
        let ghost before = comps_view(out@);
        push_segment(&mut out, s, i, e);
        if e < s.len() {
            assert(before + comps_from(s@, i as int) =~= comps_view(out@) + comps_from(s@, e + 1));
            i = e + 1;
        } else {
            assert(comps_view(out@) =~= components(s@));
            return out;
        }
    }
}

/// The normal components, joined by `/` (`sanitize_relative_path`).
pub open spec fn normals_joined(cs: Seq<Comp>) -> Seq<char>
    decreases cs.len(),
{
    if cs.len() == 0 {
        Seq::empty()
    } else {
        let rest = normals_joined(cs.drop_last());
        match cs.last() {
            Comp::Normal(n) => if rest.len() == 0 {
                n
            } else {
                rest + seq!['/'] + n
            },
            _ => rest,
        }
    }
}

/// Only the normal components, joined by `/`.
pub fn sanitize_relative_path(path: &str) -> (r: String)
    ensures
        r@ == normals_joined(components(path@)),
{
    let s = chars_of(path);
    let cs = path_components(&s);
    let mut out: Vec<char> = Vec::new();
    let mut i: usize = 0;
    assert(comps_view(cs@).take(0) =~= Seq::<Comp>::empty());
    while i < cs.len()
        invariant
            i <= cs@.len(),
            out@ == normals_joined(comps_view(cs@).take(i as int)),
        decreases cs@.len() - i,
    {
        assert(comps_view(cs@).take(i + 1).drop_last() =~= comps_view(cs@).take(i as int));
        match &cs[i] {
            Component::Normal(n) => {
                if out.len() > 0 {
                    out.push('/');
                }
                extend(&mut out, n);
            },
            _ => {},
        }
        i += 1;
    }
    assert(comps_view(cs@).take(i as int) =~= comps_view(cs@));
    string_from(&out)
}

/// Whether `p` starts with the sequence `q`.
pub open spec fn comps_prefix(p: Seq<Comp>, q: Seq<Comp>) -> bool {
    q.len() <= p.len() && p.take(q.len() as int) == q
}

/// `Path::starts_with`: the components of `base` begin those of `path`.
pub open spec fn path_starts_with(path: Seq<char>, base: Seq<char>) -> bool {
    comps_prefix(components(path), components(base))
}

fn comp_eq(a: &Component, b: &Component) -> (r: bool)
    ensures
        r == (a.view_of() == b.view_of()),
{
    match (a, b) {
        (Component::RootDir, Component::RootDir) => true,
        (Component::CurDir, Component::CurDir) => true,
        (Component::ParentDir, Component::ParentDir) => true,
        (Component::Normal(x), Component::Normal(y)) => {
            let (_, eq) = crate::text::compare_chars(x, y);
            eq
        },
        _ => false,
    }
}

/// Number of leading components that `a` and `b` share (exec).
fn common_prefix(a: &Vec<Component>, b: &Vec<Component>) -> (n: usize)
    ensures
        n <= a@.len(),
        n <= b@.len(),
        comps_view(a@).take(n as int) == comps_view(b@).take(n as int),
        n < a@.len() && n < b@.len() ==> comps_view(a@)[n as int] != comps_view(b@)[n as int],
{
    let mut i: usize = 0;
    while i < a.len() && i < b.len() && comp_eq(&a[i], &b[i])
        invariant
            i <= a@.len(),
            i <= b@.len(),
            comps_view(a@).take(i as int) == comps_view(b@).take(i as int),
        decreases a@.len() - i,
    {
        assert(comps_view(a@).take(i + 1) =~= comps_view(a@).take(i as int).push(comps_view(a@)[i as int]));
        assert(comps_view(b@).take(i + 1) =~= comps_view(b@).take(i as int).push(comps_view(b@)[i as int]));
        i += 1;
    }
    i
}

/// `Path::starts_with` (exec).
pub fn starts_with_path(path: &str, base: &str) -> (r: bool)
    ensures
        r == path_starts_with(path@, base@),
{
    let p = path_components(&chars_of(path));
    let q = path_components(&chars_of(base));
    let n = common_prefix(&p, &q);
    let r = n == q.len();
    proof {
        let pv = comps_view(p@);
        let qv = comps_view(q@);
        if r {
            assert(qv.take(n as int) =~= qv);
        } else if comps_prefix(pv, qv) {
            assert(pv.take(qv.len() as int)[n as int] == qv[n as int]);
        }
    }
    r
}

/// `Path == Path`: the same components.
pub open spec fn same_path(a: Seq<char>, b: Seq<char>) -> bool {
    components(a) == components(b)
}

/// `Path == Path` (exec).
pub fn paths_equal(a: &str, b: &str) -> (r: bool)
    ensures
        r == same_path(a@, b@),
{
    let p = path_components(&chars_of(a));
    let q = path_components(&chars_of(b));
    let n = common_prefix(&p, &q);
    let r = n == p.len() && n == q.len();
    proof {
        let pv = comps_view(p@);
        let qv = comps_view(q@);
        if r {
            assert(pv.take(n as int) =~= pv);
            assert(qv.take(n as int) =~= qv);
        } else if pv =~= qv {
            assert(pv.len() == p@.len());
            assert(qv.len() == q@.len());
            assert(n < p@.len() && n < q@.len());
            assert(pv[n as int] == qv[n as int]);
        }
    }
    r
}

/// The normal components of `path` after those of `base`, joined by `/`,
/// when `base` is a prefix (`strip_prefix` then `sanitize_relative_path`).
pub open spec fn relative_normals(path: Seq<char>, base: Seq<char>) -> Option<Seq<char>> {
    if path_starts_with(path, base) {
        Some(normals_joined(components(path).skip(components(base).len() as int)))
    } else {
        None
    }
}


/// The text of one component.
pub open spec fn comp_text(c: Comp) -> Seq<char> {
    match c {
        Comp::Root => seq!['/'],
        Comp::Cur => seq!['.'],
        Comp::Parent => seq!['.', '.'],
        Comp::Normal(n) => n,
    }
}

/// A path made of components, joined by `/` (after the root without one).
pub open spec fn render(cs: Seq<Comp>) -> Seq<char>
    decreases cs.len(),
{
    if cs.len() == 0 {
        Seq::empty()
    } else if cs.len() == 1 {
        comp_text(cs[0])
    } else {
        let prev = render(cs.drop_last());
        if cs.len() == 2 && cs[0] is Root {
            prev + comp_text(cs.last())
        } else {
            prev + seq!['/'] + comp_text(cs.last())
        }
    }
}

/// `Path::parent`: the path without its last component, when that is a
/// normal, `.` or `..` component (rebuilt from the components).
pub open spec fn parent(s: Seq<char>) -> Option<Seq<char>> {
    let cs = components(s);
    if cs.len() == 0 || cs.last() is Root {
        None
    } else {
        Some(render(cs.drop_last()))
    }
}

fn push_comp_text(out: &mut Vec<char>, c: &Component)
    ensures
        final(out)@ == old(out)@ + comp_text(c.view_of()),
{
    match c {
        Component::RootDir => {
            out.push('/');
            assert(out@ =~= old(out)@ + seq!['/']);
        },
        Component::CurDir => {
            out.push('.');
            assert(out@ =~= old(out)@ + seq!['.']);
        },
        Component::ParentDir => {
            out.push('.');
            out.push('.');
            assert(out@ =~= old(out)@ + seq!['.', '.']);
        },
        Component::Normal(n) => extend(out, n),
    }
}

/// `Path::parent`, as text.
pub fn path_parent(path: &str) -> (r: Option<String>)
    ensures
        match r {
            Some(p) => parent(path@) == Some(p@),
            None => parent(path@) is None,
        },
{
    let cs = path_components(&chars_of(path));
    let n = cs.len();
    if n == 0 {
        return None;
    }
    if let Component::RootDir = &cs[n - 1] {
        return None;
    }
    let ghost v = comps_view(cs@);
    let mut out: Vec<char> = Vec::new();
    let mut i: usize = 0;
    assert(v.drop_last().take(0) =~= Seq::<Comp>::empty());
    while i < n - 1
        invariant
            n == cs@.len(),
            v == comps_view(cs@),
            n >= 1,
            i <= n - 1,
            out@ == render(v.drop_last().take(i as int)),
        decreases n - 1 - i,
    {
        let ghost pre = v.drop_last().take(i as int);
        let ghost cur = v.drop_last().take(i + 1);
        assert(cur.drop_last() =~= pre);
        assert(cur.last() == cs@[i as int].view_of());
        if i == 0 {
            push_comp_text(&mut out, &cs[i]);
            assert(out@ =~= render(cur));
        } else if i == 1 && matches!(&cs[0], Component::RootDir) {
            assert(cur[0] == v[0]);
            push_comp_text(&mut out, &cs[i]);
        } else {
            proof {
                if i == 1 {
                    assert(cur[0] == v[0]);
                }
            }
            out.push('/');
            push_comp_text(&mut out, &cs[i]);
            assert(out@ =~= render(cur));
        }
        i += 1;
    }
    assert(v.drop_last().take(i as int) =~= v.drop_last());
    Some(string_from(&out))
}

/// A text that can stand as one normal component: not empty, not `.` or
/// `..`, without `/`.
pub open spec fn plain_segment(n: Seq<char>) -> bool {
    &&& n.len() > 0
    &&& n != seq!['.']
    &&& n != seq!['.', '.']
    &&& forall|k: int| 0 <= k < n.len() ==> n[k] != '/'
}

/// Every normal component of `cs` is a plain segment.
pub open spec fn plain_normals(cs: Seq<Comp>) -> bool {
    forall|i: int| 0 <= i < cs.len() ==> (#[trigger] cs[i] matches Comp::Normal(n) ==> plain_segment(n))
}

/// The normal components of `cs`, in order.
pub open spec fn normals_only(cs: Seq<Comp>) -> Seq<Comp>
    decreases cs.len(),
{
    if cs.len() == 0 {
        Seq::empty()
    } else {
        let r = normals_only(cs.drop_last());
        if cs.last() is Normal {
            r.push(cs.last())
        } else {
            r
        }
    }
}

/// Every component is a normal one.
pub open spec fn all_normal(cs: Seq<Comp>) -> bool {
    forall|i: int| 0 <= i < cs.len() ==> #[trigger] cs[i] is Normal
}

proof fn lemma_seg_end_first(s: Seq<char>, i: int)
    requires
        0 <= i <= s.len(),
    ensures
        i <= seg_end(s, i) <= s.len(),
        seg_end(s, i) < s.len() ==> s[seg_end(s, i)] == '/',
        forall|k: int| i <= k < seg_end(s, i) ==> s[k] != '/',
{
    lemma_seg_end(s, i);
    lemma_find_from(s, seq!['/'], i);
    assert forall|k: int| i <= k < seg_end(s, i) implies s[k] != '/' by {
        if s[k] == '/' {
            assert(s.subrange(k, k + 1) =~= seq!['/']);
            assert(matches_at(s, k, seq!['/']));
        }
    }
}

proof fn lemma_seg_end_is(s: Seq<char>, i: int, e: int)
    requires
        0 <= i <= e <= s.len(),
        e < s.len() ==> s[e] == '/',
        forall|k: int| i <= k < e ==> s[k] != '/',
    ensures
        seg_end(s, i) == e,
{
    lemma_seg_end_first(s, i);
    let f = seg_end(s, i);
    if f < e {
        assert(s[f] == '/');
    } else if e < f {
        assert(s[e] != '/');
    }
}

proof fn lemma_comps_plain(s: Seq<char>, i: int)
    requires
        0 <= i,
    ensures
        plain_normals(comps_from(s, i)),
    decreases s.len() + 1 - i,
{
    if i <= s.len() {
        lemma_seg_end_first(s, i);
        let e = seg_end(s, i);
        let seg = s.subrange(i, e);
        assert forall|k: int| 0 <= k < seg.len() implies seg[k] != '/' by {
            assert(seg[k] == s[i + k]);
        }
        if e < s.len() {
            lemma_comps_plain(s, e + 1);
            let a = segment_comp(seg);
            let b = comps_from(s, e + 1);
            assert forall|j: int| 0 <= j < (a + b).len() implies (#[trigger] (a + b)[j] matches Comp::Normal(
                n,
            ) ==> plain_segment(n)) by {
                if j >= a.len() {
                    assert((a + b)[j] == b[j - a.len()]);
                }
            }
        }
    }
}

/// Lemma: the normal components of a path are plain segments.
pub proof fn lemma_components_plain(s: Seq<char>)
    ensures
        plain_normals(components(s)),
{
    lemma_comps_plain(s, 0);
    lemma_comps_plain(s, 1);
    lemma_comps_plain(s, 2);
    let cs = components(s);
    if s.len() > 0 && s[0] == '/' {
        let b = comps_from(s, 1);
        assert forall|j: int| 0 <= j < cs.len() implies (#[trigger] cs[j] matches Comp::Normal(n)
            ==> plain_segment(n)) by {
            if j >= 1 {
                assert(cs[j] == b[j - 1]);
            }
        }
    } else if s == seq!['.'] || starts_with(s, seq!['.', '/']) {
        let b = comps_from(s, 2);
        assert forall|j: int| 0 <= j < cs.len() implies (#[trigger] cs[j] matches Comp::Normal(n)
            ==> plain_segment(n)) by {
            if j >= 1 {
                assert(cs[j] == b[j - 1]);
            }
        }
    }
}

proof fn lemma_comps_append(a: Seq<char>, n: Seq<char>, i: int)
    requires
        plain_segment(n),
        0 <= i <= a.len(),
    ensures
        comps_from(a + seq!['/'] + n, i) == comps_from(a, i) + seq![Comp::Normal(n)],
    decreases a.len() - i,
{
    let s = a + seq!['/'] + n;
    assert forall|k: int| 0 <= k < a.len() implies s[k] == a[k] by {}
    assert(s[a.len() as int] == '/');
    lemma_seg_end_first(a, i);
    let e = seg_end(a, i);
    assert(forall|k: int| i <= k < e ==> s[k] != '/');
    if e < a.len() {
        lemma_seg_end_is(s, i, e);
        assert(s.subrange(i, e) =~= a.subrange(i, e));
        lemma_comps_append(a, n, e + 1);
    } else {
        lemma_seg_end_is(s, i, a.len() as int);
        assert(s.subrange(i, a.len() as int) =~= a.subrange(i, a.len() as int));
        let t: int = a.len() as int + 1;
        assert forall|k: int| t <= k < s.len() implies s[k] != '/' by {
            assert(s[k] == n[k - t]);
        }
        lemma_seg_end_is(s, t, s.len() as int);
        assert(s.subrange(t, s.len() as int) =~= n);
        assert(comps_from(s, t) == segment_comp(n));
        assert(segment_comp(n) == seq![Comp::Normal(n)]);
        assert(comps_from(s, i) =~= comps_from(a, i) + seq![Comp::Normal(n)]);
    }
}

pub proof fn lemma_single_component(n: Seq<char>)
    requires
        plain_segment(n),
    ensures
        components(n) == seq![Comp::Normal(n)],
{
    assert(n[0] != '/');
    if starts_with(n, seq!['.', '/']) {
        assert(n.subrange(0, 2)[1] == n[1]);
    }
    lemma_seg_end_is(n, 0, n.len() as int);
    assert(n.subrange(0, n.len() as int) =~= n);
}

pub proof fn lemma_normals_joined(cs: Seq<Comp>)
    requires
        plain_normals(cs),
    ensures
        components(normals_joined(cs)) == normals_only(cs),
        all_normal(normals_only(cs)),
        normals_joined(cs).len() == 0 <==> normals_only(cs).len() == 0,
        normals_joined(cs).len() > 0 ==> {
            let s = normals_joined(cs);
            &&& s[0] != '/'
            &&& s != seq!['.']
            &&& !starts_with(s, seq!['.', '/'])
        },
    decreases cs.len(),
{
    if cs.len() == 0 {
        assert(components(Seq::<char>::empty()) =~= Seq::<Comp>::empty()) by {
            lemma_seg_end_is(Seq::<char>::empty(), 0, 0);
        }
    } else {
        let d = cs.drop_last();
        assert(plain_normals(d)) by {
            assert forall|i: int| 0 <= i < d.len() implies (#[trigger] d[i] matches Comp::Normal(n)
                ==> plain_segment(n)) by {
                assert(d[i] == cs[i]);
            }
        }
        lemma_normals_joined(d);
        let rest = normals_joined(d);
        let r = normals_only(d);
        assert(cs[cs.len() - 1] == cs.last());
        match cs.last() {
            Comp::Normal(n) => {
                assert(plain_segment(n));
                assert forall|i: int| 0 <= i < r.push(cs.last()).len() implies #[trigger] r.push(
                    cs.last(),
                )[i] is Normal by {
                    if i < r.len() {
                        assert(r.push(cs.last())[i] == r[i]);
                    }
                }
                if rest.len() == 0 {
                    lemma_single_component(n);
                    assert(r.push(cs.last()) =~= seq![Comp::Normal(n)]);
                    assert(n[0] != '/');
                    if starts_with(n, seq!['.', '/']) {
                        assert(n.subrange(0, 2)[1] == n[1]);
                    }
                } else {
                    let s = rest + seq!['/'] + n;
                    lemma_comps_append(rest, n, 0);
                    assert(s[0] == rest[0]);
                    if starts_with(s, seq!['.', '/']) {
                        assert(s.subrange(0, 2)[0] == s[0]);
                        assert(s.subrange(0, 2)[1] == s[1]);
                        if rest.len() == 1 {
                            assert(rest =~= seq!['.']);
                        } else {
                            assert(s[1] == rest[1]);
                            assert(rest.subrange(0, 2) =~= seq!['.', '/']);
                        }
                    }
                    assert(components(s) == comps_from(s, 0));
                    assert(components(rest) == comps_from(rest, 0));
                    assert(components(s) =~= r.push(cs.last()));
                }
            },
            _ => {},
        }
    }
}

pub proof fn lemma_plain_skip(cs: Seq<Comp>, k: int)
    requires
        plain_normals(cs),
        0 <= k <= cs.len(),
    ensures
        plain_normals(cs.skip(k)),
{
    assert forall|i: int| 0 <= i < cs.skip(k).len() implies (#[trigger] cs.skip(k)[i] matches Comp::Normal(
        n,
    ) ==> plain_segment(n)) by {
        assert(cs.skip(k)[i] == cs[i + k]);
    }
}

pub proof fn lemma_file_name_plain(s: Seq<char>)
    requires
        file_name(s) is Some,
    ensures
        plain_segment(file_name(s)->0),
{
    let t = strip_tail(s);
    lemma_after_last_sep(t, t.len() as int);
    let a = after_last_sep(t, t.len() as int);
    let n = t.subrange(a, t.len() as int);
    assert forall|k: int| 0 <= k < n.len() implies n[k] != '/' by {
        assert(n[k] == t[a + k]);
    }
}

} // verus!
