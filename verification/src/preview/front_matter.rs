//! The `key: value` header of a Markdown document, kept ordered by key.
use vstd::prelude::*;
use crate::text::{
    chars_of, compare_chars, find_char_from, find_from, lemma_find_from, lemma_seq_less_irreflexive, lemma_seq_less_total, lemma_seq_less_transitive, line_at,
    line_end, lines, matches_at, matches_at_exec, next_line, seq_less, slice_to_vec,
    string_from, trim, trim_range, find_from_exec, find, starts_with,
};

verus! {

/// The value of the first pair with key `k`.
pub open spec fn lookup(p: Seq<(Seq<char>, Seq<char>)>, k: Seq<char>) -> Option<Seq<char>>
    decreases p.len(),
{
    if p.len() == 0 {
        None
    } else if p[0].0 == k {
        Some(p[0].1)
    } else {
        lookup(p.drop_first(), k)
    }
}

/// Keys strictly increasing.
pub open spec fn sorted_keys(p: Seq<(Seq<char>, Seq<char>)>) -> bool {
    forall|i: int, j: int| 0 <= i < j < p.len() ==> seq_less(#[trigger] p[i].0, #[trigger] p[j].0)
}

proof fn lemma_sorted_distinct(p: Seq<(Seq<char>, Seq<char>)>, i: int, j: int)
    requires
        sorted_keys(p),
        0 <= i < p.len(),
        0 <= j < p.len(),
        i != j,
    ensures
        p[i].0 != p[j].0,
{
    if i < j {
        assert(seq_less(p[i].0, p[j].0));
    } else {
        assert(seq_less(p[j].0, p[i].0));
    }
    lemma_seq_less_irreflexive(p[i].0);
}

proof fn lemma_lookup_at(p: Seq<(Seq<char>, Seq<char>)>, k: Seq<char>, i: int)
    requires
        0 <= i < p.len(),
        p[i].0 == k,
        forall|j: int| 0 <= j < i ==> p[j].0 != k,
    ensures
        lookup(p, k) == Some(p[i].1),
    decreases p.len(),
{
    if i > 0 {
        lemma_lookup_at(p.drop_first(), k, i - 1);
    }
}

proof fn lemma_lookup_absent(p: Seq<(Seq<char>, Seq<char>)>, k: Seq<char>)
    requires
        forall|j: int| 0 <= j < p.len() ==> p[j].0 != k,
    ensures
        lookup(p, k) is None,
    decreases p.len(),
{
    if p.len() > 0 {
        lemma_lookup_absent(p.drop_first(), k);
    }
}

/// `lookup` in a sorted list finds the one pair with the key.
proof fn lemma_lookup_some(p: Seq<(Seq<char>, Seq<char>)>, k: Seq<char>, i: int)
    requires
        sorted_keys(p),
        0 <= i < p.len(),
        p[i].0 == k,
    ensures
        lookup(p, k) == Some(p[i].1),
{
    assert forall|j: int| 0 <= j < i implies p[j].0 != k by {
        lemma_sorted_distinct(p, i, j);
    }
    lemma_lookup_at(p, k, i);
}

/// `lookup` in a sorted list: the value of the one pair with that key.
proof fn lemma_lookup_sorted(p: Seq<(Seq<char>, Seq<char>)>, k: Seq<char>)
    requires
        sorted_keys(p),
    ensures
        (exists|i: int| 0 <= i < p.len() && p[i].0 == k) ==> ({
            let i = choose|i: int| 0 <= i < p.len() && p[i].0 == k;
            lookup(p, k) == Some(p[i].1)
        }),
        !(exists|i: int| 0 <= i < p.len() && p[i].0 == k) ==> lookup(p, k) is None,
{
    if exists|i: int| 0 <= i < p.len() && p[i].0 == k {
        let i = choose|i: int| 0 <= i < p.len() && p[i].0 == k;
        assert forall|j: int| 0 <= j < i implies p[j].0 != k by {
            lemma_sorted_distinct(p, i, j);
        }
        lemma_lookup_at(p, k, i);
    } else {
        lemma_lookup_absent(p, k);
    }
}

/// Front matter entries, ordered by key, each key once.
#[derive(Debug)]
pub struct FrontMatter {
    entries: Vec<(String, String)>,
}

impl FrontMatter {
    /// The entries as pairs of texts, in key order.
    pub closed spec fn pairs(self) -> Seq<(Seq<char>, Seq<char>)> {
        self.entries@.map_values(|e: (String, String)| (e.0@, e.1@))
    }

    #[verifier::type_invariant]
    closed spec fn ordered(self) -> bool {
        sorted_keys(self.pairs())
    }

    /// The value stored for a key.
    pub open spec fn value_of(self, k: Seq<char>) -> Option<Seq<char>> {
        lookup(self.pairs(), k)
    }

    /// No entries.
    pub fn new() -> (r: Self)
        ensures
            r.pairs().len() == 0,
            forall|k: Seq<char>| r.value_of(k) is None,
    {
        let r = FrontMatter { entries: Vec::new() };
        assert(r.pairs() =~= Seq::<(Seq<char>, Seq<char>)>::empty());
        r
    }

    /// A copy with the same entries.
    pub fn duplicate(&self) -> (r: Self)
        ensures
            r.pairs() == self.pairs(),
    {
        proof {
            use_type_invariant(self);
        }
        let mut entries: Vec<(String, String)> = Vec::new();
        let mut i: usize = 0;
        while i < self.entries.len()
            invariant
                i <= self.entries@.len(),
                entries@.map_values(|e: (String, String)| (e.0@, e.1@)) =~= self.pairs().take(
                    i as int,
                ),
            decreases self.entries@.len() - i,
        {
            let k = self.entries[i].0.clone();
            let v = self.entries[i].1.clone();
            let ghost before = entries@;
            entries.push((k, v));
            assert(entries@.map_values(|e: (String, String)| (e.0@, e.1@)) =~= before.map_values(
                |e: (String, String)| (e.0@, e.1@),
            ).push((k@, v@)));
            assert(self.pairs().take(i + 1) =~= self.pairs().take(i as int).push(
                self.pairs()[i as int],
            ));
            i += 1;
        }
        assert(self.pairs().take(i as int) =~= self.pairs());
        FrontMatter { entries }
    }

    /// The number of entries.
    pub fn len(&self) -> (r: usize)
        ensures
            r == self.pairs().len(),
    {
        self.entries.len()
    }

    /// The entry at a position in key order.
    pub fn entry(&self, i: usize) -> (r: (&String, &String))
        requires
            i < self.pairs().len(),
        ensures
            (r.0@, r.1@) == self.pairs()[i as int],
    {
        (&self.entries[i].0, &self.entries[i].1)
    }

    /// `BTreeMap::get`: the value for `key`.
    pub fn get(&self, key: &str) -> (r: Option<&String>)
        ensures
            match r {
                Some(v) => self.value_of(key@) == Some(v@),
                None => self.value_of(key@) is None,
            },
    {
        proof {
            use_type_invariant(self);
            lemma_lookup_sorted(self.pairs(), key@);
        }
        let k = chars_of(key);
        let mut i: usize = 0;
        while i < self.entries.len()
            invariant
                i <= self.pairs().len(),
                k@ == key@,
                self.pairs().len() == self.entries@.len(),
                forall|j: int| 0 <= j < i ==> self.pairs()[j].0 != key@,
            decreases self.entries@.len() - i,
        {
            let e = chars_of(self.entries[i].0.as_str());
            let (_, eq) = compare_chars(&e, &k);
            if eq {
                proof {
                    lemma_lookup_at(self.pairs(), key@, i as int);
                }
                return Some(&self.entries[i].1);
            }
            i += 1;
        }
        proof {
            lemma_lookup_absent(self.pairs(), key@);
        }
        None
    }

    /// `BTreeMap::insert`: sets the value of `key`, replacing an old one.
    pub fn insert(&mut self, key: String, value: String)
        ensures
            forall|k: Seq<char>| #[trigger]
                final(self).value_of(k) == if k == key@ {
                    Some(value@)
                } else {
                    old(self).value_of(k)
                },
    {
        proof {
            use_type_invariant(&*self);
        }
        let ghost p = self.pairs();
        let mut entries: Vec<(String, String)> = Vec::new();
        std::mem::swap(&mut entries, &mut self.entries);
        assert(entries@.map_values(|e: (String, String)| (e.0@, e.1@)) == p);
        let k = chars_of(key.as_str());
        let mut i: usize = 0;
        while i < entries.len()
            invariant
                i <= p.len(),
                p == old(self).pairs(),
                p == entries@.map_values(|e: (String, String)| (e.0@, e.1@)),
                k@ == key@,
                sorted_keys(p),
                p.len() == entries@.len(),
                forall|j: int| 0 <= j < i ==> seq_less(#[trigger] p[j].0, key@),
            decreases entries@.len() - i,
        {
            let e = chars_of(entries[i].0.as_str());
            let (less, eq) = compare_chars(&e, &k);
            if eq {
                let ghost q = p.update(i as int, (key@, value@));
                entries.set(i, (key, value));
                assert(entries@.map_values(|e: (String, String)| (e.0@, e.1@)) =~= q);
                proof {
                    assert forall|a: int, b: int| 0 <= a < b < q.len() implies seq_less(
                        #[trigger] q[a].0,
                        #[trigger] q[b].0,
                    ) by {
                        assert(q[a].0 == p[a].0);
                        assert(q[b].0 == p[b].0);
                    }
                    assert forall|k2: Seq<char>| #[trigger]
                        lookup(q, k2) == if k2 == key@ {
                            Some(value@)
                        } else {
                            lookup(p, k2)
                        } by {
                        if k2 == key@ {
                            lemma_lookup_some(q, k2, i as int);
                        } else if exists|j: int| 0 <= j < p.len() && p[j].0 == k2 {
                            let j = choose|j: int| 0 <= j < p.len() && p[j].0 == k2;
                            assert(j != i);
                            assert(q[j] == p[j]);
                            lemma_lookup_some(p, k2, j);
                            lemma_lookup_some(q, k2, j);
                        } else {
                            assert forall|j: int| 0 <= j < p.len() implies p[j].0 != k2 by {}
                            lemma_lookup_absent(p, k2);
                            assert forall|j: int| 0 <= j < q.len() implies q[j].0 != k2 by {
                                if j != i {
                                    assert(q[j] == p[j]);
                                }
                            }
                            lemma_lookup_absent(q, k2);
                        }
                    }
                }
                self.entries = entries;
                assert(self.pairs() == q);
                return;
            }
            if !less {
                let ghost q = p.insert(i as int, (key@, value@));
                proof {
                    lemma_seq_less_total(e@, k@);
                }
                entries.insert(i, (key, value));
                assert(entries@.map_values(|e: (String, String)| (e.0@, e.1@)) =~= q);
                proof {
                    lemma_insert_at(p, i as int, key@, value@);
                }
                self.entries = entries;
                assert(self.pairs() == q);
                return;
            }
            i += 1;
        }
        let ghost q = p.push((key@, value@));
        entries.push((key, value));
        assert(entries@.map_values(|e: (String, String)| (e.0@, e.1@)) =~= q);
        proof {
            assert(p.insert(p.len() as int, (key@, value@)) =~= q);
            lemma_insert_at(p, p.len() as int, key@, value@);
        }
        self.entries = entries;
        assert(self.pairs() == p.insert(p.len() as int, (key@, value@)));
    }
}

proof fn lemma_insert_at(
        p: Seq<(Seq<char>, Seq<char>)>,
        i: int,
        k: Seq<char>,
        v: Seq<char>,
    )
        requires
            sorted_keys(p),
            0 <= i <= p.len(),
            forall|j: int| 0 <= j < i ==> seq_less(#[trigger] p[j].0, k),
            i < p.len() ==> seq_less(k, p[i].0),
        ensures
            sorted_keys(p.insert(i, (k, v))),
            forall|k2: Seq<char>| #[trigger]
                lookup(p.insert(i, (k, v)), k2) == if k2 == k {
                    Some(v)
                } else {
                    lookup(p, k2)
                },
    {
        let q = p.insert(i, (k, v));
        assert forall|a: int, b: int| 0 <= a < b < q.len() implies seq_less(
            #[trigger] q[a].0,
            #[trigger] q[b].0,
        ) by {
            if b < i {
            } else if b == i {
            } else if a < i {
                assert(seq_less(p[a].0, k));
                assert(seq_less(k, p[i].0));
                lemma_seq_less_transitive(p[a].0, k, p[i].0);
                if b - 1 > i {
                    lemma_seq_less_transitive(p[a].0, p[i].0, p[b - 1].0);
                }
            } else if a == i {
                if b - 1 > i {
                    lemma_seq_less_transitive(k, p[i].0, p[b - 1].0);
                }
            } else {
                assert(seq_less(p[a - 1].0, p[b - 1].0));
            }
        }
        assert forall|k2: Seq<char>| #[trigger]
            lookup(q, k2) == if k2 == k {
                Some(v)
            } else {
                lookup(p, k2)
            } by {
            if k2 == k {
                lemma_lookup_some(q, k2, i);
            } else if exists|j: int| 0 <= j < p.len() && p[j].0 == k2 {
                let j = choose|j: int| 0 <= j < p.len() && p[j].0 == k2;
                let jq = if j < i {
                    j
                } else {
                    j + 1
                };
                assert(q[jq] == p[j]);
                lemma_lookup_some(p, k2, j);
                lemma_lookup_some(q, k2, jq);
            } else {
                assert forall|j: int| 0 <= j < p.len() implies p[j].0 != k2 by {}
                lemma_lookup_absent(p, k2);
                assert forall|j: int| 0 <= j < q.len() implies q[j].0 != k2 by {
                    if j < i {
                        assert(q[j] == p[j]);
                    } else if j > i {
                        assert(q[j] == p[j - 1]);
                    }
                }
                lemma_lookup_absent(q, k2);
            }
        }
    }

/// Law: a value written for a key is what a read of that key gives back,
/// and a write leaves every other key as it was.
pub proof fn lemma_read_after_write(
    before: FrontMatter,
    after: FrontMatter,
    key: Seq<char>,
    value: Seq<char>,
    other: Seq<char>,
)
    requires
        forall|k: Seq<char>| #[trigger]
            after.value_of(k) == if k == key {
                Some(value)
            } else {
                before.value_of(k)
            },
        other != key,
    ensures
        after.value_of(key) == Some(value),
        after.value_of(other) == before.value_of(other),
{
    assert(after.value_of(key) == Some(value));
    assert(after.value_of(other) == before.value_of(other));
}


/// The key and value of a header line: around its first `:`, trimmed.
pub open spec fn header_pair(line: Seq<char>) -> Option<(Seq<char>, Seq<char>)> {
    match find(line, seq![':']) {
        None => None,
        Some(c) => Some((trim(line.take(c)), trim(line.skip(c + 1)))),
    }
}

/// The first value present.
pub open spec fn first_of(a: Option<Seq<char>>, b: Option<Seq<char>>) -> Option<Seq<char>> {
    match a {
        Some(v) => Some(v),
        None => b,
    }
}

/// The value that the header lines of `raw` from position `i` on give to
/// key `k`: that of the last line with that key.
pub open spec fn header_value_from(raw: Seq<char>, i: int, k: Seq<char>) -> Option<Seq<char>>
    decreases raw.len() - i,
{
    if i < 0 || i >= raw.len() {
        None
    } else {
        let e = line_end(raw, i);
        let later = if i <= e < raw.len() {
            header_value_from(raw, e + 1, k)
        } else {
            None
        };
        let here = match header_pair(line_at(raw, i)) {
            Some((key, value)) => if key == k {
                Some(value)
            } else {
                None
            },
            None => None,
        };
        first_of(later, here)
    }
}

/// Where the header closes: the first `\n---` after an opening `---\n`.
pub open spec fn header_end(md: Seq<char>) -> Option<int> {
    if starts_with(md, "---\n"@) {
        find_from(md, "\n---"@, 4)
    } else {
        None
    }
}

/// The header lines of a document (empty without a header).
pub open spec fn header_text(md: Seq<char>) -> Seq<char> {
    match header_end(md) {
        Some(e) => md.subrange(4, e),
        None => Seq::empty(),
    }
}

/// The value the front matter of `md` gives to key `k`.
pub open spec fn front_matter_value(md: Seq<char>, k: Seq<char>) -> Option<Seq<char>> {
    header_value_from(header_text(md), 0, k)
}

/// The document without its header, and without the newline after it.
pub open spec fn body_text(md: Seq<char>) -> Seq<char> {
    match header_end(md) {
        None => md,
        Some(e) => {
            let rest = md.skip(e + 4);
            if rest.len() > 0 && rest[0] == '\n' {
                rest.drop_first()
            } else {
                rest
            }
        },
    }
}

/// The `key: value` lines between an opening `---`
/// line and the next line starting `---`, and the rest of the document.
pub fn split_front_matter(markdown: &str) -> (r: (FrontMatter, String))
    ensures
        forall|k: Seq<char>| #[trigger] r.0.value_of(k) == front_matter_value(markdown@, k),
        r.1@ == body_text(markdown@),
{
    let md = chars_of(markdown);
    let open = chars_of("---\n");
    let close = chars_of("\n---");
    let mut fm = FrontMatter::new();
    if !matches_at_exec(&md, 0, &open) {
        return (fm, string_from(&md));
    }
    proof {
        lemma_find_from(md@, close@, 4);
        reveal_strlit("---\n");
    }
    let end = match find_from_exec(&md, &close, 4) {
        None => {
            return (fm, string_from(&md));
        },
        Some(e) => e,
    };
    assert(matches_at(md@, end as int, close@));
    let raw = slice_to_vec(&md, 4, end);
    let mut i: usize = 0;
    while i < raw.len()
        invariant
            i <= raw@.len(),
            raw@ == header_text(markdown@),
            forall|k: Seq<char>| #[trigger]
                first_of(header_value_from(raw@, i as int, k), fm.value_of(k))
                    == header_value_from(raw@, 0, k),
        decreases raw@.len() - i,
    {
        let (a, b, next) = next_line(&raw, i);
        let line = slice_to_vec(&raw, a, b);
        let ghost fm0 = fm;
        let ghost here = |k: Seq<char>|
            match header_pair(line@) {
                Some((key, value)) => if key == k {
                    Some(value)
                } else {
                    None
                },
                None => None,
            };
        assert forall|k: Seq<char>| #[trigger]
            header_value_from(raw@, i as int, k) == first_of(
                header_value_from(raw@, next as int, k),
                here(k),
            ) by {
            crate::text::lemma_line_end(raw@, i as int);
        }
        proof {
            lemma_find_from(line@, seq![':'], 0);
        }
        match find_char_from(&line, ':', 0) {
            None => {},
            Some(c) => {
                assert(matches_at(line@, c as int, seq![':']));
                let (ka, kb) = trim_range(&line, 0, c);
                let (va, vb) = trim_range(&line, c + 1, line.len());
                assert(line@.take(c as int) =~= line@.subrange(0, c as int));
                assert(line@.skip(c + 1) =~= line@.subrange(c + 1, line@.len() as int));
                let key = string_from(&slice_to_vec(&line, ka, kb));
                let value = string_from(&slice_to_vec(&line, va, vb));
                assert(header_pair(line@) == Some((key@, value@)));
                fm.insert(key, value);
            },
        }
        assert forall|k: Seq<char>| #[trigger]
            first_of(header_value_from(raw@, next as int, k), fm.value_of(k))
                == header_value_from(raw@, 0, k) by {
            assert(first_of(header_value_from(raw@, i as int, k), fm0.value_of(k))
                == header_value_from(raw@, 0, k));
        }
        i = next;
    }
    assert forall|k: Seq<char>| #[trigger] fm.value_of(k) == front_matter_value(markdown@, k) by {
        assert(first_of(header_value_from(raw@, i as int, k), fm.value_of(k))
            == header_value_from(raw@, 0, k));
    }
    let n = md.len();
    proof {
        reveal_strlit("\n---");
    }
    assert(end + 4 <= n);
    let rest_start = end + 4;
    let body = if rest_start < md.len() && md[rest_start] == '\n' {
        slice_to_vec(&md, rest_start + 1, md.len())
    } else {
        slice_to_vec(&md, rest_start, md.len())
    };
    proof {
        let rest = md@.skip(end + 4);
        if rest.len() > 0 && rest[0] == '\n' {
            assert(rest[0] == md@[end + 4]);
            assert(rest.drop_first() =~= md@.subrange(end + 5, md@.len() as int));
        } else {
            assert(rest =~= md@.subrange(end + 4, md@.len() as int));
        }
    }
    (fm, string_from(&body))
}

} // verus!
