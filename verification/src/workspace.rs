//! The workspace file tree: which files it shows, in what order, folding
//! folders, and searching file contents.
use vstd::prelude::*;
use crate::model::{EntryView, FileEntry, SearchResult, entries_view, entry_view, lemma_entries_view};
use crate::paths::{extension, extension_chars, paths_equal, same_path};
use crate::settings::{opt_view, strings_view};
use crate::text::{
    ascii_lowercase, chars_of, compare_chars, contains, find_from_exec, lemma_line_end,
    lemma_seq_less_asym, lemma_seq_less_total, lemma_seq_less_transitive, line_at, lines,
    lines_from, lower_seq, next_line, seq_less, slice_to_vec, starts_with, string_from, trim,
    trim_range, trim_start_char, trim_start_char_exec, trim_str,
};

verus! {

/// Hidden names and build or dependency folders.
pub open spec fn skipped(name: Seq<char>) -> bool {
    starts_with(name, seq!['.']) || name == "target"@ || name == "node_modules"@ || name
        == ".git"@
}

/// Whether a folder entry is left out of the tree (`skipped`).
pub fn should_skip(name: &str) -> (r: bool)
    ensures
        r == skipped(name@),
{
    let n = chars_of(name);
    let dot = n.len() > 0 && n[0] == '.';
    proof {
        if dot {
            assert(n@.subrange(0, 1) =~= seq!['.']);
        } else if n@.len() > 0 {
            assert(n@.subrange(0, 1)[0] == n@[0]);
        }
    }
    dot || crate::html::eq_lit(&n, "target") || crate::html::eq_lit(&n, "node_modules")
        || crate::html::eq_lit(&n, ".git")
}

/// The lower-cased extension is one of `supported`.
pub open spec fn supported_file(path: Seq<char>, supported: Seq<Seq<char>>) -> bool {
    match extension(path) {
        Some(e) => supported.contains(lower_seq(e)),
        None => false,
    }
}

/// `is_supported_file`; the set of extensions is a list here.
pub fn is_supported_file(path: &str, supported_extensions: &[String]) -> (r: bool)
    ensures
        r == supported_file(path@, strings_view(supported_extensions@)),
{
    let p = chars_of(path);
    let e = match extension_chars(&p) {
        None => return false,
        Some(e) => ascii_lowercase(&chars_of(e.as_str())),
    };
    let mut i: usize = 0;
    while i < supported_extensions.len()
        invariant
            i <= supported_extensions@.len(),
            extension(path@) is Some,
            e@ == lower_seq(extension(path@)->0),
            forall|k: int| 0 <= k < i ==> supported_extensions@[k]@ != e@,
        decreases supported_extensions@.len() - i,
    {
        let s = chars_of(supported_extensions[i].as_str());
        let (_, eq) = compare_chars(&s, &e);
        if eq {
            assert(strings_view(supported_extensions@)[i as int] == e@);
            return true;
        }
        i += 1;
    }
    proof {
        let v = strings_view(supported_extensions@);
        if v.contains(e@) {
            let k = choose|k: int| 0 <= k < v.len() && v[k] == e@;
            assert(supported_extensions@[k]@ == e@);
        }
    }
    false
}

/// The set of extensions a scan accepts: each configured one without leading
/// dots, lower-cased.
pub open spec fn scan_extensions(exts: Seq<Seq<char>>) -> Seq<Seq<char>> {
    exts.map_values(|e: Seq<char>| lower_seq(trim_start_char(e, '.')))
}

/// The lower-cased form of a name (`str::to_lowercase`, full Unicode case
/// mapping).
pub uninterp spec fn unicode_lowercase(s: Seq<char>) -> Seq<char>;

/// A text in lower case, as `str::to_lowercase` gives it.
#[verifier::external_body]
fn to_lowercase(s: &str) -> (r: String)
    ensures
        r@ == unicode_lowercase(s@),
{
    s.to_lowercase()
}

/// The order of the tree: folders before files, then by lower-cased name.
pub open spec fn entry_le(a: EntryView, b: EntryView) -> bool {
    (a.is_dir && !b.is_dir) || (a.is_dir == b.is_dir && !seq_less(
        unicode_lowercase(b.name),
        unicode_lowercase(a.name),
    ))
}

/// Where a stable insertion puts `e`: before the first entry that comes
/// strictly after it.
pub open spec fn insert_pos(r: Seq<EntryView>, e: EntryView, j: int) -> int
    decreases r.len() - j,
{
    if j < 0 || j >= r.len() {
        r.len() as int
    } else if !entry_le(r[j], e) {
        j
    } else {
        insert_pos(r, e, j + 1)
    }
}

/// The entries in tree order; entries that order equal keep their order
/// (the stable sort of `scan_dir`).
pub open spec fn sorted_entries(s: Seq<EntryView>) -> Seq<EntryView>
    decreases s.len(),
{
    if s.len() == 0 {
        Seq::empty()
    } else {
        let r = sorted_entries(s.drop_last());
        r.insert(insert_pos(r, s.last(), 0), s.last())
    }
}

/// Whether a list is in tree order.
pub open spec fn in_tree_order(r: Seq<EntryView>) -> bool {
    forall|i: int, j: int| 0 <= i < j < r.len() ==> entry_le(#[trigger] r[i], #[trigger] r[j])
}

proof fn lemma_entry_le_total(a: EntryView, b: EntryView)
    ensures
        entry_le(a, b) || entry_le(b, a),
{
    lemma_seq_less_asym(unicode_lowercase(a.name), unicode_lowercase(b.name));
}

proof fn lemma_entry_le_transitive(a: EntryView, b: EntryView, c: EntryView)
    requires
        entry_le(a, b),
        entry_le(b, c),
    ensures
        entry_le(a, c),
{
    let la = unicode_lowercase(a.name);
    let lb = unicode_lowercase(b.name);
    let lc = unicode_lowercase(c.name);
    if a.is_dir == b.is_dir && b.is_dir == c.is_dir {
        if seq_less(lc, la) {
            lemma_seq_less_total(lb, lc);
            lemma_seq_less_total(la, lb);
            if seq_less(lc, lb) {
            } else if lb == lc {
            } else {
                lemma_seq_less_transitive(lc, la, lb);
            }
        }
    }
}

proof fn lemma_insert_pos(r: Seq<EntryView>, e: EntryView, j: int)
    requires
        0 <= j <= r.len(),
        forall|k: int| 0 <= k < j ==> entry_le(#[trigger] r[k], e),
    ensures
        j <= insert_pos(r, e, j) <= r.len(),
        forall|k: int| 0 <= k < insert_pos(r, e, j) ==> entry_le(#[trigger] r[k], e),
        insert_pos(r, e, j) < r.len() ==> !entry_le(r[insert_pos(r, e, j)], e),
    decreases r.len() - j,
{
    if j < r.len() && entry_le(r[j], e) {
        lemma_insert_pos(r, e, j + 1);
    }
}

/// Law: sorting puts the entries in tree order, keeping each of them.
pub proof fn lemma_sorted_entries_in_order(s: Seq<EntryView>)
    ensures
        in_tree_order(sorted_entries(s)),
        sorted_entries(s).len() == s.len(),
        sorted_entries(s).to_multiset() == s.to_multiset(),
    decreases s.len(),
{
    if s.len() > 0 {
        let r = sorted_entries(s.drop_last());
        lemma_sorted_entries_in_order(s.drop_last());
        let e = s.last();
        lemma_insert_pos(r, e, 0);
        let p = insert_pos(r, e, 0);
        let q = r.insert(p, e);
        assert forall|i: int, j: int| 0 <= i < j < q.len() implies entry_le(
            #[trigger] q[i],
            #[trigger] q[j],
        ) by {
            if j < p {
            } else if j == p {
            } else if i < p {
                lemma_entry_le_total(e, r[p]);
                if j - 1 > p {
                    lemma_entry_le_transitive(e, r[p], r[j - 1]);
                }
                lemma_entry_le_transitive(r[i], e, q[j]);
            } else if i == p {
                lemma_entry_le_total(e, r[p]);
                if j - 1 > p {
                    lemma_entry_le_transitive(e, r[p], r[j - 1]);
                }
            } else {
                assert(entry_le(r[i - 1], r[j - 1]));
            }
        }
        vstd::seq_lib::to_multiset_insert(r, p, e);
        assert(s =~= s.drop_last().push(e));
        s.drop_last().to_multiset_ensures();
        assert(s.drop_last().push(e).to_multiset() == s.drop_last().to_multiset().insert(e));
    } else {
        assert(s =~= Seq::<EntryView>::empty());
    }
}

/// `entry_le` on the folder flags and lower-cased names (exec).
fn key_le(a_dir: bool, a_key: &Vec<char>, b_dir: bool, b_key: &Vec<char>) -> (r: bool)
    ensures
        r == ((a_dir && !b_dir) || (a_dir == b_dir && !seq_less(b_key@, a_key@))),
{
    let (less, _) = compare_chars(b_key, a_key);
    (a_dir && !b_dir) || (a_dir == b_dir && !less)
}

proof fn lemma_view_insert(r: Seq<FileEntry>, p: int, e: FileEntry)
    requires
        0 <= p <= r.len(),
    ensures
        entries_view(r.insert(p, e)) == entries_view(r).insert(p, entry_view(e)),
{
    lemma_entries_view(r);
    lemma_entries_view(r.insert(p, e));
    assert(entries_view(r.insert(p, e)) =~= entries_view(r).insert(p, entry_view(e)));
}

/// Stable sort into tree order (`sort_by` in `scan_dir`).
pub fn sort_entries(v: Vec<FileEntry>) -> (r: Vec<FileEntry>)
    ensures
        entries_view(r@) == sorted_entries(entries_view(v@)),
{
    let ghost all = entries_view(v@);
    proof {
        lemma_entries_view(v@);
    }
    let mut src = v;
    let mut out: Vec<FileEntry> = Vec::new();
    let mut keys: Vec<Vec<char>> = Vec::new();
    let mut k: usize = 0;
    let n = src.len();
    assert(all.take(0) =~= Seq::<EntryView>::empty());
    assert(entries_view(out@) =~= Seq::<EntryView>::empty());
    while src.len() > 0
        invariant
            k + src@.len() == n,
            n == all.len(),
            all == entries_view(v@),
            forall|i: int| 0 <= i < src@.len() ==> entry_view(#[trigger] src@[i]) == all[k + i],
            entries_view(out@) == sorted_entries(all.take(k as int)),
            keys@.len() == out@.len(),
            forall|i: int| 0 <= i < out@.len() ==> (#[trigger] keys@[i])@ == unicode_lowercase(out@[i].name@),
        decreases src@.len(),
    {
        let ghost old_src = src@;
        let e = src.remove(0);
        assert(entry_view(e) == all[k as int]);
        assert forall|i: int| 0 <= i < src@.len() implies entry_view(#[trigger] src@[i]) == all[k
            + 1 + i] by {
            assert(src@[i] == old_src[i + 1]);
        }
        let key = chars_of(to_lowercase(e.name.as_str()).as_str());
        let ghost rv = entries_view(out@);
        let ghost ev = entry_view(e);
        proof {
            lemma_entries_view(out@);
        }
        let mut j: usize = 0;
        while j < out.len() && key_le(out[j].is_dir, &keys[j], e.is_dir, &key)
            invariant
                j <= out@.len(),
                rv == entries_view(out@),
                rv.len() == out@.len(),
                ev == entry_view(e),
                key@ == unicode_lowercase(e.name@),
                keys@.len() == out@.len(),
                forall|i: int| 0 <= i < out@.len() ==> (#[trigger] keys@[i])@ == unicode_lowercase(out@[i].name@),
                forall|i: int| 0 <= i < out@.len() ==> #[trigger] rv[i] == entry_view(out@[i]),
                insert_pos(rv, ev, j as int) == insert_pos(rv, ev, 0),
            decreases out@.len() - j,
        {
            j += 1;
        }
        proof {
            if j < out@.len() {
                assert(rv[j as int] == entry_view(out@[j as int]));
            }
            lemma_view_insert(out@, j as int, e);
            assert(all.take(k + 1).drop_last() =~= all.take(k as int));
        }
        let ghost kb = keys@;
        keys.insert(j, key);
        out.insert(j, e);
        assert forall|i: int| 0 <= i < out@.len() implies (#[trigger] keys@[i])@ == unicode_lowercase(out@[i].name@) by {
            if i < j {
                assert(keys@[i] == kb[i]);
            } else if i > j {
                assert(keys@[i] == kb[i - 1]);
            }
        }
        k += 1;
    }
    assert(all.take(k as int) =~= all);
    out
}

/// What the directory reader saw: an entry and, for a readable folder that
/// is not skipped, what it holds (nothing when it could not be read).
#[derive(Debug)]
pub struct DirListing {
    pub name: String,
    pub path: String,
    pub is_dir: bool,
    pub children: Vec<DirListing>,
}

/// The tree `scan_dir` builds from a listing: skipped names are dropped,
/// folders are kept (folded) when something is left in them, files when
/// their extension is supported; then the entries go in tree order.
pub open spec fn listing_tree(ls: Seq<DirListing>, sup: Seq<Seq<char>>) -> Seq<EntryView>
    decreases ls, 2nat,
{
    sorted_entries(collected(ls, sup))
}

pub open spec fn collected(ls: Seq<DirListing>, sup: Seq<Seq<char>>) -> Seq<EntryView>
    decreases ls, 1nat,
{
    if ls.len() == 0 {
        Seq::empty()
    } else {
        collected(ls.drop_last(), sup) + listing_item(ls.last(), sup)
    }
}

pub open spec fn listing_item(l: DirListing, sup: Seq<Seq<char>>) -> Seq<EntryView>
    decreases l, 0nat,
{
    if skipped(l.name@) {
        Seq::empty()
    } else if l.is_dir {
        let ch = listing_tree(l.children@, sup);
        if ch.len() > 0 {
            seq![EntryView { name: l.name@, path: l.path@, is_dir: true, expanded: false, children: ch }]
        } else {
            Seq::empty()
        }
    } else if supported_file(l.path@, sup) {
        seq![
            EntryView {
                name: l.name@,
                path: l.path@,
                is_dir: false,
                expanded: false,
                children: Seq::empty(),
            },
        ]
    } else {
        Seq::empty()
    }
}

/// What the tree may show: no skipped names, everything folded, folders
/// with something in them, files with a supported extension.
pub open spec fn entry_shown(e: EntryView, sup: Seq<Seq<char>>) -> bool
    decreases e, 1nat,
{
    &&& !skipped(e.name)
    &&& !e.expanded
    &&& if e.is_dir {
        e.children.len() > 0 && list_shown(e.children, sup)
    } else {
        supported_file(e.path, sup) && e.children.len() == 0
    }
}

/// `entry_shown` of every entry of a list.
pub open spec fn list_shown(es: Seq<EntryView>, sup: Seq<Seq<char>>) -> bool
    decreases es, 0nat,
{
    if es.len() == 0 {
        true
    } else {
        proof {
            assert(decreases_to!(es => es[es.len() - 1]));
        }
        list_shown(es.drop_last(), sup) && entry_shown(es.last(), sup)
    }
}

proof fn lemma_list_shown(es: Seq<EntryView>, sup: Seq<Seq<char>>)
    ensures
        list_shown(es, sup) <==> forall|i: int| 0 <= i < es.len() ==> #[trigger] entry_shown(es[i], sup),
    decreases es.len(),
{
    if es.len() > 0 {
        lemma_list_shown(es.drop_last(), sup);
        if forall|i: int| 0 <= i < es.len() ==> #[trigger] entry_shown(es[i], sup) {
            assert forall|i: int| 0 <= i < es.drop_last().len() implies #[trigger] entry_shown(
                es.drop_last()[i],
                sup,
            ) by {
                assert(es.drop_last()[i] == es[i]);
            }
            assert(entry_shown(es[es.len() - 1], sup));
        }
        if list_shown(es, sup) {
            assert forall|i: int| 0 <= i < es.len() implies #[trigger] entry_shown(es[i], sup) by {
                if i < es.len() - 1 {
                    assert(es.drop_last()[i] == es[i]);
                }
            }
        }
    }
}

proof fn lemma_sorted_keeps(s: Seq<EntryView>, sup: Seq<Seq<char>>)
    requires
        forall|i: int| 0 <= i < s.len() ==> #[trigger] entry_shown(s[i], sup),
    ensures
        forall|i: int| 0 <= i < sorted_entries(s).len() ==> #[trigger] entry_shown(
            sorted_entries(s)[i],
            sup,
        ),
    decreases s.len(),
{
    if s.len() > 0 {
        let d = s.drop_last();
        assert forall|i: int| 0 <= i < d.len() implies #[trigger] entry_shown(d[i], sup) by {
            assert(d[i] == s[i]);
        }
        lemma_sorted_keeps(d, sup);
        let r = sorted_entries(d);
        lemma_insert_pos(r, s.last(), 0);
        let p = insert_pos(r, s.last(), 0);
        let q = r.insert(p, s.last());
        assert(entry_shown(s[s.len() - 1], sup));
        assert forall|i: int| 0 <= i < q.len() implies #[trigger] entry_shown(q[i], sup) by {
            if i < p {
                assert(q[i] == r[i]);
            } else if i > p {
                assert(q[i] == r[i - 1]);
            }
        }
    }
}

proof fn lemma_tree_shown(ls: Seq<DirListing>, sup: Seq<Seq<char>>)
    ensures
        list_shown(listing_tree(ls, sup), sup),
    decreases ls, 2nat,
{
    lemma_collected_shown(ls, sup);
    lemma_sorted_keeps(collected(ls, sup), sup);
    lemma_list_shown(listing_tree(ls, sup), sup);
}

proof fn lemma_collected_shown(ls: Seq<DirListing>, sup: Seq<Seq<char>>)
    ensures
        forall|i: int|
            0 <= i < collected(ls, sup).len() ==> #[trigger] entry_shown(collected(ls, sup)[i], sup),
    decreases ls, 1nat,
{
    if ls.len() > 0 {
        assert(decreases_to!(ls => ls[ls.len() - 1]));
        lemma_collected_shown(ls.drop_last(), sup);
        lemma_item_shown(ls.last(), sup);
        let a = collected(ls.drop_last(), sup);
        let b = listing_item(ls.last(), sup);
        assert forall|i: int| 0 <= i < (a + b).len() implies #[trigger] entry_shown((a + b)[i], sup) by {
            if i < a.len() {
                assert((a + b)[i] == a[i]);
            } else {
                assert((a + b)[i] == b[i - a.len()]);
            }
        }
    }
}

proof fn lemma_item_shown(l: DirListing, sup: Seq<Seq<char>>)
    ensures
        forall|i: int|
            0 <= i < listing_item(l, sup).len() ==> #[trigger] entry_shown(listing_item(l, sup)[i], sup),
    decreases l, 0nat,
{
    if !skipped(l.name@) {
        if l.is_dir {
            assert(decreases_to!(l => l.children));
            lemma_tree_shown(l.children@, sup);
        }
    }
}

/// Law: the scanned tree shows no hidden, build or dependency folders, only
/// folders that hold something and files with a configured extension, all
/// folded.
pub proof fn lemma_scan_shows_supported(ls: Seq<DirListing>, exts: Seq<Seq<char>>)
    ensures
        list_shown(listing_tree(ls, scan_extensions(exts)), scan_extensions(exts)),
{
    lemma_tree_shown(ls, scan_extensions(exts));
}

/// The tree built from what the directory reader saw.
pub fn build_entries(ls: &Vec<DirListing>, supported: &Vec<String>) -> (r: Vec<FileEntry>)
    ensures
        entries_view(r@) == listing_tree(ls@, strings_view(supported@)),
    decreases ls@, 2nat,
{
    let ghost sup = strings_view(supported@);
    let mut entries: Vec<FileEntry> = Vec::new();
    let mut i: usize = 0;
    assert(ls@.take(0) =~= Seq::<DirListing>::empty());
    assert(entries_view(entries@) =~= Seq::<EntryView>::empty());
    while i < ls.len()
        invariant
            i <= ls@.len(),
            sup == strings_view(supported@),
            entries_view(entries@) == collected(ls@.take(i as int), sup),
        decreases ls@.len() - i,
    {
        let l = &ls[i];
        assert(ls@.take(i + 1).drop_last() =~= ls@.take(i as int));
        let ghost before = entries@;
        if should_skip(l.name.as_str()) {
            proof {
                assert(ls@.take(i + 1).last() == ls@[i as int]);
                assert(listing_item(ls@[i as int], sup) =~= Seq::<EntryView>::empty());
            }
            assert(entries_view(entries@) =~= collected(ls@.take(i + 1), sup));
        } else if l.is_dir {
            proof {
                assert(decreases_to!(ls@ => ls@[i as int]));
            }
            let children = build_entries(&l.children, supported);
            if children.len() > 0 {
                let e = FileEntry {
                    name: l.name.clone(),
                    path: l.path.clone(),
                    is_dir: true,
                    expanded: false,
                    children,
                };
                let ghost ev = entry_view(e);
                entries.push(e);
                proof {
                    assert(entries@.drop_last() =~= before);
                    assert(entries_view(entries@) == entries_view(before).push(ev));
                    assert(ls@.take(i + 1).last() == ls@[i as int]);
                    assert(listing_item(ls@[i as int], sup) =~= seq![ev]);
                    assert(collected(ls@.take(i + 1), sup) == collected(ls@.take(i as int), sup)
                        + listing_item(ls@[i as int], sup));
                    assert(entries_view(before) == collected(ls@.take(i as int), sup));
                    assert(entries_view(before).push(ev) =~= collected(ls@.take(i as int), sup)
                        + seq![ev]);
                }
                assert(entries_view(entries@) =~= collected(ls@.take(i + 1), sup));
            } else {
                proof {
                    lemma_entries_view(children@);
                    assert(ls@.take(i + 1).last() == ls@[i as int]);
                    assert(listing_item(ls@[i as int], sup) =~= Seq::<EntryView>::empty());
                }
                assert(entries_view(entries@) =~= collected(ls@.take(i + 1), sup));
            }
        } else if is_supported_file(l.path.as_str(), supported) {
            let e = FileEntry {
                name: l.name.clone(),
                path: l.path.clone(),
                is_dir: false,
                expanded: false,
                children: Vec::new(),
            };
            assert(entries_view(e.children@) =~= Seq::<EntryView>::empty());
            let ghost ev = entry_view(e);
            entries.push(e);
            proof {
                assert(entries@.drop_last() =~= before);
                assert(entries_view(entries@) == entries_view(before).push(ev));
                assert(ls@.take(i + 1).last() == ls@[i as int]);
                assert(listing_item(ls@[i as int], sup) =~= seq![ev]);
                assert(collected(ls@.take(i + 1), sup) == collected(ls@.take(i as int), sup)
                    + listing_item(ls@[i as int], sup));
                assert(entries_view(before) == collected(ls@.take(i as int), sup));
                assert(entries_view(before).push(ev) =~= collected(ls@.take(i as int), sup)
                    + seq![ev]);
            }
            assert(entries_view(entries@) =~= collected(ls@.take(i + 1), sup));
        } else {
            proof {
                assert(ls@.take(i + 1).last() == ls@[i as int]);
                assert(listing_item(ls@[i as int], sup) =~= Seq::<EntryView>::empty());
            }
            assert(entries_view(entries@) =~= collected(ls@.take(i + 1), sup));
        }
        i += 1;
    }
    assert(ls@.take(i as int) =~= ls@);
    sort_entries(entries)
}

/// `scan_workspace` over what the directory reader saw of the root: the tree
/// of the files whose extension is configured (leading dots and ASCII case
/// ignored).
pub fn scan_workspace(listing: &Vec<DirListing>, supported_extensions: &[String]) -> (r: Vec<
    FileEntry,
>)
    ensures
        entries_view(r@) == listing_tree(
            listing@,
            scan_extensions(strings_view(supported_extensions@)),
        ),
{
    let mut supported: Vec<String> = Vec::new();
    let mut i: usize = 0;
    let ghost all = scan_extensions(strings_view(supported_extensions@));
    while i < supported_extensions.len()
        invariant
            i <= supported_extensions@.len(),
            all == scan_extensions(strings_view(supported_extensions@)),
            all.len() == supported_extensions@.len(),
            supported@.len() == i,
            forall|k: int| 0 <= k < i ==> (#[trigger] supported@[k])@ == all[k],
        decreases supported_extensions@.len() - i,
    {
        let t = trim_start_char_exec(&chars_of(supported_extensions[i].as_str()), '.');
        let l = ascii_lowercase(&t);
        let st = string_from(&l);
        assert(st@ == all[i as int]);
        supported.push(st);
        i += 1;
    }
    assert(strings_view(supported@) =~= all);
    build_entries(listing, &supported)
}

/// `toggle_entry` from the `i`-th entry on: the first entry, depth first,
/// whose path equals `target` gets its folded state flipped; `None` when no
/// entry matches.
pub open spec fn toggled_from(es: Seq<EntryView>, target: Seq<char>, i: int) -> Option<
    Seq<EntryView>,
>
    decreases es, es.len() - i,
{
    if i < 0 || i >= es.len() {
        None
    } else {
        let e = es[i];
        if same_path(e.path, target) {
            Some(es.update(i, EntryView { expanded: !e.expanded, ..e }))
        } else {
            proof {
                assert(decreases_to!(es => es[i]));
            }
            match toggled_from(e.children, target, 0) {
                Some(ch) => Some(es.update(i, EntryView { children: ch, ..e })),
                None => toggled_from(es, target, i + 1),
            }
        }
    }
}

/// The tree with the first entry of the target path toggled, if there is one.
pub open spec fn toggled(es: Seq<EntryView>, target: Seq<char>) -> Option<Seq<EntryView>> {
    toggled_from(es, target, 0)
}

proof fn lemma_view_update(v: Seq<FileEntry>, i: int, e: FileEntry)
    requires
        0 <= i < v.len(),
    ensures
        entries_view(v.update(i, e)) == entries_view(v).update(i, entry_view(e)),
{
    lemma_entries_view(v);
    lemma_entries_view(v.update(i, e));
    assert(entries_view(v.update(i, e)) =~= entries_view(v).update(i, entry_view(e)));
}

proof fn lemma_toggled_frame(es: Seq<EntryView>, t: Seq<char>, i: int)
    requires
        toggled_from(es, t, i) is Some,
    ensures
        toggled_from(es, t, i)->0.len() == es.len(),
        forall|k: int| 0 <= k < i ==> #[trigger] toggled_from(es, t, i)->0[k] == es[k],
    decreases es, es.len() - i,
{
    let e = es[i];
    if !same_path(e.path, t) && toggled_from(e.children, t, 0) is None {
        lemma_toggled_frame(es, t, i + 1);
    }
}

proof fn lemma_toggled_from_twice(es: Seq<EntryView>, t: Seq<char>, i: int)
    requires
        toggled_from(es, t, i) is Some,
    ensures
        toggled_from(toggled_from(es, t, i)->0, t, i) == Some(es),
    decreases es, es.len() - i,
{
    let e = es[i];
    let n = toggled_from(es, t, i)->0;
    if same_path(e.path, t) {
        assert(n.update(i, EntryView { expanded: !n[i].expanded, ..n[i] }) =~= es);
    } else {
        assert(decreases_to!(es => es[i]));
        match toggled_from(e.children, t, 0) {
            Some(ch) => {
                lemma_toggled_from_twice(e.children, t, 0);
                assert(n[i].children == ch);
                assert(n.update(i, EntryView { children: e.children, ..n[i] }) =~= es);
            },
            None => {
                lemma_toggled_frame(es, t, i + 1);
                lemma_toggled_from_twice(es, t, i + 1);
                assert(n[i] == e);
            },
        }
    }
}

/// Whether an entry or any entry below it has the path `target`.
pub open spec fn entry_has_path(e: EntryView, target: Seq<char>) -> bool
    decreases e, 1nat,
{
    same_path(e.path, target) || list_has_path(e.children, target)
}

/// Whether any entry of a list, at any depth, has the path `target`.
pub open spec fn list_has_path(es: Seq<EntryView>, target: Seq<char>) -> bool
    decreases es, 0nat,
{
    if es.len() == 0 {
        false
    } else {
        proof {
            assert(decreases_to!(es => es[es.len() - 1]));
        }
        list_has_path(es.drop_last(), target) || entry_has_path(es.last(), target)
    }
}

proof fn lemma_list_has_path(es: Seq<EntryView>, t: Seq<char>)
    ensures
        list_has_path(es, t) <==> exists|k: int| 0 <= k < es.len() && #[trigger] entry_has_path(es[k], t),
    decreases es.len(),
{
    if es.len() > 0 {
        let init = es.drop_last();
        lemma_list_has_path(init, t);
        if entry_has_path(es.last(), t) {
            assert(entry_has_path(es[es.len() - 1], t));
        }
        if list_has_path(init, t) {
            let k = choose|k: int| 0 <= k < init.len() && #[trigger] entry_has_path(init[k], t);
            assert(es[k] == init[k]);
        }
        if exists|k: int| 0 <= k < es.len() && #[trigger] entry_has_path(es[k], t) {
            let k = choose|k: int| 0 <= k < es.len() && #[trigger] entry_has_path(es[k], t);
            if k < es.len() - 1 {
                assert(es[k] == init[k]);
            }
        }
    }
}

proof fn lemma_toggled_from_finds(es: Seq<EntryView>, t: Seq<char>, i: int)
    requires
        0 <= i,
    ensures
        toggled_from(es, t, i) is Some <==> exists|k: int|
            i <= k < es.len() && #[trigger] entry_has_path(es[k], t),
    decreases es, es.len() - i,
{
    if i < es.len() {
        let e = es[i];
        if !same_path(e.path, t) {
            assert(decreases_to!(es => es[i]));
            lemma_toggled_from_finds(e.children, t, 0);
            lemma_list_has_path(e.children, t);
            if toggled_from(e.children, t, 0) is None {
                lemma_toggled_from_finds(es, t, i + 1);
                assert(!entry_has_path(es[i], t));
                if exists|k: int| i <= k < es.len() && #[trigger] entry_has_path(es[k], t) {
                    let k = choose|k: int| i <= k < es.len() && #[trigger] entry_has_path(es[k], t);
                    assert(k != i);
                }
            } else {
                assert(entry_has_path(es[i], t));
            }
        } else {
            assert(entry_has_path(es[i], t));
        }
    }
}

/// Law: toggling finds an entry exactly when some entry of the tree, at any
/// depth, has the target path.
pub proof fn lemma_toggle_finds(es: Seq<EntryView>, target: Seq<char>)
    ensures
        toggled(es, target) is Some <==> list_has_path(es, target),
{
    lemma_toggled_from_finds(es, target, 0);
    lemma_list_has_path(es, target);
}

/// Law: toggling the same path twice gives the tree back, and toggling
/// keeps the number of top-level entries.
pub proof fn lemma_toggle_twice(es: Seq<EntryView>, target: Seq<char>)
    requires
        toggled(es, target) is Some,
    ensures
        toggled(toggled(es, target)->0, target) == Some(es),
        toggled(es, target)->0.len() == es.len(),
{
    lemma_toggled_from_twice(es, target, 0);
    lemma_toggled_frame(es, target, 0);
}

/// Flips the folded state of the first entry, depth first,
/// whose path is `target`; whether one was found.
pub fn toggle_entry(entries: &mut Vec<FileEntry>, target: &str) -> (found: bool)
    ensures
        match toggled(entries_view(old(entries)@), target@) {
            Some(n) => found && entries_view(final(entries)@) == n,
            None => !found && entries_view(final(entries)@) == entries_view(old(entries)@),
        },
    decreases entries_view(old(entries)@),
{
    let ghost ov = entries_view(entries@);
    proof {
        lemma_entries_view(entries@);
    }
    let mut i: usize = 0;
    while i < entries.len()
        invariant
            i <= entries@.len(),
            ov == entries_view(old(entries)@),
            ov == entries_view(entries@),
            ov.len() == entries@.len(),
            forall|k: int| 0 <= k < entries@.len() ==> #[trigger] ov[k] == entry_view(entries@[k]),
            toggled_from(ov, target@, i as int) == toggled_from(ov, target@, 0),
        decreases entries@.len() - i,
    {
        assert(ov[i as int] == entry_view(entries@[i as int]));
        if paths_equal(entries[i].path.as_str(), target) {
            let ghost before = entries@;
            let e = &mut entries[i];
            e.expanded = !e.expanded;
            proof {
                lemma_view_update(before, i as int, entries@[i as int]);
                assert(entries@ == before.update(i as int, entries@[i as int]));
                assert(entry_view(entries@[i as int]) == EntryView { expanded: !ov[i as int].expanded, ..ov[i as int] });
            }
            return true;
        }
        let ghost before = entries@;
        proof {
            assert(decreases_to!(ov => ov[i as int]));
            assert(decreases_to!(ov[i as int] => ov[i as int].children));
        }
        let e = &mut entries[i];
        let hit = toggle_entry(&mut e.children, target);
        proof {
            lemma_view_update(before, i as int, entries@[i as int]);
            assert(entries@ == before.update(i as int, entries@[i as int]));
        }
        if hit {
            return true;
        }
        proof {
            assert(entry_view(entries@[i as int]) == ov[i as int]);
            assert(entries_view(entries@) =~= ov);
            lemma_entries_view(entries@);
        }
        i += 1;
    }
    false
}

/// A file to search and what reading it gave: its text, or `None` when it
/// could not be read as text (such files are passed over).
#[derive(Debug)]
pub struct SearchSource {
    pub path: String,
    pub content: Option<String>,
}

/// The value of a search source.
pub open spec fn source_view(s: SearchSource) -> (Seq<char>, Option<Seq<char>>) {
    (s.path@, opt_view(s.content))
}

pub open spec fn sources_view(v: Seq<SearchSource>) -> Seq<(Seq<char>, Option<Seq<char>>)> {
    v.map_values(|s: SearchSource| source_view(s))
}

/// The value of a search hit: path, line number (from 1), trimmed line.
pub open spec fn result_view(r: SearchResult) -> (Seq<char>, int, Seq<char>) {
    (r.path@, r.line as int, r.preview@)
}

pub open spec fn results_view(v: Seq<SearchResult>) -> Seq<(Seq<char>, int, Seq<char>)> {
    v.map_values(|r: SearchResult| result_view(r))
}

/// What a query looks for: the query without surrounding whitespace,
/// ASCII-lower-cased.
pub open spec fn search_needle(query: Seq<char>) -> Seq<char> {
    lower_seq(trim(query))
}

/// The hits among lines `ls`, the first of which has number `n`: each line
/// whose ASCII-lower-cased text contains `needle`.
pub open spec fn line_hits(path: Seq<char>, ls: Seq<Seq<char>>, needle: Seq<char>, n: int) -> Seq<
    (Seq<char>, int, Seq<char>),
>
    decreases ls.len(),
{
    if ls.len() == 0 {
        Seq::empty()
    } else {
        let rest = line_hits(path, ls.drop_first(), needle, n + 1);
        if contains(lower_seq(ls[0]), needle) {
            seq![(path, n, trim(ls[0]))] + rest
        } else {
            rest
        }
    }
}

/// The hits in one file (none when it could not be read).
pub open spec fn file_hits(f: (Seq<char>, Option<Seq<char>>), needle: Seq<char>) -> Seq<
    (Seq<char>, int, Seq<char>),
> {
    match f.1 {
        Some(text) => line_hits(f.0, lines(text), needle, 1),
        None => Seq::empty(),
    }
}

/// The hits in all files, in order.
pub open spec fn all_hits(fs: Seq<(Seq<char>, Option<Seq<char>>)>, needle: Seq<char>) -> Seq<
    (Seq<char>, int, Seq<char>),
>
    decreases fs.len(),
{
    if fs.len() == 0 {
        Seq::empty()
    } else {
        all_hits(fs.drop_last(), needle) + file_hits(fs.last(), needle)
    }
}

/// The first `limit` elements of `s` (all of them when there are fewer).
pub open spec fn capped<A>(s: Seq<A>, limit: int) -> Seq<A> {
    if s.len() <= limit {
        s
    } else {
        s.take(limit)
    }
}

/// The first `limit` hits of the needle over the files in
/// order; nothing for a blank query.
pub open spec fn search_results(
    fs: Seq<(Seq<char>, Option<Seq<char>>)>,
    query: Seq<char>,
    limit: int,
) -> Seq<(Seq<char>, int, Seq<char>)> {
    let needle = search_needle(query);
    if needle.len() == 0 {
        Seq::empty()
    } else {
        capped(all_hits(fs, needle), limit)
    }
}

/// Whether `h` is the hit of line `k` (counted from 0 among all the lines
/// of the text, blank ones included) of the file `f`: same path, number
/// `k + 1`, the trimmed line, and that line contains the needle ignoring
/// ASCII case.
pub open spec fn hit_of_line(
    h: (Seq<char>, int, Seq<char>),
    f: (Seq<char>, Option<Seq<char>>),
    needle: Seq<char>,
    k: int,
) -> bool {
    &&& f.1 is Some
    &&& 0 <= k < lines(f.1->0).len()
    &&& h.0 == f.0
    &&& h.1 == k + 1
    &&& h.2 == trim(lines(f.1->0)[k])
    &&& contains(lower_seq(lines(f.1->0)[k]), needle)
}

proof fn lemma_line_hits_sound(path: Seq<char>, ls: Seq<Seq<char>>, needle: Seq<char>, n: int)
    ensures
        forall|j: int|
            0 <= j < line_hits(path, ls, needle, n).len() ==> exists|k: int|
                0 <= k < ls.len() && #[trigger] line_hits(path, ls, needle, n)[j] == (
                    path,
                    n + k,
                    trim(ls[k]),
                ) && contains(lower_seq(ls[k]), needle),
    decreases ls.len(),
{
    if ls.len() > 0 {
        let tl = ls.drop_first();
        lemma_line_hits_sound(path, tl, needle, n + 1);
        let rest = line_hits(path, tl, needle, n + 1);
        let all = line_hits(path, ls, needle, n);
        assert forall|j: int| 0 <= j < all.len() implies exists|k: int|
            0 <= k < ls.len() && #[trigger] all[j] == (path, n + k, trim(ls[k])) && contains(
                lower_seq(ls[k]),
                needle,
            ) by {
            let hit = contains(lower_seq(ls[0]), needle);
            let off: int = if hit { 1 } else { 0 };
            if hit && j == 0 {
                assert(all[0] == (path, n + 0, trim(ls[0])));
            } else {
                assert(all[j] == rest[j - off]);
                let k2 = choose|k2: int|
                    0 <= k2 < tl.len() && #[trigger] rest[j - off] == (path, n + 1 + k2, trim(tl[k2]))
                        && contains(lower_seq(tl[k2]), needle);
                assert(tl[k2] == ls[k2 + 1]);
                assert(all[j] == (path, n + (k2 + 1), trim(ls[k2 + 1])));
            }
        }
    }
}

/// Whether `h` is the hit of some line of some file of `fs`.
pub open spec fn hit_of_files(
    h: (Seq<char>, int, Seq<char>),
    fs: Seq<(Seq<char>, Option<Seq<char>>)>,
    needle: Seq<char>,
) -> bool {
    exists|i: int, k: int| 0 <= i < fs.len() && #[trigger] hit_of_line(h, fs[i], needle, k)
}

proof fn lemma_all_hits_sound(fs: Seq<(Seq<char>, Option<Seq<char>>)>, needle: Seq<char>)
    ensures
        forall|j: int|
            0 <= j < all_hits(fs, needle).len() ==> hit_of_files(
                #[trigger] all_hits(fs, needle)[j],
                fs,
                needle,
            ),
    decreases fs.len(),
{
    if fs.len() > 0 {
        let init = fs.drop_last();
        let f = fs.last();
        lemma_all_hits_sound(init, needle);
        let a = all_hits(init, needle);
        let b = file_hits(f, needle);
        let all = all_hits(fs, needle);
        assert(all == a + b);
        match f.1 {
            Some(text) => lemma_line_hits_sound(f.0, lines(text), needle, 1),
            None => {},
        }
        assert forall|j: int| 0 <= j < all.len() implies hit_of_files(#[trigger] all[j], fs, needle) by {
            if j < a.len() {
                assert(all[j] == a[j]);
                assert(hit_of_files(a[j], init, needle));
                let (i, k) = choose|i: int, k: int| 0 <= i < init.len() && #[trigger] hit_of_line(a[j], init[i], needle, k);
                assert(init[i] == fs[i]);
                assert(hit_of_line(all[j], fs[i], needle, k));
            } else {
                assert(all[j] == b[j - a.len()]);
                let text = f.1->0;
                let ls = lines(text);
                let k = choose|k: int|
                    0 <= k < ls.len() && #[trigger] line_hits(f.0, ls, needle, 1)[j - a.len()] == (
                        f.0,
                        1 + k,
                        trim(ls[k]),
                    ) && contains(lower_seq(ls[k]), needle);
                assert(fs[fs.len() - 1] == f);
                assert(hit_of_line(all[j], fs[fs.len() - 1], needle, k));
            }
        }
    }
}

/// Law: every hit of a workspace search is a real line of a file that was
/// read: it carries the file's path, the number of that line counted from
/// one over all the lines of the text (blank lines included), the line
/// trimmed, and that line contains the trimmed query ignoring ASCII case.
pub proof fn lemma_search_hits_are_lines(
    fs: Seq<(Seq<char>, Option<Seq<char>>)>,
    query: Seq<char>,
    limit: int,
)
    requires
        0 <= limit,
    ensures
        forall|j: int|
            0 <= j < search_results(fs, query, limit).len() ==> hit_of_files(
                #[trigger] search_results(fs, query, limit)[j],
                fs,
                lower_seq(trim(query)),
            ),
{
    let needle = search_needle(query);
    let r = search_results(fs, query, limit);
    if needle.len() > 0 {
        lemma_all_hits_sound(fs, needle);
        let all = all_hits(fs, needle);
        assert forall|j: int| 0 <= j < r.len() implies hit_of_files(#[trigger] r[j], fs, lower_seq(trim(query))) by {
            if all.len() > limit {
                assert(r == all.take(limit));
            }
            assert(r[j] == all[j]);
        }
    }
}

proof fn lemma_line_hits_complete(path: Seq<char>, ls: Seq<Seq<char>>, needle: Seq<char>, n: int)
    ensures
        forall|k: int|
            0 <= k < ls.len() && contains(lower_seq(#[trigger] ls[k]), needle) ==> line_hits(
                path,
                ls,
                needle,
                n,
            ).contains((path, n + k, trim(ls[k]))),
    decreases ls.len(),
{
    if ls.len() > 0 {
        let tl = ls.drop_first();
        lemma_line_hits_complete(path, tl, needle, n + 1);
        let rest = line_hits(path, tl, needle, n + 1);
        let all = line_hits(path, ls, needle, n);
        assert forall|k: int| 0 <= k < ls.len() && contains(lower_seq(#[trigger] ls[k]), needle) implies all.contains(
            (path, n + k, trim(ls[k])),
        ) by {
            if k == 0 {
                assert(all[0] == (path, n + 0, trim(ls[0])));
            } else {
                assert(tl[k - 1] == ls[k]);
                assert(rest.contains((path, n + 1 + (k - 1), trim(tl[k - 1]))));
                let m = choose|m: int| 0 <= m < rest.len() && rest[m] == (path, n + 1 + (k - 1), trim(tl[k - 1]));
                let off: int = if contains(lower_seq(ls[0]), needle) { 1 } else { 0 };
                assert(all[m + off] == rest[m]);
            }
        }
    }
}

proof fn lemma_all_hits_complete(fs: Seq<(Seq<char>, Option<Seq<char>>)>, needle: Seq<char>)
    ensures
        forall|i: int, k: int|
            0 <= i < fs.len() && fs[i].1 is Some && 0 <= k < lines(fs[i].1->0).len() && contains(
                lower_seq(#[trigger] lines(fs[i].1->0)[k]),
                needle,
            ) ==> all_hits(fs, needle).contains((fs[i].0, k + 1, trim(lines(fs[i].1->0)[k]))),
    decreases fs.len(),
{
    if fs.len() > 0 {
        let init = fs.drop_last();
        let f = fs.last();
        lemma_all_hits_complete(init, needle);
        let a = all_hits(init, needle);
        let b = file_hits(f, needle);
        let all = all_hits(fs, needle);
        assert(all == a + b);
        match f.1 {
            Some(text) => lemma_line_hits_complete(f.0, lines(text), needle, 1),
            None => {},
        }
        assert forall|i: int, k: int|
            0 <= i < fs.len() && fs[i].1 is Some && 0 <= k < lines(fs[i].1->0).len() && contains(
                lower_seq(#[trigger] lines(fs[i].1->0)[k]),
                needle,
            ) implies all.contains((fs[i].0, k + 1, trim(lines(fs[i].1->0)[k]))) by {
            let h = (fs[i].0, k + 1, trim(lines(fs[i].1->0)[k]));
            if i < fs.len() - 1 {
                assert(init[i] == fs[i]);
                assert(a.contains(h));
                let m = choose|m: int| 0 <= m < a.len() && a[m] == h;
                assert(all[m] == a[m]);
            } else {
                assert(fs[i] == f);
                let ls = lines(f.1->0);
                assert(ls[k] == lines(fs[i].1->0)[k]);
                assert(b.contains((f.0, 1 + k, trim(ls[k]))));
                let m = choose|m: int| 0 <= m < b.len() && b[m] == h;
                assert(all[a.len() + m] == b[m]);
            }
        }
    }
}

/// Law: a workspace search misses no line: when fewer hits than the limit
/// came back, every line of every file that was read whose ASCII-lower-cased
/// text contains the trimmed, lower-cased query is among the hits, with its
/// file's path, its number counted from one over all the lines, and its
/// trimmed text.
pub proof fn lemma_search_misses_no_line(
    fs: Seq<(Seq<char>, Option<Seq<char>>)>,
    query: Seq<char>,
    limit: int,
)
    requires
        0 <= limit,
        lower_seq(trim(query)).len() > 0,
        search_results(fs, query, limit).len() < limit,
    ensures
        forall|i: int, k: int|
            0 <= i < fs.len() && fs[i].1 is Some && 0 <= k < lines(fs[i].1->0).len() && contains(
                lower_seq(#[trigger] lines(fs[i].1->0)[k]),
                lower_seq(trim(query)),
            ) ==> search_results(fs, query, limit).contains(
                (fs[i].0, k + 1, trim(lines(fs[i].1->0)[k])),
            ),
{
    let needle = search_needle(query);
    lemma_all_hits_complete(fs, needle);
    let all = all_hits(fs, needle);
    if all.len() > limit {
        assert(search_results(fs, query, limit) == all.take(limit));
    }
    assert(search_results(fs, query, limit) == all);
}

proof fn lemma_all_hits_split(fs: Seq<(Seq<char>, Option<Seq<char>>)>, needle: Seq<char>, k: int)
    requires
        0 <= k <= fs.len(),
    ensures
        all_hits(fs, needle) == all_hits(fs.take(k), needle) + all_hits(fs.skip(k), needle),
    decreases fs.len(),
{
    if k == fs.len() {
        assert(fs.take(k) =~= fs);
        assert(fs.skip(k) =~= Seq::<(Seq<char>, Option<Seq<char>>)>::empty());
        assert(all_hits(fs, needle) + Seq::empty() =~= all_hits(fs, needle));
    } else {
        let d = fs.drop_last();
        lemma_all_hits_split(d, needle, k);
        assert(d.take(k) =~= fs.take(k));
        assert(fs.skip(k).drop_last() =~= d.skip(k));
        assert(fs.skip(k).last() == fs.last());
        assert(all_hits(fs, needle) =~= all_hits(fs.take(k), needle) + all_hits(fs.skip(k), needle));
    }
}

/// The needle of a query (exec).
fn needle_of(query: &str) -> (r: Vec<char>)
    ensures
        r@ == search_needle(query@),
{
    let q = chars_of(query);
    let t = trim_str(&q);
    ascii_lowercase(&t)
}

/// Appends the hits of one file's text to `results`, stopping once there
/// are `limit` of them.
fn search_text(
    path: &String,
    content: &str,
    needle: &Vec<char>,
    limit: usize,
    results: &mut Vec<SearchResult>,
)
    requires
        old(results)@.len() < limit,
    ensures
        results_view(final(results)@) == results_view(old(results)@) + capped(
            line_hits(path@, lines(content@), needle@, 1),
            limit - old(results)@.len(),
        ),
{
    let s = chars_of(content);
    let ghost h = line_hits(path@, lines(s@), needle@, 1);
    let ghost start = results_view(results@);
    let ghost room = limit - results@.len();
    let ghost mut done: Seq<(Seq<char>, int, Seq<char>)> = Seq::empty();
    let mut i: usize = 0;
    let mut n: usize = 1;
    assert(h =~= done + line_hits(path@, lines_from(s@, 0), needle@, 1));
    while i < s.len()
        invariant
            i <= s@.len(),
            1 <= n <= i + 1,
            s@ == content@,
            h == line_hits(path@, lines(s@), needle@, 1),
            h == done + line_hits(path@, lines_from(s@, i as int), needle@, n as int),
            start == results_view(old(results)@),
            room == limit - old(results)@.len(),
            results_view(results@) == start + done,
            results@.len() == old(results)@.len() + done.len(),
            results@.len() < limit,
        decreases s@.len() - i,
    {
        let (a, b, next) = next_line(s.as_slice(), i);
        let ghost line = line_at(s@, i as int);
        let ghost rest = line_hits(path@, lines_from(s@, next as int), needle@, n + 1);
        proof {
            lemma_line_end(s@, i as int);
            let ls = lines_from(s@, i as int);
            if next < s@.len() {
                assert(ls =~= seq![line] + lines_from(s@, next as int));
            } else {
                assert(lines_from(s@, next as int) =~= Seq::<Seq<char>>::empty());
                assert(ls =~= seq![line] + lines_from(s@, next as int));
            }
            assert(ls[0] == line);
            assert(ls.drop_first() =~= lines_from(s@, next as int));
        }
        let lower = ascii_lowercase(&slice_to_vec(s.as_slice(), a, b));
        if find_from_exec(&lower, needle, 0).is_some() {
            let (ta, tb) = trim_range(s.as_slice(), a, b);
            let preview = string_from(&slice_to_vec(s.as_slice(), ta, tb));
            let item = SearchResult { path: path.clone(), line: n, preview };
            let ghost hit = (path@, n as int, trim(line));
            assert(result_view(item) == hit);
            let ghost before = results@;
            results.push(item);
            proof {
                assert(results_view(results@) =~= results_view(before).push(hit));
                done = done.push(hit);
                assert(h =~= done + rest);
            }
            if results.len() >= limit {
                proof {
                    assert(done.len() == room);
                    assert(h.take(room) =~= done);
                }
                return;
            }
        } else {
            assert(h =~= done + rest);
        }
        if next < s.len() {
            n = n + 1;
        } else {
            proof {
                assert(lines_from(s@, next as int) =~= Seq::<Seq<char>>::empty());
                assert(line_hits(path@, lines_from(s@, next as int), needle@, n as int) =~= rest);
            }
        }
        i = next;
    }
    proof {
        assert(lines_from(s@, i as int) =~= Seq::<Seq<char>>::empty());
        assert(h =~= done);
    }
}

/// `global_search` over what was read of each file: the first `limit`
/// lines, file by file, that contain the trimmed, ASCII-lower-cased query.
pub fn global_search(files: &[SearchSource], query: &str, limit: usize) -> (r: Vec<SearchResult>)
    ensures
        results_view(r@) == search_results(sources_view(files@), query@, limit as int),
{
    let needle = needle_of(query);
    let ghost fs = sources_view(files@);
    let mut results: Vec<SearchResult> = Vec::new();
    if needle.len() == 0 {
        assert(results_view(results@) =~= Seq::<(Seq<char>, int, Seq<char>)>::empty());
        return results;
    }
    let mut fi: usize = 0;
    assert(fs.take(0) =~= Seq::<(Seq<char>, Option<Seq<char>>)>::empty());
    assert(results_view(results@) =~= capped(all_hits(fs.take(0), needle@), limit as int));
    while fi < files.len()
        invariant
            fi <= files@.len(),
            fs == sources_view(files@),
            needle@ == search_needle(query@),
            needle@.len() > 0,
            results_view(results@) == capped(all_hits(fs.take(fi as int), needle@), limit as int),
            results@.len() <= limit,
        decreases files@.len() - fi,
    {
        if results.len() >= limit {
            proof {
                let a = all_hits(fs.take(fi as int), needle@);
                lemma_all_hits_split(fs, needle@, fi as int);
                assert(all_hits(fs, needle@).take(limit as int) =~= a.take(limit as int));
            }
            return results;
        }
        let ghost a = all_hits(fs.take(fi as int), needle@);
        proof {
            assert(fs.take(fi + 1).drop_last() =~= fs.take(fi as int));
            assert(fs.take(fi + 1).last() == source_view(files@[fi as int]));
        }
        match &files[fi].content {
            Some(text) => {
                let ghost before = results_view(results@);
                search_text(&files[fi].path, text.as_str(), &needle, limit, &mut results);
                assert(results_view(results@) =~= capped(a + file_hits(fs[fi as int], needle@), limit as int));
            },
            None => {
                assert(a + file_hits(fs[fi as int], needle@) =~= a);
            },
        }
        fi += 1;
    }
    assert(fs.take(fi as int) =~= fs);
    results
}

} // verus!
