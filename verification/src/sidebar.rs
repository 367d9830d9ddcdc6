//! What the sidebar and the status bar show, apart from drawing it: the rows
//! of the folder tree, the labels of file and recent rows, and the texts of
//! the status bar.
use vstd::prelude::*;
use crate::model::{DocumentStats, EntryView, FileEntry, entries_view, entry_view, lemma_entries_view};
use crate::paths::{file_name, parent, path_file_name, path_parent, paths_equal, same_path};
use crate::settings::{has_supported_extension, is_supported_path, strings_view};
use crate::text::{chars_of, decimal, extend, push_decimal, string_from};

verus! {

/// A row of the folder tree: the entry, how deep it sits, and whether it is
/// the open document.
pub struct TreeRow {
    pub name: String,
    pub path: String,
    pub is_dir: bool,
    pub expanded: bool,
    pub depth: usize,
    pub active: bool,
}

/// The value of a tree row.
pub struct RowView {
    pub name: Seq<char>,
    pub path: Seq<char>,
    pub is_dir: bool,
    pub expanded: bool,
    pub depth: nat,
    pub active: bool,
}

/// The value of a row.
pub open spec fn row_view(r: TreeRow) -> RowView {
    RowView {
        name: r.name@,
        path: r.path@,
        is_dir: r.is_dir,
        expanded: r.expanded,
        depth: r.depth as nat,
        active: r.active,
    }
}

/// The values of a list of rows.
pub open spec fn rows_view(rs: Seq<TreeRow>) -> Seq<RowView> {
    rs.map_values(|r: TreeRow| row_view(r))
}

/// An optional path as text.
pub open spec fn str_opt(o: Option<&str>) -> Option<Seq<char>> {
    match o {
        Some(s) => Some(s@),
        None => None,
    }
}

/// Whether `path` is the open document's path (compared as paths).
pub open spec fn is_active_path(path: Seq<char>, active: Option<Seq<char>>) -> bool {
    match active {
        Some(a) => same_path(a, path),
        None => false,
    }
}

/// The rows of an entry at `depth`: its own row, then, for an unfolded
/// folder, the rows of its children one level deeper.
pub open spec fn entry_rows(e: EntryView, depth: nat, active: Option<Seq<char>>) -> Seq<RowView>
    decreases e, 1nat,
{
    seq![
        RowView {
            name: e.name,
            path: e.path,
            is_dir: e.is_dir,
            expanded: e.expanded,
            depth,
            active: is_active_path(e.path, active),
        },
    ] + if e.is_dir && e.expanded {
        list_rows(e.children, depth + 1, active)
    } else {
        Seq::empty()
    }
}

/// The rows of a list of entries at `depth`, in order.
pub open spec fn list_rows(es: Seq<EntryView>, depth: nat, active: Option<Seq<char>>) -> Seq<
    RowView,
>
    decreases es, 0nat,
{
    if es.len() == 0 {
        Seq::empty()
    } else {
        proof {
            assert(decreases_to!(es => es[es.len() - 1]));
        }
        list_rows(es.drop_last(), depth, active) + entry_rows(es.last(), depth, active)
    }
}

/// How many levels an entry spans, itself included.
pub open spec fn entry_nesting(e: EntryView) -> nat
    decreases e, 1nat,
{
    1 + list_nesting(e.children)
}

/// How many levels the deepest entry of a list spans.
pub open spec fn list_nesting(es: Seq<EntryView>) -> nat
    decreases es, 0nat,
{
    if es.len() == 0 {
        0
    } else {
        proof {
            assert(decreases_to!(es => es[es.len() - 1]));
        }
        let a = list_nesting(es.drop_last());
        let b = entry_nesting(es.last());
        if a >= b {
            a
        } else {
            b
        }
    }
}

/// Lemma: no entry of a list spans more levels than the list.
pub proof fn lemma_list_nesting(es: Seq<EntryView>)
    ensures
        forall|i: int| 0 <= i < es.len() ==> entry_nesting(#[trigger] es[i]) <= list_nesting(es),
    decreases es.len(),
{
    if es.len() > 0 {
        lemma_list_nesting(es.drop_last());
        assert forall|i: int| 0 <= i < es.len() implies entry_nesting(#[trigger] es[i])
            <= list_nesting(es) by {
            if i < es.len() - 1 {
                assert(es[i] == es.drop_last()[i]);
            }
        }
    }
}

/// A tree whose top-level folders are all folded shows exactly its top-level
/// entries, in order, each at the depth the list starts at.
pub proof fn lemma_folded_tree_rows(es: Seq<EntryView>, depth: nat, active: Option<Seq<char>>)
    requires
        forall|i: int| 0 <= i < es.len() ==> !(#[trigger] es[i]).is_dir || !es[i].expanded,
    ensures
        list_rows(es, depth, active).len() == es.len(),
        forall|i: int|
            #![trigger list_rows(es, depth, active)[i]]
            0 <= i < es.len() ==> list_rows(es, depth, active)[i].path == es[i].path
                && list_rows(es, depth, active)[i].name == es[i].name
                && list_rows(es, depth, active)[i].depth == depth,
    decreases es.len(),
{
    if es.len() > 0 {
        let init = es.drop_last();
        assert forall|i: int| 0 <= i < init.len() implies !(#[trigger] init[i]).is_dir
            || !init[i].expanded by {
            assert(init[i] == es[i]);
        }
        lemma_folded_tree_rows(init, depth, active);
        let last = es.last();
        assert(!last.is_dir || !last.expanded);
        assert(entry_rows(last, depth, active).len() == 1);
        assert forall|i: int|
            #![trigger list_rows(es, depth, active)[i]]
            0 <= i < es.len() implies list_rows(es, depth, active)[i].path == es[i].path
                && list_rows(es, depth, active)[i].name == es[i].name
                && list_rows(es, depth, active)[i].depth == depth by {
            if i < es.len() - 1 {
                assert(list_rows(es, depth, active)[i] == list_rows(init, depth, active)[i]);
                assert(init[i] == es[i]);
            } else {
                assert(list_rows(es, depth, active)[i] == entry_rows(last, depth, active)[0]);
            }
        }
    }
}

fn push_entry_rows(e: &FileEntry, depth: usize, active: Option<&str>, out: &mut Vec<TreeRow>)
    requires
        depth + entry_nesting(entry_view(*e)) <= usize::MAX,
    ensures
        rows_view(final(out)@) == rows_view(old(out)@) + entry_rows(
            entry_view(*e),
            depth as nat,
            str_opt(active),
        ),
    decreases e, 1nat,
{
    let active_here = match active {
        Some(a) => paths_equal(a, e.path.as_str()),
        None => false,
    };
    let row = TreeRow {
        name: string_from(&chars_of(e.name.as_str())),
        path: string_from(&chars_of(e.path.as_str())),
        is_dir: e.is_dir,
        expanded: e.expanded,
        depth,
        active: active_here,
    };
    let ghost before = rows_view(out@);
    out.push(row);
    let ghost own = seq![row_view(row)];
    assert(rows_view(out@) =~= before + own);
    if e.is_dir && e.expanded {
        push_list_rows(&e.children, depth + 1, active, out);
        assert(rows_view(out@) =~= before + entry_rows(entry_view(*e), depth as nat, str_opt(active)));
    } else {
        assert(rows_view(out@) =~= before + entry_rows(entry_view(*e), depth as nat, str_opt(active)));
    }
}

fn push_list_rows(es: &Vec<FileEntry>, depth: usize, active: Option<&str>, out: &mut Vec<TreeRow>)
    requires
        depth + list_nesting(entries_view(es@)) <= usize::MAX,
    ensures
        rows_view(final(out)@) == rows_view(old(out)@) + list_rows(
            entries_view(es@),
            depth as nat,
            str_opt(active),
        ),
    decreases es, 0nat,
{
    let ghost all = entries_view(es@);
    proof {
        lemma_entries_view(es@);
        lemma_list_nesting(all);
    }
    let mut i: usize = 0;
    assert(all.take(0) =~= Seq::<EntryView>::empty());
    assert(rows_view(out@) =~= rows_view(old(out)@) + list_rows(all.take(0), depth as nat, str_opt(active)));
    while i < es.len()
        invariant
            i <= es@.len(),
            all == entries_view(es@),
            all.len() == es@.len(),
            forall|k: int| 0 <= k < es@.len() ==> #[trigger] all[k] == entry_view(es@[k]),
            forall|k: int| 0 <= k < all.len() ==> entry_nesting(#[trigger] all[k]) <= list_nesting(all),
            depth + list_nesting(all) <= usize::MAX,
            rows_view(out@) == rows_view(old(out)@) + list_rows(
                all.take(i as int),
                depth as nat,
                str_opt(active),
            ),
        decreases es@.len() - i,
    {
        proof {
            assert(decreases_to!(*es => es@[i as int]));
            assert(all.take(i + 1).drop_last() =~= all.take(i as int));
            assert(all.take(i + 1).last() == entry_view(es@[i as int]));
            assert(entry_nesting(all[i as int]) <= list_nesting(all));
        }
        push_entry_rows(&es[i], depth, active, out);
        assert(rows_view(out@) =~= rows_view(old(out)@) + list_rows(
            all.take(i + 1),
            depth as nat,
            str_opt(active),
        ));
        i += 1;
    }
    assert(all.take(i as int) =~= all);
}

/// The rows of the tree in the order they are drawn,
/// each entry at its depth, the children of a folder only while it is
/// unfolded, and the open document's row marked.
pub fn tree_rows(entries: &Vec<FileEntry>, active: Option<&str>) -> (r: Vec<TreeRow>)
    requires
        list_nesting(entries_view(entries@)) <= usize::MAX,
    ensures
        rows_view(r@) == list_rows(entries_view(entries@), 0, str_opt(active)),
{
    let mut out: Vec<TreeRow> = Vec::new();
    push_list_rows(entries, 0, active, &mut out);
    assert(rows_view(out@) =~= list_rows(entries_view(entries@), 0, str_opt(active)));
    out
}

/// The label of a file or folder row: its last component, or the whole path
/// where it has none.
pub open spec fn row_label(path: Seq<char>) -> Seq<char> {
    match file_name(path) {
        Some(n) => n,
        None => path,
    }
}

/// The label of a file or folder row (in the file list and the recent
/// rows).
pub fn path_row_label(path: &str) -> (r: String)
    ensures
        r@ == row_label(path@),
{
    match path_file_name(path) {
        Some(n) => n,
        None => string_from(&chars_of(path)),
    }
}

/// A row of a recent list: the path it opens, its label, and the line
/// under the label.
pub struct RecentRow {
    pub path: String,
    pub name: String,
    pub detail: String,
}

/// The value of a recent row.
pub open spec fn recent_view(r: RecentRow) -> (Seq<char>, Seq<char>, Seq<char>) {
    (r.path@, r.name@, r.detail@)
}

/// The values of a list of recent rows.
pub open spec fn recents_view(rs: Seq<RecentRow>) -> Seq<(Seq<char>, Seq<char>, Seq<char>)> {
    rs.map_values(|r: RecentRow| recent_view(r))
}

/// The rows of the recent folders: every non-empty path, labelled by its
/// name, with the whole path under it.
pub open spec fn folder_rows(folders: Seq<Seq<char>>) -> Seq<(Seq<char>, Seq<char>, Seq<char>)>
    decreases folders.len(),
{
    if folders.len() == 0 {
        Seq::empty()
    } else {
        let rest = folder_rows(folders.drop_last());
        let p = folders.last();
        if p.len() > 0 {
            rest.push((p, row_label(p), p))
        } else {
            rest
        }
    }
}

/// The text of a path's folder, empty where it has none.
pub open spec fn parent_text(path: Seq<char>) -> Seq<char> {
    match parent(path) {
        Some(q) => q,
        None => Seq::empty(),
    }
}

/// The rows of the recent files: every file with a supported extension,
/// labelled by its name, with its folder under it.
pub open spec fn file_rows(files: Seq<Seq<char>>, exts: Seq<Seq<char>>) -> Seq<
    (Seq<char>, Seq<char>, Seq<char>),
>
    decreases files.len(),
{
    if files.len() == 0 {
        Seq::empty()
    } else {
        let rest = file_rows(files.drop_last(), exts);
        let p = files.last();
        if has_supported_extension(p, exts) {
            rest.push((p, row_label(p), parent_text(p)))
        } else {
            rest
        }
    }
}

/// The rows of the recent folders.
pub fn recent_folder_rows(folders: &[String]) -> (r: Vec<RecentRow>)
    ensures
        recents_view(r@) == folder_rows(strings_view(folders@)),
{
    let ghost all = strings_view(folders@);
    let mut out: Vec<RecentRow> = Vec::new();
    let mut i: usize = 0;
    assert(all.take(0) =~= Seq::<Seq<char>>::empty());
    while i < folders.len()
        invariant
            i <= folders@.len(),
            all == strings_view(folders@),
            recents_view(out@) == folder_rows(all.take(i as int)),
        decreases folders@.len() - i,
    {
        let p = folders[i].as_str();
        assert(all.take(i + 1).drop_last() =~= all.take(i as int));
        assert(all.take(i + 1).last() == p@);
        if chars_of(p).len() > 0 {
            let row = RecentRow {
                path: string_from(&chars_of(p)),
                name: path_row_label(p),
                detail: string_from(&chars_of(p)),
            };
            let ghost before = recents_view(out@);
            out.push(row);
            assert(recents_view(out@) =~= before.push(recent_view(row)));
        }
        i += 1;
    }
    assert(all.take(i as int) =~= all);
    out
}

/// The text of a path's folder (`Path::parent`, empty where it has none).
pub fn path_parent_text(path: &str) -> (r: String)
    ensures
        r@ == parent_text(path@),
{
    match path_parent(path) {
        Some(q) => q,
        None => String::new(),
    }
}

/// The rows of the recent files.
pub fn recent_file_rows(files: &[String], supported_extensions: &[String]) -> (r: Vec<RecentRow>)
    ensures
        recents_view(r@) == file_rows(strings_view(files@), strings_view(supported_extensions@)),
{
    let ghost all = strings_view(files@);
    let ghost exts = strings_view(supported_extensions@);
    let mut out: Vec<RecentRow> = Vec::new();
    let mut i: usize = 0;
    assert(all.take(0) =~= Seq::<Seq<char>>::empty());
    while i < files.len()
        invariant
            i <= files@.len(),
            all == strings_view(files@),
            exts == strings_view(supported_extensions@),
            recents_view(out@) == file_rows(all.take(i as int), exts),
        decreases files@.len() - i,
    {
        let p = files[i].as_str();
        assert(all.take(i + 1).drop_last() =~= all.take(i as int));
        assert(all.take(i + 1).last() == p@);
        if is_supported_path(p, supported_extensions) {
            let row = RecentRow {
                path: string_from(&chars_of(p)),
                name: path_row_label(p),
                detail: path_parent_text(p),
            };
            let ghost before = recents_view(out@);
            out.push(row);
            assert(recents_view(out@) =~= before.push(recent_view(row)));
        }
        i += 1;
    }
    assert(all.take(i as int) =~= all);
    out
}

/// The status when a recent folder is gone.
pub fn missing_folder_message(path: &str) -> (r: String)
    ensures
        r@ == "历史文件夹不存在: "@ + path@,
{
    let mut m = chars_of("历史文件夹不存在: ");
    extend(&mut m, &chars_of(path));
    string_from(&m)
}

/// The status when a recent file is gone or no longer supported.
pub fn unavailable_file_message(path: &str) -> (r: String)
    ensures
        r@ == "历史文件不可用: "@ + path@,
{
    let mut m = chars_of("历史文件不可用: ");
    extend(&mut m, &chars_of(path));
    string_from(&m)
}

/// The save state shown in the status bar.
pub open spec fn save_state(dirty: bool) -> Seq<char> {
    if dirty {
        "未保存"@
    } else {
        "已保存"@
    }
}

/// The save state of the open document.
pub fn save_state_label(dirty: bool) -> (r: &'static str)
    ensures
        r@ == save_state(dirty),
{
    if dirty {
        "未保存"
    } else {
        "已保存"
    }
}

/// The counts shown in the status bar: words, characters, lines and
/// reading time.
pub open spec fn metric_texts(words: nat, chars: nat, lines: nat, minutes: nat) -> Seq<Seq<char>> {
    seq![
        decimal(words) + " 字"@,
        decimal(chars) + " 字符"@,
        decimal(lines) + " 行"@,
        "阅读约 "@ + decimal(minutes) + " 分钟"@,
    ]
}

fn metric(prefix: &str, n: usize, suffix: &str) -> (r: String)
    ensures
        r@ == prefix@ + decimal(n as nat) + suffix@,
{
    let mut m = chars_of(prefix);
    push_decimal(&mut m, n);
    extend(&mut m, &chars_of(suffix));
    string_from(&m)
}

/// The counts of the open document.
pub fn status_metrics(stats: &DocumentStats) -> (r: Vec<String>)
    ensures
        strings_view(r@) == metric_texts(
            stats.words as nat,
            stats.chars as nat,
            stats.lines as nat,
            stats.reading_time_minutes as nat,
        ),
{
    let a = metric("", stats.words, " 字");
    let b = metric("", stats.chars, " 字符");
    let c = metric("", stats.lines, " 行");
    let d = metric("阅读约 ", stats.reading_time_minutes, " 分钟");
    proof {
        reveal_strlit("");
    }
    assert(a@ =~= decimal(stats.words as nat) + " 字"@);
    assert(b@ =~= decimal(stats.chars as nat) + " 字符"@);
    assert(c@ =~= decimal(stats.lines as nat) + " 行"@);
    let r = vec![a, b, c, d];
    assert(strings_view(r@) =~= metric_texts(
        stats.words as nat,
        stats.chars as nat,
        stats.lines as nat,
        stats.reading_time_minutes as nat,
    ));
    r
}

} // verus!
