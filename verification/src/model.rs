//! The editor's data: documents, their outline and statistics, and the
//! workspace file tree.
use vstd::prelude::*;
use crate::paths::{file_name, path_file_name, paths_equal, same_path};
use crate::settings::{EditorMode, SidebarMode, strings_view, opt_view};
use crate::text::{chars_of, string_from};

verus! {

/// Caret position in the editor.
#[derive(Debug, Clone, Copy, PartialEq, Eq, Structural)]
pub struct CursorInfo {
    pub line: usize,
    pub column: usize,
}

impl Default for CursorInfo {
    fn default() -> (r: Self)
        ensures
            r.line == 0 && r.column == 0,
    {
        CursorInfo { line: 0, column: 0 }
    }
}

/// Selected range in the editor.
#[derive(Debug, Clone, Copy, PartialEq, Eq, Structural)]
pub struct SelectionInfo {
    pub start: usize,
    pub end: usize,
}

impl Default for SelectionInfo {
    fn default() -> (r: Self)
        ensures
            r.start == 0 && r.end == 0,
    {
        SelectionInfo { start: 0, end: 0 }
    }
}

/// One heading of a document.
#[derive(Debug, Clone, PartialEq, Eq)]
pub struct OutlineItem {
    pub level: u8,
    pub title: String,
    pub anchor: String,
    pub line: usize,
}

/// The mathematical value of an outline entry.
pub struct OutlineView {
    pub level: u8,
    pub title: Seq<char>,
    pub anchor: Seq<char>,
    pub line: int,
}

impl OutlineItem {
    pub open spec fn view_of(self) -> OutlineView {
        OutlineView { level: self.level, title: self.title@, anchor: self.anchor@, line: self.line as int }
    }
}

pub open spec fn outline_view(v: Seq<OutlineItem>) -> Seq<OutlineView> {
    v.map_values(|o: OutlineItem| o.view_of())
}

/// Counts shown in the status bar.
#[derive(Debug, Clone, Copy, PartialEq, Eq, Structural)]
pub struct DocumentStats {
    pub words: usize,
    pub chars: usize,
    pub lines: usize,
    pub reading_time_minutes: usize,
}

impl Default for DocumentStats {
    fn default() -> (r: Self)
        ensures
            r.words == 0 && r.chars == 0 && r.lines == 0 && r.reading_time_minutes == 0,
    {
        DocumentStats { words: 0, chars: 0, lines: 0, reading_time_minutes: 0 }
    }
}

/// An open document.
#[derive(Debug, Clone)]
pub struct DocumentState {
    pub path: Option<String>,
    pub title: String,
    pub content: String,
    pub revision: u64,
    pub dirty: bool,
    pub cursor: CursorInfo,
    pub selection: SelectionInfo,
    pub outline: Vec<OutlineItem>,
    pub stats: DocumentStats,
}

/// A document as it is when first opened: not dirty, revision 0, caret and
/// selection at the start, no outline or statistics yet.
pub open spec fn fresh(d: DocumentState) -> bool {
    &&& d.revision == 0
    &&& !d.dirty
    &&& d.cursor == CursorInfo { line: 0, column: 0 }
    &&& d.selection == SelectionInfo { start: 0, end: 0 }
    &&& d.outline@.len() == 0
    &&& d.stats == DocumentStats { words: 0, chars: 0, lines: 0, reading_time_minutes: 0 }
}

impl DocumentState {
    /// An unsaved document with placeholder content.
    pub fn scratch() -> (r: Self)
        ensures
            r.path is None,
            r.title@ == "Untitled.md"@,
            r.content@ == "# Untitled\n\nStart writing..."@,
            fresh(r),
    {
        DocumentState {
            path: None,
            title: string_from(&chars_of("Untitled.md")),
            content: string_from(&chars_of("# Untitled\n\nStart writing...")),
            revision: 0,
            dirty: false,
            cursor: CursorInfo::default(),
            selection: SelectionInfo::default(),
            outline: Vec::new(),
            stats: DocumentStats::default(),
        }
    }

    /// A document read from `path`, titled by its file name.
    pub fn from_path(path: String, content: String) -> (r: Self)
        ensures
            opt_view(r.path) == Some(path@),
            r.title@ == match file_name(path@) {
                Some(n) => n,
                None => "Untitled.md"@,
            },
            r.content@ == content@,
            fresh(r),
    {
        let title = match path_file_name(path.as_str()) {
            Some(n) => n,
            None => string_from(&chars_of("Untitled.md")),
        };
        DocumentState {
            path: Some(path),
            title,
            content,
            revision: 0,
            dirty: false,
            cursor: CursorInfo::default(),
            selection: SelectionInfo::default(),
            outline: Vec::new(),
            stats: DocumentStats::default(),
        }
    }
}

/// A file or folder of the workspace tree.
#[derive(Debug)]
pub struct FileEntry {
    pub name: String,
    pub path: String,
    pub is_dir: bool,
    pub expanded: bool,
    pub children: Vec<FileEntry>,
}

/// The mathematical value of a tree entry.
pub struct EntryView {
    pub name: Seq<char>,
    pub path: Seq<char>,
    pub is_dir: bool,
    pub expanded: bool,
    pub children: Seq<EntryView>,
}

/// The value of an entry and its subtree.
pub open spec fn entry_view(e: FileEntry) -> EntryView
    decreases e, 1nat,
{
    EntryView {
        name: e.name@,
        path: e.path@,
        is_dir: e.is_dir,
        expanded: e.expanded,
        children: entries_view(e.children@),
    }
}

/// The values of a list of entries.
pub open spec fn entries_view(es: Seq<FileEntry>) -> Seq<EntryView>
    decreases es, 0nat,
{
    if es.len() == 0 {
        Seq::empty()
    } else {
        entries_view(es.drop_last()).push(entry_view(es.last()))
    }
}

/// Lemma: the values of a list are the values of its entries.
pub proof fn lemma_entries_view(es: Seq<FileEntry>)
    ensures
        entries_view(es).len() == es.len(),
        forall|i: int| 0 <= i < es.len() ==> #[trigger] entries_view(es)[i] == entry_view(es[i]),
    decreases es.len(),
{
    if es.len() > 0 {
        lemma_entries_view(es.drop_last());
    }
}

/// The files of a tree in depth-first order.
pub open spec fn entry_files(e: FileEntry) -> Seq<Seq<char>>
    decreases e, 1nat,
{
    if e.is_dir {
        list_files(e.children@)
    } else {
        seq![e.path@]
    }
}

/// The files of a list of trees in order.
pub open spec fn list_files(es: Seq<FileEntry>) -> Seq<Seq<char>>
    decreases es, 0nat,
{
    if es.len() == 0 {
        Seq::empty()
    } else {
        list_files(es.drop_last()) + entry_files(es.last())
    }
}

impl FileEntry {
    /// Appends the paths of the files in this tree, depth first.
    pub fn flatten_files(&self, output: &mut Vec<String>)
        ensures
            strings_view(final(output)@) == strings_view(old(output)@) + entry_files(*self),
        decreases *self, 1nat,
    {
        if self.is_dir {
            flatten_list(&self.children, output);
        } else {
            let ghost before = output@;
            output.push(self.path.clone());
            assert(strings_view(output@) =~= strings_view(before) + seq![self.path@]);
        }
    }
}

/// Appends the files of each tree of `entries` in order.
pub fn flatten_list(entries: &Vec<FileEntry>, output: &mut Vec<String>)
    ensures
        strings_view(final(output)@) == strings_view(old(output)@) + list_files(entries@),
    decreases entries@, 0nat,
{
    let mut i: usize = 0;
    assert(entries@.take(0) =~= Seq::<FileEntry>::empty());
    assert(strings_view(old(output)@) + Seq::<Seq<char>>::empty() =~= strings_view(old(output)@));
    while i < entries.len()
        invariant
            i <= entries@.len(),
            strings_view(output@) == strings_view(old(output)@) + list_files(entries@.take(i as int)),
        decreases entries@.len() - i,
    {
        assert(entries@.take(i + 1).drop_last() =~= entries@.take(i as int));
        entries[i].flatten_files(output);
        assert(strings_view(output@) =~= strings_view(old(output)@) + list_files(entries@.take(i + 1)));
        i += 1;
    }
    assert(entries@.take(entries@.len() as int) =~= entries@);
}

/// The state of the workspace: folder, tree, open documents and queries.
#[derive(Debug)]
pub struct WorkspaceState {
    pub root: Option<String>,
    pub file_tree: Vec<FileEntry>,
    pub open_documents: Vec<DocumentState>,
    pub active_document: usize,
    pub recent_files: Vec<String>,
    pub sidebar_mode: SidebarMode,
    pub editor_mode: EditorMode,
    pub global_query: String,
    pub quick_open_query: String,
}

impl Default for WorkspaceState {
    fn default() -> (r: Self)
        ensures
            r.root is None,
            r.file_tree@.len() == 0,
            r.open_documents@.len() == 0,
            r.active_document == 0,
            r.recent_files@.len() == 0,
            r.sidebar_mode == SidebarMode::Files,
            r.editor_mode == EditorMode::Split,
            r.global_query@.len() == 0,
            r.quick_open_query@.len() == 0,
    {
        WorkspaceState {
            root: None,
            file_tree: Vec::new(),
            open_documents: Vec::new(),
            active_document: 0,
            recent_files: Vec::new(),
            sidebar_mode: SidebarMode::Files,
            editor_mode: EditorMode::Split,
            global_query: String::new(),
            quick_open_query: String::new(),
        }
    }
}

impl WorkspaceState {
    /// The document at the active index, if there is one.
    pub fn active_document(&self) -> (r: Option<&DocumentState>)
        ensures
            self.active_document < self.open_documents@.len() ==> r == Some(
                &self.open_documents@[self.active_document as int],
            ),
            self.active_document >= self.open_documents@.len() ==> r is None,
    {
        if self.active_document < self.open_documents.len() {
            Some(&self.open_documents[self.active_document])
        } else {
            None
        }
    }

    /// The document at the active index, for editing.
    pub fn active_document_mut(&mut self) -> (r: Option<&mut DocumentState>)
        ensures
            old(self).active_document < old(self).open_documents@.len() ==> ({
                &&& r is Some
                &&& *r->0 == old(self).open_documents@[old(self).active_document as int]
                &&& final(self).open_documents@ == old(self).open_documents@.update(
                    old(self).active_document as int,
                    *final(r->0),
                )
            }),
            old(self).active_document >= old(self).open_documents@.len() ==> r is None
                && final(self).open_documents@ == old(self).open_documents@,
            final(self).active_document == old(self).active_document,
            final(self).file_tree == old(self).file_tree,
            final(self).root == old(self).root,
            final(self).recent_files == old(self).recent_files,
            final(self).sidebar_mode == old(self).sidebar_mode,
            final(self).editor_mode == old(self).editor_mode,
            final(self).global_query == old(self).global_query,
            final(self).quick_open_query == old(self).quick_open_query,
    {
        if self.active_document < self.open_documents.len() {
            let i = self.active_document;
            Some(&mut self.open_documents[i])
        } else {
            None
        }
    }

    /// The files of the workspace tree in depth-first order.
    pub fn all_files(&self) -> (r: Vec<String>)
        ensures
            strings_view(r@) == list_files(self.file_tree@),
    {
        let mut files: Vec<String> = Vec::new();
        assert(strings_view(files@) =~= Seq::<Seq<char>>::empty());
        flatten_list(&self.file_tree, &mut files);
        assert(strings_view(files@) =~= list_files(self.file_tree@));
        files
    }
}

/// `d` is `prev` with new text, the next revision and the given dirty
/// flag, all else kept.
pub open spec fn retexted(d: DocumentState, prev: DocumentState, content: Seq<char>, dirty: bool) -> bool {
    &&& d.content@ == content
    &&& d.revision == prev.revision + 1
    &&& d.dirty == dirty
    &&& d.path == prev.path
    &&& d.title == prev.title
    &&& d.cursor == prev.cursor
    &&& d.selection == prev.selection
    &&& d.outline == prev.outline
    &&& d.stats == prev.stats
}

fn same_text(a: &String, b: &String) -> (r: bool)
    ensures
        r == (a@ == b@),
{
    let (_, eq) = crate::text::compare_chars(&chars_of(a.as_str()), &chars_of(b.as_str()));
    eq
}

impl DocumentState {
    /// New text from the editor makes a new, unsaved
    /// revision; the same text changes nothing.
    pub fn edit(&mut self, content: String) -> (changed: bool)
        requires
            old(self).revision < u64::MAX,
        ensures
            changed == (old(self).content@ != content@),
            changed ==> retexted(*final(self), *old(self), content@, true),
            !changed ==> *final(self) == *old(self),
    {
        if same_text(&self.content, &content) {
            return false;
        }
        self.content = content;
        self.revision = self.revision + 1;
        self.dirty = true;
        true
    }

    /// Text read back from disk (an outside change, or reopening): a new
    /// revision that matches the file; the same text changes nothing.
    pub fn reload(&mut self, content: String) -> (changed: bool)
        requires
            old(self).revision < u64::MAX,
        ensures
            changed == (old(self).content@ != content@),
            changed ==> retexted(*final(self), *old(self), content@, false),
            !changed ==> *final(self) == *old(self),
    {
        if same_text(&self.content, &content) {
            return false;
        }
        self.content = content;
        self.revision = self.revision + 1;
        self.dirty = false;
        true
    }

    /// Save-as: the document takes the chosen path, titled by its file name.
    pub fn set_path(&mut self, path: String)
        ensures
            opt_view(final(self).path) == Some(path@),
            final(self).title@ == match file_name(path@) {
                Some(n) => n,
                None => "Untitled.md"@,
            },
            final(self).content == old(self).content,
            final(self).revision == old(self).revision,
            final(self).dirty == old(self).dirty,
            final(self).cursor == old(self).cursor,
            final(self).selection == old(self).selection,
            final(self).outline == old(self).outline,
            final(self).stats == old(self).stats,
    {
        self.title = match path_file_name(path.as_str()) {
            Some(n) => n,
            None => string_from(&chars_of("Untitled.md")),
        };
        self.path = Some(path);
    }
}

/// Whether a document was opened from a path that is `p`.
pub open spec fn opened_from(d: DocumentState, p: Seq<char>) -> bool {
    match d.path {
        Some(q) => same_path(q@, p),
        None => false,
    }
}

/// The position of the first open document from path `p`, if any.
pub open spec fn document_index(docs: Seq<DocumentState>, p: Seq<char>) -> Option<int> {
    if exists|i: int| 0 <= i < docs.len() && opened_from(#[trigger] docs[i], p) {
        Some(
            choose|i: int|
                0 <= i < docs.len() && opened_from(docs[i], p) && forall|j: int|
                    0 <= j < i ==> !opened_from(#[trigger] docs[j], p),
        )
    } else {
        None
    }
}

proof fn lemma_first_index(docs: Seq<DocumentState>, p: Seq<char>, k: int)
    requires
        0 <= k < docs.len(),
        opened_from(docs[k], p),
        forall|j: int| 0 <= j < k ==> !opened_from(#[trigger] docs[j], p),
    ensures
        document_index(docs, p) == Some(k),
{
    let c = choose|i: int|
        0 <= i < docs.len() && opened_from(docs[i], p) && forall|j: int|
            0 <= j < i ==> !opened_from(#[trigger] docs[j], p);
    assert(0 <= c < docs.len() && opened_from(docs[c], p) && forall|j: int|
        0 <= j < c ==> !opened_from(#[trigger] docs[j], p));
    if c < k {
        assert(!opened_from(docs[c], p));
    }
    if c > k {
        assert(!opened_from(docs[k], p));
    }
}

impl WorkspaceState {
    /// Opens a document whose file has been read: a document already open
    /// from that path becomes active and takes the text (when it differs);
    /// otherwise a new document is added and made active. Whether it was
    /// open already.
    pub fn open_document(&mut self, path: String, content: String) -> (already_open: bool)
        requires
            forall|i: int|
                0 <= i < old(self).open_documents@.len() ==> (#[trigger] old(self).open_documents@[i]).revision
                    < u64::MAX,
        ensures
            final(self).file_tree == old(self).file_tree,
            final(self).root == old(self).root,
            match document_index(old(self).open_documents@, path@) {
                Some(k) => {
                    &&& already_open
                    &&& final(self).active_document == k
                    &&& final(self).open_documents@.len() == old(self).open_documents@.len()
                    &&& forall|j: int|
                        0 <= j < old(self).open_documents@.len() && j != k
                            ==> #[trigger] final(self).open_documents@[j]
                            == old(self).open_documents@[j]
                    &&& if old(self).open_documents@[k].content@ == content@ {
                        final(self).open_documents@[k] == old(self).open_documents@[k]
                    } else {
                        retexted(
                            final(self).open_documents@[k],
                            old(self).open_documents@[k],
                            content@,
                            false,
                        )
                    }
                },
                None => {
                    &&& !already_open
                    &&& final(self).open_documents@.len() == old(self).open_documents@.len() + 1
                    &&& final(self).open_documents@.drop_last() == old(self).open_documents@
                    &&& final(self).active_document == old(self).open_documents@.len()
                    &&& opt_view(final(self).open_documents@.last().path) == Some(path@)
                    &&& final(self).open_documents@.last().content@ == content@
                    &&& final(self).open_documents@.last().title@ == match file_name(path@) {
                        Some(n) => n,
                        None => "Untitled.md"@,
                    }
                    &&& fresh(final(self).open_documents@.last())
                },
            },
    {
        let mut i: usize = 0;
        while i < self.open_documents.len()
            invariant
                i <= self.open_documents@.len(),
                self.open_documents@ == old(self).open_documents@,
                forall|j: int|
                    0 <= j < old(self).open_documents@.len() ==> (#[trigger] old(
                        self,
                    ).open_documents@[j]).revision < u64::MAX,
                self.file_tree == old(self).file_tree,
                self.root == old(self).root,
                forall|j: int| 0 <= j < i ==> !opened_from(#[trigger] self.open_documents@[j], path@),
            decreases self.open_documents@.len() - i,
        {
            let hit = match &self.open_documents[i].path {
                Some(q) => paths_equal(q.as_str(), path.as_str()),
                None => false,
            };
            if hit {
                proof {
                    lemma_first_index(self.open_documents@, path@, i as int);
                }
                self.active_document = i;
                let d = &mut self.open_documents[i];
                d.reload(content);
                return true;
            }
            i += 1;
        }
        proof {
            if let Some(k) = document_index(old(self).open_documents@, path@) {
                assert(!opened_from(old(self).open_documents@[k], path@));
            }
        }
        let n = self.open_documents.len();
        self.open_documents.push(DocumentState::from_path(path, content));
        self.active_document = n;
        assert(self.open_documents@.drop_last() =~= old(self).open_documents@);
        false
    }

    /// A new scratch document, made active.
    pub fn new_document(&mut self)
        ensures
            final(self).open_documents@.len() == old(self).open_documents@.len() + 1,
            final(self).open_documents@.drop_last() == old(self).open_documents@,
            final(self).active_document == old(self).open_documents@.len(),
            final(self).open_documents@.last().path is None,
            final(self).open_documents@.last().title@ == "Untitled.md"@,
            final(self).open_documents@.last().content@ == "# Untitled\n\nStart writing..."@,
            fresh(final(self).open_documents@.last()),
    {
        let n = self.open_documents.len();
        self.open_documents.push(DocumentState::scratch());
        self.active_document = n;
        assert(self.open_documents@.drop_last() =~= old(self).open_documents@);
    }
}

/// One line of a workspace search.
#[derive(Debug, Clone)]
pub struct SearchResult {
    pub path: String,
    pub line: usize,
    pub preview: String,
}

} // verus!
