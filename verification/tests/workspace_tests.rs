use moranote::model::{DocumentState, FileEntry, WorkspaceState};
use moranote::workspace::{
    DirListing, SearchSource, global_search, is_supported_file, scan_workspace, should_skip,
    toggle_entry,
};

fn file(name: &str, path: &str) -> DirListing {
    DirListing { name: name.to_string(), path: path.to_string(), is_dir: false, children: Vec::new() }
}

fn dir(name: &str, path: &str, children: Vec<DirListing>) -> DirListing {
    DirListing { name: name.to_string(), path: path.to_string(), is_dir: true, children }
}

fn entry(name: &str, path: &str, is_dir: bool, children: Vec<FileEntry>) -> FileEntry {
    FileEntry { name: name.to_string(), path: path.to_string(), is_dir, expanded: false, children }
}

#[test]
fn supported_file_filter_matches_extension_without_dot() {
    let supported = vec!["md".to_string()];

    assert!(is_supported_file("note.md", &supported));
    assert!(is_supported_file("note.MD", &supported));
    assert!(!is_supported_file("note.txt", &supported));
    assert!(!is_supported_file("note.rs", &supported));
}

#[test]
fn hidden_and_build_folders_are_skipped() {
    assert!(should_skip(".git"));
    assert!(should_skip(".cache"));
    assert!(should_skip("target"));
    assert!(should_skip("node_modules"));
    assert!(!should_skip("docs"));
}

#[test]
fn scan_keeps_supported_files_and_nonempty_folders_in_tree_order() {
    let listing = vec![
        file("b.md", "/r/b.md"),
        file("Zeta.MD", "/r/Zeta.MD"),
        dir("empty", "/r/empty", vec![file("x.txt", "/r/empty/x.txt")]),
        dir("Docs", "/r/Docs", vec![file("a.md", "/r/Docs/a.md")]),
        file("notes.txt", "/r/notes.txt"),
        dir(".git", "/r/.git", vec![file("c.md", "/r/.git/c.md")]),
        file("A.md", "/r/A.md"),
    ];
    let tree = scan_workspace(&listing, &[".MD".to_string()]);
    let names: Vec<&str> = tree.iter().map(|e| e.name.as_str()).collect();
    assert_eq!(names, ["Docs", "A.md", "b.md", "Zeta.MD"]);
    assert!(tree[0].is_dir);
    assert!(!tree[0].expanded);
    assert_eq!(tree[0].children.len(), 1);
    assert_eq!(tree[0].children[0].path, "/r/Docs/a.md");
}

#[test]
fn toggling_twice_restores_the_folded_state() {
    let mut tree = vec![
        entry("a", "/r/a", true, vec![entry("b", "/r/a/b", true, vec![])]),
        entry("c.md", "/r/c.md", false, vec![]),
    ];
    assert!(toggle_entry(&mut tree, "/r/a//b/"));
    assert!(tree[0].children[0].expanded);
    assert!(!tree[0].expanded);
    assert!(toggle_entry(&mut tree, "/r/a/b"));
    assert!(!tree[0].children[0].expanded);
    assert!(!toggle_entry(&mut tree, "/r/missing"));
}

#[test]
fn search_lists_matching_lines_up_to_the_limit() {
    let files = vec![
        SearchSource {
            path: "/r/a.md".to_string(),
            content: Some("Alpha\n  beta ALPHA  \r\ngamma".to_string()),
        },
        SearchSource { path: "/r/unreadable.md".to_string(), content: None },
        SearchSource { path: "/r/b.md".to_string(), content: Some("alphabet".to_string()) },
    ];
    let all = global_search(&files, "  alpha ", 10);
    assert_eq!(all.len(), 3);
    assert_eq!((all[0].path.as_str(), all[0].line, all[0].preview.as_str()), ("/r/a.md", 1, "Alpha"));
    assert_eq!((all[1].line, all[1].preview.as_str()), (2, "beta ALPHA"));
    assert_eq!((all[2].path.as_str(), all[2].line), ("/r/b.md", 1));
    let two = global_search(&files, "alpha", 2);
    assert_eq!(two.len(), 2);
    assert_eq!(two[1].line, 2);
    assert!(global_search(&files, "   ", 10).is_empty());
    assert!(global_search(&files, "alpha", 0).is_empty());
}

#[test]
fn workspace_lists_files_depth_first() {
    let mut ws = WorkspaceState::default();
    ws.file_tree = vec![
        entry("d", "/r/d", true, vec![entry("x.md", "/r/d/x.md", false, vec![])]),
        entry("y.md", "/r/y.md", false, vec![]),
    ];
    assert_eq!(ws.all_files(), vec!["/r/d/x.md".to_string(), "/r/y.md".to_string()]);
    assert!(ws.active_document().is_none());
    ws.open_documents.push(DocumentState::scratch());
    assert_eq!(ws.active_document().unwrap().title, "Untitled.md");
    ws.active_document_mut().unwrap().dirty = true;
    assert!(ws.open_documents[0].dirty);
}

#[test]
fn documents_open_fresh() {
    let doc = DocumentState::from_path("/r/notes/today.md".to_string(), "hi".to_string());
    assert_eq!(doc.title, "today.md");
    assert_eq!(doc.content, "hi");
    assert_eq!(doc.revision, 0);
    assert!(!doc.dirty);
    let scratch = DocumentState::scratch();
    assert_eq!(scratch.content, "# Untitled\n\nStart writing...");
    assert!(scratch.path.is_none());
}

#[test]
fn editing_and_reloading_make_new_revisions() {
    let mut doc = DocumentState::from_path("/r/a.md".to_string(), "one".to_string());
    assert!(!doc.edit("one".to_string()));
    assert_eq!(doc.revision, 0);
    assert!(doc.edit("two".to_string()));
    assert_eq!((doc.revision, doc.dirty, doc.content.as_str()), (1, true, "two"));
    assert!(doc.reload("three".to_string()));
    assert_eq!((doc.revision, doc.dirty, doc.content.as_str()), (2, false, "three"));
    assert!(!doc.reload("three".to_string()));
    doc.set_path("/r/b.md".to_string());
    assert_eq!(doc.title, "b.md");
    assert_eq!(doc.path.as_deref(), Some("/r/b.md"));
}

#[test]
fn opening_a_file_twice_keeps_one_document() {
    let mut ws = WorkspaceState::default();
    assert!(!ws.open_document("/r/a.md".to_string(), "a".to_string()));
    ws.new_document();
    assert_eq!(ws.active_document, 1);
    assert!(ws.open_document("/r//a.md".to_string(), "a2".to_string()));
    assert_eq!(ws.open_documents.len(), 2);
    assert_eq!(ws.active_document, 0);
    assert_eq!(ws.open_documents[0].content, "a2");
    assert_eq!(ws.open_documents[0].revision, 1);
    assert!(!ws.open_documents[0].dirty);
}
