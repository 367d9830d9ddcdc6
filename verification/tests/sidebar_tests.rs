use moranote::model::{DocumentStats, FileEntry};
use moranote::sidebar::{
    missing_folder_message, path_parent_text, path_row_label, recent_file_rows,
    recent_folder_rows, save_state_label, status_metrics, tree_rows, unavailable_file_message,
};

fn node(path: &str, is_dir: bool, expanded: bool, children: Vec<FileEntry>) -> FileEntry {
    FileEntry {
        name: path.rsplit('/').next().unwrap().to_string(),
        path: path.to_string(),
        is_dir,
        expanded,
        children,
    }
}

fn sample_tree(docs_open: bool) -> Vec<FileEntry> {
    vec![
        node(
            "/w/docs",
            true,
            docs_open,
            vec![
                node("/w/docs/a.md", false, false, vec![]),
                node("/w/docs/deep", true, true, vec![node("/w/docs/deep/b.md", false, false, vec![])]),
            ],
        ),
        node("/w/readme.md", false, false, vec![]),
    ]
}

#[test]
fn tree_rows_follow_unfolded_folders_with_depth() {
    let rows = tree_rows(&sample_tree(true), Some("/w/docs/deep/b.md"));
    let seen: Vec<(&str, usize, bool)> =
        rows.iter().map(|r| (r.path.as_str(), r.depth, r.active)).collect();
    assert_eq!(
        seen,
        vec![
            ("/w/docs", 0, false),
            ("/w/docs/a.md", 1, false),
            ("/w/docs/deep", 1, false),
            ("/w/docs/deep/b.md", 2, true),
            ("/w/readme.md", 0, false),
        ]
    );
    assert_eq!(rows[3].name, "b.md");
    assert!(rows[2].is_dir && rows[2].expanded);
}

#[test]
fn folded_tree_shows_only_top_level_rows() {
    let rows = tree_rows(&sample_tree(false), None);
    let seen: Vec<(&str, usize)> = rows.iter().map(|r| (r.path.as_str(), r.depth)).collect();
    assert_eq!(seen, vec![("/w/docs", 0), ("/w/readme.md", 0)]);
    assert!(rows.iter().all(|r| !r.active));
}

#[test]
fn active_row_is_matched_as_a_path() {
    let rows = tree_rows(&sample_tree(false), Some("/w//readme.md"));
    assert!(rows[1].active);
    assert!(tree_rows(&Vec::new(), Some("/w")).is_empty());
}

#[test]
fn row_labels_use_the_last_component() {
    assert_eq!(path_row_label("/notes/today.md"), "today.md");
    assert_eq!(path_row_label("/notes/"), "notes");
    assert_eq!(path_row_label("/"), "/");
    assert_eq!(path_row_label(".."), "..");
}

#[test]
fn recent_folders_skip_empty_paths() {
    let rows = recent_folder_rows(&["/w/notes".to_string(), String::new(), "/".to_string()]);
    assert_eq!(rows.len(), 2);
    assert_eq!((rows[0].path.as_str(), rows[0].name.as_str(), rows[0].detail.as_str()), ("/w/notes", "notes", "/w/notes"));
    assert_eq!((rows[1].name.as_str(), rows[1].detail.as_str()), ("/", "/"));
}

#[test]
fn recent_files_keep_supported_ones_with_their_folder() {
    let exts = vec!["md".to_string(), ".markdown".to_string()];
    let rows = recent_file_rows(
        &["/w/a.MD".to_string(), "/w/b.txt".to_string(), "c.markdown".to_string()],
        &exts,
    );
    assert_eq!(rows.len(), 2);
    assert_eq!((rows[0].name.as_str(), rows[0].detail.as_str()), ("a.MD", "/w"));
    assert_eq!((rows[1].name.as_str(), rows[1].detail.as_str()), ("c.markdown", ""));
    assert_eq!(path_parent_text("/"), "");
}

#[test]
fn recent_status_messages() {
    assert_eq!(missing_folder_message("/gone"), "历史文件夹不存在: /gone");
    assert_eq!(unavailable_file_message("/gone.md"), "历史文件不可用: /gone.md");
}

#[test]
fn status_bar_texts() {
    assert_eq!(save_state_label(true), "未保存");
    assert_eq!(save_state_label(false), "已保存");
    let stats = DocumentStats { words: 1203, chars: 0, lines: 7, reading_time_minutes: 5 };
    assert_eq!(status_metrics(&stats), vec!["1203 字", "0 字符", "7 行", "阅读约 5 分钟"]);
}
