use moranote::export::ExportFormat;
use moranote::model::{DocumentState, FileEntry};
use moranote::preview::renderer::{RenderRequest, render_markdown};
use moranote::settings::{EditorMode, SidebarMode, ThemeMode};
use moranote::shell::{
    ExportOutcome, ExportSession, PathChoice, apply_expanded_dirs, apply_supported_extensions,
    bool_label, document_base_dir, font_family_update, preview_style_script, preview_visible,
    with_rendered, editor_font_stack, editor_mode_index, expanded_dir_set, export_dialog_name,
    file_set_from_entries, initial_open_paths, is_markdown_path, matching_files,
    next_editor_mode, next_font_size, next_sidebar_mode, next_tab_size, parse_extensions,
    path_from_open_url, path_label, preview_font_stack, preview_theme_name, reload_message,
    remember_recent, restore_candidate, shown_sidebar_mode, unsupported_file_message, sidebar_mode_index, supported_extensions_label, theme_mode_description,
    theme_mode_from_label, tool_status,
};

fn entry(path: &str, is_dir: bool, expanded: bool, children: Vec<FileEntry>) -> FileEntry {
    FileEntry {
        name: path.rsplit('/').next().unwrap().to_string(),
        path: path.to_string(),
        is_dir,
        expanded,
        children,
    }
}

#[test]
fn sizes_step_within_their_bounds() {
    assert_eq!(next_font_size(16, 1), 17);
    assert_eq!(next_font_size(28, 1), 28);
    assert_eq!(next_font_size(12, -1), 12);
    assert_eq!(next_font_size(100, 0), 28);
    assert_eq!(next_tab_size(4, 2), 6);
    assert_eq!(next_tab_size(8, 1), 8);
    assert_eq!(next_tab_size(2, -5), 2);
}

#[test]
fn modes_cycle() {
    let m = EditorMode::Source;
    assert_eq!(next_editor_mode(m), EditorMode::Preview);
    assert_eq!(next_editor_mode(next_editor_mode(next_editor_mode(m))), m);
    assert_eq!(next_sidebar_mode(SidebarMode::Files), SidebarMode::FileList);
    assert_eq!(next_sidebar_mode(SidebarMode::Outline), SidebarMode::Search);
    assert_eq!(next_sidebar_mode(SidebarMode::Search), SidebarMode::Files);
    assert_eq!(shown_sidebar_mode(SidebarMode::Recent), SidebarMode::Files);
    assert_eq!(editor_mode_index(EditorMode::Split), 2);
    assert_eq!(sidebar_mode_index(SidebarMode::Outline), 0);
    assert_eq!(sidebar_mode_index(SidebarMode::Search), 2);
}

#[test]
fn theme_names_and_labels() {
    assert_eq!(preview_theme_name(ThemeMode::Sepia), "sepia");
    assert_eq!(theme_mode_description(ThemeMode::Typora), "Typora / GitHub 简洁风格");
    assert_eq!(theme_mode_from_label("深色"), Some(ThemeMode::Dark));
    assert_eq!(theme_mode_from_label("dark"), None);
    assert_eq!(bool_label(true), "开启");
    assert_eq!(path_label(None), "未配置");
    assert_eq!(tool_status(Some("/bin/pandoc"), "PATH"), "/bin/pandoc");
    assert_eq!(tool_status(None, "PATH"), "PATH");
}

#[test]
fn font_stacks_drop_quotes() {
    assert_eq!(editor_font_stack(" \"Fira Code\" "), "Fira Code");
    assert_eq!(editor_font_stack("''"), "JetBrains Mono NL");
    assert_eq!(
        preview_font_stack("'Inter'"),
        "\"Inter\", \"Alibaba PuHuiTi 3.0\", \"PingFang SC\", sans-serif"
    );
    assert_eq!(preview_font_stack(""), "\"Alibaba PuHuiTi 3.0\", \"PingFang SC\", sans-serif");
}

#[test]
fn extension_text_is_parsed_and_labelled() {
    assert_eq!(
        parse_extensions(".MD, markdown;txt  md,,"),
        vec!["md".to_string(), "markdown".to_string(), "txt".to_string()]
    );
    assert!(parse_extensions(" ,; ").is_empty());
    let exts = vec!["md".to_string(), ".txt".to_string()];
    assert_eq!(supported_extensions_label(&exts), ".md, .txt");
}

#[test]
fn changing_extensions_drops_uncovered_recent_files() {
    let mut supported = vec!["md".to_string()];
    let mut config_recent = vec!["/a.md".to_string(), "/b.txt".to_string()];
    let mut workspace_recent = vec!["/c.txt".to_string()];
    let status = apply_supported_extensions(&mut supported, &mut config_recent, &mut workspace_recent, "txt");
    assert_eq!(status, Some("已更新可打开扩展名: .txt".to_string()));
    assert_eq!(supported, vec!["txt".to_string()]);
    assert_eq!(config_recent, vec!["/b.txt".to_string()]);
    assert_eq!(workspace_recent, vec!["/c.txt".to_string()]);
    let unchanged = apply_supported_extensions(&mut supported, &mut config_recent, &mut workspace_recent, ".TXT");
    assert_eq!(unchanged, None);
    assert_eq!(apply_supported_extensions(&mut supported, &mut config_recent, &mut workspace_recent, " "), None);
    assert_eq!(supported, vec!["txt".to_string()]);
}

#[test]
fn recent_lists_put_the_latest_first() {
    let mut list: Vec<String> = (0..12).map(|i| format!("/f{i}.md")).collect();
    remember_recent(&mut list, "/f5.md");
    assert_eq!(list[0], "/f5.md");
    assert_eq!(list.len(), 12);
    assert_eq!(list.iter().filter(|p| p.as_str() == "/f5.md").count(), 1);
    remember_recent(&mut list, "/new.md");
    assert_eq!(list[0], "/new.md");
    assert_eq!(list.len(), 12);
    assert_eq!(list[11], "/f10.md");
    remember_recent(&mut list, "/f5.md/");
    assert_eq!(list[0], "/f5.md/");
    assert_eq!(list.iter().filter(|p| p.starts_with("/f5.md")).count(), 1);
}

#[test]
fn quick_open_matches_file_names() {
    let files = vec!["/r/Alpha.md".to_string(), "/r/alpha/beta.md".to_string(), "/r/gamma.md".to_string()];
    assert_eq!(matching_files(&files, " ALP"), vec!["/r/Alpha.md".to_string()]);
    assert_eq!(matching_files(&files, "").len(), 3);
    let many: Vec<String> = (0..30).map(|i| format!("/r/{i}.md")).collect();
    assert_eq!(matching_files(&many, "").len(), 24);
}

#[test]
fn folded_state_carries_over_a_rescan() {
    let old = vec![entry(
        "/r/a",
        true,
        true,
        vec![entry("/r/a/b", true, false, vec![entry("/r/a/b/x.md", false, false, vec![])]), entry("/r/a/y.md", false, false, vec![])],
    )];
    assert_eq!(expanded_dir_set(&old), vec!["/r/a".to_string()]);
    assert_eq!(file_set_from_entries(&old), vec!["/r/a/b/x.md".to_string(), "/r/a/y.md".to_string()]);
    let mut fresh = vec![entry("/r/a", true, false, vec![entry("/r/a/b", true, true, vec![])])];
    apply_expanded_dirs(&mut fresh, &expanded_dir_set(&old));
    assert!(fresh[0].expanded);
    assert!(!fresh[0].children[0].expanded);
}

#[test]
fn export_session_ignores_stale_answers() {
    let mut s = ExportSession::new();
    assert!(!s.start(ExportFormat::Pdf, false));
    assert_eq!(s.status, "没有可导出的文档");
    assert!(s.start(ExportFormat::Pdf, true));
    assert!(s.exporting);
    assert_eq!(s.status, "请选择 PDF 的导出位置...");
    let token = s.generation;
    assert!(!s.start(ExportFormat::Pdf, true));
    assert_eq!(s.status, "正在导出，请稍候...");
    let out = s.path_chosen(token, ExportFormat::Pdf, PathChoice::Chosen("/o/a.txt".to_string()));
    assert_eq!(out, Some("/o/a.pdf".to_string()));
    assert_eq!(s.status, "正在导出 PDF...");
    s.cancel_wait();
    assert!(!s.exporting);
    assert_ne!(s.generation, token);
    s.finished(token, ExportOutcome::Done { path: "/o/a.pdf".to_string(), command: None });
    assert_eq!(s.status, "已停止等待导出结果；后台命令会在超时后自动清理。");
    assert!(s.start(ExportFormat::Html, true));
    let token = s.generation;
    s.finished(token, ExportOutcome::Done { path: "/o/a.html".to_string(), command: Some("x".to_string()) });
    assert_eq!(s.status, "已导出: /o/a.html (x)");
    assert!(!s.exporting);
    assert!(s.start(ExportFormat::Html, true));
    let token = s.generation;
    assert_eq!(s.path_chosen(token, ExportFormat::Html, PathChoice::Failed("no".to_string())), None);
    assert_eq!(s.status, "导出位置选择失败: no");
    assert!(s.panels.export);
    assert!(s.start(ExportFormat::Html, true));
    let token = s.generation;
    s.finished(token, ExportOutcome::Failed("disk".to_string()));
    assert_eq!(s.status, "导出失败: disk");
}

#[test]
fn export_dialog_starts_at_the_default_name() {
    assert_eq!(export_dialog_name("/o/a.docx", ExportFormat::Docx), "a.docx");
    assert_eq!(export_dialog_name("/", ExportFormat::Docx), "untitled.docx");
}

#[test]
fn open_urls_name_markdown_files() {
    assert!(is_markdown_path("/a/B.Md"));
    assert!(!is_markdown_path("/a/b.txt"));
    assert_eq!(path_from_open_url("file:///tmp/my%20notes.md"), Some("/tmp/my notes.md".to_string()));
    assert_eq!(path_from_open_url("file://localhost/tmp/a.md"), Some("/tmp/a.md".to_string()));
    assert_eq!(path_from_open_url("/tmp/a.txt"), None);
    let args = vec!["a.md".to_string(), "b.txt".to_string(), "c.MD".to_string()];
    assert_eq!(initial_open_paths(&args), vec!["a.md".to_string(), "c.MD".to_string()]);
}

#[test]
fn session_and_status_texts() {
    assert_eq!(reload_message(0), None);
    assert_eq!(reload_message(1), Some("已使用外部修改同步当前 Markdown 内容".to_string()));
    assert_eq!(reload_message(12), Some("已使用外部修改同步 12 个 Markdown 文档".to_string()));
    let exts = vec!["md".to_string()];
    let recent = vec!["/r/x.md".to_string()];
    assert_eq!(restore_candidate(None, &recent, &exts), Some("/r/x.md".to_string()));
    assert_eq!(restore_candidate(Some("/r/y.txt"), &recent, &exts), None);
    assert_eq!(restore_candidate(None, &[], &exts), None);
    assert_eq!(
        unsupported_file_message(&exts, "/r/y.txt"),
        "只能打开 Markdown 文件 (.md): /r/y.txt"
    );
}

#[test]
fn preview_styling_and_visibility() {
    assert_eq!(
        preview_style_script(ThemeMode::Dark, "Inter", 18, "X;"),
        "document.documentElement.dataset.theme = \"dark\";document.documentElement.style.setProperty('--font-main', \"\\\"Inter\\\", \\\"Alibaba PuHuiTi 3.0\\\", \\\"PingFang SC\\\", sans-serif\");document.documentElement.style.setProperty('--font-size-base', '18px');X;"
    );
    assert!(preview_visible(EditorMode::Split, false, false, false, false));
    assert!(!preview_visible(EditorMode::Source, false, false, false, false));
    assert!(!preview_visible(EditorMode::Preview, false, true, false, false));
    assert_eq!(font_family_update("Inter", "  Inter "), None);
    assert_eq!(font_family_update("Inter", "   "), None);
    assert_eq!(font_family_update("Inter", " Fira "), Some("Fira".to_string()));
}

#[test]
fn documents_take_their_rendering() {
    let doc = DocumentState::from_path("/r/n/a.md".to_string(), "# T\n\ntext".to_string());
    assert_eq!(document_base_dir(&doc), Some("/r/n".to_string()));
    assert_eq!(document_base_dir(&DocumentState::scratch()), None);
    let rendered = render_markdown(RenderRequest {
        markdown: doc.content.clone(),
        base_dir: None,
        theme_css: String::new(),
    });
    let doc = with_rendered(doc, &rendered);
    assert_eq!(doc.outline.len(), 1);
    assert_eq!(doc.outline[0].anchor, "t-1");
    assert_eq!(doc.stats.words, 2);
    assert_eq!(doc.content, "# T\n\ntext");
}

#[test]
fn applying_a_trees_own_unfolded_set_changes_nothing() {
    let mut tree = vec![
        entry("/r/a", true, true, vec![entry("/r/a/b", true, false, vec![entry("/r/a/b/c", true, true, vec![])])]),
        entry("/r/d", true, false, vec![]),
    ];
    let set = expanded_dir_set(&tree);
    assert_eq!(set, vec!["/r/a".to_string(), "/r/a/b/c".to_string()]);
    apply_expanded_dirs(&mut tree, &set);
    assert!(tree[0].expanded);
    assert!(!tree[0].children[0].expanded);
    assert!(tree[0].children[0].children[0].expanded);
    assert!(!tree[1].expanded);
}

#[test]
fn a_fresh_window_starts_ready() {
    let s = ExportSession::new();
    assert_eq!(s.status, "Ready");
    assert!(!s.exporting && !s.panels.any_open());
    let mut config = moranote::settings::AppConfig::default();
    config.sidebar_mode = SidebarMode::Outline;
    config.editor_mode = EditorMode::Preview;
    config.recent_files = vec!["/a.md".to_string()];
    let w = moranote::shell::startup_workspace(&config, DocumentState::scratch());
    assert_eq!(w.sidebar_mode, SidebarMode::Files);
    assert_eq!(w.editor_mode, EditorMode::Preview);
    assert_eq!(w.recent_files, vec!["/a.md".to_string()]);
    assert_eq!(w.open_documents.len(), 1);
    assert_eq!(w.active_document, 0);
    assert!(w.root.is_none() && w.file_tree.is_empty());
}

#[test]
fn an_export_closes_only_its_panels() {
    let mut s = ExportSession::new();
    s.panels.toggle(moranote::shell::Panel::RecentOpen);
    s.panels.settings = true;
    assert!(s.start(ExportFormat::Html, true));
    assert!(!s.panels.recent_open && !s.panels.export && s.panels.settings);
}
