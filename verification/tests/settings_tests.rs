use moranote::settings::{
    AppConfig, EditorMode, Settings, SidebarMode, ThemeMode, default_supported_extensions,
    is_supported_path, normalize_extensions, supported_paths,
};

#[test]
fn defaults_include_typora_like_extensions() {
    let config = AppConfig::default();
    assert_eq!(config.supported_extensions, vec!["md".to_string()]);
    assert_eq!(config.editor_mode, EditorMode::Split);
    assert!(!config.line_numbers);
    assert!(!config.auto_save);
    assert!(config.claim_markdown_association);
}

#[test]
fn labels_and_theme_order() {
    assert_eq!(ThemeMode::Sepia.label(), "护眼");
    assert_eq!(EditorMode::Preview.label(), "预览");
    assert_eq!(SidebarMode::FileList.label(), "文件列表");
    assert_eq!(
        ThemeMode::all(),
        [ThemeMode::Light, ThemeMode::Typora, ThemeMode::Sepia, ThemeMode::Dark]
    );
    assert_eq!(ThemeMode::default(), ThemeMode::Light);
    assert_eq!(SidebarMode::default(), SidebarMode::Files);
}

#[test]
fn extensions_are_normalized_without_repeats() {
    let exts = vec![" .MD ".to_string(), "md".to_string(), "".to_string(), "..Txt".to_string()];
    assert_eq!(normalize_extensions(&exts), vec!["md".to_string(), "txt".to_string()]);
    assert_eq!(normalize_extensions(&[]), vec!["md".to_string()]);
    assert_eq!(default_supported_extensions(), vec!["md".to_string()]);
}

#[test]
fn supported_paths_ignore_ascii_case_and_dots() {
    let exts = vec![".md".to_string(), "markdown".to_string()];
    assert!(is_supported_path("/a/b.MD", &exts));
    assert!(is_supported_path("/a/b.markdown", &exts));
    assert!(!is_supported_path("/a/.md", &exts));
    assert!(!is_supported_path("/a/b.txt", &exts));
    let paths = vec!["/x.md".to_string(), "/y.txt".to_string()];
    assert_eq!(supported_paths(&paths, &exts), vec!["/x.md".to_string()]);
}

#[test]
fn config_path_is_in_home() {
    assert_eq!(Settings::config_path(Some("/home/u")), "/home/u/.markdown-editor-config.toml");
    assert_eq!(Settings::config_path(None), "./.markdown-editor-config.toml");
}

#[test]
fn loaded_configuration_is_repaired() {
    let mut config = AppConfig::default();
    config.font_size = 3;
    config.tab_size = 40;
    config.font_family = "   ".to_string();
    config.supported_extensions = Vec::new();
    config.recent_files = vec!["/a.md".to_string(), "/b.txt".to_string()];
    config.recent_folders = vec!["".to_string(), "/docs".to_string()];
    config.last_active_file = Some("/c.txt".to_string());
    let fixed = Settings::normalize_loaded(config);
    assert_eq!(fixed.font_size, 12);
    assert_eq!(fixed.tab_size, 8);
    assert_eq!(fixed.font_family, AppConfig::default().font_family);
    assert_eq!(fixed.supported_extensions, vec!["md".to_string()]);
    assert_eq!(fixed.recent_files, vec!["/a.md".to_string()]);
    assert_eq!(fixed.recent_folders, vec!["/docs".to_string()]);
    assert_eq!(fixed.last_active_file, None);
}
