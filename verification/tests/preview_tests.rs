use moranote::preview::front_matter::{FrontMatter, split_front_matter};
use moranote::preview::outline::{
    compute_stats, escape_attr, extract_outline, inject_heading_ids, slugify,
};
use moranote::preview::renderer::{
    ResourceAnswer, RenderRequest, extract_body, html_for_export, html_for_export_with_base,
    preview_css, preview_shell, render_markdown, resource_answer, resource_request_path,
    scroll_script, scroll_script_with, theme_asset_candidate, theme_dir_candidates,
    theme_relative_path, update_script, wrap_document,
};
use moranote::preview::urls::{
    PathFacts, file_url_for_path, has_url_scheme, mime_for_path, package_relative_path,
    percent_decode, percent_encode_path_part, referenced_paths, relative_url_path,
    should_package_resource,
};

const THEME_CSS: &str = "@font-face { font-family: \"Alibaba PuHuiTi 3.0\"; src: url('./morandigarden/AlibabaPuHuiTi-3-55-Regular.woff2'); }";

fn request(markdown: &str) -> RenderRequest {
    RenderRequest {
        markdown: markdown.to_string(),
        base_dir: None,
        theme_css: THEME_CSS.to_string(),
    }
}

#[test]
fn extracts_front_matter_outline_and_stats() {
    let rendered = render_markdown(request("---\ntitle: Demo\n---\n# One\n\nhello world\n\n## Two"));

    assert_eq!(rendered.front_matter.get("title"), Some(&"Demo".to_string()));
    assert_eq!(rendered.outline.len(), 2);
    assert!(rendered.stats.words >= 2);
    assert!(rendered.html.contains("id=\"one-1\""));
}

#[test]
fn morandi_theme_urls_are_export_rewritable() {
    let rendered = render_markdown(request("# Title"));

    assert!(rendered.html.contains("mdres://localhost/__theme/morandigarden/morandigarden/"));

    let exported = html_for_export(&rendered.html);
    assert!(!exported.contains("mdres://localhost/__theme/morandigarden/"));
    assert!(exported.contains("morandigarden/AlibabaPuHuiTi"));
}

#[test]
fn relative_resources_are_exported_as_file_urls() {
    let rendered = render_markdown(request(
        "![Logo](images/logo%201.png)\n\n[Guide](docs/start.md#intro)",
    ));
    let exported = html_for_export_with_base(&rendered.html, Some("/tmp/markdown assets"), &[]);

    assert!(
        exported.contains("file:///tmp/markdown%20assets/images/logo%201.png"),
        "{exported}"
    );
    assert!(exported.contains("file:///tmp/markdown%20assets/docs/start.md#intro"));
    assert!(exported.contains("morandigarden/AlibabaPuHuiTi"));
}

#[test]
fn code_blocks_include_copy_runtime() {
    let rendered = render_markdown(request("```rust\nfn main() {}\n```"));

    assert!(rendered.html.contains("copy-code-button"));
    assert!(rendered.html.contains("decorateCodeBlocks"));
    assert!(rendered.html.contains("已复制"));
}

#[test]
fn denies_resource_path_traversal() {
    let path = resource_request_path("../Cargo.toml");
    assert_eq!(path, "../Cargo.toml");
    assert!(theme_relative_path(&path).is_none());
    let answer = resource_answer(true, Some("/work/project"), Some("/work/Cargo.toml"), true);
    assert!(!matches!(answer, ResourceAnswer::Serve(_)));
    assert!(matches!(answer, ResourceAnswer::Denied));
}

#[test]
fn resource_answers_follow_each_check() {
    assert!(matches!(
        resource_answer(false, None, None, false),
        ResourceAnswer::Missing("resource root not set")
    ));
    assert!(matches!(
        resource_answer(true, None, Some("/a"), true),
        ResourceAnswer::Missing("resource root missing")
    ));
    assert!(matches!(
        resource_answer(true, Some("/a"), None, true),
        ResourceAnswer::Missing("resource missing")
    ));
    assert!(matches!(resource_answer(true, Some("/a"), Some("/a/b"), false), ResourceAnswer::Denied));
    match resource_answer(true, Some("/a"), Some("/a/img/b.png"), true) {
        ResourceAnswer::Serve(p) => assert_eq!(p, "/a/img/b.png"),
        other => panic!("unexpected {other:?}"),
    }
    assert!(matches!(resource_answer(true, Some("/a"), Some("/ab/c"), true), ResourceAnswer::Denied));
}

#[test]
fn theme_requests_stay_in_the_theme_folder() {
    assert_eq!(resource_request_path("///__theme/morandigarden/x.woff2"), "__theme/morandigarden/x.woff2");
    assert_eq!(
        theme_relative_path("__theme/morandigarden/morandigarden/a.ttf"),
        Some("morandigarden/a.ttf".to_string())
    );
    assert_eq!(
        theme_asset_candidate(Some("/t"), Some("/t/morandigarden/a.ttf"), true),
        Some("/t/morandigarden/a.ttf".to_string())
    );
    assert_eq!(theme_asset_candidate(Some("/t"), Some("/etc/passwd"), true), None);
    assert_eq!(theme_asset_candidate(None, Some("/t/a"), true), None);
}

#[test]
fn theme_folder_is_looked_for_in_the_bundle_then_beside_the_program() {
    assert_eq!(
        theme_dir_candidates("/Applications/MoraNote.app/Contents/MacOS/moranote"),
        vec![
            "/Applications/MoraNote.app/Contents/Resources/assets/themes/morandigarden".to_string(),
            "/Applications/MoraNote.app/Contents/MacOS/assets/themes/morandigarden".to_string(),
        ]
    );
    assert_eq!(
        theme_dir_candidates("/opt/moranote/moranote"),
        vec!["/opt/moranote/assets/themes/morandigarden".to_string()]
    );
}

#[test]
fn scripts_frame_their_payloads() {
    assert_eq!(scroll_script("one-1"), "window.__scrollToAnchor(\"one-1\");");
    assert_eq!(scroll_script("a\"b"), "window.__scrollToAnchor(\"a\\\"b\");");
    assert_eq!(scroll_script_with(None), "window.__scrollToAnchor(\"\");");
    assert_eq!(update_script("{\"html\":\"\"}"), "window.__setRendered({\"html\":\"\"});");
}

#[test]
fn wrap_and_extract_body_round_trip() {
    let page = wrap_document("<p>x</p>", "");
    assert_eq!(extract_body(&page), "<p>x</p>");
    assert!(preview_shell("").contains("Preview is ready."));
    assert!(preview_css(THEME_CSS).contains("url('mdres://localhost/__theme/morandigarden/morandigarden/"));
}

#[test]
fn front_matter_split_and_lookup() {
    let (fm, body) = split_front_matter("---\ntitle: A: B\nnote\n---\nbody");
    assert_eq!(fm.get("title"), Some(&"A: B".to_string()));
    assert_eq!(fm.len(), 1);
    assert_eq!(body, "body");
    let (fm, body) = split_front_matter("---\nunclosed");
    assert_eq!(fm.len(), 0);
    assert_eq!(body, "---\nunclosed");
}

#[test]
fn front_matter_reads_back_what_was_written() {
    let mut fm = FrontMatter::new();
    fm.insert("b".to_string(), "1".to_string());
    fm.insert("a".to_string(), "2".to_string());
    fm.insert("b".to_string(), "3".to_string());
    assert_eq!(fm.get("b"), Some(&"3".to_string()));
    assert_eq!(fm.get("a"), Some(&"2".to_string()));
    assert_eq!(fm.get("c"), None);
    assert_eq!(fm.len(), 2);
    assert_eq!(fm.entry(0).0, "a");
}

#[test]
fn outline_items_carry_level_anchor_and_line() {
    let outline = extract_outline("intro\n  ## Two ##\n#\n####### seven\n# Été 1");
    assert_eq!(outline.len(), 2);
    assert_eq!(outline[0].level, 2);
    assert_eq!(outline[0].title, "Two");
    assert_eq!(outline[0].anchor, "two-2");
    assert_eq!(outline[0].line, 2);
    assert_eq!(outline[1].anchor, "Été-1-5");
}

#[test]
fn slugs_fall_back_to_section() {
    assert_eq!(slugify("Hello, World_x", 0), "hello-world-x-1");
    assert_eq!(slugify("!!!", 4), "section-5");
}

#[test]
fn heading_ids_are_injected_in_order() {
    let outline = extract_outline("# A\n# B");
    let html = inject_heading_ids("<h1>A</h1><h1>B</h1>", &outline);
    assert_eq!(html, "<h1 id=\"a-1\">A</h1><h1 id=\"b-2\">B</h1>");
    assert_eq!(escape_attr("a&\"<>"), "a&amp;&quot;&lt;&gt;");
}

#[test]
fn stats_count_words_chars_lines_and_minutes() {
    let stats = compute_stats("hello world\n-- !!\n");
    assert_eq!(stats.words, 2);
    assert_eq!(stats.chars, 14);
    assert_eq!(stats.lines, 2);
    assert_eq!(stats.reading_time_minutes, 1);
    assert_eq!(compute_stats("").lines, 1);
}

#[test]
fn percent_encoding_round_trips() {
    let encoded = percent_encode_path_part("a b/é~");
    assert_eq!(encoded, "a%20b%2F%C3%A9~");
    assert_eq!(percent_decode(&encoded), "a b/é~");
    assert_eq!(percent_decode("%zz%4"), "%zz%4");
    assert_eq!(percent_decode("%FF"), "\u{fffd}");
}

#[test]
fn file_urls_encode_paths() {
    assert_eq!(file_url_for_path("/tmp/a b.png", false), "file:///tmp/a%20b.png");
    assert_eq!(file_url_for_path("/tmp/dir", true), "file:///tmp/dir/");
    assert_eq!(relative_url_path("img/a b.png"), "img/a%20b.png");
}

#[test]
fn resource_kinds() {
    assert_eq!(mime_for_path("a.SVG"), "image/svg+xml");
    assert_eq!(mime_for_path("a.unknown"), "application/octet-stream");
    assert!(should_package_resource("x/photo.JPG"));
    assert!(!should_package_resource("x/notes.md"));
    assert!(has_url_scheme(&"https://x".chars().collect::<Vec<char>>()));
    assert!(!has_url_scheme(&"img/a.png".chars().collect::<Vec<char>>()));
}

#[test]
fn exported_links_to_folders_end_with_a_slash() {
    let facts = vec![PathFacts {
        path: "/base/docs".to_string(),
        is_file: false,
        is_dir: true,
        canonical: None,
    }];
    let html = html_for_export_with_base("<a href=\"docs\">d</a>", Some("/base"), &facts);
    assert_eq!(html, "<a href=\"file:///base/docs/\">d</a>");
}

#[test]
fn same_titles_get_distinct_anchors() {
    let outline = extract_outline("# A\n# A\n## a");
    let anchors: Vec<&str> = outline.iter().map(|o| o.anchor.as_str()).collect();
    assert_eq!(anchors, ["a-1", "a-2", "a-3"]);
}

#[test]
fn packaged_copies_stay_in_the_asset_folder() {
    assert_eq!(package_relative_path("/etc/passwd", "../../etc/passwd", None, None), "etc/passwd");
    assert_eq!(package_relative_path("/a/b/c.png", "/a/b/c.png", Some("/a"), Some("/a/b/c.png")), "b/c.png");
    assert_eq!(package_relative_path("/x/y.png", "/x/y.png", Some("/a"), Some("/x/y.png")), "y.png");
    assert_eq!(package_relative_path("/", "..", None, None), "resource");
}

#[test]
fn referenced_paths_list_local_sources_then_links() {
    let paths = referenced_paths(
        "<img src=\"a%20b.png\"><a href=\"https://x\">x</a><a href=\"/abs/doc.md#top\">d</a><img src=\"#\">",
        "/base",
    );
    assert_eq!(paths, vec!["/base/a b.png".to_string(), "/abs/doc.md".to_string()]);
}
