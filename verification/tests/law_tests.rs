use moranote::docx::{DocxBlock, DocxStyle, docx_blocks_from_html, escape_xml};
use moranote::export::{ExportFormat, escape_html, normalize_export_path};
use moranote::html::decode_html_entities;
use moranote::model::FileEntry;
use moranote::paths::path_with_extension;
use moranote::preview::renderer::{
    extract_body, in_app_navigation, preview_shell, scroll_script, wrap_document,
};
use moranote::preview::urls::{file_url_for_path, percent_decode};
use moranote::workspace::toggle_entry;

#[test]
fn anchors_are_written_as_json_strings() {
    assert_eq!(scroll_script("intro"), "window.__scrollToAnchor(\"intro\");");
    assert_eq!(
        scroll_script("a\"b\\c\n\t\u{1}\u{1f}é"),
        "window.__scrollToAnchor(\"a\\\"b\\\\c\\n\\t\\u0001\\u001fé\");"
    );
}

#[test]
fn preview_keeps_local_navigation() {
    assert!(in_app_navigation("about:blank"));
    assert!(in_app_navigation("mdres://localhost/a.png"));
    assert!(in_app_navigation("file:///tmp/a.md"));
    assert!(!in_app_navigation("https://example.com"));
    assert!(!in_app_navigation("File:///tmp"));
}

#[test]
fn percent_decoding_keeps_incomplete_escapes() {
    assert_eq!(percent_decode("100%"), "100%");
    assert_eq!(percent_decode("%zz"), "%zz");
    assert_eq!(percent_decode("logo%201.png"), "logo 1.png");
}

#[test]
fn file_urls_escape_and_decode_back() {
    let url = file_url_for_path("/tmp/markdown assets/x 1.png", false);
    assert_eq!(url, "file:///tmp/markdown%20assets/x%201.png");
    assert_eq!(percent_decode(&url["file://".len()..]), "/tmp/markdown assets/x 1.png");
}

#[test]
fn entity_decoding_undoes_both_escapes() {
    let text = "a < b & \"c\" > 'd' &amp;";
    assert_eq!(decode_html_entities(&escape_xml(text)), text);
    assert_eq!(decode_html_entities(&escape_html(text)), text);
}

#[test]
fn normalized_export_path_keeps_the_stem() {
    let r = normalize_export_path("/a/b.md".to_string(), ExportFormat::Pdf);
    assert_eq!(r, "/a/b.pdf");
    assert_eq!(path_with_extension(&r, ""), path_with_extension("/a/b.md", ""));
    assert_eq!(normalize_export_path("/a/b.PDF".to_string(), ExportFormat::Pdf), "/a/b.PDF");
}

#[test]
fn page_body_round_trips() {
    let body = "<h1>Title</h1><p>x</p>";
    assert_eq!(extract_body(&wrap_document(body, "body{}")), body);
    let shell = preview_shell("body{}");
    assert_eq!(shell, wrap_document("<p class=\"empty\">Preview is ready.</p>", "body{}"));
    assert!(shell.contains("<base href=\"mdres://localhost/\">"));
}

fn node(path: &str, is_dir: bool, children: Vec<FileEntry>) -> FileEntry {
    FileEntry { name: path.to_string(), path: path.to_string(), is_dir, expanded: false, children }
}

#[test]
fn toggling_finds_paths_at_any_depth() {
    let mut tree = vec![node("/a", true, vec![node("/a/b", true, vec![node("/a/b/c.md", false, vec![])])])];
    assert!(toggle_entry(&mut tree, "/a/b"));
    assert!(tree[0].children[0].expanded && !tree[0].expanded);
    assert!(!toggle_entry(&mut tree, "/z"));
    assert!(toggle_entry(&mut tree, "/a/b"));
    assert!(!tree[0].children[0].expanded);
}

#[test]
fn word_blocks_are_trimmed_and_leveled() {
    let blocks = docx_blocks_from_html("<main><h2>  Title  </h2><pre>\n  code  \n</pre></main>");
    let seen: Vec<(DocxStyle, String)> = blocks
        .into_iter()
        .map(|b| match b {
            DocxBlock::Paragraph { style, text } => (style, text),
        })
        .collect();
    assert_eq!(
        seen,
        vec![(DocxStyle::Heading(2), "Title".to_string()), (DocxStyle::Code, "  code  ".to_string())]
    );
}
