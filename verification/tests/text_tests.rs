use moranote::docx::{DocxStyle, docx_paragraph, docx_text_runs, escape_xml};
use moranote::html::{decode_html_entities, extract_main_body, html_attr, html_tag_name};
use moranote::paths::{
    path_extension, path_file_name, path_file_stem, path_join, path_parent, path_with_extension,
    paths_equal, sanitize_relative_path, starts_with_path,
};

#[test]
fn entities_decode_named_and_numeric_forms() {
    assert_eq!(decode_html_entities("a &amp; b &lt;c&gt; &quot;&apos;&#39;"), "a & b <c> \"''");
    assert_eq!(decode_html_entities("&#65;&#x4e2d;"), "A中");
    assert_eq!(decode_html_entities("&#xD800;x"), "x");
    assert_eq!(decode_html_entities("&nbsp;"), "&nbsp;");
    assert_eq!(decode_html_entities("tail & no end"), "tail & no end");
}

#[test]
fn tags_and_attributes() {
    assert_eq!(html_tag_name(" /H2 class=\"x\""), Some("h2".to_string()));
    assert_eq!(html_tag_name("br/"), Some("br".to_string()));
    assert_eq!(html_tag_name("  "), None);
    assert_eq!(html_attr("img alt=\"a &amp; b\" src=\"x.png\"", "alt"), Some("a & b".to_string()));
    assert_eq!(html_attr("img src=\"x.png\"", "alt"), None);
    assert_eq!(extract_main_body("<html><main id=\"c\">body</main></html>"), "body");
    assert_eq!(extract_main_body("no main"), "no main");
}

#[test]
fn word_runs_keep_line_breaks() {
    assert_eq!(escape_xml("<a & 'b'>"), "&lt;a &amp; &apos;b&apos;&gt;");
    assert_eq!(
        docx_text_runs("a\nb\tc"),
        "<w:t xml:space=\"preserve\">a</w:t><w:br/><w:t xml:space=\"preserve\">b\tc</w:t>"
    );
    assert!(docx_paragraph(DocxStyle::Heading(9), "t").contains("Heading6"));
    assert!(docx_paragraph(DocxStyle::Quote, "t").contains("Quote"));
}

#[test]
fn paths_split_like_std() {
    assert_eq!(path_file_name("/a/b.tar.gz/"), Some("b.tar.gz".to_string()));
    assert_eq!(path_file_stem("/a/b.tar.gz"), Some("b.tar".to_string()));
    assert_eq!(path_extension("/a/.bashrc"), None);
    assert_eq!(path_file_name("/a/.."), None);
    assert_eq!(path_with_extension("/a/b.txt", "md"), "/a/b.md");
    assert_eq!(path_join("/a", "/b"), "/b");
    assert_eq!(path_join("/a/", "b"), "/a/b");
    assert_eq!(path_parent("/a/b"), Some("/a".to_string()));
    assert_eq!(path_parent("/"), None);
    assert_eq!(sanitize_relative_path("../a/./b"), "a/b");
    assert!(starts_with_path("/a/b/c", "/a/b/"));
    assert!(!starts_with_path("/a/bc", "/a/b"));
    assert!(paths_equal("a/./b", "a//b/"));
    assert!(!paths_equal("/a", "a"));
}
