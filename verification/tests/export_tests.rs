use moranote::docx::{DocxBlock, DocxStyle, docx_blocks_from_html};
use moranote::export::{
    ExportFormat, ExportProfile, ExportRoute, apply_export_profile, build_pandoc_args,
    chromium_bundle_executable, chromium_candidates, chromium_image_args, chromium_pdf_args,
    command_stderr, default_export_path, docx_package, escape_html, export_command,
    export_docx_builtin, export_html, export_title, missing_tool_message,
    no_pandoc_target_message, normalize_export_path, output_asset_package, path_candidates,
    plain_html, preview_export_layout, run_failure, strip_preview_script,
};
use moranote::preview::renderer::{RenderRequest, render_markdown};
use moranote::preview::urls::PathFacts;

fn render(markdown: &str) -> moranote::preview::renderer::RenderedDocument {
    render_markdown(RenderRequest {
        markdown: markdown.to_string(),
        base_dir: None,
        theme_css: String::new(),
    })
}

#[test]
fn export_path_uses_source_name_and_format_extension() {
    let path = default_export_path(
        Some("/tmp/demo.note.md"),
        Some("/exports"),
        ExportFormat::Docx,
        "/work",
    );
    assert_eq!(path, "/exports/demo.note.docx");
}

#[test]
fn pandoc_args_are_stable() {
    let args = build_pandoc_args("in.html", "out.docx", "html", "docx", ExportFormat::Docx, "assets");
    assert_eq!(
        args,
        [
            "in.html",
            "--standalone",
            "-f",
            "html",
            "-t",
            "docx",
            "-o",
            "out.docx",
            "--resource-path=assets"
        ]
    );
}

#[test]
fn normalizes_wrong_export_extension() {
    let path = normalize_export_path("/tmp/demo.txt".to_string(), ExportFormat::Pdf);
    assert_eq!(path, "/tmp/demo.pdf");

    let path = normalize_export_path("/tmp/demo".to_string(), ExportFormat::Jpeg);
    assert_eq!(path, "/tmp/demo.jpg");
}

#[test]
fn plain_html_removes_preview_shell_styles() {
    let rendered = render("# Title");
    let plain = plain_html(&rendered.html);
    assert!(!plain.contains("markdown-body {"));
    assert!(plain.contains("<h1"));
}

#[test]
fn html_export_writes_preview_document_not_source() {
    let rendered = render("# Title\n\n![Logo](asset%201.png)\n\n```js\nconsole.log(1)\n```");
    let base = "/work/source assets";
    let facts = vec![PathFacts {
        path: "/work/source assets/asset 1.png".to_string(),
        is_file: true,
        is_dir: false,
        canonical: Some("/work/source assets/asset 1.png".to_string()),
    }];
    let (html, copies) = export_html(
        &rendered,
        Some(base),
        ExportProfile::Html,
        Some("demo.assets"),
        &facts,
        Some(base),
    );
    assert!(html.contains("class=\"markdown-body\""));
    assert!(html.contains("<h1"));
    assert!(html.contains("copy-code-button"));
    assert!(html.contains("demo.assets/asset%201.png"));
    assert_eq!(
        copies,
        vec![("/work/source assets/asset 1.png".to_string(), "asset 1.png".to_string())]
    );
    assert!(!html.contains("# Title"));
}

#[test]
fn docx_export_is_builtin_and_openxml() {
    let rendered = render("# 标题\n\n正文内容\n\n```rust\nfn main() {}\n```");
    let parts = export_docx_builtin(&rendered, None, &[]);
    let document = parts
        .iter()
        .find(|(name, _)| name == "word/document.xml")
        .map(|(_, content)| content.clone())
        .unwrap();
    assert!(document.contains("Heading1"));
    assert!(document.contains("标题"));
    assert!(document.contains("fn main()"));
}

#[test]
fn docx_package_lists_parts_in_archive_order() {
    let rendered = render("# Report");
    let blocks = vec![DocxBlock::Paragraph { style: DocxStyle::Normal, text: "x".to_string() }];
    let parts = docx_package(&rendered, &blocks);
    let names: Vec<&str> = parts.iter().map(|(n, _)| n.as_str()).collect();
    assert_eq!(
        names,
        [
            "[Content_Types].xml",
            "_rels/.rels",
            "word/styles.xml",
            "word/settings.xml",
            "docProps/app.xml",
            "docProps/core.xml",
            "word/document.xml"
        ]
    );
    assert!(parts[5].1.contains("<dc:title>Report</dc:title>"));
}

#[test]
fn docx_blocks_keep_heading_and_code_styles() {
    let blocks = docx_blocks_from_html(
        "<main class=\"markdown-body\"><h2>Intro</h2><p>a &amp; b</p><pre><code>x\n  y</code></pre></main>",
    );
    assert_eq!(blocks.len(), 3);
    match &blocks[0] {
        DocxBlock::Paragraph { style, text } => {
            assert_eq!(*style, DocxStyle::Heading(2));
            assert_eq!(text, "Intro");
        }
    }
    match &blocks[1] {
        DocxBlock::Paragraph { text, .. } => assert_eq!(text, "a & b"),
    }
    match &blocks[2] {
        DocxBlock::Paragraph { style, text } => {
            assert_eq!(*style, DocxStyle::Code);
            assert_eq!(text, "x\n  y");
        }
    }
}

#[test]
fn export_title_prefers_front_matter_then_first_heading() {
    let with_title = render("---\ntitle: Plan <A>\n---\n# Heading");
    assert_eq!(export_title(&with_title), "Plan <A>");
    let heading_only = render("# Heading\n\ntext");
    assert_eq!(export_title(&heading_only), "Heading");
    let nothing = render("just text");
    assert_eq!(export_title(&nothing), "Markdown Export");
}

#[test]
fn escape_html_escapes_markup_characters() {
    assert_eq!(escape_html("a<b>&\"c\""), "a&lt;b&gt;&amp;&quot;c&quot;");
}

#[test]
fn pandoc_profile_strips_the_preview_script() {
    let rendered = render("# T");
    let html = apply_export_profile(rendered.html.clone(), &rendered, ExportProfile::Pandoc);
    assert!(!html.contains("<script>"));
    assert!(html.contains("data-export=\"typora-pandoc\""));
    assert!(html.contains("<title>T</title>"));
    let printed = apply_export_profile(rendered.html.clone(), &rendered, ExportProfile::Print);
    assert!(printed.contains("<script>"));
    assert!(printed.contains("data-export=\"typora-print\""));
}

#[test]
fn strip_preview_script_removes_only_the_first_script() {
    assert_eq!(strip_preview_script("a<script>x</script>b<script>y</script>"), "ab<script>y</script>");
    assert_eq!(strip_preview_script("no script"), "no script");
    assert_eq!(strip_preview_script("a<script>open"), "a<script>open");
}

#[test]
fn revealjs_pandoc_args_split_slides() {
    let args = build_pandoc_args("i", "o", "html", "revealjs", ExportFormat::RevealJs, "r");
    assert_eq!(args.last().unwrap(), "--slide-level=2");
}

#[test]
fn formats_have_labels_extensions_and_targets() {
    assert_eq!(ExportFormat::Latex.extension(), "tex");
    assert_eq!(ExportFormat::Jpeg.extension(), "jpg");
    assert_eq!(ExportFormat::Pdf.pandoc_target(), None);
    assert_eq!(ExportFormat::Odt.pandoc_target(), Some("odt"));
    assert_eq!(ExportFormat::all().len(), 14);
    for format in ExportFormat::all() {
        if format.route() == ExportRoute::Pandoc {
            assert!(format.pandoc_target().is_some());
        }
    }
}

#[test]
fn normalize_keeps_matching_extension_in_any_case() {
    assert_eq!(normalize_export_path("/tmp/a.PDF".to_string(), ExportFormat::Pdf), "/tmp/a.PDF");
    let once = normalize_export_path("/tmp/a.b.txt".to_string(), ExportFormat::Docx);
    assert_eq!(once, "/tmp/a.b.docx");
    assert_eq!(normalize_export_path(once.clone(), ExportFormat::Docx), once);
}

#[test]
fn default_export_path_falls_back_to_source_folder_then_current() {
    assert_eq!(
        default_export_path(Some("/notes/a.md"), None, ExportFormat::Html, "/cwd"),
        "/notes/a.html"
    );
    assert_eq!(default_export_path(None, None, ExportFormat::Pdf, "/cwd"), "/cwd/untitled.pdf");
}

#[test]
fn asset_package_is_named_after_the_output() {
    let (dir, prefix) = output_asset_package("/out/report.html");
    assert_eq!(dir, "/out/report.assets");
    assert_eq!(prefix, "report.assets");
}

#[test]
fn command_stderr_trims_and_cuts() {
    assert_eq!(command_stderr(b"  \n"), "");
    assert_eq!(command_stderr(b" boom \n"), ": boom");
    let long = "x".repeat(700);
    let note = command_stderr(long.as_bytes());
    assert_eq!(note.len(), 2 + 600 + 3);
    assert!(note.ends_with("..."));
    assert_eq!(command_stderr(&[0x66, 0xff]), ": f\u{fffd}");
}

#[test]
fn chromium_bundles_point_at_their_binary() {
    assert_eq!(
        chromium_bundle_executable("/Applications/Google Chrome.app"),
        Some("/Applications/Google Chrome.app/Contents/MacOS/Google Chrome".to_string())
    );
    assert_eq!(chromium_bundle_executable("/usr/bin/firefox"), None);
}

#[test]
fn chromium_is_looked_for_in_order() {
    let dirs = vec!["/usr/bin".to_string()];
    let c = chromium_candidates(Some("/opt/chromium"), &dirs, Some("/home/u"));
    assert_eq!(c[0], "/opt/chromium");
    assert_eq!(c[1], "/usr/bin/chromium");
    assert_eq!(c[2], "/usr/bin/google-chrome");
    assert_eq!(c[3], "/usr/bin/chrome");
    assert_eq!(c[4], "/usr/bin/msedge");
    assert_eq!(c[5], "/Applications/Google Chrome.app");
    assert_eq!(c[6], "/Applications/Google Chrome.app/Contents/MacOS/Google Chrome");
    assert_eq!(c.last().unwrap(), "/home/u/Applications/Microsoft Edge.app/Contents/MacOS/Microsoft Edge");
    assert_eq!(c.len(), 1 + 4 + 6 + 6);
    assert_eq!(path_candidates(&dirs, "pandoc"), vec!["/usr/bin/pandoc".to_string()]);
}

#[test]
fn tool_errors_name_the_format() {
    assert_eq!(missing_tool_message(ExportFormat::Epub), "需要配置 Pandoc 才能导出 EPUB");
    assert_eq!(
        missing_tool_message(ExportFormat::Pdf),
        "需要配置 Chromium/Chrome 才能按预览效果导出 PDF"
    );
    assert_eq!(no_pandoc_target_message(ExportFormat::Png), "格式 PNG 不支持 Pandoc 导出");
    assert_eq!(run_failure(ExportFormat::Rtf, false, true, b"warn"), None);
    assert_eq!(
        run_failure(ExportFormat::Rtf, true, false, b"late"),
        Some("Pandoc 导出超时，已停止等待: RTF: late".to_string())
    );
    assert_eq!(
        run_failure(ExportFormat::Png, false, false, b""),
        Some("Chromium 图片导出失败".to_string())
    );
}

#[test]
fn export_commands_are_reported() {
    let args = vec!["a".to_string(), "b c".to_string()];
    assert_eq!(export_command(ExportFormat::Odt, "/bin/pandoc", &args), Some("/bin/pandoc a b c".to_string()));
    assert_eq!(export_command(ExportFormat::Html, "x", &args), None);
    assert_eq!(export_command(ExportFormat::Docx, "x", &args), Some("内置 Word 导出".to_string()));
    assert_eq!(
        export_command(ExportFormat::Pdf, "/bin/chrome", &args),
        Some("/bin/chrome --headless --print-to-pdf".to_string())
    );
}

#[test]
fn chromium_runs_write_where_asked() {
    let args = chromium_pdf_args("/out/a.pdf", "/tmp/w", "file:///tmp/w/preview.html");
    assert_eq!(args[7], "--user-data-dir=/tmp/w/chrome-profile");
    assert_eq!(args[8], "--print-to-pdf=/out/a.pdf");
    let (shot, args) = chromium_image_args(ExportFormat::Jpeg, "/out/a.jpg", "/tmp/w", "u");
    assert_eq!(shot, "/tmp/w/screenshot.png");
    assert_eq!(args[9], "--screenshot=/tmp/w/screenshot.png");
    let (shot, _) = chromium_image_args(ExportFormat::Png, "/out/a.png", "/tmp/w", "u");
    assert_eq!(shot, "/out/a.png");
    let (page, assets, prefix) = preview_export_layout("/tmp/w");
    assert_eq!(page, "/tmp/w/preview.html");
    assert_eq!(assets, "/tmp/w/preview.assets");
    assert_eq!(prefix, "preview.assets");
}

#[test]
fn empty_page_gives_a_placeholder_paragraph() {
    let blocks = docx_blocks_from_html("<main>  </main>");
    assert_eq!(blocks.len(), 1);
    match &blocks[0] {
        DocxBlock::Paragraph { style, text } => {
            assert_eq!(*style, DocxStyle::Normal);
            assert_eq!(text, "Empty document");
        }
    }
}
